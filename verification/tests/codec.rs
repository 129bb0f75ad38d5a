use tickstream::decimal::Decimal;
use tickstream::streams::{Chunk2, DecodeError, StreamDatum};
use tickstream::wire::Wire;
use tickstream::{BookUpdate, Trade};

fn book(i: u64) -> BookUpdate {
    BookUpdate {
        event: "BookDepthUpdate".to_owned(),
        event_time: i * 1000,
        symbol: "BTCUSD".to_owned(),
        first_update_id: i + 400,
        last_update_id: i + 500,
        bids: vec![
            ((i * 30 - 5).into(), 100.into()),
            ((i * 30).into(), 100.into()),
            ((i * 30 + 5).into(), 100.into()),
        ],
        asks: vec![
            ((i * 40 - 5).into(), 100.into()),
            ((i * 40).into(), 100.into()),
            ((i * 40 + 5).into(), 100.into()),
        ],
    }
}

fn trade(i: u64) -> Trade {
    Trade {
        event: "Trade".to_owned(),
        event_time: i * 1000,
        symbol: "BTCUSD".to_owned(),
        price: Decimal::new((i * 500 + 7777) as i64, 6),
        quantity: 1000.into(),
        buyer: 42,
        seller: 142,
        trade_time: i * 1000,
        maker: true,
    }
}

fn small_trade() -> Trade {
    Trade {
        event: "t".to_owned(),
        event_time: 1,
        symbol: "é".to_owned(),
        price: Decimal::new(-5, 2),
        quantity: Decimal::new(7, 0),
        buyer: 2,
        seller: 3,
        trade_time: 4,
        maker: true,
    }
}

fn small_trade_bytes() -> Vec<u8> {
    let mut e: Vec<u8> = Vec::new();
    e.extend_from_slice(&[1, 0, 0, 0, 0, 0, 0, 0, b't']);
    e.extend_from_slice(&[1, 0, 0, 0, 0, 0, 0, 0]);
    e.extend_from_slice(&[2, 0, 0, 0, 0, 0, 0, 0, 0xC3, 0xA9]);
    e.extend_from_slice(&[0, 0, 2, 0x80, 5, 0, 0, 0, 0, 0, 0, 0, 0, 0, 0, 0]);
    e.extend_from_slice(&[0, 0, 0, 0, 7, 0, 0, 0, 0, 0, 0, 0, 0, 0, 0, 0]);
    e.extend_from_slice(&[2, 0, 0, 0]);
    e.extend_from_slice(&[3, 0, 0, 0]);
    e.extend_from_slice(&[4, 0, 0, 0, 0, 0, 0, 0]);
    e.push(1);
    e
}

#[test]
fn four_chunks_round_trip() {
    let chunks: Vec<Chunk2<BookUpdate, Trade>> = vec![
        Chunk2::A((100..200).map(book).collect()),
        Chunk2::B((200..300).map(trade).collect()),
        Chunk2::A((300..400).map(book).collect()),
        Chunk2::B((400..500).map(trade).collect()),
    ];
    let bytes = Chunk2::encode_run(&chunks);
    let back: Vec<Chunk2<BookUpdate, Trade>> = Chunk2::decode_run(&bytes).expect("decode");
    assert_eq!(back.len(), 4);
    for k in 0..4 {
        assert_eq!(back[k].len(), 100);
        assert_eq!(back[k].is_a(), k % 2 == 0);
    }
    assert_eq!(chunks, back);
}

#[test]
fn tags_of_the_records() {
    assert_eq!(<Trade as StreamDatum>::ID, 500);
    assert_eq!(<BookUpdate as StreamDatum>::ID, 501);
}

#[test]
fn exact_bytes_of_a_chunk() {
    let c: Chunk2<BookUpdate, Trade> = Chunk2::B(vec![small_trade()]);
    let mut expected: Vec<u8> = vec![0xF4, 0x01, 1, 0, 0, 0, 0, 0, 0, 0];
    expected.extend_from_slice(&small_trade_bytes());
    assert_eq!(c.encode(), expected);
    let back: Chunk2<BookUpdate, Trade> = Chunk2::decode(&expected).expect("decode");
    assert_eq!(back, c);
}

#[test]
fn exact_bytes_of_a_book_update() {
    let u = BookUpdate {
        event: "".to_owned(),
        event_time: 0x0102,
        symbol: "S".to_owned(),
        first_update_id: 1,
        last_update_id: 2,
        bids: vec![(Decimal::new(1, 0), Decimal::new(2, 1))],
        asks: vec![],
    };
    let mut out: Vec<u8> = vec![9];
    u.put(&mut out);
    let mut e: Vec<u8> = vec![9];
    e.extend_from_slice(&[0, 0, 0, 0, 0, 0, 0, 0]);
    e.extend_from_slice(&[2, 1, 0, 0, 0, 0, 0, 0]);
    e.extend_from_slice(&[1, 0, 0, 0, 0, 0, 0, 0, b'S']);
    e.extend_from_slice(&[1, 0, 0, 0, 0, 0, 0, 0]);
    e.extend_from_slice(&[2, 0, 0, 0, 0, 0, 0, 0]);
    e.extend_from_slice(&[1, 0, 0, 0, 0, 0, 0, 0]);
    e.extend_from_slice(&[0, 0, 0, 0, 1, 0, 0, 0, 0, 0, 0, 0, 0, 0, 0, 0]);
    e.extend_from_slice(&[0, 0, 1, 0, 2, 0, 0, 0, 0, 0, 0, 0, 0, 0, 0, 0]);
    e.extend_from_slice(&[0, 0, 0, 0, 0, 0, 0, 0]);
    assert_eq!(out, e);
    let (back, end) = BookUpdate::read(&out, 1).expect("read");
    assert_eq!(back, u);
    assert_eq!(end, out.len());
}

#[test]
fn empty_batches_round_trip_under_their_tag() {
    let a: Chunk2<BookUpdate, Trade> = Chunk2::A(vec![]);
    let b: Chunk2<BookUpdate, Trade> = Chunk2::B(vec![]);
    assert_eq!(a.encode(), vec![0xF5, 0x01, 0, 0, 0, 0, 0, 0, 0, 0]);
    assert_eq!(b.encode(), vec![0xF4, 0x01, 0, 0, 0, 0, 0, 0, 0, 0]);
    let back_a: Chunk2<BookUpdate, Trade> = Chunk2::decode(&a.encode()).expect("decode");
    let back_b: Chunk2<BookUpdate, Trade> = Chunk2::decode(&b.encode()).expect("decode");
    assert!(back_a.is_a());
    assert!(back_b.is_b());
    assert_eq!(back_a.len(), 0);
    assert_eq!(back_b.len(), 0);
}

#[test]
fn the_tag_decides_the_variant() {
    let a: Chunk2<BookUpdate, Trade> = Chunk2::A(vec![book(1), book(2)]);
    let b: Chunk2<BookUpdate, Trade> = Chunk2::B(vec![trade(1)]);
    let back_a: Chunk2<BookUpdate, Trade> = Chunk2::decode(&a.encode()).expect("decode");
    let back_b: Chunk2<BookUpdate, Trade> = Chunk2::decode(&b.encode()).expect("decode");
    assert!(back_a.is_a());
    assert!(back_b.is_b());
    assert_eq!(back_a, a);
    assert_eq!(back_b, b);
    let swapped: Chunk2<Trade, BookUpdate> = Chunk2::decode(&b.encode()).expect("decode");
    assert!(swapped.is_a());
    assert_eq!(swapped.a(), Some(&vec![trade(1)]));
}

#[test]
fn unknown_tag_is_refused() {
    let bytes = vec![0x07u8, 0x00, 1, 2, 3];
    let r: Result<Chunk2<BookUpdate, Trade>, DecodeError> = Chunk2::decode(&bytes);
    assert_eq!(r, Err(DecodeError::TagMismatch { found: 7 }));
    let only_tag = vec![0x07u8, 0x00];
    let r: Result<Chunk2<BookUpdate, Trade>, DecodeError> = Chunk2::decode(&only_tag);
    assert_eq!(r, Err(DecodeError::TagMismatch { found: 7 }));
    let mut valid_behind = vec![0x34u8, 0x12];
    valid_behind.extend_from_slice(&Chunk2::<BookUpdate, Trade>::B(vec![trade(1)]).encode()[2..]);
    let r: Result<Chunk2<BookUpdate, Trade>, DecodeError> = Chunk2::decode(&valid_behind);
    assert_eq!(r, Err(DecodeError::TagMismatch { found: 0x1234 }));
    let r: Result<Vec<Chunk2<BookUpdate, Trade>>, DecodeError> = Chunk2::decode_run(&valid_behind);
    assert_eq!(r, Err(DecodeError::TagMismatch { found: 0x1234 }));
}

#[test]
fn missing_tag_is_refused() {
    let r: Result<Chunk2<BookUpdate, Trade>, DecodeError> = Chunk2::decode(&[]);
    assert_eq!(r, Err(DecodeError::Truncated));
    let r: Result<Chunk2<BookUpdate, Trade>, DecodeError> = Chunk2::decode(&[0xF4]);
    assert_eq!(r, Err(DecodeError::Truncated));
}

#[test]
fn malformed_batch_fails_the_whole_chunk() {
    let c: Chunk2<BookUpdate, Trade> = Chunk2::B(vec![trade(1), trade(2)]);
    let bytes = c.encode();
    for cut in 2..bytes.len() {
        let r: Result<Chunk2<BookUpdate, Trade>, DecodeError> = Chunk2::decode(&bytes[..cut]);
        assert_eq!(r, Err(DecodeError::Malformed { tag: 500 }));
    }
    let mut wrong_tag = bytes.clone();
    wrong_tag[0] = 0xF5;
    let r: Result<Chunk2<BookUpdate, Trade>, DecodeError> = Chunk2::decode(&wrong_tag);
    assert_eq!(r, Err(DecodeError::Malformed { tag: 501 }));
    let mut bad_bool = bytes.clone();
    let last = bad_bool.len() - 1;
    bad_bool[last] = 2;
    let r: Result<Chunk2<BookUpdate, Trade>, DecodeError> = Chunk2::decode(&bad_bool);
    assert_eq!(r, Err(DecodeError::Malformed { tag: 500 }));
    let huge_count = vec![0xF4u8, 0x01, 0xFF, 0xFF, 0xFF, 0xFF, 0xFF, 0xFF, 0xFF, 0xFF, 0, 0];
    let r: Result<Chunk2<BookUpdate, Trade>, DecodeError> = Chunk2::decode(&huge_count);
    assert_eq!(r, Err(DecodeError::Malformed { tag: 500 }));
}

#[test]
fn text_that_is_not_utf8_is_refused() {
    let mut bytes = vec![0xF4u8, 0x01, 1, 0, 0, 0, 0, 0, 0, 0];
    let mut record = small_trade_bytes();
    record[8] = 0xFF;
    bytes.extend_from_slice(&record);
    let r: Result<Chunk2<BookUpdate, Trade>, DecodeError> = Chunk2::decode(&bytes);
    assert_eq!(r, Err(DecodeError::Malformed { tag: 500 }));
}

#[test]
fn decode_looks_at_one_chunk_only() {
    let c: Chunk2<BookUpdate, Trade> = Chunk2::A(vec![book(7)]);
    let mut bytes = c.encode();
    let len = bytes.len();
    bytes.extend_from_slice(&[0u8; 64]);
    let back: Chunk2<BookUpdate, Trade> = Chunk2::decode(&bytes).expect("decode");
    assert_eq!(back, c);
    let (again, end) = Chunk2::<BookUpdate, Trade>::decode_at(&bytes, 0).expect("decode");
    assert_eq!(again, c);
    assert_eq!(end, len);
}

#[test]
fn a_run_owns_every_byte() {
    let chunks: Vec<Chunk2<BookUpdate, Trade>> = vec![Chunk2::A(vec![book(7)]), Chunk2::B(vec![])];
    let mut bytes = Chunk2::encode_run(&chunks);
    assert_eq!(Chunk2::decode_run(&bytes), Ok(chunks.clone()));
    bytes.push(0);
    let r: Result<Vec<Chunk2<BookUpdate, Trade>>, DecodeError> = Chunk2::decode_run(&bytes);
    assert_eq!(r, Err(DecodeError::Truncated));
    let none: Vec<Chunk2<BookUpdate, Trade>> = vec![];
    assert_eq!(Chunk2::encode_run(&none), Vec::<u8>::new());
    assert_eq!(Chunk2::<BookUpdate, Trade>::decode_run(&[]), Ok(none));
}

#[test]
fn a_run_is_its_chunks_in_order() {
    let a: Chunk2<BookUpdate, Trade> = Chunk2::A(vec![book(1)]);
    let b: Chunk2<BookUpdate, Trade> = Chunk2::B(vec![trade(2), trade(3)]);
    let mut expected = b.encode();
    expected.extend_from_slice(&a.encode());
    expected.extend_from_slice(&b.encode());
    let run = vec![b.clone(), a.clone(), b.clone()];
    assert_eq!(Chunk2::encode_run(&run), expected);
    let mut appended: Vec<u8> = Vec::new();
    b.encode_into(&mut appended);
    a.encode_into(&mut appended);
    b.encode_into(&mut appended);
    assert_eq!(appended, expected);
    assert_eq!(Chunk2::decode_run(&expected), Ok(run));
}

#[test]
fn alternating_runs_round_trip() {
    for n in 0..6u64 {
        let mut chunks: Vec<Chunk2<Trade, BookUpdate>> = Vec::new();
        for k in 0..n {
            if k % 2 == 0 {
                chunks.push(Chunk2::A((0..k).map(trade).collect()));
            } else {
                chunks.push(Chunk2::B((1..k + 1).map(book).collect()));
            }
        }
        let bytes = Chunk2::encode_run(&chunks);
        assert_eq!(Chunk2::decode_run(&bytes), Ok(chunks));
    }
}

#[test]
fn a_price_keeps_its_value_and_its_form() {
    let mut t = small_trade();
    t.price = Decimal::new(1234567891, 6);
    t.quantity = Decimal::new(12345678910, 7);
    let c: Chunk2<BookUpdate, Trade> = Chunk2::B(vec![t.clone()]);
    let back: Chunk2<BookUpdate, Trade> = Chunk2::decode(&c.encode()).expect("decode");
    let got = &back.b().expect("trades")[0];
    assert_eq!(got.price.mantissa(), 1234567891);
    assert_eq!(got.price.scale(), 6);
    assert_eq!(got.quantity.mantissa(), 12345678910);
    assert_eq!(got.quantity.scale(), 7);
    assert_eq!(got.price.to_text(), "1234.567891");
    assert_eq!(got.quantity.to_text(), "1234.5678910");
    assert_ne!(got.price, got.quantity);
    assert_eq!(got, &t);
}

#[test]
fn primitive_encodings() {
    let mut out: Vec<u8> = Vec::new();
    0x0102030405060708u64.put(&mut out);
    0x0A0B0C0Du32.put(&mut out);
    0x1122u16.put(&mut out);
    true.put(&mut out);
    false.put(&mut out);
    "hé".to_owned().put(&mut out);
    vec![1u16, 2u16].put(&mut out);
    (7u16, true).put(&mut out);
    assert_eq!(
        out,
        vec![
            8, 7, 6, 5, 4, 3, 2, 1, 0x0D, 0x0C, 0x0B, 0x0A, 0x22, 0x11, 1, 0, 3, 0, 0, 0, 0, 0, 0,
            0, b'h', 0xC3, 0xA9, 2, 0, 0, 0, 0, 0, 0, 0, 1, 0, 2, 0, 7, 0, 1
        ]
    );
    assert_eq!(u64::read(&out, 0), Some((0x0102030405060708, 8)));
    assert_eq!(u32::read(&out, 8), Some((0x0A0B0C0D, 12)));
    assert_eq!(u16::read(&out, 12), Some((0x1122, 14)));
    assert_eq!(bool::read(&out, 14), Some((true, 15)));
    assert_eq!(bool::read(&out, 15), Some((false, 16)));
    assert_eq!(String::read(&out, 16), Some(("hé".to_owned(), 27)));
    assert_eq!(Vec::<u16>::read(&out, 27), Some((vec![1, 2], 39)));
    assert_eq!(<(u16, bool)>::read(&out, 39), Some(((7, true), 42)));
    assert_eq!(u64::read(&out, 40), None);
    assert_eq!(bool::read(&out, 42), None);
    assert_eq!(bool::read(&out, 8), None);
    assert_eq!(String::read(&out, 0), None);
}

#[test]
fn whole_numbers_texts_and_lists_as_bincode_writes_them() {
    let value = (0x0102030405060708u64, (0x0A0B0C0Du32, (0x1122u16, (true, ("hé".to_owned(), vec![1u16, 2u16])))));
    let mut ours: Vec<u8> = Vec::new();
    value.put(&mut ours);
    let theirs = bincode::serialize(&value).expect("bincode");
    assert_eq!(ours, theirs);
    let none: Option<bool> = None;
    let some: Option<bool> = Some(true);
    let mut ours: Vec<u8> = Vec::new();
    none.put(&mut ours);
    some.put(&mut ours);
    let mut theirs = bincode::serialize(&none).expect("bincode");
    theirs.extend_from_slice(&bincode::serialize(&some).expect("bincode"));
    assert_eq!(ours, theirs);
}
