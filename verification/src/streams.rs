//! Tagged batches of records of one of two candidate types, and their codec.
//!
//! A chunk is written as the 16-bit tag of the type of its records, then the
//! batch: the number of records and the records in order. A run of chunks is
//! written as its chunks one after another, in the order in which they were
//! produced. The tag alone decides how the batch is read.

use vstd::prelude::*;
use crate::wire::{
    begins_with, decode, join, le_bytes, le_value, lemma_decode_unique, lemma_join_concat,
    lemma_join_single, lemma_le_len,
    lemma_le_value, lemma_pow256, lemma_round_trip, read_le, Wire,
};

pub mod websockets;

verus! {

/// A record type that owns a 16-bit tag. The two candidate types of a chunk
/// have different tags.
pub trait StreamDatum {
    /// The tag.
    const ID: u16;

    /// The tag, for contracts.
    spec fn spec_id() -> u16;

    /// The tag of the contracts is the tag.
    proof fn lemma_id()
        ensures
            Self::ID == Self::spec_id(),
    ;
}

/// A batch of records, all of the first candidate type or all of the second.
#[derive(Clone, PartialEq, Eq, PartialOrd, Ord, Hash, Debug)]
pub enum Chunk2<TA, TB> {
    A(Vec<TA>),
    B(Vec<TB>),
}

/// The mathematical value of a chunk: which candidate it holds, and the values
/// of its records in order.
pub ghost enum ChunkModel<MA, MB> {
    A(Seq<MA>),
    B(Seq<MB>),
}

/// Why bytes are not the encoding of a chunk.
#[derive(Clone, Copy, PartialEq, Eq, Debug, Structural)]
pub enum DecodeError {
    /// There are fewer than two bytes, so there is no tag.
    Truncated,
    /// The tag is that of neither candidate type.
    TagMismatch { found: u16 },
    /// The tag is that of a candidate type, and what follows it is no batch of
    /// records of that type.
    Malformed { tag: u16 },
}

impl<TA, TB> Chunk2<TA, TB> {
    /// The number of records.
    pub open spec fn spec_len(&self) -> nat {
        match self {
            Chunk2::A(aa) => aa@.len(),
            Chunk2::B(bb) => bb@.len(),
        }
    }

    /// The chunk holds records of the first candidate type.
    pub fn is_a(&self) -> (r: bool)
        ensures
            r == (self is A),
    {
        match self {
            Chunk2::A(_) => true,
            Chunk2::B(_) => false,
        }
    }

    /// The chunk holds records of the second candidate type.
    pub fn is_b(&self) -> (r: bool)
        ensures
            r == (self is B),
    {
        match self {
            Chunk2::A(_) => false,
            Chunk2::B(_) => true,
        }
    }

    /// The records, where they are of the first candidate type.
    pub fn a(&self) -> (r: Option<&Vec<TA>>)
        ensures
            r == match self {
                Chunk2::A(aa) => Some(aa),
                Chunk2::B(_) => None,
            },
    {
        match self {
            Chunk2::A(aa) => Some(aa),
            Chunk2::B(_) => None,
        }
    }

    /// The records, where they are of the second candidate type.
    pub fn b(&self) -> (r: Option<&Vec<TB>>)
        ensures
            r == match self {
                Chunk2::A(_) => None,
                Chunk2::B(bb) => Some(bb),
            },
    {
        match self {
            Chunk2::A(_) => None,
            Chunk2::B(bb) => Some(bb),
        }
    }

    /// Maps every record to a `T`, with `f` or with `g` as the chunk's variant
    /// asks, and keeps the order.
    pub fn chunk<AF, BF, T>(self, f: AF, g: BF) -> (out: Vec<T>) where
        AF: FnMut(TA) -> T,
        BF: FnMut(TB) -> T,

        requires
            match self {
                Chunk2::A(aa) => forall|i: int| 0 <= i < aa@.len() ==> call_requires(f, (aa@[i],)),
                Chunk2::B(bb) => forall|i: int| 0 <= i < bb@.len() ==> call_requires(g, (bb@[i],)),
            },
        ensures
            out@.len() == self.spec_len(),
            match self {
                Chunk2::A(aa) => forall|i: int|
                    0 <= i < aa@.len() ==> call_ensures(f, (aa@[i],), #[trigger] out@[i]),
                Chunk2::B(bb) => forall|i: int|
                    0 <= i < bb@.len() ==> call_ensures(g, (bb@[i],), #[trigger] out@[i]),
            },
    {
        let mut fa = f;
        let mut gb = g;
        let mut out: Vec<T> = Vec::new();
        match self {
            Chunk2::A(aa) => {
                for x in it: aa
                    invariant
                        fa == f,
                        out@.len() == it.index(),
                        forall|i: int| 0 <= i < it.seq().len() ==> call_requires(f, (it.seq()[i],)),
                        forall|i: int|
                            0 <= i < it.index() ==> call_ensures(
                                f,
                                (it.seq()[i],),
                                #[trigger] out@[i],
                            ),
                {
                    out.push(fa(x));
                }
            },
            Chunk2::B(bb) => {
                for x in it: bb
                    invariant
                        gb == g,
                        out@.len() == it.index(),
                        forall|i: int| 0 <= i < it.seq().len() ==> call_requires(g, (it.seq()[i],)),
                        forall|i: int|
                            0 <= i < it.index() ==> call_ensures(
                                g,
                                (it.seq()[i],),
                                #[trigger] out@[i],
                            ),
                {
                    out.push(gb(x));
                }
            },
        }
        out
    }

    /// The number of records.
    pub fn len(&self) -> (n: usize)
        ensures
            n == self.spec_len(),
    {
        match self {
            Chunk2::A(aa) => aa.len(),
            Chunk2::B(bb) => bb.len(),
        }
    }
}

impl<TA: StreamDatum + Wire, TB: StreamDatum + Wire> Chunk2<TA, TB> {
    /// The mathematical value of the chunk.
    pub open spec fn model(&self) -> ChunkModel<TA::Model, TB::Model> {
        match self {
            Chunk2::A(aa) => ChunkModel::A(aa.model()),
            Chunk2::B(bb) => ChunkModel::B(bb.model()),
        }
    }

    /// The tag under which `m` is written.
    pub open spec fn spec_tag(m: ChunkModel<TA::Model, TB::Model>) -> u16 {
        match m {
            ChunkModel::A(_) => TA::spec_id(),
            ChunkModel::B(_) => TB::spec_id(),
        }
    }

    /// The records of `m` are values that their type allows, and their number
    /// fits in 64 bits.
    pub open spec fn spec_valid(m: ChunkModel<TA::Model, TB::Model>) -> bool {
        match m {
            ChunkModel::A(aa) => <Vec<TA> as Wire>::valid(aa),
            ChunkModel::B(bb) => <Vec<TB> as Wire>::valid(bb),
        }
    }

    /// The encoding of a chunk: the tag of the type of its records, the less
    /// significant byte first, then the batch, and nothing else.
    pub open spec fn spec_encode(m: ChunkModel<TA::Model, TB::Model>) -> Seq<u8> {
        match m {
            ChunkModel::A(aa) => le_bytes(TA::spec_id() as nat, 2) + <Vec<TA> as Wire>::bytes(aa),
            ChunkModel::B(bb) => le_bytes(TB::spec_id() as nat, 2) + <Vec<TB> as Wire>::bytes(bb),
        }
    }

    /// The chunk that begins `s` and the number of bytes that it takes, or why
    /// there is none. The tag is read first, and it alone decides which
    /// candidate the batch is read as; the first candidate is asked first.
    pub open spec fn spec_decode(s: Seq<u8>) -> Result<
        (ChunkModel<TA::Model, TB::Model>, nat),
        DecodeError,
    > {
        if s.len() < 2 {
            Err(DecodeError::Truncated)
        } else {
            let tag = le_value(s.take(2)) as u16;
            if tag == TA::spec_id() {
                match decode::<Vec<TA>>(s.skip(2)) {
                    Some(aa) => Ok((ChunkModel::A(aa), 2 + <Vec<TA> as Wire>::bytes(aa).len())),
                    None => Err(DecodeError::Malformed { tag }),
                }
            } else if tag == TB::spec_id() {
                match decode::<Vec<TB>>(s.skip(2)) {
                    Some(bb) => Ok((ChunkModel::B(bb), 2 + <Vec<TB> as Wire>::bytes(bb).len())),
                    None => Err(DecodeError::Malformed { tag }),
                }
            } else {
                Err(DecodeError::TagMismatch { found: tag })
            }
        }
    }

    /// The encodings of the chunks of a run, chunk by chunk.
    pub open spec fn spec_encodings(ms: Seq<ChunkModel<TA::Model, TB::Model>>) -> Seq<Seq<u8>> {
        Seq::new(ms.len(), |i: int| Self::spec_encode(ms[i]))
    }

    /// The encoding of a run of chunks: the encodings of its chunks in order.
    pub open spec fn spec_encode_run(ms: Seq<ChunkModel<TA::Model, TB::Model>>) -> Seq<u8> {
        join(Self::spec_encodings(ms))
    }

    /// The run of chunks of which `s` is the encoding, or the reason why the
    /// first chunk that cannot be read cannot. Every byte of `s` belongs to a
    /// chunk.
    pub open spec fn spec_decode_run(s: Seq<u8>) -> Result<
        Seq<ChunkModel<TA::Model, TB::Model>>,
        DecodeError,
    >
        decreases s.len(),
    {
        if s.len() == 0 {
            Ok(Seq::empty())
        } else {
            match Self::spec_decode(s) {
                Err(e) => Err(e),
                Ok((m, n)) => {
                    if 0 < n <= s.len() {
                        match Self::spec_decode_run(s.skip(n as int)) {
                            Ok(ms) => Ok(seq![m] + ms),
                            Err(e) => Err(e),
                        }
                    } else {
                        Err(DecodeError::Truncated)
                    }
                },
            }
        }
    }

    /// Every chunk of `ms` is one that can be written.
    pub open spec fn spec_valid_run(ms: Seq<ChunkModel<TA::Model, TB::Model>>) -> bool {
        forall|i: int| 0 <= i < ms.len() ==> Self::spec_valid(#[trigger] ms[i])
    }

    /// The mathematical values of the chunks of a run.
    pub open spec fn run_model(chunks: Seq<Chunk2<TA, TB>>) -> Seq<
        ChunkModel<TA::Model, TB::Model>,
    > {
        Seq::new(chunks.len(), |i: int| chunks[i].model())
    }

    /// Appends the encoding of the chunk to `out`.
    pub fn encode_into(&self, out: &mut Vec<u8>)
        requires
            TA::spec_id() != TB::spec_id(),
        ensures
            Self::spec_valid(self.model()),
            final(out)@ == old(out)@ + Self::spec_encode(self.model()),
    {
        match self {
            Chunk2::A(aa) => {
                proof {
                    TA::lemma_id();
                }
                TA::ID.put(out);
                aa.put(out);
            },
            Chunk2::B(bb) => {
                proof {
                    TB::lemma_id();
                }
                TB::ID.put(out);
                bb.put(out);
            },
        }
        assert(final(out)@ =~= old(out)@ + Self::spec_encode(self.model()));
    }

    /// The encoding of the chunk.
    pub fn encode(&self) -> (out: Vec<u8>)
        requires
            TA::spec_id() != TB::spec_id(),
        ensures
            Self::spec_valid(self.model()),
            out@ == Self::spec_encode(self.model()),
    {
        let mut out: Vec<u8> = Vec::new();
        self.encode_into(&mut out);
        assert(out@ =~= Self::spec_encode(self.model()));
        out
    }

    /// Reads the chunk that begins at `start`, and says where it ends.
    pub fn decode_at(buf: &[u8], start: usize) -> (r: Result<(Chunk2<TA, TB>, usize), DecodeError>)
        requires
            TA::spec_id() != TB::spec_id(),
            start <= buf@.len(),
        ensures
            match r {
                Ok((c, end)) => {
                    &&& start < end <= buf@.len()
                    &&& Self::spec_valid(c.model())
                    &&& Self::spec_decode(buf@.skip(start as int)) == Ok::<_, DecodeError>(
                        (c.model(), (end - start) as nat),
                    )
                },
                Err(e) => Self::spec_decode(buf@.skip(start as int)) == Err::<
                    (ChunkModel<TA::Model, TB::Model>, nat),
                    _,
                >(e),
            },
    {
        let ghost s = buf@.skip(start as int);
        if buf.len() - start < 2 {
            return Err(DecodeError::Truncated);
        }
        let mid = start + 2;
        let tag = read_le(buf, start, 2) as u16;
        proof {
            lemma_pow256();
        }
        assert(s.take(2) =~= buf@.subrange(start as int, mid as int));
        assert(s.skip(2) =~= buf@.skip(mid as int));
        proof {
            TA::lemma_id();
            TB::lemma_id();
        }
        if tag == TA::ID {
            match <Vec<TA> as Wire>::read(buf, mid) {
                Some((aa, end)) => {
                    proof {
                        let e = <Vec<TA> as Wire>::bytes(aa.model());
                        assert(e =~= s.skip(2).subrange(0, e.len() as int));
                        lemma_decode_unique::<Vec<TA>>(s.skip(2), aa.model());
                    }
                    Ok((Chunk2::A(aa), end))
                },
                None => {
                    assert(!exists|m: Seq<TA::Model>| begins_with::<Vec<TA>>(s.skip(2), m));
                    Err(DecodeError::Malformed { tag })
                },
            }
        } else if tag == TB::ID {
            match <Vec<TB> as Wire>::read(buf, mid) {
                Some((bb, end)) => {
                    proof {
                        let e = <Vec<TB> as Wire>::bytes(bb.model());
                        assert(e =~= s.skip(2).subrange(0, e.len() as int));
                        lemma_decode_unique::<Vec<TB>>(s.skip(2), bb.model());
                    }
                    Ok((Chunk2::B(bb), end))
                },
                None => {
                    assert(!exists|m: Seq<TB::Model>| begins_with::<Vec<TB>>(s.skip(2), m));
                    Err(DecodeError::Malformed { tag })
                },
            }
        } else {
            Err(DecodeError::TagMismatch { found: tag })
        }
    }

    /// Reads the chunk that begins `buf`. Bytes behind the chunk are not looked
    /// at.
    pub fn decode(buf: &[u8]) -> (r: Result<Chunk2<TA, TB>, DecodeError>)
        requires
            TA::spec_id() != TB::spec_id(),
        ensures
            match r {
                Ok(c) => {
                    &&& Self::spec_valid(c.model())
                    &&& Self::spec_decode(buf@) matches Ok((m, n))
                    &&& m == c.model()
                },
                Err(e) => Self::spec_decode(buf@) == Err::<
                    (ChunkModel<TA::Model, TB::Model>, nat),
                    _,
                >(e),
            },
    {
        assert(buf@.skip(0) =~= buf@);
        match Self::decode_at(buf, 0) {
            Ok((c, _)) => Ok(c),
            Err(e) => Err(e),
        }
    }

    /// The encoding of a run of chunks.
    pub fn encode_run(chunks: &Vec<Chunk2<TA, TB>>) -> (out: Vec<u8>)
        requires
            TA::spec_id() != TB::spec_id(),
        ensures
            Self::spec_valid_run(Self::run_model(chunks@)),
            out@ == Self::spec_encode_run(Self::run_model(chunks@)),
    {
        let mut out: Vec<u8> = Vec::new();
        let ghost ms = Self::run_model(chunks@);
        let n = chunks.len();
        let mut i: usize = 0;
        assert(Self::spec_encodings(ms.take(0)) =~= Seq::<Seq<u8>>::empty());
        while i < n
            invariant
                TA::spec_id() != TB::spec_id(),
                i <= n,
                n == chunks@.len(),
                ms == Self::run_model(chunks@),
                out@ == Self::spec_encode_run(ms.take(i as int)),
                Self::spec_valid_run(ms.take(i as int)),
            decreases n - i,
        {
            chunks[i].encode_into(&mut out);
            proof {
                let done = ms.take(i as int);
                let next = ms.take(i + 1);
                let part = Self::spec_encode(ms[i as int]);
                assert(Self::spec_encodings(next) =~= Self::spec_encodings(done) + seq![part]);
                lemma_join_concat(Self::spec_encodings(done), seq![part]);
                lemma_join_single(part);
                assert forall|j: int| 0 <= j < next.len() implies Self::spec_valid(
                    #[trigger] next[j],
                ) by {
                    if j < i {
                        assert(next[j] == done[j]);
                    }
                }
            }
            i += 1;
        }
        assert(ms.take(n as int) =~= ms);
        out
    }

    /// Reads the run of chunks of which `buf` is the encoding.
    pub fn decode_run(buf: &[u8]) -> (r: Result<Vec<Chunk2<TA, TB>>, DecodeError>)
        requires
            TA::spec_id() != TB::spec_id(),
        ensures
            match r {
                Ok(chunks) => {
                    &&& Self::spec_valid_run(Self::run_model(chunks@))
                    &&& Self::spec_decode_run(buf@) == Ok::<_, DecodeError>(
                        Self::run_model(chunks@),
                    )
                },
                Err(e) => Self::spec_decode_run(buf@) == Err::<
                    Seq<ChunkModel<TA::Model, TB::Model>>,
                    _,
                >(e),
            },
    {
        let mut chunks: Vec<Chunk2<TA, TB>> = Vec::new();
        let mut pos: usize = 0;
        let n = buf.len();
        assert(buf@.skip(0) =~= buf@);
        assert(Self::run_model(chunks@) =~= Seq::empty());
        while pos < n
            invariant
                TA::spec_id() != TB::spec_id(),
                pos <= n,
                n == buf@.len(),
                Self::spec_valid_run(Self::run_model(chunks@)),
                Self::spec_decode_run(buf@) == Self::prepend(
                    Self::run_model(chunks@),
                    Self::spec_decode_run(buf@.skip(pos as int)),
                ),
            decreases n - pos,
        {
            let ghost rest = buf@.skip(pos as int);
            let ghost done = Self::run_model(chunks@);
            match Self::decode_at(buf, pos) {
                Err(e) => {
                    return Err(e);
                },
                Ok((c, end)) => {
                    proof {
                        let grown = Self::run_model(chunks@.push(c));
                        assert(grown =~= done + seq![c.model()]);
                        assert(rest.skip(end - pos) =~= buf@.skip(end as int));
                        let tail = Self::spec_decode_run(buf@.skip(end as int));
                        match tail {
                            Ok(ms) => {
                                assert(done + (seq![c.model()] + ms) =~= grown + ms);
                            },
                            Err(_) => {},
                        }
                        assert forall|j: int| 0 <= j < grown.len() implies Self::spec_valid(
                            #[trigger] grown[j],
                        ) by {
                            if j < done.len() {
                                assert(grown[j] == done[j]);
                            }
                        }
                    }
                    chunks.push(c);
                    pos = end;
                },
            }
        }
        proof {
            let done = Self::run_model(chunks@);
            assert(buf@.skip(pos as int).len() == 0);
            assert(done + Seq::empty() =~= done);
        }
        Ok(chunks)
    }

    /// `done`, then the run that `tail` holds; the error of `tail` where it
    /// holds one.
    pub open spec fn prepend(
        done: Seq<ChunkModel<TA::Model, TB::Model>>,
        tail: Result<Seq<ChunkModel<TA::Model, TB::Model>>, DecodeError>,
    ) -> Result<Seq<ChunkModel<TA::Model, TB::Model>>, DecodeError> {
        match tail {
            Ok(ms) => Ok(done + ms),
            Err(e) => Err(e),
        }
    }

    /// Round trip of one chunk: what was encoded is decoded as the same chunk,
    /// of the same variant, with the same records in the same order, whatever
    /// bytes follow it; and the decoder stops where the encoding ends.
    pub proof fn lemma_decode_encode(m: ChunkModel<TA::Model, TB::Model>, rest: Seq<u8>)
        requires
            TA::spec_id() != TB::spec_id(),
            Self::spec_valid(m),
        ensures
            Self::spec_decode(Self::spec_encode(m) + rest) == Ok::<_, DecodeError>(
                (m, Self::spec_encode(m).len()),
            ),
    {
        let s = Self::spec_encode(m) + rest;
        let tag = Self::spec_tag(m);
        lemma_le_len(tag as nat, 2);
        lemma_pow256();
        lemma_le_value(tag as nat, 2);
        assert(s.take(2) =~= le_bytes(tag as nat, 2));
        match m {
            ChunkModel::A(aa) => {
                assert(s.skip(2) =~= <Vec<TA> as Wire>::bytes(aa) + rest);
                lemma_round_trip::<Vec<TA>>(aa, rest);
            },
            ChunkModel::B(bb) => {
                assert(s.skip(2) =~= <Vec<TB> as Wire>::bytes(bb) + rest);
                lemma_round_trip::<Vec<TB>>(bb, rest);
            },
        }
    }

    /// Tag dispatch: a batch written under the tag of the first candidate is
    /// read as the first variant, whatever its records are and also where it
    /// has none; and so for the second candidate.
    pub proof fn lemma_tag_dispatch(m: ChunkModel<TA::Model, TB::Model>, rest: Seq<u8>)
        requires
            TA::spec_id() != TB::spec_id(),
            Self::spec_valid(m),
        ensures
            Self::spec_decode(Self::spec_encode(m) + rest) matches Ok((d, n)) && ((m is A) == (d is A)),
            Self::spec_valid(ChunkModel::A(Seq::empty())),
            Self::spec_valid(ChunkModel::B(Seq::empty())),
    {
        Self::lemma_decode_encode(m, rest);
    }

    /// Tag mismatch: bytes that begin with a tag of neither candidate are
    /// refused for that tag, whatever follows the two bytes of the tag.
    pub proof fn lemma_tag_mismatch(tag: u16, rest: Seq<u8>)
        requires
            tag != TA::spec_id(),
            tag != TB::spec_id(),
        ensures
            Self::spec_decode(le_bytes(tag as nat, 2) + rest) == Err::<
                (ChunkModel<TA::Model, TB::Model>, nat),
                _,
            >(DecodeError::TagMismatch { found: tag }),
    {
        let s = le_bytes(tag as nat, 2) + rest;
        lemma_le_len(tag as nat, 2);
        lemma_pow256();
        lemma_le_value(tag as nat, 2);
        assert(s.take(2) =~= le_bytes(tag as nat, 2));
    }

    /// Round trip of a run: the encoding of any sequence of chunks, of the two
    /// variants in any order, is decoded as that sequence.
    pub proof fn lemma_decode_encode_run(ms: Seq<ChunkModel<TA::Model, TB::Model>>)
        requires
            TA::spec_id() != TB::spec_id(),
            Self::spec_valid_run(ms),
        ensures
            Self::spec_decode_run(Self::spec_encode_run(ms)) == Ok::<_, DecodeError>(ms),
        decreases ms.len(),
    {
        if ms.len() == 0 {
            assert(ms =~= Seq::empty());
        } else {
            let head = ms[0];
            let tail = ms.drop_first();
            let s = Self::spec_encode_run(ms);
            assert(Self::spec_encodings(ms).drop_first() =~= Self::spec_encodings(tail));
            assert(Self::spec_valid_run(tail)) by {
                assert forall|i: int| 0 <= i < tail.len() implies Self::spec_valid(
                    #[trigger] tail[i],
                ) by {
                    assert(tail[i] == ms[i + 1]);
                }
            }
            Self::lemma_decode_encode(head, Self::spec_encode_run(tail));
            Self::lemma_encode_len(head);
            assert(s.skip(Self::spec_encode(head).len() as int) =~= Self::spec_encode_run(tail));
            Self::lemma_decode_encode_run(tail);
            assert(seq![head] + tail =~= ms);
        }
    }

    /// A chunk without records is ten bytes: the low byte of the tag, its high
    /// byte, and eight zeros.
    pub proof fn lemma_empty_chunk()
        ensures
            Self::spec_encode(ChunkModel::A(Seq::empty())) == seq![
                (TA::spec_id() % 256) as u8,
                (TA::spec_id() / 256) as u8,
                0u8,
                0u8,
                0u8,
                0u8,
                0u8,
                0u8,
                0u8,
                0u8,
            ],
            Self::spec_encode(ChunkModel::B(Seq::empty())) == seq![
                (TB::spec_id() % 256) as u8,
                (TB::spec_id() / 256) as u8,
                0u8,
                0u8,
                0u8,
                0u8,
                0u8,
                0u8,
                0u8,
                0u8,
            ],
    {
        reveal_with_fuel(le_bytes, 9);
        let none_a = Seq::<TA::Model>::empty();
        let none_b = Seq::<TB::Model>::empty();
        crate::wire::lemma_items_first::<TA>(none_a);
        crate::wire::lemma_items_first::<TB>(none_b);
        assert(Self::spec_encode(ChunkModel::A(none_a)) =~= seq![
            (TA::spec_id() % 256) as u8,
            (TA::spec_id() / 256) as u8,
            0u8,
            0u8,
            0u8,
            0u8,
            0u8,
            0u8,
            0u8,
            0u8,
        ]);
        assert(Self::spec_encode(ChunkModel::B(none_b)) =~= seq![
            (TB::spec_id() % 256) as u8,
            (TB::spec_id() / 256) as u8,
            0u8,
            0u8,
            0u8,
            0u8,
            0u8,
            0u8,
            0u8,
            0u8,
        ]);
    }

    /// A chunk takes ten bytes at least: the tag and the number of records.
    pub proof fn lemma_encode_len(m: ChunkModel<TA::Model, TB::Model>)
        ensures
            Self::spec_encode(m).len() >= 10,
    {
        match m {
            ChunkModel::A(aa) => {
                lemma_le_len(TA::spec_id() as nat, 2);
                lemma_le_len(aa.len() as u64 as nat, 8);
            },
            ChunkModel::B(bb) => {
                lemma_le_len(TB::spec_id() as nat, 2);
                lemma_le_len(bb.len() as u64 as nat, 8);
            },
        }
    }
}

} // verus!
