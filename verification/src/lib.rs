//! Order-book updates and trades of several exchanges, brought to one form.
//!
//! - [`decimal`] holds the exact decimal numbers of prices and quantities.
//! - [`wire`] says how values are written as bytes and read back.
//! - [`streams`] batches records of one of two types into tagged chunks and
//!   holds their codec; [`streams::websockets`] holds the session of a
//!   subscription, which connects again after every failure of the transport.
//! - [`vendor`] holds the wire records of the exchanges and their translation
//!   into [`BookUpdate`] and [`Trade`].
//! - [`websockets`] holds the channels that are asked for by a JSON request.
//! - [`text`] writes whole numbers in decimal digits.
//! - [`types`] holds the errors.
//!
//! Nothing here does I/O: a session is told what happened and says what to do
//! next.

use vstd::prelude::*;
use crate::decimal::Decimal;
use crate::streams::websockets::Session;
use crate::streams::StreamDatum;
use crate::types::Error;
use crate::wire::Wire;

pub mod decimal;
pub mod streams;
pub mod text;
pub mod types;
pub mod vendor;
pub mod websockets;
pub mod wire;

verus! {

/// The price of a level or of a trade.
pub type Price = Decimal;

/// The quantity of a level or of a trade.
pub type Quantity = Decimal;

/// One side of a book update, in the order in which the exchange sent it.
pub type BookList = Vec<(Price, Quantity)>;

/// A trade, as every exchange's trades are handed on.
#[derive(PartialEq, Eq, Clone, Debug)]
pub struct Trade {
    pub event: String,
    pub event_time: u64,
    pub symbol: String,
    pub price: Price,
    pub quantity: Quantity,
    pub buyer: u32,
    pub seller: u32,
    pub trade_time: u64,
    pub maker: bool,
}

/// The mathematical value of a [`Trade`].
pub ghost struct TradeModel {
    pub event: Seq<char>,
    pub event_time: u64,
    pub symbol: Seq<char>,
    pub price: Decimal,
    pub quantity: Decimal,
    pub buyer: u32,
    pub seller: u32,
    pub trade_time: u64,
    pub maker: bool,
}

/// The fields of a trade in the order of its encoding.
pub type TradeFields = (String, (u64, (String, (Decimal, (Decimal, (u32, (u32, (u64, bool))))))));

impl TradeModel {
    /// The fields in the order of the encoding.
    pub open spec fn fields(self) -> <TradeFields as Wire>::Model {
        (
            self.event,
            (
                self.event_time,
                (
                    self.symbol,
                    (
                        self.price,
                        (self.quantity, (self.buyer, (self.seller, (self.trade_time, self.maker)))),
                    ),
                ),
            ),
        )
    }
}

impl View for Trade {
    type V = TradeModel;

    open spec fn view(&self) -> TradeModel {
        TradeModel {
            event: self.event@,
            event_time: self.event_time,
            symbol: self.symbol@,
            price: self.price,
            quantity: self.quantity,
            buyer: self.buyer,
            seller: self.seller,
            trade_time: self.trade_time,
            maker: self.maker,
        }
    }
}

impl StreamDatum for Trade {
    const ID: u16 = 500;

    open spec fn spec_id() -> u16 {
        500
    }

    proof fn lemma_id() {
    }
}

impl Wire for Trade {
    type Model = TradeModel;

    open spec fn model(&self) -> TradeModel {
        self@
    }

    /// The texts are not longer than 64 bits can count, and the decimals have
    /// scales that a decimal can have.
    open spec fn valid(m: TradeModel) -> bool {
        <TradeFields as Wire>::valid(m.fields())
    }

    /// The fields one after another: event, event time, symbol, price,
    /// quantity, buyer, seller, trade time, maker.
    open spec fn bytes(m: TradeModel) -> Seq<u8> {
        <TradeFields as Wire>::bytes(m.fields())
    }

    proof fn lemma_nonempty(m: TradeModel) {
        <TradeFields as Wire>::lemma_nonempty(m.fields());
    }

    proof fn lemma_prefix_free(a: TradeModel, b: TradeModel) {
        <TradeFields as Wire>::lemma_prefix_free(a.fields(), b.fields());
    }

    fn put(&self, out: &mut Vec<u8>) {
        self.event.put(out);
        self.event_time.put(out);
        self.symbol.put(out);
        self.price.put(out);
        self.quantity.put(out);
        self.buyer.put(out);
        self.seller.put(out);
        self.trade_time.put(out);
        self.maker.put(out);
        assert(final(out)@ =~= old(out)@ + Self::bytes(self@));
    }

    fn read(buf: &[u8], start: usize) -> (r: Option<(Trade, usize)>) {
        match <TradeFields as Wire>::read(buf, start) {
            None => {
                assert forall|m: TradeModel| Self::valid(m) implies !(#[trigger] Self::bytes(
                    m,
                )).is_prefix_of(buf@.skip(start as int)) by {
                    assert(Self::bytes(m) == <TradeFields as Wire>::bytes(m.fields()));
                }
                None
            },
            Some((f, end)) => {
                let (
                    event,
                    (event_time, (symbol, (price, (quantity, (buyer, (seller, (trade_time, maker))))))),
                ) = f;
                let v = Trade {
                    event,
                    event_time,
                    symbol,
                    price,
                    quantity,
                    buyer,
                    seller,
                    trade_time,
                    maker,
                };
                assert(v@.fields() == f.model());
                Some((v, end))
            },
        }
    }
}

/// An update of an order book, as every exchange's updates are handed on. The
/// levels stand in the order in which the exchange sent them.
#[derive(PartialEq, Eq, Clone, Debug)]
pub struct BookUpdate {
    pub event: String,
    pub event_time: u64,
    pub symbol: String,
    pub first_update_id: u64,
    pub last_update_id: u64,
    pub bids: BookList,
    pub asks: BookList,
}

/// The mathematical value of a [`BookUpdate`].
pub ghost struct BookUpdateModel {
    pub event: Seq<char>,
    pub event_time: u64,
    pub symbol: Seq<char>,
    pub first_update_id: u64,
    pub last_update_id: u64,
    pub bids: Seq<(Decimal, Decimal)>,
    pub asks: Seq<(Decimal, Decimal)>,
}

/// The fields of a book update in the order of its encoding.
pub type BookUpdateFields = (String, (u64, (String, (u64, (u64, (BookList, BookList))))));

impl BookUpdateModel {
    /// The fields in the order of the encoding.
    pub open spec fn fields(self) -> <BookUpdateFields as Wire>::Model {
        (
            self.event,
            (
                self.event_time,
                (self.symbol, (self.first_update_id, (self.last_update_id, (self.bids, self.asks)))),
            ),
        )
    }
}

impl View for BookUpdate {
    type V = BookUpdateModel;

    open spec fn view(&self) -> BookUpdateModel {
        BookUpdateModel {
            event: self.event@,
            event_time: self.event_time,
            symbol: self.symbol@,
            first_update_id: self.first_update_id,
            last_update_id: self.last_update_id,
            bids: self.bids.model(),
            asks: self.asks.model(),
        }
    }
}

impl StreamDatum for BookUpdate {
    const ID: u16 = 501;

    open spec fn spec_id() -> u16 {
        501
    }

    proof fn lemma_id() {
    }
}

impl Wire for BookUpdate {
    type Model = BookUpdateModel;

    open spec fn model(&self) -> BookUpdateModel {
        self@
    }

    /// The texts and the lists are not longer than 64 bits can count, and the
    /// decimals have scales that a decimal can have.
    open spec fn valid(m: BookUpdateModel) -> bool {
        <BookUpdateFields as Wire>::valid(m.fields())
    }

    /// The fields one after another: event, event time, symbol, first and last
    /// update number, bids, asks.
    open spec fn bytes(m: BookUpdateModel) -> Seq<u8> {
        <BookUpdateFields as Wire>::bytes(m.fields())
    }

    proof fn lemma_nonempty(m: BookUpdateModel) {
        <BookUpdateFields as Wire>::lemma_nonempty(m.fields());
    }

    proof fn lemma_prefix_free(a: BookUpdateModel, b: BookUpdateModel) {
        <BookUpdateFields as Wire>::lemma_prefix_free(a.fields(), b.fields());
    }

    fn put(&self, out: &mut Vec<u8>) {
        self.event.put(out);
        self.event_time.put(out);
        self.symbol.put(out);
        self.first_update_id.put(out);
        self.last_update_id.put(out);
        self.bids.put(out);
        self.asks.put(out);
        assert(final(out)@ =~= old(out)@ + Self::bytes(self@));
    }

    fn read(buf: &[u8], start: usize) -> (r: Option<(BookUpdate, usize)>) {
        match <BookUpdateFields as Wire>::read(buf, start) {
            None => {
                assert forall|m: BookUpdateModel| Self::valid(m) implies !(#[trigger] Self::bytes(
                    m,
                )).is_prefix_of(buf@.skip(start as int)) by {
                    assert(Self::bytes(m) == <BookUpdateFields as Wire>::bytes(m.fields()));
                }
                None
            },
            Some((f, end)) => {
                let (
                    event,
                    (event_time, (symbol, (first_update_id, (last_update_id, (bids, asks))))),
                ) = f;
                let v = BookUpdate {
                    event,
                    event_time,
                    symbol,
                    first_update_id,
                    last_update_id,
                    bids,
                    asks,
                };
                assert(v@.fields() == f.model());
                Some((v, end))
            },
        }
    }
}

/// What an exchange offers: a book stream and a trade stream for an
/// instrument, each a session of its own, and the translations of its wire
/// records.
pub trait Platform {
    /// The wire record of the book stream.
    type BookRecord;

    /// The wire record of the trade stream.
    type TradeRecord;

    /// A new session for the book updates of `instrument`. It shares nothing
    /// with any other session and has not begun.
    fn start_book_stream(instrument: &'static str) -> (r: Result<Session, Error>)
        ensures
            r matches Ok(s) ==> s@.state is Disconnected && s@.wf(),
            r matches Err(e) ==> e is Endpoint,
    ;

    /// A new session for the trades of `instrument`. It shares nothing with
    /// any other session and has not begun.
    fn start_trade_stream(instrument: &'static str) -> (r: Result<Session, Error>)
        ensures
            r matches Ok(s) ==> s@.state is Disconnected && s@.wf(),
            r matches Err(e) ==> e is Endpoint,
    ;

    /// The book update that a wire record of the book stream stands for, or
    /// `Error::Translation`.
    fn translate_book(wire: &Self::BookRecord) -> (r: Result<BookUpdate, Error>)
        ensures
            r matches Err(e) ==> e is Translation,
    ;

    /// The trade that a wire record of the trade stream stands for, or
    /// `Error::Translation`.
    fn translate_trade(wire: &Self::TradeRecord) -> (r: Result<Trade, Error>)
        ensures
            r matches Err(e) ==> e is Translation,
    ;
}

} // verus!
