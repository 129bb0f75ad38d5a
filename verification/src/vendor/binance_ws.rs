//! The exchange whose stream names its fields by single letters: depth
//! updates, trades, tickers and aggregate trades.
//!
//! A translation copies: it keeps every value as it came, and the levels of a
//! book in the order in which they came. The wire records have tags and
//! encodings of their own, so that they too can be kept in chunks.

use vstd::prelude::*;
use crate::decimal::Decimal;
use crate::streams::websockets::{subscribe, url_text, Session, SessionModel};
use crate::streams::StreamDatum;
use crate::types::Error;
use crate::wire::Wire;
use crate::{
    BookList, BookUpdate, BookUpdateModel, Platform, Price, Quantity, Trade as TTrade, TradeModel,
};

verus! {

/// The best bid and ask of a symbol.
#[derive(PartialEq, Eq, Clone, Debug)]
pub struct BookTicker {
    pub update_id: u32,
    pub symbol: String,
    pub best_bid: Price,
    pub bist_bid_qty: Decimal,
    pub best_ask: Price,
    pub best_ask_qty: Decimal,
}

impl StreamDatum for BookTicker {
    const ID: u16 = 100;

    open spec fn spec_id() -> u16 {
        100
    }

    proof fn lemma_id() {
    }
}

/// The changes of a book between two update numbers.
#[derive(PartialEq, Eq, Clone, Debug)]
pub struct BookDepthUpdate {
    pub event: String,
    pub event_time: u64,
    pub symbol: String,
    pub first_update_id: u64,
    pub last_update_id: u64,
    pub bids: BookList,
    pub asks: BookList,
}

impl StreamDatum for BookDepthUpdate {
    const ID: u16 = 101;

    open spec fn spec_id() -> u16 {
        101
    }

    proof fn lemma_id() {
    }
}

/// A whole book.
#[derive(PartialEq, Eq, Clone, Debug)]
pub struct Book {
    pub last_update_id: u64,
    pub bids: BookList,
    pub asks: BookList,
}

impl StreamDatum for Book {
    const ID: u16 = 102;

    open spec fn spec_id() -> u16 {
        102
    }

    proof fn lemma_id() {
    }
}

/// A trade.
#[derive(PartialEq, Eq, Clone, Debug)]
pub struct Trade {
    pub event: String,
    pub event_time: u64,
    pub symbol: String,
    pub price: Price,
    pub quantity: Quantity,
    pub buyer: u32,
    pub seller: u32,
    pub trade_time: u64,
    pub maker: bool,
    pub _ignore: Option<bool>,
}

impl StreamDatum for Trade {
    const ID: u16 = 103;

    open spec fn spec_id() -> u16 {
        103
    }

    proof fn lemma_id() {
    }
}

/// Several trades of one order at one price, as one.
#[derive(PartialEq, Eq, Clone, Debug)]
pub struct AggregateTrade {
    pub event: String,
    pub event_time: u64,
    pub symbol: String,
    pub trade_id: u32,
    pub price: Price,
    pub quantity: Quantity,
    pub first_trade: u32,
    pub last_trade: u32,
    pub trade_time: u64,
    pub maker: bool,
    pub _ignore: Option<bool>,
}

impl StreamDatum for AggregateTrade {
    const ID: u16 = 104;

    open spec fn spec_id() -> u16 {
        104
    }

    proof fn lemma_id() {
    }
}

/// The fields of a ticker in the order of its encoding.
pub type BookTickerFields = (u32, (String, (Decimal, (Decimal, (Decimal, Decimal)))));

impl Wire for BookTicker {
    type Model = <BookTickerFields as Wire>::Model;

    open spec fn model(&self) -> <BookTickerFields as Wire>::Model {
        (
            self.update_id.model(), (
            self.symbol.model(), (
            self.best_bid.model(), (
            self.bist_bid_qty.model(), (
            self.best_ask.model(),
            self.best_ask_qty.model(),
        )))))
    }

    open spec fn valid(m: <BookTickerFields as Wire>::Model) -> bool {
        <BookTickerFields as Wire>::valid(m)
    }

    /// The fields one after another: update_id, symbol, best_bid, bist_bid_qty,
    /// best_ask, best_ask_qty.
    open spec fn bytes(m: <BookTickerFields as Wire>::Model) -> Seq<u8> {
        <BookTickerFields as Wire>::bytes(m)
    }

    proof fn lemma_nonempty(m: <BookTickerFields as Wire>::Model) {
        <BookTickerFields as Wire>::lemma_nonempty(m);
    }

    proof fn lemma_prefix_free(
        a: <BookTickerFields as Wire>::Model,
        b: <BookTickerFields as Wire>::Model,
    ) {
        <BookTickerFields as Wire>::lemma_prefix_free(a, b);
    }

    fn put(&self, out: &mut Vec<u8>) {
        self.update_id.put(out);
        self.symbol.put(out);
        self.best_bid.put(out);
        self.bist_bid_qty.put(out);
        self.best_ask.put(out);
        self.best_ask_qty.put(out);
        assert(final(out)@ =~= old(out)@ + Self::bytes(self.model()));
    }

    fn read(buf: &[u8], start: usize) -> (r: Option<(BookTicker, usize)>) {
        match <BookTickerFields as Wire>::read(buf, start) {
            None => None,
            Some((f, end)) => {
                let (update_id, (symbol, (best_bid, (bist_bid_qty, (best_ask, best_ask_qty))))) = f;
                let v = BookTicker {
                    update_id,
                    symbol,
                    best_bid,
                    bist_bid_qty,
                    best_ask,
                    best_ask_qty,
                };
                assert(v.model() == f.model());
                Some((v, end))
            },
        }
    }
}

/// The fields of a depth update in the order of its encoding.
pub type BookDepthUpdateFields = (String, (u64, (String, (u64, (u64, (BookList, BookList))))));

impl Wire for BookDepthUpdate {
    type Model = <BookDepthUpdateFields as Wire>::Model;

    open spec fn model(&self) -> <BookDepthUpdateFields as Wire>::Model {
        (
            self.event.model(), (
            self.event_time.model(), (
            self.symbol.model(), (
            self.first_update_id.model(), (
            self.last_update_id.model(), (
            self.bids.model(),
            self.asks.model(),
        ))))))
    }

    open spec fn valid(m: <BookDepthUpdateFields as Wire>::Model) -> bool {
        <BookDepthUpdateFields as Wire>::valid(m)
    }

    /// The fields one after another: event, event_time, symbol,
    /// first_update_id, last_update_id, bids, asks.
    open spec fn bytes(m: <BookDepthUpdateFields as Wire>::Model) -> Seq<u8> {
        <BookDepthUpdateFields as Wire>::bytes(m)
    }

    proof fn lemma_nonempty(m: <BookDepthUpdateFields as Wire>::Model) {
        <BookDepthUpdateFields as Wire>::lemma_nonempty(m);
    }

    proof fn lemma_prefix_free(
        a: <BookDepthUpdateFields as Wire>::Model,
        b: <BookDepthUpdateFields as Wire>::Model,
    ) {
        <BookDepthUpdateFields as Wire>::lemma_prefix_free(a, b);
    }

    fn put(&self, out: &mut Vec<u8>) {
        self.event.put(out);
        self.event_time.put(out);
        self.symbol.put(out);
        self.first_update_id.put(out);
        self.last_update_id.put(out);
        self.bids.put(out);
        self.asks.put(out);
        assert(final(out)@ =~= old(out)@ + Self::bytes(self.model()));
    }

    fn read(buf: &[u8], start: usize) -> (r: Option<(BookDepthUpdate, usize)>) {
        match <BookDepthUpdateFields as Wire>::read(buf, start) {
            None => None,
            Some((f, end)) => {
                let (
                    event, (
                    event_time, (
                    symbol, (
                    first_update_id, (
                    last_update_id, (
                    bids,
                    asks,
                )))))) = f;
                let v = BookDepthUpdate {
                    event,
                    event_time,
                    symbol,
                    first_update_id,
                    last_update_id,
                    bids,
                    asks,
                };
                assert(v.model() == f.model());
                Some((v, end))
            },
        }
    }
}

/// The fields of a book in the order of its encoding.
pub type BookFields = (u64, (BookList, BookList));

impl Wire for Book {
    type Model = <BookFields as Wire>::Model;

    open spec fn model(&self) -> <BookFields as Wire>::Model {
        (self.last_update_id.model(), (self.bids.model(), self.asks.model()))
    }

    open spec fn valid(m: <BookFields as Wire>::Model) -> bool {
        <BookFields as Wire>::valid(m)
    }

    /// The fields one after another: last_update_id, bids, asks.
    open spec fn bytes(m: <BookFields as Wire>::Model) -> Seq<u8> {
        <BookFields as Wire>::bytes(m)
    }

    proof fn lemma_nonempty(m: <BookFields as Wire>::Model) {
        <BookFields as Wire>::lemma_nonempty(m);
    }

    proof fn lemma_prefix_free(
        a: <BookFields as Wire>::Model,
        b: <BookFields as Wire>::Model,
    ) {
        <BookFields as Wire>::lemma_prefix_free(a, b);
    }

    fn put(&self, out: &mut Vec<u8>) {
        self.last_update_id.put(out);
        self.bids.put(out);
        self.asks.put(out);
        assert(final(out)@ =~= old(out)@ + Self::bytes(self.model()));
    }

    fn read(buf: &[u8], start: usize) -> (r: Option<(Book, usize)>) {
        match <BookFields as Wire>::read(buf, start) {
            None => None,
            Some((f, end)) => {
                let (last_update_id, (bids, asks)) = f;
                let v = Book { last_update_id, bids, asks };
                assert(v.model() == f.model());
                Some((v, end))
            },
        }
    }
}

/// The fields of a trade in the order of its encoding.
pub type TradeFields = (
    String,
    (u64, (String, (Decimal, (Decimal, (u32, (u32, (u64, (bool, Option<bool>)))))))),
);

impl Wire for Trade {
    type Model = <TradeFields as Wire>::Model;

    open spec fn model(&self) -> <TradeFields as Wire>::Model {
        (
            self.event.model(), (
            self.event_time.model(), (
            self.symbol.model(), (
            self.price.model(), (
            self.quantity.model(), (
            self.buyer.model(), (
            self.seller.model(), (
            self.trade_time.model(), (
            self.maker.model(),
            self._ignore.model(),
        )))))))))
    }

    open spec fn valid(m: <TradeFields as Wire>::Model) -> bool {
        <TradeFields as Wire>::valid(m)
    }

    /// The fields one after another: event, event_time, symbol, price,
    /// quantity, buyer, seller, trade_time, maker, ignore.
    open spec fn bytes(m: <TradeFields as Wire>::Model) -> Seq<u8> {
        <TradeFields as Wire>::bytes(m)
    }

    proof fn lemma_nonempty(m: <TradeFields as Wire>::Model) {
        <TradeFields as Wire>::lemma_nonempty(m);
    }

    proof fn lemma_prefix_free(
        a: <TradeFields as Wire>::Model,
        b: <TradeFields as Wire>::Model,
    ) {
        <TradeFields as Wire>::lemma_prefix_free(a, b);
    }

    fn put(&self, out: &mut Vec<u8>) {
        self.event.put(out);
        self.event_time.put(out);
        self.symbol.put(out);
        self.price.put(out);
        self.quantity.put(out);
        self.buyer.put(out);
        self.seller.put(out);
        self.trade_time.put(out);
        self.maker.put(out);
        self._ignore.put(out);
        assert(final(out)@ =~= old(out)@ + Self::bytes(self.model()));
    }

    fn read(buf: &[u8], start: usize) -> (r: Option<(Trade, usize)>) {
        match <TradeFields as Wire>::read(buf, start) {
            None => None,
            Some((f, end)) => {
                let (
                    event, (
                    event_time, (
                    symbol, (
                    price, (
                    quantity, (
                    buyer, (
                    seller, (
                    trade_time, (
                    maker,
                    ignore,
                ))))))))) = f;
                let v = Trade {
                    event,
                    event_time,
                    symbol,
                    price,
                    quantity,
                    buyer,
                    seller,
                    trade_time,
                    maker,
                    _ignore: ignore,
                };
                assert(v.model() == f.model());
                Some((v, end))
            },
        }
    }
}

/// The fields of an aggregate trade in the order of its encoding.
pub type AggregateTradeFields = (
    String,
    (u64, (String, (u32, (Decimal, (Decimal, (u32, (u32, (u64, (bool, Option<bool>))))))))),
);

impl Wire for AggregateTrade {
    type Model = <AggregateTradeFields as Wire>::Model;

    open spec fn model(&self) -> <AggregateTradeFields as Wire>::Model {
        (
            self.event.model(), (
            self.event_time.model(), (
            self.symbol.model(), (
            self.trade_id.model(), (
            self.price.model(), (
            self.quantity.model(), (
            self.first_trade.model(), (
            self.last_trade.model(), (
            self.trade_time.model(), (
            self.maker.model(),
            self._ignore.model(),
        ))))))))))
    }

    open spec fn valid(m: <AggregateTradeFields as Wire>::Model) -> bool {
        <AggregateTradeFields as Wire>::valid(m)
    }

    /// The fields one after another: event, event_time, symbol, trade_id,
    /// price, quantity, first_trade, last_trade, trade_time, maker, ignore.
    open spec fn bytes(m: <AggregateTradeFields as Wire>::Model) -> Seq<u8> {
        <AggregateTradeFields as Wire>::bytes(m)
    }

    proof fn lemma_nonempty(m: <AggregateTradeFields as Wire>::Model) {
        <AggregateTradeFields as Wire>::lemma_nonempty(m);
    }

    proof fn lemma_prefix_free(
        a: <AggregateTradeFields as Wire>::Model,
        b: <AggregateTradeFields as Wire>::Model,
    ) {
        <AggregateTradeFields as Wire>::lemma_prefix_free(a, b);
    }

    fn put(&self, out: &mut Vec<u8>) {
        self.event.put(out);
        self.event_time.put(out);
        self.symbol.put(out);
        self.trade_id.put(out);
        self.price.put(out);
        self.quantity.put(out);
        self.first_trade.put(out);
        self.last_trade.put(out);
        self.trade_time.put(out);
        self.maker.put(out);
        self._ignore.put(out);
        assert(final(out)@ =~= old(out)@ + Self::bytes(self.model()));
    }

    fn read(buf: &[u8], start: usize) -> (r: Option<(AggregateTrade, usize)>) {
        match <AggregateTradeFields as Wire>::read(buf, start) {
            None => None,
            Some((f, end)) => {
                let (
                    event, (
                    event_time, (
                    symbol, (
                    trade_id, (
                    price, (
                    quantity, (
                    first_trade, (
                    last_trade, (
                    trade_time, (
                    maker,
                    ignore,
                )))))))))) = f;
                let v = AggregateTrade {
                    event,
                    event_time,
                    symbol,
                    trade_id,
                    price,
                    quantity,
                    first_trade,
                    last_trade,
                    trade_time,
                    maker,
                    _ignore: ignore,
                };
                assert(v.model() == f.model());
                Some((v, end))
            },
        }
    }
}

/// The book update that a depth update stands for.
pub open spec fn spec_translate_book(w: BookDepthUpdate) -> BookUpdateModel {
    BookUpdateModel {
        event: w.event@,
        event_time: w.event_time,
        symbol: w.symbol@,
        first_update_id: w.first_update_id,
        last_update_id: w.last_update_id,
        bids: w.bids@,
        asks: w.asks@,
    }
}

/// The trade that a wire trade stands for.
pub open spec fn spec_translate_trade(w: Trade) -> TradeModel {
    TradeModel {
        event: w.event@,
        event_time: w.event_time,
        symbol: w.symbol@,
        price: w.price,
        quantity: w.quantity,
        buyer: w.buyer,
        seller: w.seller,
        trade_time: w.trade_time,
        maker: w.maker,
    }
}

/// A copy of one side of a book, level by level in the same order.
pub fn copy_levels(levels: &BookList) -> (copy: BookList)
    ensures
        copy@ == levels@,
        copy.model() == levels@,
{
    let mut copy: BookList = Vec::new();
    let n = levels.len();
    let mut i: usize = 0;
    while i < n
        invariant
            i <= n,
            n == levels@.len(),
            copy@ == levels@.take(i as int),
        decreases n - i,
    {
        copy.push(levels[i]);
        assert(copy@ =~= levels@.take(i + 1));
        i += 1;
    }
    assert(levels@.take(n as int) =~= levels@);
    assert(copy.model() =~= levels@);
    copy
}

/// Translates a depth update: every field as it came, bids and asks in the
/// order in which they came. Every depth update has a translation.
pub fn translate_book(w: &BookDepthUpdate) -> (r: Result<BookUpdate, Error>)
    ensures
        r matches Ok(u) && u@ == spec_translate_book(*w),
{
    Ok(
        BookUpdate {
            event: w.event.clone(),
            event_time: w.event_time,
            symbol: w.symbol.clone(),
            first_update_id: w.first_update_id,
            last_update_id: w.last_update_id,
            bids: copy_levels(&w.bids),
            asks: copy_levels(&w.asks),
        },
    )
}

/// Translates a trade: every field as it came; the field that the exchange
/// asks to ignore is dropped. Every trade has a translation.
pub fn translate_trade(w: &Trade) -> (r: Result<TTrade, Error>)
    ensures
        r matches Ok(t) && t@ == spec_translate_trade(*w),
{
    Ok(
        TTrade {
            event: w.event.clone(),
            event_time: w.event_time,
            symbol: w.symbol.clone(),
            price: w.price,
            quantity: w.quantity,
            buyer: w.buyer,
            seller: w.seller,
            trade_time: w.trade_time,
            maker: w.maker,
        },
    )
}

/// Where the streams of this exchange connect, whatever the instrument.
pub const ENDPOINT: &'static str = "https://blah";

/// The subscription request of this exchange, whatever the instrument.
pub const REQUEST: &'static str = "{}";

/// What starting a stream for `instrument` gives: a session that has not
/// begun, at [`ENDPOINT`] as the URL parser writes it and with [`REQUEST`];
/// `Error::Endpoint` where [`ENDPOINT`] is no absolute URL. This exchange
/// has one endpoint and one request for all instruments, so `instrument`
/// does not enter.
pub open spec fn spec_start(instrument: Seq<char>) -> Result<SessionModel, Error> {
    match url_text(ENDPOINT@) {
        Some(text) => Ok(Session::fresh(text, REQUEST@, false)),
        None => Err(Error::Endpoint),
    }
}

/// The streams of two instruments start alike.
pub proof fn lemma_instrument_does_not_enter(a: Seq<char>, b: Seq<char>)
    ensures
        spec_start(a) == spec_start(b),
{
}

/// The streams of this exchange.
pub struct TickPlatform {}

impl Platform for TickPlatform {
    type BookRecord = BookDepthUpdate;

    type TradeRecord = Trade;

    fn start_book_stream(instrument: &'static str) -> (r: Result<Session, Error>)
        ensures
            match r {
                Ok(s) => spec_start(instrument@) == Ok::<SessionModel, Error>(s@),
                Err(e) => spec_start(instrument@) == Err::<SessionModel, Error>(e),
            },
    {
        subscribe(&ENDPOINT.to_owned(), REQUEST.to_owned())
    }

    fn start_trade_stream(instrument: &'static str) -> (r: Result<Session, Error>)
        ensures
            match r {
                Ok(s) => spec_start(instrument@) == Ok::<SessionModel, Error>(s@),
                Err(e) => spec_start(instrument@) == Err::<SessionModel, Error>(e),
            },
    {
        subscribe(&ENDPOINT.to_owned(), REQUEST.to_owned())
    }

    fn translate_book(wire: &BookDepthUpdate) -> (r: Result<BookUpdate, Error>)
        ensures
            r matches Ok(u) && u@ == spec_translate_book(*wire),
    {
        translate_book(wire)
    }

    fn translate_trade(wire: &Trade) -> (r: Result<TTrade, Error>)
        ensures
            r matches Ok(t) && t@ == spec_translate_trade(*wire),
    {
        translate_trade(wire)
    }
}

} // verus!
