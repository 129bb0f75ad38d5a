//! The exchange whose channels are asked for by a JSON request, the private
//! ones with a token.
//!
//! A request is a JSON object: the member `event`, then the member
//! `subscription`, an object with the channel's `name` and, where they are set,
//! `depth`, `interval`, `ratecounter`, `snapshot` and `token`, in this order.

use vstd::prelude::*;
use vstd::string::StringExecFns;
use crate::text::{digits, write_digits};

verus! {

/// The channels.
#[derive(Debug, Clone, Copy, PartialEq, Eq, Structural)]
pub enum SubscriptionName {
    Book,
    Ohlc,
    OpenOrders,
    OwnTrades,
    Spread,
    Ticker,
    Trade,
    All,
}

/// What is asked of a channel.
#[derive(Debug, Clone, PartialEq, Eq)]
pub struct Subscription {
    pub name: SubscriptionName,
    pub depth: Option<u16>,
    pub interval: Option<u16>,
    pub ratecounter: Option<bool>,
    pub snapshot: Option<bool>,
    pub token: Option<String>,
}

/// A subscription request.
#[derive(Debug, Clone, PartialEq, Eq)]
pub struct Subscribe {
    pub event: String,
    pub subscription: Subscription,
}

/// The mathematical value of a [`Subscription`].
pub ghost struct SubscriptionModel {
    pub name: SubscriptionName,
    pub depth: Option<u16>,
    pub interval: Option<u16>,
    pub ratecounter: Option<bool>,
    pub snapshot: Option<bool>,
    pub token: Option<Seq<char>>,
}

/// The mathematical value of a [`Subscribe`].
pub ghost struct SubscribeModel {
    pub event: Seq<char>,
    pub subscription: SubscriptionModel,
}

impl View for Subscription {
    type V = SubscriptionModel;

    open spec fn view(&self) -> SubscriptionModel {
        SubscriptionModel {
            name: self.name,
            depth: self.depth,
            interval: self.interval,
            ratecounter: self.ratecounter,
            snapshot: self.snapshot,
            token: match self.token {
                Some(t) => Some(t@),
                None => None,
            },
        }
    }
}

impl View for Subscribe {
    type V = SubscribeModel;

    open spec fn view(&self) -> SubscribeModel {
        SubscribeModel { event: self.event@, subscription: self.subscription@ }
    }
}

/// The JSON string that stands for `text`: `text` between double quotes, with
/// the escapes that JSON asks for.
pub uninterp spec fn json_string_text(text: Seq<char>) -> Seq<char>;

/// `serde_json::to_string` on a text. It writes the quotes, the runs of the
/// text and the escapes into a vector of bytes, which takes every write, so it
/// succeeds on every text; and the result, the JSON string for `text`,
/// depends on `text` alone.
#[verifier::external_body]
fn json_string(text: &str) -> (r: Option<String>)
    ensures
        r is Some,
        r matches Some(s) ==> s@ == json_string_text(text@),
{
    serde_json::to_string(text).ok()
}

/// The name of a channel as a JSON string.
pub open spec fn name_json(name: SubscriptionName) -> Seq<char> {
    match name {
        SubscriptionName::Book => "\"book\""@,
        SubscriptionName::Ohlc => "\"ohlc\""@,
        SubscriptionName::OpenOrders => "\"openOrders\""@,
        SubscriptionName::OwnTrades => "\"ownTrades\""@,
        SubscriptionName::Spread => "\"spread\""@,
        SubscriptionName::Ticker => "\"ticker\""@,
        SubscriptionName::Trade => "\"trade\""@,
        SubscriptionName::All => "\"*\""@,
    }
}

/// A truth value in JSON.
pub open spec fn bool_json(b: bool) -> Seq<char> {
    if b {
        "true"@
    } else {
        "false"@
    }
}

/// The member `key` with a number, behind a comma; nothing where the number is
/// not set.
pub open spec fn number_member(key: Seq<char>, value: Option<u16>) -> Seq<char> {
    match value {
        Some(n) => key + digits(n as nat),
        None => Seq::empty(),
    }
}

/// The member `key` with a truth value, behind a comma; nothing where the
/// truth value is not set.
pub open spec fn bool_member(key: Seq<char>, value: Option<bool>) -> Seq<char> {
    match value {
        Some(b) => key + bool_json(b),
        None => Seq::empty(),
    }
}

/// The member `token` behind a comma, given the token as a JSON string;
/// nothing where there is no token.
pub open spec fn token_member(token: Option<Seq<char>>) -> Seq<char> {
    match token {
        Some(t) => ",\"token\":"@ + t,
        None => Seq::empty(),
    }
}

impl SubscriptionModel {
    /// The subscription as a JSON object, given its token as a JSON string.
    pub open spec fn json_with(self, token: Option<Seq<char>>) -> Seq<char> {
        "{\"name\":"@ + name_json(self.name) + number_member(",\"depth\":"@, self.depth)
            + number_member(",\"interval\":"@, self.interval) + bool_member(
            ",\"ratecounter\":"@,
            self.ratecounter,
        ) + bool_member(",\"snapshot\":"@, self.snapshot) + token_member(token) + "}"@
    }

    /// The token as a JSON string.
    pub open spec fn token_json(self) -> Option<Seq<char>> {
        match self.token {
            Some(t) => Some(json_string_text(t)),
            None => None,
        }
    }

    /// The subscription as a JSON object.
    pub open spec fn json(self) -> Seq<char> {
        self.json_with(self.token_json())
    }
}

impl SubscribeModel {
    /// The request as a JSON object, given its event and its token as JSON
    /// strings.
    pub open spec fn json_with(self, event: Seq<char>, token: Option<Seq<char>>) -> Seq<char> {
        "{\"event\":"@ + event + ",\"subscription\":"@ + self.subscription.json_with(token) + "}"@
    }

    /// The request as a JSON object.
    pub open spec fn json(self) -> Seq<char> {
        self.json_with(json_string_text(self.event), self.subscription.token_json())
    }
}

/// The text of a channel's name as a JSON string.
fn name_str(name: SubscriptionName) -> (s: &'static str)
    ensures
        s@ == name_json(name),
{
    match name {
        SubscriptionName::Book => "\"book\"",
        SubscriptionName::Ohlc => "\"ohlc\"",
        SubscriptionName::OpenOrders => "\"openOrders\"",
        SubscriptionName::OwnTrades => "\"ownTrades\"",
        SubscriptionName::Spread => "\"spread\"",
        SubscriptionName::Ticker => "\"ticker\"",
        SubscriptionName::Trade => "\"trade\"",
        SubscriptionName::All => "\"*\"",
    }
}

/// Appends the member `key` with a number, where the number is set.
fn write_number_member(key: &str, value: Option<u16>, out: &mut String)
    ensures
        final(out)@ == old(out)@ + number_member(key@, value),
{
    match value {
        Some(n) => {
            out.append(key);
            write_digits(n as u128, out);
            assert(final(out)@ =~= old(out)@ + number_member(key@, value));
        },
        None => {
            assert(final(out)@ =~= old(out)@ + number_member(key@, value));
        },
    }
}

/// Appends the member `key` with a truth value, where the truth value is set.
fn write_bool_member(key: &str, value: Option<bool>, out: &mut String)
    ensures
        final(out)@ == old(out)@ + bool_member(key@, value),
{
    match value {
        Some(b) => {
            out.append(key);
            out.append(
                if b {
                    "true"
                } else {
                    "false"
                },
            );
            assert(final(out)@ =~= old(out)@ + bool_member(key@, value));
        },
        None => {
            assert(final(out)@ =~= old(out)@ + bool_member(key@, value));
        },
    }
}

impl Subscription {
    /// Appends the subscription as a JSON object, given its token as a JSON
    /// string.
    pub fn write_json(&self, token: &Option<String>, out: &mut String)
        ensures
            final(out)@ == old(out)@ + self@.json_with(
                match *token {
                    Some(t) => Some(t@),
                    None => None,
                },
            ),
    {
        out.append("{\"name\":");
        out.append(name_str(self.name));
        write_number_member(",\"depth\":", self.depth, out);
        write_number_member(",\"interval\":", self.interval, out);
        write_bool_member(",\"ratecounter\":", self.ratecounter, out);
        write_bool_member(",\"snapshot\":", self.snapshot, out);
        match token {
            Some(t) => {
                out.append(",\"token\":");
                out.append(t.as_str());
            },
            None => {},
        }
        out.append("}");
        assert(final(out)@ =~= old(out)@ + self@.json_with(
            match *token {
                Some(t) => Some(t@),
                None => None,
            },
        ));
    }
}

impl Subscribe {
    /// The request for `subscription`: its event is `subscribe`.
    pub fn new(subscription: Subscription) -> (s: Subscribe)
        ensures
            s@ == (SubscribeModel { event: "subscribe"@, subscription: subscription@ }),
    {
        Subscribe { event: "subscribe".to_owned(), subscription }
    }

    /// The request as a JSON object, given its event and its token as JSON
    /// strings.
    pub fn render(&self, event: &String, token: &Option<String>) -> (text: String)
        ensures
            text@ == self@.json_with(
                event@,
                match *token {
                    Some(t) => Some(t@),
                    None => None,
                },
            ),
    {
        let mut text = String::new();
        text.append("{\"event\":");
        text.append(event.as_str());
        text.append(",\"subscription\":");
        self.subscription.write_json(token, &mut text);
        text.append("}");
        assert(text@ =~= self@.json_with(
            event@,
            match *token {
                Some(t) => Some(t@),
                None => None,
            },
        ));
        text
    }

    /// The request as a JSON object. Every request can be written.
    pub fn to_json(&self) -> (text: String)
        ensures
            text@ == self@.json(),
    {
        let event = json_string(self.event.as_str()).unwrap();
        let token = match &self.subscription.token {
            Some(t) => json_string(t.as_str()),
            None => None,
        };
        self.render(&event, &token)
    }
}

} // verus!
