//! Channels that are asked for by a JSON request, the private ones with a
//! token that is fetched anew for every connection.

use std::marker::PhantomData;
use vstd::prelude::*;
use crate::streams::websockets::{parse_url, url_text, Action, Event, EventModel, Session};
use crate::types::Error;
use crate::vendor::kraken_rest::{Subscribe, SubscribeModel, Subscription, SubscriptionModel};

verus! {

/// Where private channels connect.
pub const WS_AUTH_URL: &'static str = "wss://ws-auth.kraken.com";

/// Where public channels connect.
pub const WS_PUB_URL: &'static str = "wss://ws.kraken.com";

/// Stands for the decoding of payloads as `T`.
pub struct PayloadDecoder<T> {
    _phan: PhantomData<T>,
}

/// A channel: its session, and the request that is sent on every connection.
pub struct Channel {
    pub session: Session,
    pub message: Subscribe,
}

/// Where a channel connects.
pub open spec fn spec_endpoint(private: bool) -> Seq<char> {
    if private {
        WS_AUTH_URL@
    } else {
        WS_PUB_URL@
    }
}

/// The request with another token.
pub open spec fn with_token(m: SubscribeModel, token: Seq<char>) -> SubscribeModel {
    SubscribeModel {
        subscription: SubscriptionModel { token: Some(token), ..m.subscription },
        ..m
    }
}

/// The channel for `sub`, private or public. Nothing is connected before the
/// first [`Event::Poll`]. `Error::Endpoint` where the channel's address is no
/// absolute URL, and in no other case.
pub fn subscribe(sub: Subscription, private: bool) -> (r: Result<Channel, Error>)
    ensures
        match r {
            Ok(c) => {
                &&& c.message@ == (SubscribeModel { event: "subscribe"@, subscription: sub@ })
                &&& url_text(spec_endpoint(private)) matches Some(text)
                &&& c.session@ == Session::fresh(text, c.message@.json(), private)
            },
            Err(e) => e == Error::Endpoint && url_text(spec_endpoint(private)) is None,
        },
{
    let endpoint = match parse_url(
        if private {
            WS_AUTH_URL
        } else {
            WS_PUB_URL
        },
    ) {
        Ok(u) => u,
        Err(_) => {
            return Err(Error::Endpoint);
        },
    };
    let message = Subscribe::new(sub);
    let request = message.to_json();
    Ok(Channel { session: Session::new(endpoint, request, private), message })
}

impl Channel {
    /// Takes in the answer of the token service. With a token the request
    /// carries it from now on and is handed to the session as the request of
    /// this cycle; without one the session is told that there is none.
    pub fn token(&mut self, token: Option<String>) -> (action: Action)
        ensures
            final(self).message@ == match token {
                Some(t) => with_token(old(self).message@, t@),
                None => old(self).message@,
            },
            (final(self).session@, action@) == old(self).session@.step(
                EventModel::Authorized(
                    match token {
                        Some(t) => Some(with_token(old(self).message@, t@).json()),
                        None => None,
                    },
                ),
            ),
    {
        match token {
            Some(t) => {
                self.message.subscription.token = Some(t);
                let request = self.message.to_json();
                self.session.step(Event::Authorized(Some(request)))
            },
            None => self.session.step(Event::Authorized(None)),
        }
    }
}

} // verus!
