//! The session of one subscription: connect, subscribe, receive, and connect
//! again after the transport failed.
//!
//! A [`Session`] decides and does no I/O. Its driver hands it what happened (an
//! [`Event`]) and is told what to do next (an [`Action`]). The consumer's pull
//! is the event [`Event::Poll`]: nothing is connected and no frame is received
//! before the consumer asks for an item.
//!
//! Failures of the transport are never shown to the consumer: the session
//! waits and connects again, with waits that grow by half up to a maximum,
//! for as long as it takes. A frame that is no payload, a payload that cannot
//! be decoded and a record that cannot be translated are shown as an error
//! item, and that item is the last one.

use vstd::prelude::*;
use vstd::slice::slice_to_vec;
use vstd::utf8::encode_utf8;
use crate::types::Error;

verus! {

/// The first wait of a session that is not told otherwise, in milliseconds.
pub const INITIAL_INTERVAL_MILLIS: u64 = 500;

/// The longest wait of a session that is not told otherwise, in milliseconds.
pub const MAX_INTERVAL_MILLIS: u64 = 60_000;

/// Where a session stands.
#[derive(Clone, Copy, PartialEq, Eq, Hash, Debug, Structural)]
pub enum State {
    /// Nothing was asked yet.
    Disconnected,
    /// The token of a private channel was asked for.
    Authorizing,
    /// A connection attempt is under way.
    Connecting,
    /// The connection stands and the subscription request was handed out.
    Subscribed,
    /// The subscription stands and the next frame is awaited.
    Streaming,
    /// A payload was handed out to be decoded.
    Decoding,
    /// An item was handed to the consumer; the subscription stands, and
    /// nothing is received until the consumer pulls again.
    Idle,
    /// No connection stands; the next attempt follows the wait.
    Reconnecting,
    /// An error item was handed out, or the consumer stopped. Nothing follows.
    Terminated,
}

/// A frame that the transport received.
#[derive(Clone, PartialEq, Eq, Debug)]
pub enum Frame {
    Text(String),
    Binary(Vec<u8>),
    Ping,
    Pong,
    Close,
    Raw,
}

/// What happened outside the session.
#[derive(Clone, PartialEq, Eq, Debug)]
pub enum Event {
    /// The consumer asks for the next item.
    Poll,
    /// The consumer will not ask again.
    Stop,
    /// The token was asked for: the request to send in this cycle, or `None`
    /// where no token could be had.
    Authorized(Option<String>),
    /// The connection attempt succeeded.
    Connected,
    /// The connection attempt failed.
    ConnectFailed,
    /// The subscription request was sent.
    Sent,
    /// The subscription request could not be sent.
    SendFailed,
    /// A frame arrived.
    Inbound(Frame),
    /// Reading failed.
    ReadFailed,
    /// The other side closed the connection.
    Ended,
    /// The wait is over.
    Elapsed,
}

/// What the driver is to do next.
#[derive(Clone, PartialEq, Eq, Debug)]
pub enum Action {
    /// Ask the token service, build the request, and answer with
    /// [`Event::Authorized`].
    Authorize,
    /// Open a connection to the endpoint, and answer with [`Event::Connected`]
    /// or [`Event::ConnectFailed`].
    Connect,
    /// Send this subscription request, and answer with [`Event::Sent`] or
    /// [`Event::SendFailed`].
    Send(String),
    /// Await the next frame, and answer with [`Event::Inbound`],
    /// [`Event::ReadFailed`] or [`Event::Ended`].
    Receive,
    /// Decode this payload as a wire record and hand the outcome to
    /// [`Session::deliver`].
    Decode(Vec<u8>),
    /// Drop the connection if one stands, wait so many milliseconds, and answer
    /// with [`Event::Elapsed`].
    Wait(u64),
    /// Drop the connection if one stands and hand this error to the consumer
    /// as the last item.
    Fail(Error),
    /// Drop the connection if one stands: the sequence has ended.
    Finish,
    /// The event does not belong here. Nothing changed.
    Ignore,
}

/// The mathematical value of a [`Frame`].
pub ghost enum FrameModel {
    Text(Seq<char>),
    Binary(Seq<u8>),
    Ping,
    Pong,
    Close,
    Raw,
}

/// The mathematical value of an [`Event`].
pub ghost enum EventModel {
    Poll,
    Stop,
    Authorized(Option<Seq<char>>),
    Connected,
    ConnectFailed,
    Sent,
    SendFailed,
    Inbound(FrameModel),
    ReadFailed,
    Ended,
    Elapsed,
}

/// The mathematical value of an [`Action`].
pub ghost enum ActionModel {
    Authorize,
    Connect,
    Send(Seq<char>),
    Receive,
    Decode(Seq<u8>),
    Wait(u64),
    Fail(Error),
    Finish,
    Ignore,
}

impl View for Frame {
    type V = FrameModel;

    open spec fn view(&self) -> FrameModel {
        match self {
            Frame::Text(t) => FrameModel::Text(t@),
            Frame::Binary(b) => FrameModel::Binary(b@),
            Frame::Ping => FrameModel::Ping,
            Frame::Pong => FrameModel::Pong,
            Frame::Close => FrameModel::Close,
            Frame::Raw => FrameModel::Raw,
        }
    }
}

impl View for Event {
    type V = EventModel;

    open spec fn view(&self) -> EventModel {
        match self {
            Event::Poll => EventModel::Poll,
            Event::Stop => EventModel::Stop,
            Event::Authorized(Some(r)) => EventModel::Authorized(Some(r@)),
            Event::Authorized(None) => EventModel::Authorized(None),
            Event::Connected => EventModel::Connected,
            Event::ConnectFailed => EventModel::ConnectFailed,
            Event::Sent => EventModel::Sent,
            Event::SendFailed => EventModel::SendFailed,
            Event::Inbound(f) => EventModel::Inbound(f@),
            Event::ReadFailed => EventModel::ReadFailed,
            Event::Ended => EventModel::Ended,
            Event::Elapsed => EventModel::Elapsed,
        }
    }
}

impl View for Action {
    type V = ActionModel;

    open spec fn view(&self) -> ActionModel {
        match self {
            Action::Authorize => ActionModel::Authorize,
            Action::Connect => ActionModel::Connect,
            Action::Send(r) => ActionModel::Send(r@),
            Action::Receive => ActionModel::Receive,
            Action::Decode(p) => ActionModel::Decode(p@),
            Action::Wait(ms) => ActionModel::Wait(*ms),
            Action::Fail(e) => ActionModel::Fail(*e),
            Action::Finish => ActionModel::Finish,
            Action::Ignore => ActionModel::Ignore,
        }
    }
}

/// The wait that follows a wait of `interval`: half as long again, rounded up,
/// and `max` at most.
pub open spec fn grow(interval: u64, max: u64) -> u64 {
    if interval + (interval + 1) / 2 >= max {
        max
    } else {
        (interval + (interval + 1) / 2) as u64
    }
}

/// The mathematical value of a [`Session`].
pub ghost struct SessionModel {
    /// Where to connect.
    pub endpoint: Seq<char>,
    /// The subscription request of this cycle.
    pub request: Seq<char>,
    /// A token is asked for at the start of every cycle.
    pub private: bool,
    /// Where the session stands.
    pub state: State,
    /// The wait after the first failed attempt.
    pub initial: u64,
    /// The longest wait.
    pub max: u64,
    /// The wait after the next failed attempt.
    pub interval: u64,
}

impl SessionModel {
    /// The waits are in order: the first is a millisecond at least, and no
    /// wait is longer than the longest.
    pub open spec fn wf(self) -> bool {
        1 <= self.initial <= self.interval <= self.max
    }

    /// The session in another state.
    pub open spec fn at(self, state: State) -> SessionModel {
        SessionModel { state, ..self }
    }

    /// The start of a cycle: the token first where the channel is private,
    /// else the connection.
    pub open spec fn begin(self) -> (SessionModel, ActionModel) {
        if self.private {
            (self.at(State::Authorizing), ActionModel::Authorize)
        } else {
            (self.at(State::Connecting), ActionModel::Connect)
        }
    }

    /// After a failed attempt: wait, and let the next wait be longer.
    pub open spec fn retry(self) -> (SessionModel, ActionModel) {
        (
            SessionModel {
                state: State::Reconnecting,
                interval: grow(self.interval, self.max),
                ..self
            },
            ActionModel::Wait(self.interval),
        )
    }

    /// The session after `event`, and what the driver is to do.
    pub open spec fn step(self, event: EventModel) -> (SessionModel, ActionModel) {
        if self.state is Terminated || event is Stop {
            (self.at(State::Terminated), ActionModel::Finish)
        } else {
            match (self.state, event) {
                (State::Disconnected, EventModel::Poll) => self.begin(),
                (State::Authorizing, EventModel::Authorized(Some(request))) => (
                    SessionModel { state: State::Connecting, request, ..self },
                    ActionModel::Connect,
                ),
                (State::Authorizing, EventModel::Authorized(None)) => (
                    self.at(State::Terminated),
                    ActionModel::Fail(Error::Token),
                ),
                (State::Connecting, EventModel::Connected) => (
                    SessionModel { state: State::Subscribed, interval: self.initial, ..self },
                    ActionModel::Send(self.request),
                ),
                (State::Connecting, EventModel::ConnectFailed) => self.retry(),
                (State::Subscribed, EventModel::Sent) => (
                    self.at(State::Streaming),
                    ActionModel::Receive,
                ),
                (State::Subscribed, EventModel::SendFailed) => self.retry(),
                (State::Idle, EventModel::Poll) => (self.at(State::Streaming), ActionModel::Receive),
                (State::Streaming, EventModel::Inbound(FrameModel::Text(text))) => (
                    self.at(State::Decoding),
                    ActionModel::Decode(encode_utf8(text)),
                ),
                (State::Streaming, EventModel::Inbound(FrameModel::Binary(payload))) => (
                    self.at(State::Decoding),
                    ActionModel::Decode(payload),
                ),
                (State::Streaming, EventModel::Inbound(_)) => (
                    self.at(State::Terminated),
                    ActionModel::Fail(Error::Protocol),
                ),
                (State::Streaming, EventModel::ReadFailed) => (
                    self.at(State::Reconnecting),
                    ActionModel::Wait(0),
                ),
                (State::Streaming, EventModel::Ended) => (
                    self.at(State::Reconnecting),
                    ActionModel::Wait(0),
                ),
                (State::Reconnecting, EventModel::Elapsed) => self.begin(),
                _ => (self, ActionModel::Ignore),
            }
        }
    }
}

impl SessionModel {
    /// The session after the outcome of a payload was handed in: it awaits
    /// the next pull after an item, it has ended after an error, and it is
    /// unchanged where no payload was out.
    pub open spec fn delivered(self, item: bool) -> SessionModel {
        if !(self.state is Decoding) {
            self
        } else if item {
            self.at(State::Idle)
        } else {
            self.at(State::Terminated)
        }
    }

    /// The session after a connection attempt failed, the wait went by and,
    /// on a private channel, the same request was built again: the next
    /// attempt is under way.
    pub open spec fn fail_round(self) -> SessionModel {
        let begun = self.step(EventModel::ConnectFailed).0.step(EventModel::Elapsed).0;
        if self.private {
            begun.step(EventModel::Authorized(Some(self.request))).0
        } else {
            begun
        }
    }

    /// The session after `n` connection attempts in a row failed.
    pub open spec fn after_failures(self, n: nat) -> SessionModel
        decreases n,
    {
        if n == 0 {
            self
        } else {
            self.after_failures((n - 1) as nat).fail_round()
        }
    }

    /// The wait between attempt `k + 1` and the next, where the attempts fail.
    pub open spec fn wait_after(self, k: nat) -> u64 {
        self.after_failures(k).interval
    }
}

/// A wait never gets shorter, and never longer than the longest.
pub proof fn lemma_grow(interval: u64, max: u64)
    requires
        interval <= max,
    ensures
        interval <= grow(interval, max) <= max,
        interval < max ==> interval < grow(interval, max) || interval == 0,
{
}

/// A session whose waits are in order keeps them in order.
pub proof fn lemma_step_wf(m: SessionModel, e: EventModel)
    requires
        m.wf(),
    ensures
        m.step(e).0.wf(),
        m.step(e).0.endpoint == m.endpoint,
        m.step(e).0.private == m.private,
        m.step(e).0.initial == m.initial,
        m.step(e).0.max == m.max,
{
}

/// Failures of the transport are not shown: a failed connection attempt, a
/// failed send, a failed read and a closed connection are answered by a wait
/// (or ignored, or the session has ended before), never by an error item, and
/// they never end the session.
pub proof fn lemma_transport_failures_hidden(m: SessionModel, e: EventModel)
    ensures
        (e is ConnectFailed || e is SendFailed || e is ReadFailed || e is Ended) ==> !(m.step(
            e,
        ).1 is Fail),
        (e is ConnectFailed || e is SendFailed || e is ReadFailed || e is Ended) ==> (m.step(
            e,
        ).0.state is Terminated <==> m.state is Terminated),
{
}

/// An error item is the last item: the session that showed one has ended, and
/// a session that has ended answers every event with `Finish` and stays as it
/// is.
pub proof fn lemma_error_is_terminal(m: SessionModel, e: EventModel, later: EventModel)
    ensures
        m.step(e).1 is Fail ==> m.step(e).0.state is Terminated,
        m.state is Terminated ==> m.step(later) == (m, ActionModel::Finish),
        m.step(e).1 is Fail ==> m.step(e).0.step(later) == (m.step(e).0, ActionModel::Finish),
{
}

/// The consumer's stop ends the session wherever it stands, and the driver is
/// told to drop the connection.
pub proof fn lemma_stop_ends(m: SessionModel)
    ensures
        m.step(EventModel::Stop) == (m.at(State::Terminated), ActionModel::Finish),
{
}

/// A connection stands in these states and in no other.
pub open spec fn holds_connection(state: State) -> bool {
    state is Subscribed || state is Streaming || state is Decoding || state is Idle
}

/// One connection at a time: a connection is asked for only where none
/// stands, and where a connection that stood stands no longer, the driver was
/// told to drop it.
pub proof fn lemma_one_connection(m: SessionModel, e: EventModel)
    ensures
        m.step(e).1 is Connect ==> !holds_connection(m.state),
        holds_connection(m.step(e).0.state) && !holds_connection(m.state) ==> m.state is Connecting
            && e is Connected,
        holds_connection(m.state) && !holds_connection(m.step(e).0.state) ==> (m.step(e).1 is Wait
            || m.step(e).1 is Fail || m.step(e).1 is Finish),
{
}

/// Pull by pull: a frame is asked for only in answer to the consumer's pull
/// or, while a pull is served, once the subscription request went out; a
/// payload is handed out only for a frame that was asked for; and after an
/// item nothing but a pull or the consumer's stop moves the session.
pub proof fn lemma_pull_based(m: SessionModel, e: EventModel)
    ensures
        m.step(e).1 is Receive ==> (m.state is Idle && e is Poll) || (m.state is Subscribed
            && e is Sent),
        m.step(e).1 is Decode ==> m.state is Streaming && e is Inbound,
        m.state is Idle && !(e is Poll) && !(e is Stop) ==> m.step(e) == (m, ActionModel::Ignore),
        m.delivered(true).state is Idle || m.delivered(true) == m,
{
}

/// One request for every connection, and on a private channel one token for
/// every connection: the request is handed out when the connection stands and
/// at no other time, and a private channel asks for a connection only when
/// the request of the cycle was built.
pub proof fn lemma_one_request(m: SessionModel, e: EventModel)
    ensures
        m.step(e).1 is Send ==> m.state is Connecting && e is Connected && m.step(e).1
            == ActionModel::Send(m.request),
        m.private && m.step(e).1 is Connect ==> m.state is Authorizing && e is Authorized,
        m.private && (m.state is Disconnected && e is Poll || m.state is Reconnecting
            && e is Elapsed) ==> m.step(e).1 is Authorize,
{
}

/// There is no end without a reason: a session ends only where the consumer
/// stopped or an error item was shown.
pub proof fn lemma_no_silent_end(m: SessionModel, e: EventModel)
    requires
        !(m.state is Terminated),
        m.step(e).0.state is Terminated,
    ensures
        e is Stop || m.step(e).1 is Fail,
{
}

/// After `n` failed attempts the session differs from the one before them by
/// its next wait alone, which is no shorter.
pub proof fn lemma_after_failures(m: SessionModel, n: nat)
    requires
        m.wf(),
        m.state is Connecting,
    ensures
        m.after_failures(n) == (SessionModel { interval: m.wait_after(n), ..m }),
        m.after_failures(n).wf(),
        m.interval <= m.wait_after(n) <= m.max,
    decreases n,
{
    if n > 0 {
        lemma_after_failures(m, (n - 1) as nat);
        let before = m.after_failures((n - 1) as nat);
        lemma_grow(before.interval, before.max);
    }
}

/// Reconnect liveness. While connection attempts fail, every failure is
/// answered by a wait and every wait by a new attempt, so that `n` failures
/// make `n + 1` attempts; the waits never get shorter and never exceed the
/// longest wait; and the attempt that succeeds leaves the session as a first
/// attempt that succeeds would have left it.
pub proof fn lemma_reconnect_liveness(m: SessionModel, n: nat)
    requires
        m.wf(),
        m.state is Connecting,
    ensures
        forall|k: nat|
            k < n ==> (#[trigger] m.after_failures(k)).step(EventModel::ConnectFailed).1
                == ActionModel::Wait(m.wait_after(k)),
        forall|k: nat|
            k < n ==> (#[trigger] m.after_failures(k + 1)).state is Connecting && m.after_failures(
                k + 1,
            ).request == m.request,
        forall|j: nat, k: nat|
            j <= k <= n ==> #[trigger] m.wait_after(j) <= #[trigger] m.wait_after(k) <= m.max,
        m.after_failures(n).step(EventModel::Connected) == m.step(EventModel::Connected),
        m.step(EventModel::Connected).1 == ActionModel::Send(m.request),
        m.step(EventModel::Connected).0.step(EventModel::Sent) == (
            (SessionModel { state: State::Streaming, interval: m.initial, ..m }),
            ActionModel::Receive,
        ),
{
    assert forall|k: nat| k < n implies (#[trigger] m.after_failures(k)).step(
        EventModel::ConnectFailed,
    ).1 == ActionModel::Wait(m.wait_after(k)) by {
        lemma_after_failures(m, k);
    }
    assert forall|k: nat| k < n implies (#[trigger] m.after_failures(k + 1)).state is Connecting
        && m.after_failures(k + 1).request == m.request by {
        lemma_after_failures(m, k + 1);
    }
    assert forall|j: nat, k: nat| j <= k <= n implies #[trigger] m.wait_after(j)
        <= #[trigger] m.wait_after(k) <= m.max by {
        lemma_waits_ordered(m, j, k);
    }
    lemma_after_failures(m, n);
}

impl SessionModel {
    /// The session after `events`, taken in one after another, and the
    /// actions that answered them.
    pub open spec fn run(self, events: Seq<EventModel>) -> (SessionModel, Seq<ActionModel>)
        decreases events.len(),
    {
        if events.len() == 0 {
            (self, Seq::empty())
        } else {
            let (before, actions) = self.run(events.drop_last());
            let (after, action) = before.step(events.last());
            (after, actions.push(action))
        }
    }
}

/// What a driver reports while `n` connection attempts in a row fail: the
/// failure, then the end of the wait, `n` times.
pub open spec fn failures(n: nat) -> Seq<EventModel>
    decreases n,
{
    if n == 0 {
        Seq::empty()
    } else {
        failures((n - 1) as nat).push(EventModel::ConnectFailed).push(EventModel::Elapsed)
    }
}

/// What the session of a public channel asks for while `n` connection
/// attempts in a row fail: the wait, then the next attempt, `n` times.
pub open spec fn retries(m: SessionModel, n: nat) -> Seq<ActionModel>
    decreases n,
{
    if n == 0 {
        Seq::empty()
    } else {
        retries(m, (n - 1) as nat).push(ActionModel::Wait(m.wait_after((n - 1) as nat))).push(
            ActionModel::Connect,
        )
    }
}

/// Reconnect liveness, event by event, on a public channel: `n` failed
/// attempts are answered by `n` waits and `n` new attempts in turn, and
/// nothing else, so that the attempt under way is attempt `n + 1`.
pub proof fn lemma_failures_trace(m: SessionModel, n: nat)
    requires
        m.wf(),
        m.state is Connecting,
        !m.private,
    ensures
        m.run(failures(n)) == (m.after_failures(n), retries(m, n)),
        retries(m, n).len() == 2 * n,
        forall|i: int|
            0 <= i < 2 * n ==> #[trigger] retries(m, n)[i] == if i % 2 == 0 {
                ActionModel::Wait(m.wait_after((i / 2) as nat))
            } else {
                ActionModel::Connect
            },
    decreases n,
{
    if n > 0 {
        let p = (n - 1) as nat;
        lemma_failures_trace(m, p);
        lemma_after_failures(m, p);
        let events = failures(n);
        let shorter = failures(p).push(EventModel::ConnectFailed);
        assert(events.drop_last() =~= shorter);
        assert(shorter.drop_last() =~= failures(p));
        assert(m.run(shorter) == (
            m.after_failures(p).step(EventModel::ConnectFailed).0,
            retries(m, p).push(ActionModel::Wait(m.wait_after(p))),
        ));
        assert forall|i: int| 0 <= i < 2 * n implies #[trigger] retries(m, n)[i] == if i % 2
            == 0 {
            ActionModel::Wait(m.wait_after((i / 2) as nat))
        } else {
            ActionModel::Connect
        } by {
            if i < 2 * p {
                assert(retries(m, n)[i] == retries(m, p)[i]);
            }
        }
    }
}

/// The waits of a run of failures, taken in order, never get shorter.
pub proof fn lemma_waits_ordered(m: SessionModel, j: nat, k: nat)
    requires
        m.wf(),
        m.state is Connecting,
        j <= k,
    ensures
        m.wait_after(j) <= m.wait_after(k) <= m.max,
    decreases k - j,
{
    lemma_after_failures(m, k);
    if j < k {
        lemma_waits_ordered(m, j, (k - 1) as nat);
        lemma_after_failures(m, (k - 1) as nat);
        let before = m.after_failures((k - 1) as nat);
        lemma_grow(before.interval, before.max);
    }
}

/// The text of the absolute URL that `input` stands for, as the URL parser
/// writes it; `None` where `input` is no absolute URL.
pub uninterp spec fn url_text(input: Seq<char>) -> Option<Seq<char>>;

/// The error of the URL parser. Nothing is said of what it holds.
#[verifier::external_type_specification]
#[verifier::external_body]
pub struct ExParseError(url::ParseError);

/// `url::Url::parse`, with the URL handed back as its text: the parser's
/// rendering of `input` where `input` is an absolute URL, an error where it is
/// none. The outcome depends on `input` alone.
#[verifier::external_body]
pub(crate) fn parse_url(input: &str) -> (r: Result<String, url::ParseError>)
    ensures
        match r {
            Ok(text) => url_text(input@) == Some(text@),
            Err(_) => url_text(input@) is None,
        },
{
    url::Url::parse(input).map(String::from)
}

/// The session of a subscription at `url` that sends `sub_msg` on every
/// connection. Nothing is connected before the first [`Event::Poll`].
/// `Error::Endpoint` where `url` is no absolute URL.
pub fn subscribe(url: &String, sub_msg: String) -> (r: Result<Session, Error>)
    ensures
        match r {
            Ok(s) => url_text(url@) matches Some(text) && s@ == Session::fresh(
                text,
                sub_msg@,
                false,
            ),
            Err(e) => e == Error::Endpoint && url_text(url@) is None,
        },
{
    match parse_url(url.as_str()) {
        Ok(endpoint) => Ok(Session::new(endpoint, sub_msg, false)),
        Err(_) => Err(Error::Endpoint),
    }
}

/// The session of one subscription.
pub struct Session {
    endpoint: String,
    request: String,
    private: bool,
    state: State,
    initial: u64,
    max: u64,
    interval: u64,
}

impl View for Session {
    type V = SessionModel;

    closed spec fn view(&self) -> SessionModel {
        SessionModel {
            endpoint: self.endpoint@,
            request: self.request@,
            private: self.private,
            state: self.state,
            initial: self.initial,
            max: self.max,
            interval: self.interval,
        }
    }
}

impl Session {
    #[verifier::type_invariant]
    spec fn inv(self) -> bool {
        1 <= self.initial <= self.interval <= self.max
    }

    /// A session that has not begun, with waits from `initial` to `max`
    /// milliseconds. `None` where `initial` is 0 or over `max`.
    pub fn with_backoff(
        endpoint: String,
        request: String,
        private: bool,
        initial: u64,
        max: u64,
    ) -> (r: Option<Session>)
        ensures
            r is Some <==> 1 <= initial <= max,
            r matches Some(s) ==> s@ == (SessionModel {
                endpoint: endpoint@,
                request: request@,
                private,
                state: State::Disconnected,
                initial,
                max,
                interval: initial,
            }),
    {
        if 1 <= initial && initial <= max {
            Some(
                Session {
                    endpoint,
                    request,
                    private,
                    state: State::Disconnected,
                    initial,
                    max,
                    interval: initial,
                },
            )
        } else {
            None
        }
    }

    /// The session that has not begun, with waits from half a second to a
    /// minute.
    pub open spec fn fresh(endpoint: Seq<char>, request: Seq<char>, private: bool) -> SessionModel {
        SessionModel {
            endpoint,
            request,
            private,
            state: State::Disconnected,
            initial: INITIAL_INTERVAL_MILLIS,
            max: MAX_INTERVAL_MILLIS,
            interval: INITIAL_INTERVAL_MILLIS,
        }
    }

    /// A session that has not begun, with waits from half a second to a
    /// minute.
    pub fn new(endpoint: String, request: String, private: bool) -> (s: Session)
        ensures
            s@ == Session::fresh(endpoint@, request@, private),
    {
        Session {
            endpoint,
            request,
            private,
            state: State::Disconnected,
            initial: INITIAL_INTERVAL_MILLIS,
            max: MAX_INTERVAL_MILLIS,
            interval: INITIAL_INTERVAL_MILLIS,
        }
    }

    /// Where the session stands.
    pub fn state(&self) -> (s: State)
        ensures
            s == self@.state,
            self@.wf(),
    {
        proof {
            use_type_invariant(self);
        }
        self.state
    }

    /// Where to connect.
    pub fn endpoint(&self) -> (e: &String)
        ensures
            e@ == self@.endpoint,
    {
        &self.endpoint
    }

    /// The subscription request of this cycle.
    pub fn request(&self) -> (r: &String)
        ensures
            r@ == self@.request,
    {
        &self.request
    }

    /// The wait after the next failed attempt, in milliseconds.
    pub fn interval(&self) -> (ms: u64)
        ensures
            ms == self@.interval,
    {
        self.interval
    }

    /// The wait that follows a wait of `interval`.
    fn grown(interval: u64, max: u64) -> (next: u64)
        requires
            interval <= max,
        ensures
            next == grow(interval, max),
    {
        let half = interval / 2 + interval % 2;
        if half >= max - interval {
            max
        } else {
            interval + half
        }
    }

    /// Starts a cycle.
    fn begin(&mut self) -> (action: Action)
        ensures
            (final(self)@, action@) == old(self)@.begin(),
    {
        proof {
            use_type_invariant(&*self);
        }
        if self.private {
            self.state = State::Authorizing;
            Action::Authorize
        } else {
            self.state = State::Connecting;
            Action::Connect
        }
    }

    /// Gives up an attempt.
    fn retry(&mut self) -> (action: Action)
        ensures
            (final(self)@, action@) == old(self)@.retry(),
    {
        proof {
            use_type_invariant(&*self);
        }
        let wait = self.interval;
        self.interval = Self::grown(self.interval, self.max);
        self.state = State::Reconnecting;
        Action::Wait(wait)
    }

    /// Takes in what happened and says what to do next.
    pub fn step(&mut self, event: Event) -> (action: Action)
        ensures
            (final(self)@, action@) == old(self)@.step(event@),
            final(self)@.wf(),
    {
        proof {
            use_type_invariant(&*self);
        }
        if self.state == State::Terminated {
            return Action::Finish;
        }
        match event {
            Event::Stop => {
                self.state = State::Terminated;
                Action::Finish
            },
            Event::Poll => {
                if self.state == State::Disconnected {
                    self.begin()
                } else if self.state == State::Idle {
                    self.state = State::Streaming;
                    Action::Receive
                } else {
                    Action::Ignore
                }
            },
            Event::Authorized(outcome) => {
                if self.state == State::Authorizing {
                    match outcome {
                        Some(request) => {
                            self.request = request;
                            self.state = State::Connecting;
                            Action::Connect
                        },
                        None => {
                            self.state = State::Terminated;
                            Action::Fail(Error::Token)
                        },
                    }
                } else {
                    Action::Ignore
                }
            },
            Event::Connected => {
                if self.state == State::Connecting {
                    self.interval = self.initial;
                    self.state = State::Subscribed;
                    Action::Send(self.request.clone())
                } else {
                    Action::Ignore
                }
            },
            Event::ConnectFailed => {
                if self.state == State::Connecting {
                    self.retry()
                } else {
                    Action::Ignore
                }
            },
            Event::Sent => {
                if self.state == State::Subscribed {
                    self.state = State::Streaming;
                    Action::Receive
                } else {
                    Action::Ignore
                }
            },
            Event::SendFailed => {
                if self.state == State::Subscribed {
                    self.retry()
                } else {
                    Action::Ignore
                }
            },
            Event::Inbound(frame) => {
                if self.state == State::Streaming {
                    match frame {
                        Frame::Text(text) => {
                            self.state = State::Decoding;
                            Action::Decode(slice_to_vec(text.as_str().as_bytes()))
                        },
                        Frame::Binary(payload) => {
                            self.state = State::Decoding;
                            Action::Decode(payload)
                        },
                        _ => {
                            self.state = State::Terminated;
                            Action::Fail(Error::Protocol)
                        },
                    }
                } else {
                    Action::Ignore
                }
            },
            Event::ReadFailed => {
                if self.state == State::Streaming {
                    self.state = State::Reconnecting;
                    Action::Wait(0)
                } else {
                    Action::Ignore
                }
            },
            Event::Ended => {
                if self.state == State::Streaming {
                    self.state = State::Reconnecting;
                    Action::Wait(0)
                } else {
                    Action::Ignore
                }
            },
            Event::Elapsed => {
                if self.state == State::Reconnecting {
                    self.begin()
                } else {
                    Action::Ignore
                }
            },
        }
    }

    /// Takes in the outcome of decoding the payload that was handed out, and
    /// gives the item for the consumer: the translated record, or the error
    /// that ends the sequence. `None`, and nothing changed, where no payload
    /// was out.
    pub fn deliver<T, U, F>(&mut self, decoded: Option<T>, translate: &F) -> (item: Option<
        Result<U, Error>,
    >) where F: Fn(&T) -> Result<U, Error>
        requires
            old(self)@.state is Decoding ==> (decoded matches Some(t) ==> call_requires(
                *translate,
                (&t,),
            )),
        ensures
            final(self)@ == old(self)@.delivered(item matches Some(Ok(_))),
            item is Some <==> old(self)@.state is Decoding,
            old(self)@.state is Decoding ==> match decoded {
                None => item == Some(Err::<U, _>(Error::Decode)),
                Some(t) => match item {
                    Some(Ok(u)) => call_ensures(*translate, (&t,), Ok::<_, Error>(u)),
                    Some(Err(e)) => e == Error::Translation && exists|cause: Error|
                        call_ensures(*translate, (&t,), Err::<U, _>(cause)),
                    None => false,
                },
            },
    {
        proof {
            use_type_invariant(&*self);
        }
        if self.state != State::Decoding {
            return None;
        }
        match decoded {
            None => {
                self.state = State::Terminated;
                Some(Err(Error::Decode))
            },
            Some(t) => {
                match translate(&t) {
                    Ok(u) => {
                        self.state = State::Idle;
                        Some(Ok(u))
                    },
                    Err(cause) => {
                        self.state = State::Terminated;
                        Some(Err(Error::Translation))
                    },
                }
            },
        }
    }
}

} // verus!
