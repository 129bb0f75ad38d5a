use tickstream::decimal::Decimal;
use tickstream::streams::websockets::{
    subscribe, Action, Event, Frame, Session, State, INITIAL_INTERVAL_MILLIS, MAX_INTERVAL_MILLIS,
};
use tickstream::types::Error;
use tickstream::vendor::binance_ws::{translate_trade, Trade as WireTrade};
use tickstream::Trade;

fn session() -> Session {
    subscribe(&"wss://stream.example.com/ws".to_owned(), "{\"op\":\"sub\"}".to_owned())
        .expect("endpoint")
}

fn wire_trade(i: u64) -> WireTrade {
    WireTrade {
        event: "trade".to_owned(),
        event_time: i,
        symbol: "BNBBTC".to_owned(),
        price: Decimal::new(1000 + i as i64, 3),
        quantity: Decimal::new(100, 0),
        buyer: 88,
        seller: 50,
        trade_time: i + 1,
        maker: i % 2 == 0,
        _ignore: Some(true),
    }
}

fn streaming() -> Session {
    let mut s = session();
    assert_eq!(s.step(Event::Poll), Action::Connect);
    assert_eq!(s.step(Event::Connected), Action::Send("{\"op\":\"sub\"}".to_owned()));
    assert_eq!(s.step(Event::Sent), Action::Receive);
    assert_eq!(s.state(), State::Streaming);
    s
}

#[test]
fn subscribe_checks_the_endpoint() {
    assert_eq!(subscribe(&"not a url".to_owned(), "{}".to_owned()).err(), Some(Error::Endpoint));
    assert_eq!(subscribe(&"".to_owned(), "{}".to_owned()).err(), Some(Error::Endpoint));
    assert_eq!(subscribe(&"/relative/path".to_owned(), "{}".to_owned()).err(), Some(Error::Endpoint));
    let s = subscribe(&"https://blah".to_owned(), "{}".to_owned()).expect("endpoint");
    assert_eq!(s.state(), State::Disconnected);
    assert_eq!(s.request(), "{}");
    assert_eq!(s.interval(), 500);
}

#[test]
fn subscribe_keeps_the_endpoint_as_the_parser_writes_it() {
    let s = subscribe(&"WSS://Stream.Example.COM:443/a/../ws".to_owned(), "{}".to_owned())
        .expect("endpoint");
    assert_eq!(s.endpoint(), "wss://stream.example.com/ws");
    let t = subscribe(&"https://blah".to_owned(), "{}".to_owned()).expect("endpoint");
    assert_eq!(t.endpoint(), "https://blah/");
}

#[test]
fn nothing_happens_before_the_first_pull() {
    let mut s = session();
    assert_eq!(s.state(), State::Disconnected);
    assert_eq!(s.step(Event::Connected), Action::Ignore);
    assert_eq!(s.step(Event::Elapsed), Action::Ignore);
    assert_eq!(s.step(Event::Inbound(Frame::Text("{}".to_owned()))), Action::Ignore);
    assert_eq!(s.state(), State::Disconnected);
    assert_eq!(s.step(Event::Poll), Action::Connect);
    assert_eq!(s.state(), State::Connecting);
}

#[test]
fn the_cycle_without_failures() {
    let mut s = session();
    assert_eq!(s.step(Event::Poll), Action::Connect);
    assert_eq!(s.state(), State::Connecting);
    assert_eq!(s.step(Event::Connected), Action::Send("{\"op\":\"sub\"}".to_owned()));
    assert_eq!(s.state(), State::Subscribed);
    assert_eq!(s.step(Event::Sent), Action::Receive);
    assert_eq!(s.state(), State::Streaming);
    assert_eq!(
        s.step(Event::Inbound(Frame::Text("{\"a\":1}".to_owned()))),
        Action::Decode(b"{\"a\":1}".to_vec())
    );
    assert_eq!(s.state(), State::Decoding);
    let item = s.deliver(Some(wire_trade(1)), &translate_trade);
    assert_eq!(item.map(|r| r.map(|t: Trade| t.event_time)), Some(Ok(1)));
    assert_eq!(s.state(), State::Idle);
    assert_eq!(s.step(Event::Poll), Action::Receive);
    assert_eq!(s.state(), State::Streaming);
    assert_eq!(s.step(Event::Inbound(Frame::Binary(vec![1, 2, 3]))), Action::Decode(vec![1, 2, 3]));
}

#[test]
fn text_and_binary_payloads_are_the_same_bytes() {
    let mut a = streaming();
    let mut b = streaming();
    let text = "{\"p\":\"é\"}";
    assert_eq!(
        a.step(Event::Inbound(Frame::Text(text.to_owned()))),
        b.step(Event::Inbound(Frame::Binary(text.as_bytes().to_vec())))
    );
    assert_eq!(a.state(), b.state());
}

#[test]
fn failed_attempts_wait_longer_and_longer() {
    let n = 30;
    let mut s = session();
    assert_eq!(s.step(Event::Poll), Action::Connect);
    let mut attempts = 1;
    let mut waits: Vec<u64> = Vec::new();
    for _ in 0..n {
        match s.step(Event::ConnectFailed) {
            Action::Wait(ms) => waits.push(ms),
            other => panic!("no wait: {:?}", other),
        }
        assert_eq!(s.state(), State::Reconnecting);
        assert_eq!(s.step(Event::Elapsed), Action::Connect);
        attempts += 1;
    }
    assert_eq!(attempts, n + 1);
    assert_eq!(waits.len(), n);
    assert_eq!(&waits[..6], &[500, 750, 1125, 1688, 2532, 3798]);
    for k in 1..n {
        assert!(waits[k - 1] <= waits[k]);
        assert!(waits[k] <= MAX_INTERVAL_MILLIS);
    }
    assert_eq!(waits[n - 1], 60_000);
    assert_eq!(s.step(Event::Connected), Action::Send("{\"op\":\"sub\"}".to_owned()));
    assert_eq!(s.interval(), INITIAL_INTERVAL_MILLIS);
    assert_eq!(s.step(Event::Sent), Action::Receive);
    let mut fresh = streaming();
    assert_eq!(s.state(), fresh.state());
    assert_eq!(s.interval(), fresh.interval());
    assert_eq!(s.request(), fresh.request());
    let frame = Frame::Text("x".to_owned());
    assert_eq!(s.step(Event::Inbound(frame.clone())), fresh.step(Event::Inbound(frame)));
    let ours = s.deliver(Some(wire_trade(3)), &translate_trade);
    let theirs = fresh.deliver(Some(wire_trade(3)), &translate_trade);
    assert_eq!(ours, theirs);
    assert!(matches!(ours, Some(Ok(_))));
}

#[test]
fn a_failed_send_is_a_failed_attempt() {
    let mut s = session();
    s.step(Event::Poll);
    s.step(Event::Connected);
    assert_eq!(s.step(Event::SendFailed), Action::Wait(500));
    assert_eq!(s.state(), State::Reconnecting);
    assert_eq!(s.step(Event::Elapsed), Action::Connect);
    assert_eq!(s.step(Event::ConnectFailed), Action::Wait(750));
}

#[test]
fn a_lost_connection_is_made_again_at_once() {
    for lost in [Event::ReadFailed, Event::Ended] {
        let mut s = streaming();
        assert_eq!(s.step(lost), Action::Wait(0));
        assert_eq!(s.state(), State::Reconnecting);
        assert_eq!(s.step(Event::Elapsed), Action::Connect);
        assert_eq!(s.step(Event::Connected), Action::Send("{\"op\":\"sub\"}".to_owned()));
        assert_eq!(s.step(Event::Sent), Action::Receive);
        assert_eq!(s.state(), State::Streaming);
    }
}

#[test]
fn ten_items_then_one_error_and_the_end() {
    let mut s = streaming();
    let mut items: Vec<Result<Trade, Error>> = Vec::new();
    for i in 0..11u64 {
        if i > 0 {
            assert_eq!(s.step(Event::Poll), Action::Receive);
        }
        let payload = format!("{{\"n\":{}}}", i);
        assert_eq!(
            s.step(Event::Inbound(Frame::Text(payload.clone()))),
            Action::Decode(payload.into_bytes())
        );
        let decoded = if i < 10 { Some(wire_trade(i)) } else { None };
        items.push(s.deliver(decoded, &translate_trade).expect("a payload was out"));
    }
    assert_eq!(items.len(), 11);
    for i in 0..10u64 {
        assert_eq!(items[i as usize], translate_trade(&wire_trade(i)));
        assert_eq!(items[i as usize].as_ref().map(|t| t.event_time), Ok(i));
    }
    assert_eq!(items[10], Err(Error::Decode));
    assert_eq!(s.state(), State::Terminated);
    assert_eq!(s.step(Event::Poll), Action::Finish);
    assert_eq!(s.step(Event::Inbound(Frame::Text("{}".to_owned()))), Action::Finish);
    assert_eq!(s.step(Event::Elapsed), Action::Finish);
    assert_eq!(s.state(), State::Terminated);
    let late: Option<Result<Trade, Error>> = s.deliver(Some(wire_trade(1)), &translate_trade);
    assert_eq!(late, None);
}

#[test]
fn a_record_without_translation_ends_the_sequence() {
    let mut s = streaming();
    s.step(Event::Inbound(Frame::Binary(vec![b'{', b'}'])));
    let refuse = |_w: &WireTrade| -> Result<Trade, Error> { Err(Error::Decode) };
    assert_eq!(s.deliver(Some(wire_trade(1)), &refuse), Some(Err(Error::Translation)));
    assert_eq!(s.state(), State::Terminated);
    assert_eq!(s.step(Event::Poll), Action::Finish);
}

#[test]
fn a_frame_that_is_no_payload_ends_the_sequence() {
    for frame in [Frame::Ping, Frame::Pong, Frame::Close, Frame::Raw] {
        let mut s = streaming();
        assert_eq!(s.step(Event::Inbound(frame)), Action::Fail(Error::Protocol));
        assert_eq!(s.state(), State::Terminated);
        assert_eq!(s.step(Event::Poll), Action::Finish);
    }
}

#[test]
fn deliver_out_of_turn_changes_nothing() {
    let mut s = streaming();
    let item: Option<Result<Trade, Error>> = s.deliver(None, &translate_trade);
    assert_eq!(item, None);
    assert_eq!(s.state(), State::Streaming);
    let mut d = session();
    let item: Option<Result<Trade, Error>> = d.deliver(Some(wire_trade(1)), &translate_trade);
    assert_eq!(item, None);
    assert_eq!(d.state(), State::Disconnected);
}

#[test]
fn events_out_of_turn_are_ignored() {
    let mut s = streaming();
    for e in [
        Event::Poll,
        Event::Connected,
        Event::ConnectFailed,
        Event::Sent,
        Event::SendFailed,
        Event::Elapsed,
        Event::Authorized(Some("{}".to_owned())),
        Event::Authorized(None),
    ] {
        assert_eq!(s.step(e), Action::Ignore);
        assert_eq!(s.state(), State::Streaming);
        assert_eq!(s.interval(), 500);
    }
    s.step(Event::Inbound(Frame::Text("{}".to_owned())));
    assert_eq!(s.state(), State::Decoding);
    assert_eq!(s.step(Event::Poll), Action::Ignore);
    assert_eq!(s.step(Event::Inbound(Frame::Text("{}".to_owned()))), Action::Ignore);
    assert_eq!(s.step(Event::ReadFailed), Action::Ignore);
    assert_eq!(s.state(), State::Decoding);
}

#[test]
fn stop_ends_the_session_wherever_it_stands() {
    let mut stopped: Vec<Session> = Vec::new();
    stopped.push(session());
    let mut c = session();
    c.step(Event::Poll);
    stopped.push(c);
    let mut r = session();
    r.step(Event::Poll);
    r.step(Event::ConnectFailed);
    stopped.push(r);
    stopped.push(streaming());
    for mut s in stopped {
        assert_eq!(s.step(Event::Stop), Action::Finish);
        assert_eq!(s.state(), State::Terminated);
        assert_eq!(s.step(Event::Elapsed), Action::Finish);
        assert_eq!(s.step(Event::Poll), Action::Finish);
    }
}

#[test]
fn a_private_session_asks_for_a_token_in_every_cycle() {
    let mut s = Session::new("wss://x/".to_owned(), "old".to_owned(), true);
    assert_eq!(s.step(Event::Poll), Action::Authorize);
    assert_eq!(s.state(), State::Authorizing);
    assert_eq!(s.step(Event::Authorized(Some("first".to_owned()))), Action::Connect);
    assert_eq!(s.request(), "first");
    assert_eq!(s.step(Event::ConnectFailed), Action::Wait(500));
    assert_eq!(s.step(Event::Elapsed), Action::Authorize);
    assert_eq!(s.step(Event::Authorized(Some("second".to_owned()))), Action::Connect);
    assert_eq!(s.step(Event::Connected), Action::Send("second".to_owned()));
    assert_eq!(s.step(Event::Sent), Action::Receive);
    assert_eq!(s.step(Event::Ended), Action::Wait(0));
    assert_eq!(s.step(Event::Elapsed), Action::Authorize);
    assert_eq!(s.step(Event::Authorized(None)), Action::Fail(Error::Token));
    assert_eq!(s.state(), State::Terminated);
}

#[test]
fn waits_as_they_are_asked_for() {
    assert!(Session::with_backoff("wss://x/".to_owned(), "".to_owned(), false, 0, 10).is_none());
    assert!(Session::with_backoff("wss://x/".to_owned(), "".to_owned(), false, 11, 10).is_none());
    let mut s = Session::with_backoff("wss://x/".to_owned(), "".to_owned(), false, 1, 10)
        .expect("waits in order");
    s.step(Event::Poll);
    let mut waits: Vec<u64> = Vec::new();
    for _ in 0..8 {
        if let Action::Wait(ms) = s.step(Event::ConnectFailed) {
            waits.push(ms);
        }
        s.step(Event::Elapsed);
    }
    assert_eq!(waits, vec![1, 2, 3, 5, 8, 10, 10, 10]);
    let mut top = Session::with_backoff("wss://x/".to_owned(), "".to_owned(), false, u64::MAX, u64::MAX)
        .expect("waits in order");
    top.step(Event::Poll);
    assert_eq!(top.step(Event::ConnectFailed), Action::Wait(u64::MAX));
    top.step(Event::Elapsed);
    assert_eq!(top.step(Event::ConnectFailed), Action::Wait(u64::MAX));
}

#[test]
fn nothing_is_received_between_an_item_and_the_next_pull() {
    let mut s = streaming();
    s.step(Event::Inbound(Frame::Text("{}".to_owned())));
    assert!(matches!(s.deliver(Some(wire_trade(1)), &translate_trade), Some(Ok(_))));
    assert_eq!(s.state(), State::Idle);
    for e in [
        Event::Inbound(Frame::Text("{}".to_owned())),
        Event::Inbound(Frame::Ping),
        Event::ReadFailed,
        Event::Ended,
        Event::Connected,
        Event::Sent,
        Event::Elapsed,
    ] {
        assert_eq!(s.step(e), Action::Ignore);
        assert_eq!(s.state(), State::Idle);
    }
    let unasked: Option<Result<Trade, Error>> = s.deliver(Some(wire_trade(2)), &translate_trade);
    assert_eq!(unasked, None);
    assert_eq!(s.step(Event::Poll), Action::Receive);
    assert_eq!(s.state(), State::Streaming);
    assert_eq!(s.step(Event::Ended), Action::Wait(0));
}
