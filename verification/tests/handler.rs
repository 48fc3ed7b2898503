//! The decisions of the connection handler.

use bytes::Bytes;
use http::{HeaderMap, HeaderName, HeaderValue};
use vibeio_http::h3::handler::{
    plan_request, prepare_response, remove_invalid_http3_headers, AcceptOutcome, BodyFrame,
    ConnectionAction, ConnectionEvent, HandlerEnd, HandshakeOutcome, RequestPlan, ServeAction,
    ServeEvent, Serving, ShutdownOutcome, MAX_FIELD_NAMES,
};

fn headers(list: &[(&str, &str)]) -> HeaderMap {
    let mut map = HeaderMap::new();
    for (name, value) in list {
        map.append(
            HeaderName::from_bytes(name.as_bytes()).unwrap(),
            HeaderValue::from_str(value).unwrap(),
        );
    }
    map
}

fn cleaned(list: &[(&str, &str)]) -> HeaderMap {
    let mut map = headers(list);
    remove_invalid_http3_headers(&mut map);
    map
}

fn prepared(
    list: &[(&str, &str)],
    date: Option<&'static str>,
    end_stream: bool,
    body_length: Option<u64>,
) -> HeaderMap {
    let mut map = headers(list);
    let date = date.map(|date| Bytes::from_static(date.as_bytes()));
    assert!(prepare_response(&mut map, date, end_stream, body_length));
    map
}

#[test]
fn handshake_timeout_ends_the_handler() {
    let start = ConnectionAction::Handshake;
    assert_eq!(
        start.advance(ConnectionEvent::Handshake(HandshakeOutcome::Ready)),
        ConnectionAction::Accept
    );
    assert_eq!(
        start.advance(ConnectionEvent::Handshake(HandshakeOutcome::TimedOut)),
        ConnectionAction::Return(HandlerEnd::HandshakeTimeout)
    );
    assert_eq!(
        start.advance(ConnectionEvent::Handshake(HandshakeOutcome::Failed)),
        ConnectionAction::Return(HandlerEnd::ConnectionError)
    );
    assert_eq!(start.advance(ConnectionEvent::Drained), start);
}

#[test]
fn accept_timeout_shuts_down_and_is_an_error() {
    let doing = ConnectionAction::Accept.advance(ConnectionEvent::Accept(AcceptOutcome::TimedOut));
    assert_eq!(doing, ConnectionAction::Shutdown { graceful: false });
    let doing = doing.advance(ConnectionEvent::Shutdown(ShutdownOutcome::Done));
    assert_eq!(doing, ConnectionAction::Drain { graceful: false });
    assert_eq!(
        doing.advance(ConnectionEvent::Drained),
        ConnectionAction::Return(HandlerEnd::AcceptTimeout)
    );
}

#[test]
fn cancellation_shuts_down_cleanly() {
    let stop = ConnectionAction::Accept.advance(ConnectionEvent::Accept(AcceptOutcome::Cancelled));
    assert_eq!(stop, ConnectionAction::Shutdown { graceful: true });
    let quiet = ShutdownOutcome::Failed { no_error: true };
    let doing = stop.advance(ConnectionEvent::Shutdown(quiet));
    assert_eq!(doing, ConnectionAction::Drain { graceful: true });
    assert_eq!(
        doing.advance(ConnectionEvent::Drained),
        ConnectionAction::Return(HandlerEnd::Finished)
    );
    let loud = ShutdownOutcome::Failed { no_error: false };
    let end = stop.advance(ConnectionEvent::Shutdown(loud));
    assert_eq!(end, ConnectionAction::Return(HandlerEnd::ConnectionError));
    assert_eq!(end.advance(ConnectionEvent::Drained), end);
}

#[test]
fn connection_end_is_clean_without_an_error() {
    let accept = ConnectionAction::Accept;
    let serve = accept.advance(ConnectionEvent::Accept(AcceptOutcome::Request));
    assert_eq!(serve, ConnectionAction::Serve);
    assert_eq!(serve.advance(ConnectionEvent::Served), accept);
    for outcome in [
        AcceptOutcome::Exhausted,
        AcceptOutcome::Failed { no_error: true },
    ] {
        assert_eq!(
            accept.advance(ConnectionEvent::Accept(outcome)),
            ConnectionAction::Return(HandlerEnd::Finished)
        );
    }
    assert_eq!(
        accept.advance(ConnectionEvent::Accept(AcceptOutcome::Failed {
            no_error: false
        })),
        ConnectionAction::Return(HandlerEnd::ConnectionError)
    );
}

#[test]
fn continue_is_sent_when_expected() {
    let none = HeaderMap::new();
    let expecting = headers(&[("x", "1"), ("Expect", "100-Continue")]);
    let other = headers(&[("expect", "something"), ("expect", "100-continue")]);
    assert_eq!(
        plan_request(b"POST", &none, true),
        RequestPlan {
            upgradable: false,
            send_continue: false
        }
    );
    assert!(plan_request(b"POST", &expecting, true).send_continue);
    assert!(!plan_request(b"POST", &expecting, false).send_continue);
    assert!(!plan_request(b"POST", &other, true).send_continue);
    assert!(plan_request(b"CONNECT", &none, true).upgradable);
    assert!(!plan_request(b"connect", &none, true).upgradable);
}

#[test]
fn connection_specific_fields_are_removed() {
    let list = [
        ("keep-alive", "timeout=5"),
        ("x-a", "1"),
        ("connection", "close"),
        ("connection", "keep-alive"),
        ("te", "gzip"),
        ("transfer-encoding", "chunked"),
        ("te", "trailers"),
        ("upgrade", "h2c"),
        ("proxy-connection", "close"),
        ("x-b", "2"),
        ("x-a", "3"),
    ];
    let mut kept = cleaned(&list);
    assert_eq!(kept, headers(&[("x-a", "1"), ("x-a", "3"), ("x-b", "2")]));
    remove_invalid_http3_headers(&mut kept);
    assert_eq!(kept, headers(&[("x-a", "1"), ("x-a", "3"), ("x-b", "2")]));
    let allowed = [("te", "trailers")];
    assert_eq!(cleaned(&allowed), headers(&allowed));
}

#[test]
fn response_gets_a_date_and_a_length() {
    let date = "Sun, 06 Nov 1994 08:49:37 GMT";
    assert_eq!(
        prepared(
            &[("x-a", "1"), ("connection", "close")],
            Some(date),
            false,
            Some(18446744073709551615)
        ),
        headers(&[
            ("x-a", "1"),
            ("date", date),
            ("content-length", "18446744073709551615"),
        ])
    );
    assert_eq!(
        prepared(
            &[("date", "then"), ("content-length", "7")],
            Some(date),
            false,
            Some(0)
        ),
        headers(&[("date", "then"), ("content-length", "7")])
    );
    assert_eq!(
        prepared(&[], None, false, Some(0)),
        headers(&[("content-length", "0")])
    );
    assert_eq!(prepared(&[], None, false, None), headers(&[]));
    assert_eq!(prepared(&[], None, true, Some(0)), headers(&[]));
}

/// What a task does after each of the events.
fn actions(plan: RequestPlan, events: &[ServeEvent]) -> Vec<ServeAction> {
    let mut task = Serving::new(plan);
    let mut list = vec![task.doing];
    for event in events {
        task = task.advance(*event);
        list.push(task.doing);
    }
    list
}

const PLAIN: RequestPlan = RequestPlan {
    upgradable: false,
    send_continue: false,
};

#[test]
fn exchange_with_interim_responses_body_and_trailers() {
    let plan = RequestPlan {
        upgradable: false,
        send_continue: true,
    };
    let events = [
        ServeEvent::Sent { ok: true },
        ServeEvent::Hint,
        ServeEvent::Sent { ok: false },
        ServeEvent::HintsClosed,
        ServeEvent::Hint,
        ServeEvent::Response { end_stream: false },
        ServeEvent::ResponseSent {
            ok: true,
            upgraded: true,
        },
        ServeEvent::Frame(BodyFrame::Data),
        ServeEvent::Sent { ok: true },
        ServeEvent::Frame(BodyFrame::Unknown),
        ServeEvent::Frame(BodyFrame::Trailers),
        ServeEvent::Sent { ok: true },
        ServeEvent::Sent { ok: true },
    ];
    assert_eq!(
        actions(plan, &events),
        vec![
            ServeAction::SendContinue,
            ServeAction::Handle { hints: true },
            ServeAction::SendHints,
            ServeAction::Handle { hints: true },
            ServeAction::Handle { hints: false },
            ServeAction::Handle { hints: false },
            ServeAction::SendResponse,
            ServeAction::NextFrame,
            ServeAction::SendData,
            ServeAction::NextFrame,
            ServeAction::NextFrame,
            ServeAction::SendTrailers,
            ServeAction::Finish,
            ServeAction::Stop,
        ]
    );
}

#[test]
fn response_is_followed_by_takeover_or_end() {
    let connect = RequestPlan {
        upgradable: true,
        send_continue: false,
    };
    let responded = ServeEvent::Response { end_stream: true };
    for (plan, upgraded, action) in [
        (connect, true, ServeAction::TakeOver),
        (connect, false, ServeAction::Finish),
        (PLAIN, true, ServeAction::Finish),
    ] {
        let sent = ServeEvent::ResponseSent { ok: true, upgraded };
        assert_eq!(actions(plan, &[responded, sent])[2], action);
    }
    let task = Serving::new(connect)
        .advance(responded)
        .advance(ServeEvent::ResponseSent {
            ok: true,
            upgraded: true,
        })
        .advance(ServeEvent::Released);
    assert_eq!(task.doing, ServeAction::Stop);
}

#[test]
fn body_that_ends_finishes_the_stream() {
    let events = [
        ServeEvent::Response { end_stream: false },
        ServeEvent::ResponseSent {
            ok: true,
            upgraded: false,
        },
        ServeEvent::Frame(BodyFrame::End),
    ];
    assert_eq!(actions(PLAIN, &events)[3], ServeAction::Finish);
}

#[test]
fn failures_leave_the_stream() {
    let responded = ServeEvent::Response { end_stream: false };
    let sent = ServeEvent::ResponseSent {
        ok: true,
        upgraded: false,
    };
    let failed = ServeEvent::Sent { ok: false };
    let unsent = ServeEvent::ResponseSent {
        ok: false,
        upgraded: false,
    };
    for events in [
        vec![ServeEvent::HandlerFailed],
        vec![responded, unsent],
        vec![responded, sent, ServeEvent::Frame(BodyFrame::Failed)],
        vec![responded, sent, ServeEvent::Frame(BodyFrame::Data), failed],
        vec![
            responded,
            sent,
            ServeEvent::Frame(BodyFrame::Trailers),
            failed,
        ],
    ] {
        assert_eq!(actions(PLAIN, &events)[events.len()], ServeAction::Stop);
    }
    let waiting = RequestPlan {
        upgradable: false,
        send_continue: true,
    };
    assert_eq!(actions(waiting, &[failed])[1], ServeAction::Stop);
}

#[test]
fn response_with_many_fields_has_room_for_more() {
    let mut map = HeaderMap::new();
    for i in 0..MAX_FIELD_NAMES - 1 {
        map.append(
            HeaderName::from_bytes(format!("x-{i}").as_bytes()).unwrap(),
            HeaderValue::from_static("v"),
        );
    }
    let date = Some(Bytes::from_static(b"now"));
    assert!(prepare_response(&mut map, date, false, Some(12)));
    assert_eq!(map.keys_len(), MAX_FIELD_NAMES + 1);
    assert_eq!(map["date"], "now");
    assert_eq!(map["content-length"], "12");
}

#[test]
fn response_beyond_what_a_map_holds_is_refused() {
    let mut map = HeaderMap::new();
    for i in 0..24576 {
        map.append(
            HeaderName::from_bytes(format!("x-{i}").as_bytes()).unwrap(),
            HeaderValue::from_static("v"),
        );
    }
    assert!(!prepare_response(&mut map, None, false, Some(12)));
    assert_eq!(map.keys_len(), 24576);
}
