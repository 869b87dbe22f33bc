use databend::error::ErrorCode;
use databend::flight_client::action_response;
use databend::flight_client::do_get;
use databend::flight_client::reconnect;
use databend::flight_client::request_payload_error;
use databend::flight_client::request_server_exchange;
use databend::flight_client::response_payload_error;
use databend::flight_client::send_result;
use databend::flight_client::streaming_receiver;
use databend::flight_client::FlightData;
use databend::flight_client::FlightDataAckState;
use databend::flight_client::FlightDescriptor;
use databend::flight_client::FlightExchange;
use databend::flight_client::Metadata;
use databend::flight_client::Polled;
use databend::flight_client::RecvAction;
use databend::flight_client::RecvEvent;
use databend::flight_client::RetryPhase;
use databend::flight_client::RetryableFlightReceiver;
use databend::flight_client::Status;
use databend::flight_client::StreamAction;
use databend::flight_client::StreamEvent;
use databend::flight_service::check_action;
use databend::flight_service::do_exchange;
use databend::flight_service::ExchangeAction;
use databend::flight_service::FlightRefusal;
use databend::text::decimal_text;
use databend::text::parse_number;

fn data(n: u8) -> FlightData {
    FlightData { flight_descriptor: None, data_header: vec![n], data_body: vec![n, n], app_metadata: vec![] }
}

#[test]
fn numbers_are_parsed_back() {
    for n in [0u64, 7, 10, 65535, u64::MAX] {
        assert_eq!(parse_number(&decimal_text(n), u64::MAX), Some(n));
    }
    assert_eq!(parse_number("+12", 100), Some(12));
    assert_eq!(parse_number("007", 100), Some(7));
    for bad in ["", "+", "-1", "1a", " 1", "101", "++1", "18446744073709551616"] {
        assert_eq!(parse_number(bad, 100), None);
    }
}

#[test]
fn descriptors_are_kept_and_handed_on() {
    let mut state = FlightDataAckState::create(2);
    let mut d = data(1);
    d.flight_descriptor =
        Some(FlightDescriptor { descriptor_type: 1, cmd: vec![7], path: vec!["a".to_string(), "b".to_string()] });
    match state.message(d) {
        Polled::Ready(Some(Ok(d))) => {
            let got = d.flight_descriptor.unwrap();
            assert_eq!((got.descriptor_type, got.cmd, got.path), (1, vec![7], vec!["a".to_string(), "b".to_string()]));
        }
        other => panic!("{:?}", other),
    }
    let kept = format!("{:?}", state);
    assert!(kept.contains("descriptor_type: 1") && kept.contains("path: [\"a\", \"b\"]"));
}

#[test]
fn messages_are_passed_on() {
    let mut state = FlightDataAckState::create(2);
    for n in 0..5 {
        match state.poll_next(Polled::Ready(Some(Ok(data(n))))) {
            Polled::Ready(Some(Ok(d))) => assert_eq!(d.data_body, vec![n, n]),
            other => panic!("{:?}", other),
        }
    }
    assert!(matches!(state.poll_next(Polled::Pending), Polled::Pending));
    let failed = Status { code: 14, message: "gone".to_string() };
    match state.poll_next(Polled::Ready(Some(Err(failed)))) {
        Polled::Ready(Some(Err(s))) => assert_eq!((s.code, s.message.as_str()), (14, "gone")),
        other => panic!("{:?}", other),
    }
    // the last two messages are kept: one with data and the failure
    let kept = format!("{:?}", state);
    assert!(kept.contains("seq: 6") && kept.contains("(4, Ok") && kept.contains("(5, Err") && !kept.contains("(3, Ok"));
    assert!(matches!(state.poll_next(Polled::Ready(None)), Polled::Ready(None)));
    let kept = format!("{:?}", state);
    assert!(kept.contains("may_retry: false") && kept.contains("confirmation_queue: []"));
}

fn value<'a>(m: &'a Metadata, key: &str) -> &'a str {
    &m.entries.iter().find(|e| e.0 == key).unwrap().1
}

#[test]
fn connections_are_understood_by_the_server() {
    let (first, info) = do_get("q1", "node", 12, "addr", 3, 5);
    assert_eq!(value(&first, "x-continue-from"), "0");
    let again = reconnect(&info, 44).with("x-enable-retry", "1");
    match do_exchange(&again) {
        Ok(ExchangeAction::Fragment { query_id, target, fragment, continue_from, enable_retry }) => {
            assert_eq!((query_id.as_str(), target.as_str()), ("q1", "node"));
            assert_eq!((fragment, continue_from, enable_retry), (12, 44, true));
        }
        other => panic!("{:?}", other),
    }
    let (first, info) = request_server_exchange("q2", "n2", "addr", 3, 5);
    assert_eq!(info.retry_interval, 5);
    match do_exchange(&first.with("x-enable-retry", "no")) {
        Ok(ExchangeAction::Statistics { query_id, continue_from, enable_retry, .. }) => {
            assert_eq!((query_id.as_str(), continue_from, enable_retry), ("q2", 0, false));
        }
        other => panic!("{:?}", other),
    }
}

#[test]
fn incomplete_exchanges_are_refused() {
    let missing = |m: Metadata| match do_exchange(&m) {
        Err(FlightRefusal::MissingMetadata(key)) => key,
        other => panic!("{:?}", other),
    };
    assert_eq!(missing(Metadata::new()), "x-type");
    let m = || Metadata::new().with("x-type", "exchange_fragment");
    assert_eq!(missing(m()), "x-target");
    assert_eq!(missing(m().with("x-target", "t").with("x-query-id", "q")), "x-fragment-id");
    match do_exchange(&Metadata::new().with("x-type", "other")) {
        Err(FlightRefusal::Unimplemented(m)) => assert_eq!(m, "Unimplemented exchange type: \"other\""),
        other => panic!("{:?}", other),
    }
    match do_exchange(&Metadata::new().with("x-type", "health")) {
        Ok(ExchangeAction::Health(d)) => assert_eq!((d.data_body.as_slice(), d.app_metadata), (&b"ok"[..], vec![3])),
        other => panic!("{:?}", other),
    }
}

#[test]
fn actions_need_the_secret() {
    assert!(check_action(&Metadata::new().with("secret", "s"), "s", "n").is_ok());
    match check_action(&Metadata::new().with("secret", "x"), "s", "n7") {
        Err(FlightRefusal::Failed(ErrorCode::AuthenticateFailure(m))) => {
            assert_eq!(m, "authenticate failure while flight, node: n7")
        }
        other => panic!("{:?}", other),
    }
    assert!(matches!(check_action(&Metadata::new(), "s", "n"), Err(FlightRefusal::MissingMetadata(k)) if k == "secret"));
}

#[test]
fn receivers_connect_again() {
    let (_, info) = do_get("q1", "node", 1, "addr", 2, 9);
    let mut r = RetryableFlightReceiver { seq: 5, info: Some(info), phase: RetryPhase::Receiving };
    let lost = || RecvEvent::<u8>::Failed(ErrorCode::CannotConnectNode("x".to_string()));
    assert!(matches!(r.recv(lost()), RecvAction::Connect(a) if a == "addr"));
    match r.recv(RecvEvent::<u8>::Connected) {
        RecvAction::Reconnect(m) => assert_eq!(value(&m, "x-continue-from"), "5"),
        other => panic!("{:?}", other),
    }
    assert!(matches!(r.recv(RecvEvent::<u8>::ReconnectFailed), RecvAction::Sleep(9)));
    assert!(matches!(r.recv(RecvEvent::<u8>::Slept), RecvAction::Reconnect(_)));
    assert!(matches!(r.recv(RecvEvent::<u8>::Reconnected), RecvAction::Replace));
    assert!(matches!(r.recv(RecvEvent::Received(Some(3u8))), RecvAction::Return(Ok(Some(3)))));
    assert_eq!(r.seq, 6);
    r.phase = RetryPhase::Receiving;
    r.recv(lost());
    r.recv(RecvEvent::<u8>::Connected);
    r.recv(RecvEvent::<u8>::ReconnectFailed);
    r.recv(RecvEvent::<u8>::Slept);
    r.recv(RecvEvent::<u8>::ReconnectFailed);
    match r.recv(RecvEvent::<u8>::Slept) {
        RecvAction::Return(Err(ErrorCode::Timeout(m))) => assert_eq!(m, "Exceed max retries time"),
        other => panic!("{:?}", other),
    }
    let mut other = RetryableFlightReceiver::dummy();
    assert!(matches!(other.recv(lost()), RecvAction::Receive));
    let e = RecvEvent::<u8>::Failed(ErrorCode::Internal("i".to_string()));
    assert!(matches!(other.recv(e), RecvAction::Return(Err(ErrorCode::Internal(_)))));
}

#[test]
fn exchanges_are_taken_once() {
    let mut e = FlightExchange::<u8, &str, u16>::create_sender(1, "tx");
    assert_eq!(e.take_as_sender().tx, "tx");
    assert!(matches!(&e, FlightExchange::MovedSender(p) if p.sender.is_none() && p.state == 1));
    let (_, info) = do_get("q", "t", 1, "a", 2, 3);
    let mut e = FlightExchange::<u8, &str, u16>::create_receiver(9, Some(info));
    let (info, inner) = e.take_as_receiver();
    assert_eq!((info.unwrap().fragment, inner), (Some(1), 9));
    assert!(matches!(e, FlightExchange::MovedReceiver(_)));
}

#[test]
fn streams_are_forwarded_until_they_fail() {
    assert!(matches!(streaming_receiver(StreamEvent::Message(data(1))), StreamAction::Send(_)));
    assert!(matches!(streaming_receiver(StreamEvent::Sent), StreamAction::Wait));
    assert!(matches!(streaming_receiver(StreamEvent::SendFailed), StreamAction::Stop));
    assert!(matches!(streaming_receiver(StreamEvent::Notified), StreamAction::Stop));
    let failed = Status { code: 1, message: String::new() };
    assert!(matches!(streaming_receiver(StreamEvent::Failed(failed)), StreamAction::SendAndStop(_)));
    assert!(send_result(true).is_ok());
    match send_result(false) {
        Err(ErrorCode::AbortedQuery(m)) => {
            assert_eq!(m, "Aborted query, because the remote flight channel is closed.")
        }
        other => panic!("{:?}", other),
    }
}

#[test]
fn answers_to_actions_are_explained() {
    assert_eq!(action_response("/p", Some(vec![1])).unwrap(), vec![1]);
    match action_response("/a\"b", None) {
        Err(ErrorCode::EmptyDataFromServer(m)) => {
            assert_eq!(m, "Can not receive data from flight server, action: \"/a\\\"b\"")
        }
        other => panic!("{:?}", other),
    }
    assert!(matches!(request_payload_error("p", "c"), ErrorCode::BadArguments(m)
        if m == "Request payload serialize error while in \"p\", cause: c"));
    assert!(matches!(response_payload_error("p", "c"), ErrorCode::BadBytes(m)
        if m == "Response payload deserialize error while in \"p\", cause: c"));
}
