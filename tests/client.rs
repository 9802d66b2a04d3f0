use streaming_echo::client::{Call, CallState, ClientAction};
use streaming_echo::message::EchoResponse;
use tonic::{Code, Status};

#[test]
fn new_call_is_open() {
    let call = Call::new(2);
    assert_eq!(call.request_count, 2);
    assert_eq!(call.sent, 0);
    assert_eq!(call.received, 0);
    assert_eq!(call.state, CallState::Open);
    assert!(!call.is_done());
}

#[test]
fn sends_exactly_the_requested_count() {
    let mut call = Call::new(2);
    assert_eq!(call.next_request().unwrap().message, "msg 01");
    assert_eq!(call.next_request().unwrap().message, "msg 02");
    assert!(call.next_request().is_none());
    assert!(call.next_request().is_none());
    assert_eq!(call.sent, 2);
    assert_eq!(call.state, CallState::HalfClosedByClient);
}

#[test]
fn client_keeps_sending_after_server_ends() {
    let mut call = Call::new(1);
    assert!(matches!(call.on_inbound::<Status>(None), ClientAction::Finished));
    assert_eq!(call.state, CallState::HalfClosedByServer);
    assert!(call.is_done());
    assert_eq!(call.next_request().unwrap().message, "msg 01");
    assert!(call.next_request().is_none());
    assert_eq!(call.state, CallState::Closed);
}

#[test]
fn inbound_error_is_fatal() {
    let mut call = Call::new(1);
    let action = call.on_inbound::<Status>(Some(Err(Status::new(Code::Aborted, "gone"))));
    match action {
        ClientAction::Fatal(s) => {
            assert_eq!(s.code(), Code::Aborted);
            assert_eq!(s.message(), "gone");
        }
        _ => panic!("expected a fatal error"),
    }
    assert_eq!(call.state, CallState::Failed);
    assert!(call.is_done());
    assert!(call.next_request().is_none());
    let later = call.on_inbound::<Status>(Some(Ok(EchoResponse::echo_reply())));
    assert!(matches!(later, ClientAction::Finished));
    assert_eq!(call.received, 0);
}

#[test]
fn responses_are_counted() {
    let mut call = Call::new(1);
    let _ = call.on_inbound::<Status>(Some(Ok(EchoResponse::echo_reply())));
    let _ = call.on_inbound::<Status>(Some(Ok(EchoResponse::echo_reply())));
    assert_eq!(call.received, 2);
    assert_eq!(call.state, CallState::Open);
}
