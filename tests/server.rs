use streaming_echo::cause::{CauseLayer, IoKind};
use streaming_echo::client::{Call, CallState, ClientAction};
use streaming_echo::message::{EchoRequest, EchoResponse, Person};
use streaming_echo::server::{
    EchoTask, Inbound, StreamingServer, TaskAction, TaskState, OUTBOUND_CAPACITY,
};
use tonic::{Code, Status};

fn expected_persons() -> Vec<Person> {
    vec![
        Person { name: "John".to_string(), age: 12 },
        Person { name: "Bob".to_string(), age: 23 },
        Person { name: "Alex".to_string(), age: 33 },
        Person { name: "Miranda".to_string(), age: 56 },
    ]
}

fn request(label: &str) -> Inbound<Status> {
    Inbound::Item(EchoRequest { message: label.to_string() })
}

/// Feeds the events to a new task until it finishes; returns what it sent.
fn run(events: Vec<Inbound<Status>>) -> (Vec<Result<EchoResponse, Status>>, TaskState, usize) {
    let server = StreamingServer::new();
    let mut task: EchoTask = server.start_echo();
    let mut sent = Vec::new();
    let mut pulled = 0;
    for ev in events {
        if task.is_finished() {
            break;
        }
        pulled += 1;
        if let TaskAction::Send(item) = task.step(ev) {
            sent.push(item);
        }
    }
    (sent, task.state, pulled)
}

#[test]
fn echo_reply_is_the_fixed_list() {
    assert_eq!(EchoResponse::echo_reply().person, expected_persons());
}

#[test]
fn three_requests_round_trip() {
    let mut call = Call::new(3);
    let mut events = Vec::new();
    let mut labels = Vec::new();
    while let Some(req) = call.next_request() {
        labels.push(req.message.clone());
        events.push(Inbound::Item(req));
    }
    assert_eq!(labels, vec!["msg 01", "msg 02", "msg 03"]);
    assert_eq!(call.state, CallState::HalfClosedByClient);
    events.push(Inbound::End);

    let (sent, state, pulled) = run(events);
    assert_eq!(state, TaskState::Completed);
    assert_eq!(pulled, 4);
    assert_eq!(sent.len(), 3);

    for item in sent {
        match call.on_inbound(Some(item)) {
            ClientAction::Report(resp) => assert_eq!(resp.person, expected_persons()),
            _ => panic!("expected a response"),
        }
    }
    assert!(matches!(call.on_inbound::<Status>(None), ClientAction::Finished));
    assert_eq!(call.received, 3);
    assert_eq!(call.state, CallState::Closed);
    assert!(call.is_done());
}

#[test]
fn zero_requests_close_cleanly() {
    let mut call = Call::new(0);
    assert!(call.next_request().is_none());
    assert_eq!(call.state, CallState::HalfClosedByClient);
    let (sent, state, pulled) = run(vec![Inbound::End]);
    assert!(sent.is_empty());
    assert_eq!(state, TaskState::Completed);
    assert_eq!(pulled, 1);
    assert!(matches!(call.on_inbound::<Status>(None), ClientAction::Finished));
    assert_eq!(call.state, CallState::Closed);
}

#[test]
fn answers_do_not_depend_on_content() {
    let (a, _, _) = run(vec![request("msg 01"), request("msg 02"), Inbound::End]);
    let (b, _, _) = run(vec![request("x"), request(""), Inbound::End]);
    assert_eq!(a.len(), 2);
    assert_eq!(b.len(), 2);
    for (x, y) in a.into_iter().zip(b) {
        assert_eq!(x.unwrap(), y.unwrap());
    }
}

#[test]
fn broken_pipe_ends_without_error() {
    let fault = Inbound::Fault(
        Status::unknown("transport"),
        vec![CauseLayer::Opaque, CauseLayer::H2(Some(IoKind::BrokenPipe))],
    );
    let (sent, state, pulled) = run(vec![request("msg 01"), fault, request("msg 02"), Inbound::End]);
    assert_eq!(state, TaskState::Aborted);
    assert_eq!(pulled, 2);
    assert_eq!(sent.len(), 1);
    assert!(sent[0].is_ok());
}

#[test]
fn other_fault_is_forwarded_last() {
    let fault = Inbound::Fault(
        Status::new(Code::Unavailable, "connection reset"),
        vec![CauseLayer::Opaque, CauseLayer::Io(IoKind::Other)],
    );
    let (sent, state, pulled) = run(vec![request("msg 01"), request("msg 02"), fault, Inbound::End]);
    assert_eq!(state, TaskState::Completed);
    assert_eq!(pulled, 4);
    assert_eq!(sent.len(), 3);
    assert!(sent[0].is_ok() && sent[1].is_ok());
    let err = sent[2].as_ref().unwrap_err();
    assert_eq!(err.code(), Code::Unavailable);
    assert_eq!(err.message(), "connection reset");
}

#[test]
fn reading_goes_on_after_forwarded_fault() {
    let fault = Inbound::Fault(Status::internal("bad frame"), vec![CauseLayer::H2(None)]);
    let (sent, state, pulled) = run(vec![fault, request("msg 01"), Inbound::End]);
    assert_eq!(state, TaskState::Completed);
    assert_eq!(pulled, 3);
    assert_eq!(sent.len(), 2);
    assert_eq!(sent[0].as_ref().unwrap_err().code(), Code::Internal);
    assert_eq!(sent[1].as_ref().unwrap().person, expected_persons());
}

#[test]
fn fault_without_io_cause_is_forwarded() {
    let fault = Inbound::Fault(Status::internal("bad frame"), vec![]);
    let (sent, state, _) = run(vec![fault]);
    assert_eq!(state, TaskState::Streaming);
    assert_eq!(sent.len(), 1);
    assert_eq!(sent[0].as_ref().unwrap_err().code(), Code::Internal);
}

#[test]
fn finished_task_ignores_events() {
    let mut task = StreamingServer::new().start_echo();
    assert!(matches!(task.step::<Status>(Inbound::End), TaskAction::Skip));
    assert!(task.is_finished());
    assert!(matches!(task.step::<Status>(request("msg 01")), TaskAction::Skip));
    assert_eq!(task.state, TaskState::Completed);
}

#[test]
fn closed_outbound_aborts_task() {
    let mut task = StreamingServer::new().start_echo();
    assert!(matches!(task.step::<Status>(request("msg 01")), TaskAction::Send(Ok(_))));
    task.outbound_closed();
    assert_eq!(task.state, TaskState::Aborted);
    assert!(task.is_finished());
}

#[test]
fn outbound_buffer_holds_capacity_items() {
    let server = StreamingServer::new();
    let (tx, _rx) = server.outbound_buffer();
    assert_eq!(tx.max_capacity(), OUTBOUND_CAPACITY);
    assert_eq!(OUTBOUND_CAPACITY, 4);
    for _ in 0..OUTBOUND_CAPACITY {
        assert!(tx.try_send(Ok(EchoResponse::echo_reply())).is_ok());
    }
    assert!(tx.try_send(Ok(EchoResponse::echo_reply())).is_err());
}

#[test]
fn outbound_buffer_frees_space_on_receive() {
    let server = StreamingServer::new();
    let (tx, mut rx) = server.outbound_buffer();
    for _ in 0..OUTBOUND_CAPACITY {
        tx.try_send(Ok(EchoResponse::echo_reply())).unwrap();
    }
    assert!(tx.try_send(Ok(EchoResponse::echo_reply())).is_err());
    assert!(rx.try_recv().unwrap().is_ok());
    assert!(tx.try_send(Ok(EchoResponse::echo_reply())).is_ok());
}
