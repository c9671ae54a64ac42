use switchboard::client::Client;
use switchboard::dispatch::{run_dispatch, ServerContext};
use switchboard::error::ErrorKind;
use switchboard::message::{Message, Outcome};
use switchboard::value::Value;

#[test]
fn call_ids_are_unique_while_outstanding() {
    let mut client: Client<u64> = Client::new();
    let method = "buffer.new".to_string();
    let mut ids = Vec::new();
    for _ in 0..16 {
        let (id, request) = client.call(&method, Value::Null);
        match request {
            Message::Request { id: rid, method: m, payload } => {
                assert_eq!(rid, id);
                assert_eq!(m, "buffer.new");
                assert_eq!(payload, Value::Null);
            }
            other => panic!("a call must produce a request, got {:?}", other),
        }
        assert!(!ids.contains(&id));
        ids.push(id);
    }
}

#[test]
fn response_resolves_the_matching_call_only() {
    let mut client: Client<u64> = Client::new();
    let method = "buffer.new".to_string();
    let (first, _) = client.call(&method, Value::Null);
    let (second, _) = client.call(&method, Value::Null);

    assert_eq!(client.wait(first), None);
    let answer = Outcome::Success(Value::Uint(0));
    let forward = client.deliver(Message::Response { id: first, outcome: answer });
    assert!(forward.is_none());

    match client.wait(first) {
        Some(Outcome::Success(Value::Uint(0))) => {}
        other => panic!("expected the delivered outcome, got {:?}", other),
    }
    // The other call is still outstanding.
    assert_eq!(client.wait(second), None);
}

#[test]
fn stale_and_duplicate_responses_are_ignored() {
    let mut client: Client<u64> = Client::new();
    let method = "buffer.delete".to_string();
    let (id, _) = client.call(&method, Value::Null);

    // A response for an id never issued is a no-op.
    client.deliver(Message::Response { id: id + 100, outcome: Outcome::NotHandled });
    assert_eq!(client.wait(id), None);

    client.deliver(Message::Response { id, outcome: Outcome::Success(Value::Uint(1)) });
    // A duplicate cannot overwrite what was delivered first.
    client.deliver(Message::Response { id, outcome: Outcome::Success(Value::Uint(2)) });
    match client.wait(id) {
        Some(Outcome::Success(Value::Uint(1))) => {}
        other => panic!("the first delivery must win, got {:?}", other),
    }
}

#[test]
fn inbound_requests_are_handed_back_for_dispatch() {
    let mut client: Client<u64> = Client::new();
    let msg = Message::Request {
        id: 77,
        method: "buffer.list".to_string(),
        payload: Value::Null,
    };
    match client.deliver(msg) {
        Some((id, method, payload)) => {
            assert_eq!(id, 77);
            assert_eq!(method, "buffer.list");
            assert_eq!(payload, Value::Null);
        }
        None => panic!("an inbound request must come back for dispatch"),
    }
}

#[test]
fn teardown_drains_pending_calls() {
    let mut client: Client<u64> = Client::new();
    let method = "buffer.new".to_string();
    let (id1, _) = client.call(&method, Value::Null);
    let (id2, _) = client.call(&method, Value::Null);
    client.deliver(Message::Response { id: id1, outcome: Outcome::Success(Value::Uint(0)) });

    client.teardown();

    // The resolved call keeps its answer; the pending one gets the
    // disconnection failure instead of blocking forever.
    match client.wait(id1) {
        Some(Outcome::Success(Value::Uint(0))) => {}
        other => panic!("expected the real answer, got {:?}", other),
    }
    match client.wait(id2) {
        Some(Outcome::Failure(e)) => assert_eq!(e.kind, ErrorKind::Disconnected),
        other => panic!("expected a disconnection failure, got {:?}", other),
    }
}

#[test]
fn handlers_are_kept_in_registration_order() {
    let mut client: Client<u64> = Client::new();
    let open = "buffer.open".to_string();
    let list = "buffer.list".to_string();
    client.new_rpc(open.clone(), 10);
    client.new_rpc(open.clone(), 11);
    client.new_rpc(list.clone(), 20);
    client.new_rpc(open.clone(), 12);
    assert_eq!(client.handlers_for(&open), vec![10, 11, 12]);
    assert_eq!(client.handlers_for(&list), vec![20]);
    assert_eq!(client.handlers_for(&"buffer.new".to_string()), Vec::<u64>::new());
}

#[test]
fn notify_allocates_its_own_id() {
    let mut client: Client<u64> = Client::new();
    let (call_id, _) = client.call(&"buffer.new".to_string(), Value::Null);
    let note = client.notify(&"on.buffer.new".to_string(), Value::Uint(0));
    match note {
        Message::Request { id, method, payload } => {
            assert_ne!(id, call_id);
            assert_eq!(method, "on.buffer.new");
            assert_eq!(payload, Value::Uint(0));
        }
        other => panic!("a notification is a request, got {:?}", other),
    }
}

#[test]
fn finish_is_single_use() {
    let mut ctx = ServerContext::new(4);
    assert!(ctx.finish(Outcome::Success(Value::Uint(1))).is_ok());
    // The second completion is rejected, not delivered.
    assert!(ctx.finish(Outcome::Success(Value::Uint(2))).is_err());
    match ctx.take() {
        Some(Outcome::Success(Value::Uint(1))) => {}
        other => panic!("the first outcome must stand, got {:?}", other),
    }
}

#[test]
fn dispatch_first_terminal_outcome_wins() {
    let answers = vec![
        Outcome::NotHandled,
        Outcome::Success(Value::Uint(1)),
        Outcome::Success(Value::Uint(2)),
    ];
    match run_dispatch(30, &answers) {
        Message::Response { id, outcome } => {
            assert_eq!(id, 30);
            assert_eq!(outcome, Outcome::Success(Value::Uint(1)));
        }
        other => panic!("dispatch must answer a response, got {:?}", other),
    }
}

#[test]
fn dispatch_without_handlers_fails_with_unknown_method() {
    let answers: Vec<Outcome> = Vec::new();
    match run_dispatch(31, &answers) {
        Message::Response { id, outcome } => {
            assert_eq!(id, 31);
            match outcome {
                Outcome::Failure(e) => {
                    assert_eq!(e.kind, ErrorKind::Domain);
                    assert_eq!(e.details, Some(Value::Text("unknown_rpc".to_string())));
                }
                other => panic!("expected a failure, got {:?}", other),
            }
        }
        other => panic!("dispatch must answer a response, got {:?}", other),
    }
}

#[test]
fn dispatch_all_declined_is_its_own_failure() {
    let answers = vec![Outcome::NotHandled, Outcome::NotHandled];
    match run_dispatch(32, &answers) {
        Message::Response { outcome, .. } => match outcome {
            Outcome::Failure(e) => {
                assert_eq!(e.kind, ErrorKind::Domain);
                assert_eq!(e.details, Some(Value::Text("not_handled".to_string())));
            }
            other => panic!("expected the all-declined failure, got {:?}", other),
        },
        other => panic!("dispatch must answer a response, got {:?}", other),
    }
}
