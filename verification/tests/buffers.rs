use switchboard::dispatch::{run_dispatch, ServerContext};
use switchboard::error::{ErrorKind, IoReason};
use switchboard::message::{Message, Outcome};
use switchboard::plugin_buffer::{Buffer, BufferPlugin};
use switchboard::value::Value;

fn record(fields: Vec<(&str, Value)>) -> Value {
    Value::Record(fields.into_iter().map(|(k, v)| (k.to_string(), v)).collect())
}

fn index_record(idx: u64) -> Value {
    record(vec![("buffer_index", Value::Uint(idx))])
}

fn success_of(ctx: ServerContext) -> Value {
    match ctx.take() {
        Some(Outcome::Success(v)) => v,
        other => panic!("expected success, got {:?}", other),
    }
}

fn unknown_buffer_of(ctx: ServerContext) {
    match ctx.take() {
        Some(Outcome::Failure(e)) => {
            assert_eq!(e.kind, ErrorKind::InvalidArgs);
            assert_eq!(e.details, Some(Value::Text("unknown_buffer".to_string())));
        }
        other => panic!("expected the unknown-buffer failure, got {:?}", other),
    }
}

#[test]
fn new_buffers_count_up_from_zero() {
    let mut plugin = BufferPlugin::new();
    let args = || record(vec![("content", Value::Text("bli\nbla\nblub".to_string()))]);

    let mut ctx = ServerContext::new(1);
    plugin.call_new(&mut ctx, args());
    assert_eq!(success_of(ctx), index_record(0));

    let mut ctx = ServerContext::new(2);
    plugin.call_new(&mut ctx, args());
    assert_eq!(success_of(ctx), index_record(1));

    // Each creation broadcast a notification.
    let notes = plugin.buffers.take_outbox();
    assert_eq!(notes.len(), 2);
    assert_eq!(notes[0].method, "on.buffer.new");
    assert_eq!(notes[0].payload, index_record(0));
    assert_eq!(notes[1].payload, index_record(1));
}

#[test]
fn get_content_answers_the_stored_text() {
    let mut plugin = BufferPlugin::new();
    let mut ctx = ServerContext::new(1);
    plugin.call_new(
        &mut ctx,
        record(vec![("content", Value::Text("bli\nbla\nblub".to_string()))]),
    );
    assert_eq!(success_of(ctx), index_record(0));

    let mut ctx = ServerContext::new(2);
    plugin.call_get_content(&mut ctx, index_record(0));
    assert_eq!(
        success_of(ctx),
        record(vec![("content", Value::Text("bli\nbla\nblub".to_string()))])
    );

    let mut ctx = ServerContext::new(3);
    plugin.call_get_content(&mut ctx, index_record(999));
    unknown_buffer_of(ctx);
}

#[test]
fn deleted_buffers_are_gone() {
    let mut plugin = BufferPlugin::new();
    let mut ctx = ServerContext::new(1);
    plugin.call_new(&mut ctx, record(vec![("content", Value::Text("x".to_string()))]));
    assert_eq!(success_of(ctx), index_record(0));

    let mut ctx = ServerContext::new(2);
    plugin.call_delete(&mut ctx, index_record(0));
    assert_eq!(success_of(ctx), Value::Null);

    let mut ctx = ServerContext::new(3);
    plugin.call_get_content(&mut ctx, index_record(0));
    unknown_buffer_of(ctx);
}

#[test]
fn deleting_twice_fails_the_second_time() {
    let mut plugin = BufferPlugin::new();
    let mut ctx = ServerContext::new(1);
    plugin.call_new(&mut ctx, record(vec![]));
    assert_eq!(success_of(ctx), index_record(0));

    let mut ctx = ServerContext::new(2);
    plugin.call_delete(&mut ctx, index_record(0));
    assert_eq!(success_of(ctx), Value::Null);

    let mut ctx = ServerContext::new(3);
    plugin.call_delete(&mut ctx, index_record(0));
    unknown_buffer_of(ctx);
}

#[test]
fn new_without_content_makes_an_empty_buffer() {
    let mut plugin = BufferPlugin::new();
    let mut ctx = ServerContext::new(1);
    plugin.call_new(&mut ctx, record(vec![]));
    assert_eq!(success_of(ctx), index_record(0));

    let mut ctx = ServerContext::new(2);
    plugin.call_get_content(&mut ctx, index_record(0));
    assert_eq!(success_of(ctx), record(vec![("content", Value::Text(String::new()))]));
}

#[test]
fn open_declines_other_schemes_and_the_bus_reports_no_handler() {
    let mut plugin = BufferPlugin::new();
    let mut ctx = ServerContext::new(1);
    let path = plugin.call_open(
        &mut ctx,
        record(vec![("uri", Value::Text("http://example".to_string()))]),
    );
    assert!(path.is_none());
    let declined = ctx.take();
    assert_eq!(declined, Some(Outcome::NotHandled));

    // With no other handler registered, the bus answers that nobody
    // accepted the request.
    let answers = vec![declined.unwrap()];
    match run_dispatch(1, &answers) {
        Message::Response { outcome: Outcome::Failure(e), .. } => {
            assert_eq!(e.kind, ErrorKind::Domain);
            assert_eq!(e.details, Some(Value::Text("not_handled".to_string())));
        }
        other => panic!("expected the all-declined failure, got {:?}", other),
    }
}

#[test]
fn open_claims_file_uris_and_stores_what_was_read() {
    let mut plugin = BufferPlugin::new();
    let mut ctx = ServerContext::new(1);
    let path = plugin.call_open(
        &mut ctx,
        record(vec![("uri", Value::Text("file:///tmp/notes.txt".to_string()))]),
    );
    assert_eq!(path, Some("/tmp/notes.txt".to_string()));

    plugin.call_open_content(&mut ctx, Ok("from disk".to_string()));
    assert_eq!(success_of(ctx), index_record(0));

    let mut ctx = ServerContext::new(2);
    plugin.call_get_content(&mut ctx, index_record(0));
    assert_eq!(success_of(ctx), record(vec![("content", Value::Text("from disk".to_string()))]));
}

#[test]
fn open_maps_a_read_failure_into_the_taxonomy() {
    let mut plugin = BufferPlugin::new();
    let mut ctx = ServerContext::new(1);
    let path = plugin.call_open(
        &mut ctx,
        record(vec![("uri", Value::Text("file:///no/such/file".to_string()))]),
    );
    assert!(path.is_some());
    plugin.call_open_content(&mut ctx, Err(IoReason::NotFound));
    match ctx.take() {
        Some(Outcome::Failure(e)) => {
            assert_eq!(e.kind, ErrorKind::Io(IoReason::NotFound));
            assert_eq!(e.details, Some(Value::Text("not_found".to_string())));
        }
        other => panic!("expected the transport failure, got {:?}", other),
    }
}

#[test]
fn list_answers_the_live_indices_in_creation_order() {
    let mut plugin = BufferPlugin::new();
    for _ in 0..3 {
        let mut ctx = ServerContext::new(1);
        plugin.call_new(&mut ctx, record(vec![]));
        ctx.take();
    }
    let mut ctx = ServerContext::new(2);
    plugin.call_delete(&mut ctx, index_record(1));
    ctx.take();

    let mut ctx = ServerContext::new(3);
    plugin.call_list(&mut ctx, Value::Null);
    assert_eq!(
        success_of(ctx),
        record(vec![(
            "buffer_indices",
            Value::List(vec![Value::Uint(0), Value::Uint(2)]),
        )])
    );
}

#[test]
fn malformed_arguments_fail_with_a_decoding_error() {
    let mut plugin = BufferPlugin::new();
    let mut ctx = ServerContext::new(1);
    plugin.call_new(&mut ctx, Value::Uint(3));
    match ctx.take() {
        Some(Outcome::Failure(e)) => assert_eq!(e.kind, ErrorKind::Decoding),
        other => panic!("expected a decoding failure, got {:?}", other),
    }

    let mut ctx = ServerContext::new(2);
    plugin.call_get_content(&mut ctx, record(vec![("buffer_index", Value::Bool(true))]));
    match ctx.take() {
        Some(Outcome::Failure(e)) => assert_eq!(e.kind, ErrorKind::Decoding),
        other => panic!("expected a decoding failure, got {:?}", other),
    }
}

#[test]
fn buffer_text_survives_storage() {
    let b = Buffer::from_string("grüße".to_string());
    assert_eq!(b.to_string(), "grüße");
    let empty = Buffer::new();
    assert_eq!(empty.to_string(), "");
}

#[test]
fn error_descriptions_name_the_kind() {
    let e = switchboard::error::Error::new(ErrorKind::Disconnected);
    assert_eq!(e.description(), "Channel is disconnected.");
    assert_eq!(
        switchboard::error::io_reason_tag(IoReason::PermissionDenied),
        "permission_denied"
    );
    assert_eq!(switchboard::error::io_reason_tag(IoReason::TimedOut), "timed_out");
    let io = switchboard::error::Error::from_io(IoReason::ConnectionReset);
    assert_eq!(io.kind, ErrorKind::Io(IoReason::ConnectionReset));
    assert_eq!(io.details, Some(Value::Text("connection_reset".to_string())));
}
