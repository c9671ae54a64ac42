use switchboard::codec::{decode_frame, decode_message_at, encode_frame, encode_message, FrameDecode, RecvBuffer};
use switchboard::error::{Error, ErrorKind, IoReason};
use switchboard::message::{Message, Outcome};
use switchboard::value::Value;

fn record(fields: Vec<(&str, Value)>) -> Value {
    Value::Record(fields.into_iter().map(|(k, v)| (k.to_string(), v)).collect())
}

fn round_trip(m: Message) {
    let bytes = encode_message(&m);
    let decoded = decode_message_at(&bytes, 0).expect("a message must decode");
    assert_eq!(decoded.0, m);
    assert_eq!(decoded.1, bytes.len());
}

#[test]
fn round_trip_request_with_nested_payload() {
    let payload = record(vec![
        ("content", Value::Text("bli\nbla\nblub".to_string())),
        (
            "meta",
            Value::List(vec![
                Value::Null,
                Value::Bool(true),
                Value::Uint(42),
                record(vec![("inner", Value::List(vec![Value::Uint(7)]))]),
            ]),
        ),
    ]);
    round_trip(Message::Request {
        id: 3,
        method: "buffer.new".to_string(),
        payload,
    });
}

#[test]
fn round_trip_request_with_empty_payload() {
    round_trip(Message::Request {
        id: 0,
        method: "buffer.list".to_string(),
        payload: Value::Null,
    });
    round_trip(Message::Request {
        id: u64::MAX,
        method: String::new(),
        payload: record(vec![]),
    });
}

#[test]
fn round_trip_unicode_text() {
    round_trip(Message::Request {
        id: 9,
        method: "on.buffer.new".to_string(),
        payload: Value::Text("grüße \u{1F600} ascii".to_string()),
    });
}

#[test]
fn round_trip_responses() {
    round_trip(Message::Response {
        id: 5,
        outcome: Outcome::Success(record(vec![("buffer_index", Value::Uint(0))])),
    });
    round_trip(Message::Response {
        id: 6,
        outcome: Outcome::NotHandled,
    });
    round_trip(Message::Response {
        id: 7,
        outcome: Outcome::Failure(Error {
            kind: ErrorKind::Io(IoReason::BrokenPipe),
            details: Some(Value::Text("broken_pipe".to_string())),
        }),
    });
    round_trip(Message::Response {
        id: 8,
        outcome: Outcome::Failure(Error {
            kind: ErrorKind::Disconnected,
            details: None,
        }),
    });
}

#[test]
fn frame_round_trip_with_trailing_bytes() {
    let m = Message::Request {
        id: 11,
        method: "buffer.get_content".to_string(),
        payload: record(vec![("buffer_index", Value::Uint(1))]),
    };
    let mut bytes = encode_frame(&m);
    let used = bytes.len();
    // A second frame is already waiting behind the first.
    bytes.extend_from_slice(&encode_frame(&m));
    match decode_frame(&bytes) {
        FrameDecode::Complete(decoded, consumed) => {
            assert_eq!(decoded, m);
            assert_eq!(consumed, used);
        }
        other => panic!("expected a complete frame, got {:?}", other),
    }
}

#[test]
fn frame_needs_more_bytes() {
    let m = Message::Response {
        id: 1,
        outcome: Outcome::NotHandled,
    };
    let bytes = encode_frame(&m);
    assert_eq!(decode_frame(&bytes[..4]), FrameDecode::NeedMoreBytes);
    assert_eq!(decode_frame(&bytes[..bytes.len() - 1]), FrameDecode::NeedMoreBytes);
    assert_eq!(decode_frame(&[]), FrameDecode::NeedMoreBytes);
}

#[test]
fn frame_corrupt_framing() {
    // A length prefix of 3 followed by bytes that are no message.
    let bad = vec![3u8, 0, 0, 0, 0, 0, 0, 0, 0xFF, 0xFF, 0xFF];
    assert_eq!(decode_frame(&bad), FrameDecode::CorruptFraming);
}

#[test]
fn stale_bytes_do_not_decode() {
    let m = Message::Response {
        id: 2,
        outcome: Outcome::Success(Value::Uint(1)),
    };
    let bytes = encode_message(&m);
    // Dropping the tag byte leaves bytes no message starts with.
    assert!(decode_message_at(&bytes[1..], 0).is_none());
}

#[test]
fn receive_buffer_demultiplexes_chunked_frames() {
    let m1 = Message::Request {
        id: 1,
        method: "buffer.new".to_string(),
        payload: record(vec![("content", Value::Text("a".to_string()))]),
    };
    let m2 = Message::Response {
        id: 1,
        outcome: Outcome::Success(record(vec![("buffer_index", Value::Uint(0))])),
    };
    let mut stream = encode_frame(&m1);
    stream.extend_from_slice(&encode_frame(&m2));

    let mut buf = RecvBuffer::new();
    let mut received = Vec::new();
    for chunk in stream.chunks(5) {
        buf.extend(chunk);
        loop {
            match buf.next_message() {
                FrameDecode::Complete(m, _) => received.push(m),
                FrameDecode::NeedMoreBytes => break,
                FrameDecode::CorruptFraming => panic!("the stream is well-formed"),
            }
        }
    }
    assert_eq!(received, vec![m1, m2]);
}
