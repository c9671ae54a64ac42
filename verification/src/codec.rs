//! The wire codec: translates messages to and from a byte stream without
//! ambiguity. Framing is a length prefix, so the receive loop can find
//! message boundaries on a streaming socket. Inside a frame every piece
//! is self-delimiting: a tag byte, fixed-width little-endian integers,
//! and length-prefixed text, lists and records. Characters travel as
//! four-byte Unicode scalar values.
//!
//! `encode` is total for well-formed messages, and decoding what was
//! encoded returns the original message: see `lemma_dec_enc_message`.

use vstd::prelude::*;
use vstd::bytes::{
    spec_u32_from_le_bytes, spec_u32_to_le_bytes, spec_u64_from_le_bytes, spec_u64_to_le_bytes,
    lemma_auto_spec_u32_to_from_le_bytes, lemma_auto_spec_u64_to_from_le_bytes, u32_from_le_bytes,
    u64_from_le_bytes,
};
use vstd::utf8::is_scalar;
use vstd::slice::{slice_index_get, slice_subrange};
use crate::value::{views_of_fields, views_of_vals, Val, Value};
use vstd::string::StrSliceExecFns;
use crate::error::{Error, ErrorKind, ErrorVal, IoReason};
use crate::message::{Message, MessageVal, Outcome, OutcomeVal};

verus! {

broadcast use vstd::std_specs::vec::group_vec_axioms;

// ---------------------------------------------------------------------
// Well-formedness: every length in the message fits the wire's 64-bit
// length fields. Every value built from in-memory vectors satisfies it.
// ---------------------------------------------------------------------

pub open spec fn val_wf(v: Val) -> bool
    decreases v,
{
    match v {
        Val::Null => true,
        Val::Bool(_) => true,
        Val::Uint(_) => true,
        Val::Text(s) => s.len() <= u64::MAX,
        Val::List(elems) => elems.len() <= u64::MAX && vals_wf(elems),
        Val::Record(fields) => fields.len() <= u64::MAX && fields_wf(fields),
    }
}

pub open spec fn vals_wf(elems: Seq<Val>) -> bool
    decreases elems,
{
    if elems.len() == 0 {
        true
    } else {
        val_wf(elems[0]) && vals_wf(elems.drop_first())
    }
}

pub open spec fn fields_wf(fields: Seq<(Seq<char>, Val)>) -> bool
    decreases fields,
{
    if fields.len() == 0 {
        true
    } else {
        fields[0].0.len() <= u64::MAX && val_wf(fields[0].1) && fields_wf(fields.drop_first())
    }
}

pub open spec fn error_wf(e: ErrorVal) -> bool {
    match e.details {
        Some(v) => val_wf(v),
        None => true,
    }
}

pub open spec fn outcome_wf(o: OutcomeVal) -> bool {
    match o {
        OutcomeVal::Success(v) => val_wf(v),
        OutcomeVal::NotHandled => true,
        OutcomeVal::Failure(e) => error_wf(e),
    }
}

pub open spec fn message_wf(m: MessageVal) -> bool {
    match m {
        MessageVal::Request { id, method, payload } => method.len() <= u64::MAX && val_wf(payload),
        MessageVal::Response { id, outcome } => outcome_wf(outcome),
    }
}

// ---------------------------------------------------------------------
// Encoding
// ---------------------------------------------------------------------

pub open spec fn enc_u64(n: u64) -> Seq<u8> {
    spec_u64_to_le_bytes(n)
}

pub open spec fn enc_chars(s: Seq<char>) -> Seq<u8>
    decreases s,
{
    if s.len() == 0 {
        Seq::empty()
    } else {
        spec_u32_to_le_bytes(s[0] as u32) + enc_chars(s.drop_first())
    }
}

pub open spec fn enc_text(s: Seq<char>) -> Seq<u8> {
    enc_u64(s.len() as u64) + enc_chars(s)
}

pub open spec fn enc_val(v: Val) -> Seq<u8>
    decreases v,
{
    match v {
        Val::Null => seq![0u8],
        Val::Bool(b) => if b {
            seq![2u8]
        } else {
            seq![1u8]
        },
        Val::Uint(n) => seq![3u8] + enc_u64(n),
        Val::Text(s) => seq![4u8] + enc_text(s),
        Val::List(elems) => seq![5u8] + enc_u64(elems.len() as u64) + enc_vals(elems),
        Val::Record(fields) => seq![6u8] + enc_u64(fields.len() as u64) + enc_fields(fields),
    }
}

pub open spec fn enc_vals(elems: Seq<Val>) -> Seq<u8>
    decreases elems,
{
    if elems.len() == 0 {
        Seq::empty()
    } else {
        enc_val(elems[0]) + enc_vals(elems.drop_first())
    }
}

pub open spec fn enc_fields(fields: Seq<(Seq<char>, Val)>) -> Seq<u8>
    decreases fields,
{
    if fields.len() == 0 {
        Seq::empty()
    } else {
        enc_text(fields[0].0) + enc_val(fields[0].1) + enc_fields(fields.drop_first())
    }
}

pub open spec fn enc_reason(r: IoReason) -> u8 {
    match r {
        IoReason::NotFound => 0u8,
        IoReason::PermissionDenied => 1u8,
        IoReason::ConnectionRefused => 2u8,
        IoReason::ConnectionReset => 3u8,
        IoReason::ConnectionAborted => 4u8,
        IoReason::NotConnected => 5u8,
        IoReason::AddrInUse => 6u8,
        IoReason::AddrNotAvailable => 7u8,
        IoReason::BrokenPipe => 8u8,
        IoReason::AlreadyExists => 9u8,
        IoReason::WouldBlock => 10u8,
        IoReason::InvalidInput => 11u8,
        IoReason::InvalidData => 12u8,
        IoReason::TimedOut => 13u8,
        IoReason::WriteZero => 14u8,
        IoReason::Interrupted => 15u8,
        IoReason::Unknown => 16u8,
    }
}

pub open spec fn enc_kind(k: ErrorKind) -> Seq<u8> {
    match k {
        ErrorKind::Io(r) => seq![0u8, enc_reason(r)],
        ErrorKind::Disconnected => seq![1u8],
        ErrorKind::Decoding => seq![2u8],
        ErrorKind::InvalidArgs => seq![3u8],
        ErrorKind::Domain => seq![4u8],
    }
}

pub open spec fn enc_error(e: ErrorVal) -> Seq<u8> {
    enc_kind(e.kind) + match e.details {
        None => seq![0u8],
        Some(v) => seq![1u8] + enc_val(v),
    }
}

pub open spec fn enc_outcome(o: OutcomeVal) -> Seq<u8> {
    match o {
        OutcomeVal::Success(v) => seq![0u8] + enc_val(v),
        OutcomeVal::NotHandled => seq![1u8],
        OutcomeVal::Failure(e) => seq![2u8] + enc_error(e),
    }
}

pub open spec fn enc_message(m: MessageVal) -> Seq<u8> {
    match m {
        MessageVal::Request { id, method, payload } => seq![0u8] + enc_u64(id) + enc_text(method)
            + enc_val(payload),
        MessageVal::Response { id, outcome } => seq![1u8] + enc_u64(id) + enc_outcome(outcome),
    }
}

/// A whole frame as it stands on the stream: the message's byte length,
/// then the message.
pub open spec fn enc_frame(m: MessageVal) -> Seq<u8> {
    enc_u64(enc_message(m).len() as u64) + enc_message(m)
}

// ---------------------------------------------------------------------
// Decoding. Each function consumes a prefix of the bytes and returns
// the decoded piece together with what is left, or nothing when the
// bytes cannot be a prefix of any encoding.
// ---------------------------------------------------------------------

pub open spec fn dec_u64(b: Seq<u8>) -> Option<(u64, Seq<u8>)> {
    if b.len() >= 8 {
        Some((spec_u64_from_le_bytes(b.take(8)), b.skip(8)))
    } else {
        None
    }
}

pub open spec fn dec_char(b: Seq<u8>) -> Option<(char, Seq<u8>)> {
    if b.len() >= 4 {
        let u = spec_u32_from_le_bytes(b.take(4));
        if is_scalar(u) {
            Some((u as char, b.skip(4)))
        } else {
            None
        }
    } else {
        None
    }
}

pub open spec fn dec_chars(n: nat, b: Seq<u8>) -> Option<(Seq<char>, Seq<u8>)>
    decreases n,
{
    if n == 0 {
        Some((Seq::empty(), b))
    } else {
        match dec_char(b) {
            Some((c, rest)) => match dec_chars((n - 1) as nat, rest) {
                Some((s, rest2)) => Some((seq![c] + s, rest2)),
                None => None,
            },
            None => None,
        }
    }
}

pub open spec fn dec_text(b: Seq<u8>) -> Option<(Seq<char>, Seq<u8>)> {
    match dec_u64(b) {
        Some((n, rest)) => dec_chars(n as nat, rest),
        None => None,
    }
}

pub open spec fn dec_val(b: Seq<u8>) -> Option<(Val, Seq<u8>)>
    decreases b.len(), 0nat, 0nat,
{
    if b.len() == 0 {
        None
    } else {
        let tag = b[0];
        let r = b.drop_first();
        if tag == 0 {
            Some((Val::Null, r))
        } else if tag == 1 {
            Some((Val::Bool(false), r))
        } else if tag == 2 {
            Some((Val::Bool(true), r))
        } else if tag == 3 {
            match dec_u64(r) {
                Some((n, rest)) => Some((Val::Uint(n), rest)),
                None => None,
            }
        } else if tag == 4 {
            match dec_text(r) {
                Some((s, rest)) => Some((Val::Text(s), rest)),
                None => None,
            }
        } else if tag == 5 {
            match dec_u64(r) {
                Some((n, rest)) => if rest.len() < b.len() {
                    match dec_vals(n as nat, rest) {
                        Some((elems, rest2)) => Some((Val::List(elems), rest2)),
                        None => None,
                    }
                } else {
                    None
                },
                None => None,
            }
        } else if tag == 6 {
            match dec_u64(r) {
                Some((n, rest)) => if rest.len() < b.len() {
                    match dec_fields(n as nat, rest) {
                        Some((fields, rest2)) => Some((Val::Record(fields), rest2)),
                        None => None,
                    }
                } else {
                    None
                },
                None => None,
            }
        } else {
            None
        }
    }
}

pub open spec fn dec_vals(n: nat, b: Seq<u8>) -> Option<(Seq<Val>, Seq<u8>)>
    decreases b.len(), 1nat, n,
{
    if n == 0 {
        Some((Seq::empty(), b))
    } else {
        match dec_val(b) {
            Some((v, rest)) => if rest.len() <= b.len() {
                match dec_vals((n - 1) as nat, rest) {
                    Some((elems, rest2)) => Some((seq![v] + elems, rest2)),
                    None => None,
                }
            } else {
                None
            },
            None => None,
        }
    }
}

pub open spec fn dec_fields(n: nat, b: Seq<u8>) -> Option<(Seq<(Seq<char>, Val)>, Seq<u8>)>
    decreases b.len(), 1nat, n,
{
    if n == 0 {
        Some((Seq::empty(), b))
    } else {
        match dec_text(b) {
            Some((key, r1)) => if r1.len() <= b.len() {
                match dec_val(r1) {
                    Some((v, r2)) => if r2.len() <= b.len() {
                        match dec_fields((n - 1) as nat, r2) {
                            Some((fields, r3)) => Some((seq![(key, v)] + fields, r3)),
                            None => None,
                        }
                    } else {
                        None
                    },
                    None => None,
                }
            } else {
                None
            },
            None => None,
        }
    }
}

pub open spec fn dec_reason(t: u8) -> Option<IoReason> {
    if t == 0 {
        Some(IoReason::NotFound)
    } else if t == 1 {
        Some(IoReason::PermissionDenied)
    } else if t == 2 {
        Some(IoReason::ConnectionRefused)
    } else if t == 3 {
        Some(IoReason::ConnectionReset)
    } else if t == 4 {
        Some(IoReason::ConnectionAborted)
    } else if t == 5 {
        Some(IoReason::NotConnected)
    } else if t == 6 {
        Some(IoReason::AddrInUse)
    } else if t == 7 {
        Some(IoReason::AddrNotAvailable)
    } else if t == 8 {
        Some(IoReason::BrokenPipe)
    } else if t == 9 {
        Some(IoReason::AlreadyExists)
    } else if t == 10 {
        Some(IoReason::WouldBlock)
    } else if t == 11 {
        Some(IoReason::InvalidInput)
    } else if t == 12 {
        Some(IoReason::InvalidData)
    } else if t == 13 {
        Some(IoReason::TimedOut)
    } else if t == 14 {
        Some(IoReason::WriteZero)
    } else if t == 15 {
        Some(IoReason::Interrupted)
    } else if t == 16 {
        Some(IoReason::Unknown)
    } else {
        None
    }
}

pub open spec fn dec_kind(b: Seq<u8>) -> Option<(ErrorKind, Seq<u8>)> {
    if b.len() == 0 {
        None
    } else {
        let tag = b[0];
        let r = b.drop_first();
        if tag == 0 {
            if r.len() >= 1 {
                match dec_reason(r[0]) {
                    Some(reason) => Some((ErrorKind::Io(reason), r.drop_first())),
                    None => None,
                }
            } else {
                None
            }
        } else if tag == 1 {
            Some((ErrorKind::Disconnected, r))
        } else if tag == 2 {
            Some((ErrorKind::Decoding, r))
        } else if tag == 3 {
            Some((ErrorKind::InvalidArgs, r))
        } else if tag == 4 {
            Some((ErrorKind::Domain, r))
        } else {
            None
        }
    }
}

pub open spec fn dec_error(b: Seq<u8>) -> Option<(ErrorVal, Seq<u8>)> {
    match dec_kind(b) {
        Some((kind, r)) => if r.len() == 0 {
            None
        } else if r[0] == 0 {
            Some((ErrorVal { kind, details: None }, r.drop_first()))
        } else if r[0] == 1 {
            match dec_val(r.drop_first()) {
                Some((v, rest)) => Some((ErrorVal { kind, details: Some(v) }, rest)),
                None => None,
            }
        } else {
            None
        },
        None => None,
    }
}

pub open spec fn dec_outcome(b: Seq<u8>) -> Option<(OutcomeVal, Seq<u8>)> {
    if b.len() == 0 {
        None
    } else {
        let tag = b[0];
        let r = b.drop_first();
        if tag == 0 {
            match dec_val(r) {
                Some((v, rest)) => Some((OutcomeVal::Success(v), rest)),
                None => None,
            }
        } else if tag == 1 {
            Some((OutcomeVal::NotHandled, r))
        } else if tag == 2 {
            match dec_error(r) {
                Some((e, rest)) => Some((OutcomeVal::Failure(e), rest)),
                None => None,
            }
        } else {
            None
        }
    }
}

pub open spec fn dec_message(b: Seq<u8>) -> Option<(MessageVal, Seq<u8>)> {
    if b.len() == 0 {
        None
    } else {
        let tag = b[0];
        let r = b.drop_first();
        if tag == 0 {
            match dec_u64(r) {
                Some((id, r1)) => match dec_text(r1) {
                    Some((method, r2)) => match dec_val(r2) {
                        Some((payload, r3)) => Some(
                            (MessageVal::Request { id, method, payload }, r3),
                        ),
                        None => None,
                    },
                    None => None,
                },
                None => None,
            }
        } else if tag == 1 {
            match dec_u64(r) {
                Some((id, r1)) => match dec_outcome(r1) {
                    Some((outcome, r2)) => Some((MessageVal::Response { id, outcome }, r2)),
                    None => None,
                },
                None => None,
            }
        } else {
            None
        }
    }
}

// ---------------------------------------------------------------------
// Round trip: decoding an encoding returns the original piece and
// leaves exactly the trailing bytes, whatever those are. This is what
// makes the framing unambiguous on a byte-oriented stream.
// ---------------------------------------------------------------------

pub proof fn lemma_dec_enc_u64(n: u64, extra: Seq<u8>)
    ensures
        dec_u64(enc_u64(n) + extra) == Some((n, extra)),
{
    lemma_auto_spec_u64_to_from_le_bytes();
    assert((enc_u64(n) + extra).take(8) =~= enc_u64(n));
    assert((enc_u64(n) + extra).skip(8) =~= extra);
}

pub proof fn lemma_dec_enc_char(c: char, extra: Seq<u8>)
    ensures
        dec_char(spec_u32_to_le_bytes(c as u32) + extra) == Some((c, extra)),
{
    broadcast use vstd::utf8::char_is_scalar;

    lemma_auto_spec_u32_to_from_le_bytes();
    let b = spec_u32_to_le_bytes(c as u32) + extra;
    assert(b.take(4) =~= spec_u32_to_le_bytes(c as u32));
    assert(b.skip(4) =~= extra);
}

pub proof fn lemma_dec_enc_chars(s: Seq<char>, extra: Seq<u8>)
    ensures
        dec_chars(s.len(), enc_chars(s) + extra) == Some((s, extra)),
    decreases s.len(),
{
    if s.len() == 0 {
        assert(enc_chars(s) + extra =~= extra);
    } else {
        let tail = enc_chars(s.drop_first()) + extra;
        assert(enc_chars(s) + extra =~= spec_u32_to_le_bytes(s[0] as u32) + tail);
        lemma_dec_enc_char(s[0], tail);
        lemma_dec_enc_chars(s.drop_first(), extra);
        assert(seq![s[0]] + s.drop_first() =~= s);
    }
}

pub proof fn lemma_dec_enc_text(s: Seq<char>, extra: Seq<u8>)
    requires
        s.len() <= u64::MAX,
    ensures
        dec_text(enc_text(s) + extra) == Some((s, extra)),
{
    let n = s.len() as u64;
    assert(enc_text(s) + extra =~= enc_u64(n) + (enc_chars(s) + extra));
    lemma_dec_enc_u64(n, enc_chars(s) + extra);
    lemma_dec_enc_chars(s, extra);
}

pub proof fn lemma_dec_enc_val(v: Val, extra: Seq<u8>)
    requires
        val_wf(v),
    ensures
        dec_val(enc_val(v) + extra) == Some((v, extra)),
    decreases v,
{
    let b = enc_val(v) + extra;
    match v {
        Val::Null => {
            assert(b.drop_first() =~= extra);
        },
        Val::Bool(bit) => {
            assert(b.drop_first() =~= extra);
        },
        Val::Uint(n) => {
            assert(b.drop_first() =~= enc_u64(n) + extra);
            lemma_dec_enc_u64(n, extra);
        },
        Val::Text(s) => {
            assert(b.drop_first() =~= enc_text(s) + extra);
            lemma_dec_enc_text(s, extra);
        },
        Val::List(elems) => {
            let n = elems.len() as u64;
            let rest = enc_vals(elems) + extra;
            assert(b.drop_first() =~= enc_u64(n) + rest);
            lemma_dec_enc_u64(n, rest);
            lemma_dec_enc_vals(elems, extra);
        },
        Val::Record(fields) => {
            let n = fields.len() as u64;
            let rest = enc_fields(fields) + extra;
            assert(b.drop_first() =~= enc_u64(n) + rest);
            lemma_dec_enc_u64(n, rest);
            lemma_dec_enc_fields(fields, extra);
        },
    }
}

pub proof fn lemma_dec_enc_vals(elems: Seq<Val>, extra: Seq<u8>)
    requires
        vals_wf(elems),
    ensures
        dec_vals(elems.len(), enc_vals(elems) + extra) == Some((elems, extra)),
    decreases elems,
{
    if elems.len() == 0 {
        assert(enc_vals(elems) + extra =~= extra);
    } else {
        let rest = enc_vals(elems.drop_first()) + extra;
        assert(enc_vals(elems) + extra =~= enc_val(elems[0]) + rest);
        lemma_dec_enc_val(elems[0], rest);
        lemma_dec_enc_vals(elems.drop_first(), extra);
        assert(seq![elems[0]] + elems.drop_first() =~= elems);
    }
}

pub proof fn lemma_dec_enc_fields(fields: Seq<(Seq<char>, Val)>, extra: Seq<u8>)
    requires
        fields_wf(fields),
    ensures
        dec_fields(fields.len(), enc_fields(fields) + extra) == Some((fields, extra)),
    decreases fields,
{
    if fields.len() == 0 {
        assert(enc_fields(fields) + extra =~= extra);
    } else {
        let after_key = enc_val(fields[0].1) + (enc_fields(fields.drop_first()) + extra);
        let after_val = enc_fields(fields.drop_first()) + extra;
        assert(enc_fields(fields) + extra =~= enc_text(fields[0].0) + after_key);
        lemma_dec_enc_text(fields[0].0, after_key);
        lemma_dec_enc_val(fields[0].1, after_val);
        lemma_dec_enc_fields(fields.drop_first(), extra);
        assert(seq![fields[0]] + fields.drop_first() =~= fields);
    }
}

pub proof fn lemma_dec_enc_kind(k: ErrorKind, extra: Seq<u8>)
    ensures
        dec_kind(enc_kind(k) + extra) == Some((k, extra)),
{
    let b = enc_kind(k) + extra;
    match k {
        ErrorKind::Io(r) => {
            assert(b.drop_first() =~= seq![enc_reason(r)] + extra);
            assert(b.drop_first().drop_first() =~= extra);
        },
        _ => {
            assert(b.drop_first() =~= extra);
        },
    }
}

pub proof fn lemma_dec_enc_error(e: ErrorVal, extra: Seq<u8>)
    requires
        error_wf(e),
    ensures
        dec_error(enc_error(e) + extra) == Some((e, extra)),
{
    match e.details {
        None => {
            assert(enc_error(e) + extra =~= enc_kind(e.kind) + (seq![0u8] + extra));
            lemma_dec_enc_kind(e.kind, seq![0u8] + extra);
            assert((seq![0u8] + extra).drop_first() =~= extra);
            assert(e == ErrorVal { kind: e.kind, details: None });
        },
        Some(v) => {
            let rest = seq![1u8] + (enc_val(v) + extra);
            assert(enc_error(e) + extra =~= enc_kind(e.kind) + rest);
            lemma_dec_enc_kind(e.kind, rest);
            assert(rest.drop_first() =~= enc_val(v) + extra);
            lemma_dec_enc_val(v, extra);
            assert(e == ErrorVal { kind: e.kind, details: Some(v) });
        },
    }
}

pub proof fn lemma_dec_enc_outcome(o: OutcomeVal, extra: Seq<u8>)
    requires
        outcome_wf(o),
    ensures
        dec_outcome(enc_outcome(o) + extra) == Some((o, extra)),
{
    let b = enc_outcome(o) + extra;
    match o {
        OutcomeVal::Success(v) => {
            assert(b.drop_first() =~= enc_val(v) + extra);
            lemma_dec_enc_val(v, extra);
        },
        OutcomeVal::NotHandled => {
            assert(b.drop_first() =~= extra);
        },
        OutcomeVal::Failure(e) => {
            assert(b.drop_first() =~= enc_error(e) + extra);
            lemma_dec_enc_error(e, extra);
        },
    }
}

/// Round-trip fidelity of the codec: decoding an encoded well-formed
/// message yields exactly that message, and consumes exactly its bytes.
#[verifier::rlimit(80)]
pub proof fn lemma_dec_enc_message(m: MessageVal, extra: Seq<u8>)
    requires
        message_wf(m),
    ensures
        dec_message(enc_message(m) + extra) == Some((m, extra)),
{
    let b = enc_message(m) + extra;
    match m {
        MessageVal::Request { id, method, payload } => {
            let r2 = enc_val(payload) + extra;
            let r1 = enc_text(method) + r2;
            assert(b.drop_first() =~= enc_u64(id) + r1);
            lemma_dec_enc_u64(id, r1);
            lemma_dec_enc_text(method, r2);
            lemma_dec_enc_val(payload, extra);
        },
        MessageVal::Response { id, outcome } => {
            let r1 = enc_outcome(outcome) + extra;
            assert(b.drop_first() =~= enc_u64(id) + r1);
            lemma_dec_enc_u64(id, r1);
            lemma_dec_enc_outcome(outcome, extra);
        },
    }
}

/// The law with no trailing bytes: `decode(encode(m)) == m`.
pub proof fn lemma_round_trip(m: MessageVal)
    requires
        message_wf(m),
    ensures
        dec_message(enc_message(m)) == Some((m, Seq::<u8>::empty())),
{
    lemma_dec_enc_message(m, Seq::empty());
    assert(enc_message(m) + Seq::<u8>::empty() =~= enc_message(m));
}

// ---------------------------------------------------------------------
// Executable encoding
// ---------------------------------------------------------------------

proof fn lemma_enc_chars_snoc(s: Seq<char>, c: char)
    ensures
        enc_chars(s.push(c)) == enc_chars(s) + spec_u32_to_le_bytes(c as u32),
    decreases s.len(),
{
    if s.len() == 0 {
        assert(s.push(c).drop_first() =~= Seq::<char>::empty());
        assert(enc_chars(s) + spec_u32_to_le_bytes(c as u32) =~= spec_u32_to_le_bytes(c as u32)
            + enc_chars(s.push(c).drop_first()));
    } else {
        assert(s.push(c).drop_first() =~= s.drop_first().push(c));
        lemma_enc_chars_snoc(s.drop_first(), c);
        assert(spec_u32_to_le_bytes(s[0] as u32) + (enc_chars(s.drop_first()) + spec_u32_to_le_bytes(
            c as u32,
        )) =~= enc_chars(s) + spec_u32_to_le_bytes(c as u32));
    }
}

proof fn lemma_enc_vals_snoc(s: Seq<Val>, v: Val)
    ensures
        enc_vals(s.push(v)) == enc_vals(s) + enc_val(v),
    decreases s.len(),
{
    if s.len() == 0 {
        assert(s.push(v).drop_first() =~= Seq::<Val>::empty());
        assert(enc_vals(s) + enc_val(v) =~= enc_val(v) + enc_vals(s.push(v).drop_first()));
    } else {
        assert(s.push(v).drop_first() =~= s.drop_first().push(v));
        lemma_enc_vals_snoc(s.drop_first(), v);
        assert(enc_val(s[0]) + (enc_vals(s.drop_first()) + enc_val(v)) =~= enc_vals(s) + enc_val(
            v,
        ));
    }
}

proof fn lemma_enc_fields_snoc(s: Seq<(Seq<char>, Val)>, kv: (Seq<char>, Val))
    ensures
        enc_fields(s.push(kv)) == enc_fields(s) + enc_text(kv.0) + enc_val(kv.1),
    decreases s.len(),
{
    if s.len() == 0 {
        assert(s.push(kv).drop_first() =~= Seq::<(Seq<char>, Val)>::empty());
        assert(enc_fields(s) + enc_text(kv.0) + enc_val(kv.1) =~= enc_text(kv.0) + enc_val(kv.1)
            + enc_fields(s.push(kv).drop_first()));
    } else {
        assert(s.push(kv).drop_first() =~= s.drop_first().push(kv));
        lemma_enc_fields_snoc(s.drop_first(), kv);
        assert(enc_text(s[0].0) + enc_val(s[0].1) + (enc_fields(s.drop_first()) + enc_text(kv.0)
            + enc_val(kv.1)) =~= enc_fields(s) + enc_text(kv.0) + enc_val(kv.1));
    }
}

fn push_u64(out: &mut Vec<u8>, n: u64)
    ensures
        final(out)@ == old(out)@ + enc_u64(n),
{
    let mut bytes = vstd::bytes::u64_to_le_bytes(n);
    out.append(&mut bytes);
}

fn push_u32(out: &mut Vec<u8>, u: u32)
    ensures
        final(out)@ == old(out)@ + spec_u32_to_le_bytes(u),
{
    let mut bytes = vstd::bytes::u32_to_le_bytes(u);
    out.append(&mut bytes);
}

fn push_text(out: &mut Vec<u8>, s: &str)
    ensures
        final(out)@ == old(out)@ + enc_text(s@),
{
    let n: usize = s.unicode_len();
    push_u64(out, n as u64);
    let mut i: usize = 0;
    while i < n
        invariant
            i <= n,
            n == s@.len(),
            out@ == old(out)@ + enc_u64(n as u64) + enc_chars(s@.take(i as int)),
        decreases n - i,
    {
        let c: char = s.get_char(i);
        proof {
            lemma_enc_chars_snoc(s@.take(i as int), c);
            assert(s@.take(i as int + 1) =~= s@.take(i as int).push(s@[i as int]));
            assert(old(out)@ + enc_u64(n as u64) + enc_chars(s@.take(i as int))
                + spec_u32_to_le_bytes(c as u32) =~= old(out)@ + enc_u64(n as u64) + enc_chars(
                s@.take(i as int + 1),
            ));
        }
        push_u32(out, c as u32);
        i = i + 1;
    }
    proof {
        assert(s@.take(n as int) =~= s@);
    }
}

#[verifier::loop_isolation(false)]
fn push_value(out: &mut Vec<u8>, v: &Value)
    ensures
        final(out)@ == old(out)@ + enc_val(v@),
    decreases v,
{
    match v {
        Value::Null => {
            out.push(0u8);
            proof {
                assert(old(out)@.push(0u8) =~= old(out)@ + enc_val(v@));
            }
        },
        Value::Bool(b) => {
            let tag: u8 = if *b {
                2
            } else {
                1
            };
            out.push(tag);
            proof {
                assert(old(out)@.push(tag) =~= old(out)@ + enc_val(v@));
            }
        },
        Value::Uint(n) => {
            out.push(3u8);
            proof {
                assert(old(out)@.push(3u8) =~= old(out)@ + seq![3u8]);
            }
            push_u64(out, *n);
            proof {
                assert(old(out)@ + seq![3u8] + enc_u64(*n) =~= old(out)@ + enc_val(v@));
            }
        },
        Value::Text(s) => {
            out.push(4u8);
            proof {
                assert(old(out)@.push(4u8) =~= old(out)@ + seq![4u8]);
            }
            push_text(out, s.as_str());
            proof {
                assert(old(out)@ + seq![4u8] + enc_text(s@) =~= old(out)@ + enc_val(v@));
            }
        },
        Value::List(elems) => {
            let n: usize = elems.len();
            out.push(5u8);
            proof {
                assert(old(out)@.push(5u8) =~= old(out)@ + seq![5u8]);
            }
            push_u64(out, n as u64);
            let ghost vs = views_of_vals(elems@);
            let mut i: usize = 0;
            while i < n
                invariant
                    i <= n,
                    n == elems.len(),
                    vs == views_of_vals(elems@),
                    vs.len() == n,
                    out@ == old(out)@ + seq![5u8] + enc_u64(n as u64) + enc_vals(vs.take(i as int)),
                decreases n - i,
            {
                proof {
                    lemma_enc_vals_snoc(vs.take(i as int), vs[i as int]);
                    assert(vs.take(i as int + 1) =~= vs.take(i as int).push(vs[i as int]));
                }
                let ghost pre = out@;
                push_value(out, &elems[i]);
                proof {
                    assert(elems[i as int]@ == vs[i as int]);
                    assert(pre + enc_val(vs[i as int]) =~= old(out)@ + seq![5u8] + enc_u64(n as u64)
                        + enc_vals(vs.take(i as int + 1)));
                }
                i = i + 1;
            }
            proof {
                assert(vs.take(n as int) =~= vs);
            }
        },
        Value::Record(fields) => {
            let n: usize = fields.len();
            out.push(6u8);
            proof {
                assert(old(out)@.push(6u8) =~= old(out)@ + seq![6u8]);
            }
            push_u64(out, n as u64);
            let ghost fs = views_of_fields(fields@);
            let mut i: usize = 0;
            while i < n
                invariant
                    i <= n,
                    n == fields.len(),
                    fs == views_of_fields(fields@),
                    fs.len() == n,
                    out@ == old(out)@ + seq![6u8] + enc_u64(n as u64) + enc_fields(
                        fs.take(i as int),
                    ),
                decreases n - i,
            {
                proof {
                    lemma_enc_fields_snoc(fs.take(i as int), fs[i as int]);
                    assert(fs.take(i as int + 1) =~= fs.take(i as int).push(fs[i as int]));
                }
                let ghost pre = out@;
                push_text(out, fields[i].0.as_str());
                push_value(out, &fields[i].1);
                proof {
                    assert((fields[i as int].0@, fields[i as int].1@) == fs[i as int]);
                    assert(pre + enc_text(fs[i as int].0) + enc_val(fs[i as int].1) =~= old(out)@
                        + seq![6u8] + enc_u64(n as u64) + enc_fields(fs.take(i as int + 1)));
                }
                i = i + 1;
            }
            proof {
                assert(fs.take(n as int) =~= fs);
            }
        },
    }
}

fn push_kind(out: &mut Vec<u8>, k: &ErrorKind)
    ensures
        final(out)@ == old(out)@ + enc_kind(*k),
{
    match k {
        ErrorKind::Io(r) => {
            let tag: u8 = enc_reason_byte(*r);
            out.push(0u8);
            out.push(tag);
            proof {
                assert(old(out)@.push(0u8).push(tag) =~= old(out)@ + enc_kind(*k));
            }
        },
        ErrorKind::Disconnected => {
            out.push(1u8);
            proof {
                assert(old(out)@.push(1u8) =~= old(out)@ + enc_kind(*k));
            }
        },
        ErrorKind::Decoding => {
            out.push(2u8);
            proof {
                assert(old(out)@.push(2u8) =~= old(out)@ + enc_kind(*k));
            }
        },
        ErrorKind::InvalidArgs => {
            out.push(3u8);
            proof {
                assert(old(out)@.push(3u8) =~= old(out)@ + enc_kind(*k));
            }
        },
        ErrorKind::Domain => {
            out.push(4u8);
            proof {
                assert(old(out)@.push(4u8) =~= old(out)@ + enc_kind(*k));
            }
        },
    }
}

fn enc_reason_byte(r: IoReason) -> (t: u8)
    ensures
        t == enc_reason(r),
{
    match r {
        IoReason::NotFound => 0,
        IoReason::PermissionDenied => 1,
        IoReason::ConnectionRefused => 2,
        IoReason::ConnectionReset => 3,
        IoReason::ConnectionAborted => 4,
        IoReason::NotConnected => 5,
        IoReason::AddrInUse => 6,
        IoReason::AddrNotAvailable => 7,
        IoReason::BrokenPipe => 8,
        IoReason::AlreadyExists => 9,
        IoReason::WouldBlock => 10,
        IoReason::InvalidInput => 11,
        IoReason::InvalidData => 12,
        IoReason::TimedOut => 13,
        IoReason::WriteZero => 14,
        IoReason::Interrupted => 15,
        IoReason::Unknown => 16,
    }
}

fn push_error(out: &mut Vec<u8>, e: &Error)
    ensures
        final(out)@ == old(out)@ + enc_error(e@),
{
    push_kind(out, &e.kind);
    match &e.details {
        None => {
            out.push(0u8);
            proof {
                assert((old(out)@ + enc_kind(e.kind)).push(0u8) =~= old(out)@ + enc_error(e@));
            }
        },
        Some(v) => {
            out.push(1u8);
            proof {
                assert((old(out)@ + enc_kind(e.kind)).push(1u8) =~= old(out)@ + enc_kind(e.kind)
                    + seq![1u8]);
            }
            push_value(out, v);
            proof {
                assert(old(out)@ + enc_kind(e.kind) + seq![1u8] + enc_val(v@) =~= old(out)@
                    + enc_error(e@));
            }
        },
    }
}

fn push_outcome(out: &mut Vec<u8>, o: &Outcome)
    ensures
        final(out)@ == old(out)@ + enc_outcome(o@),
{
    match o {
        Outcome::Success(v) => {
            out.push(0u8);
            proof {
                assert(old(out)@.push(0u8) =~= old(out)@ + seq![0u8]);
            }
            push_value(out, v);
            proof {
                assert(old(out)@ + seq![0u8] + enc_val(v@) =~= old(out)@ + enc_outcome(o@));
            }
        },
        Outcome::NotHandled => {
            out.push(1u8);
            proof {
                assert(old(out)@.push(1u8) =~= old(out)@ + enc_outcome(o@));
            }
        },
        Outcome::Failure(e) => {
            out.push(2u8);
            proof {
                assert(old(out)@.push(2u8) =~= old(out)@ + seq![2u8]);
            }
            push_error(out, e);
            proof {
                assert(old(out)@ + seq![2u8] + enc_error(e@) =~= old(out)@ + enc_outcome(o@));
            }
        },
    }
}

/// Encodes one message. Total: succeeds for every message.
pub fn encode_message(m: &Message) -> (out: Vec<u8>)
    ensures
        out@ == enc_message(m@),
{
    let mut out: Vec<u8> = Vec::new();
    match m {
        Message::Request { id, method, payload } => {
            out.push(0u8);
            proof {
                assert(Seq::<u8>::empty().push(0u8) =~= seq![0u8]);
            }
            push_u64(&mut out, *id);
            push_text(&mut out, method.as_str());
            push_value(&mut out, payload);
            proof {
                assert(seq![0u8] + enc_u64(*id) + enc_text(method@) + enc_val(payload@)
                    =~= enc_message(m@));
            }
        },
        Message::Response { id, outcome } => {
            out.push(1u8);
            proof {
                assert(Seq::<u8>::empty().push(1u8) =~= seq![1u8]);
            }
            push_u64(&mut out, *id);
            push_outcome(&mut out, outcome);
            proof {
                assert(seq![1u8] + enc_u64(*id) + enc_outcome(outcome@) =~= enc_message(m@));
            }
        },
    }
    out
}

// ---------------------------------------------------------------------
// Executable decoding
// ---------------------------------------------------------------------

/// Relies on core::char::from_u32: yields the character with the given
/// scalar value exactly when the value is a Unicode scalar.
#[verifier::external_body]
fn char_from_u32(u: u32) -> (r: Option<char>)
    ensures
        match r {
            Some(c) => c as u32 == u,
            None => !is_scalar(u),
        },
{
    char::from_u32(u)
}

/// Relies on alloc::string::String::push: appends one character.
#[verifier::external_body]
fn push_char(s: &mut String, c: char)
    ensures
        final(s)@ == old(s)@.push(c),
{
    s.push(c);
}

fn read_u64(data: &[u8], pos: usize) -> (r: Option<(u64, usize)>)
    requires
        pos <= data@.len(),
    ensures
        match r {
            Some((n, end)) => pos < end <= data@.len() && dec_u64(data@.skip(pos as int)) == Some(
                (n, data@.skip(end as int)),
            ),
            None => dec_u64(data@.skip(pos as int)) is None,
        },
{
    if data.len() - pos >= 8 {
        let s = slice_subrange(data, pos, pos + 8);
        let n = u64_from_le_bytes(s);
        proof {
            assert(data@.skip(pos as int).take(8) =~= data@.subrange(pos as int, pos as int + 8));
            assert(data@.skip(pos as int).skip(8) =~= data@.skip(pos as int + 8));
        }
        Some((n, pos + 8))
    } else {
        None
    }
}

fn read_char(data: &[u8], pos: usize) -> (r: Option<(char, usize)>)
    requires
        pos <= data@.len(),
    ensures
        match r {
            Some((c, end)) => pos < end <= data@.len() && dec_char(data@.skip(pos as int)) == Some(
                (c, data@.skip(end as int)),
            ),
            None => dec_char(data@.skip(pos as int)) is None,
        },
{
    if data.len() - pos >= 4 {
        let s = slice_subrange(data, pos, pos + 4);
        let u = u32_from_le_bytes(s);
        proof {
            assert(data@.skip(pos as int).take(4) =~= data@.subrange(pos as int, pos as int + 4));
            assert(data@.skip(pos as int).skip(4) =~= data@.skip(pos as int + 4));
        }
        match char_from_u32(u) {
            Some(c) => {
                proof {
                    vstd::utf8::char_is_scalar(c);
                    vstd::utf8::char_u32_cast(c, u);
                }
                Some((c, pos + 4))
            },
            None => None,
        }
    } else {
        None
    }
}

fn read_text(data: &[u8], pos: usize) -> (r: Option<(String, usize)>)
    requires
        pos <= data@.len(),
    ensures
        match r {
            Some((s, end)) => pos < end <= data@.len() && dec_text(data@.skip(pos as int)) == Some(
                (s@, data@.skip(end as int)),
            ),
            None => dec_text(data@.skip(pos as int)) is None,
        },
{
    match read_u64(data, pos) {
        Some((n, start)) => {
            let mut acc = String::new();
            let mut cur: usize = start;
            let mut j: u64 = 0;
            proof {
                match dec_chars(n as nat, data@.skip(start as int)) {
                    Some((s2, r2)) => {
                        assert(Seq::<char>::empty() + s2 =~= s2);
                    },
                    None => {},
                }
            }
            while j < n
                invariant
                    j <= n,
                    pos < cur <= data@.len(),
                    dec_text(data@.skip(pos as int)) == (match dec_chars(
                        (n - j) as nat,
                        data@.skip(cur as int),
                    ) {
                        Some((s2, r2)) => Some::<(Seq<char>, Seq<u8>)>((acc@ + s2, r2)),
                        None => None::<(Seq<char>, Seq<u8>)>,
                    }),
                decreases n - j,
            {
                match read_char(data, cur) {
                    Some((c, cur2)) => {
                        proof {
                            match dec_chars((n - j - 1) as nat, data@.skip(cur2 as int)) {
                                Some((s2, r2)) => {
                                    assert(acc@.push(c) + s2 =~= acc@ + (seq![c] + s2));
                                },
                                None => {},
                            }
                        }
                        push_char(&mut acc, c);
                        j = j + 1;
                        cur = cur2;
                    },
                    None => {
                        return None;
                    },
                }
            }
            proof {
                assert(acc@ + Seq::<char>::empty() =~= acc@);
            }
            Some((acc, cur))
        },
        None => None,
    }
}

#[verifier::loop_isolation(false)]
#[verifier::rlimit(50)]
fn read_value(data: &[u8], pos: usize) -> (r: Option<(Value, usize)>)
    requires
        pos <= data@.len(),
    ensures
        match r {
            Some((v, end)) => pos < end <= data@.len() && dec_val(data@.skip(pos as int)) == Some(
                (v@, data@.skip(end as int)),
            ),
            None => dec_val(data@.skip(pos as int)) is None,
        },
    decreases data@.len() - pos,
{
    if pos >= data.len() {
        proof {
            assert(data@.skip(pos as int).len() == 0);
        }
        return None;
    }
    let tag: u8 = *slice_index_get(data, pos);
    proof {
        assert(data@.skip(pos as int)[0] == data@[pos as int]);
        assert(data@.skip(pos as int).drop_first() =~= data@.skip(pos as int + 1));
    }
    if tag == 0 {
        Some((Value::Null, pos + 1))
    } else if tag == 1 {
        Some((Value::Bool(false), pos + 1))
    } else if tag == 2 {
        Some((Value::Bool(true), pos + 1))
    } else if tag == 3 {
        match read_u64(data, pos + 1) {
            Some((n, end)) => Some((Value::Uint(n), end)),
            None => None,
        }
    } else if tag == 4 {
        match read_text(data, pos + 1) {
            Some((s, end)) => Some((Value::Text(s), end)),
            None => None,
        }
    } else if tag == 5 {
        match read_u64(data, pos + 1) {
            Some((n, start)) => {
                let mut elems: Vec<Value> = Vec::new();
                let mut cur: usize = start;
                let mut j: u64 = 0;
                proof {
                    assert(views_of_vals(elems@) =~= Seq::<Val>::empty());
                    match dec_vals(n as nat, data@.skip(start as int)) {
                        Some((s2, r2)) => {
                            assert(Seq::<Val>::empty() + s2 =~= s2);
                        },
                        None => {},
                    }
                }
                while j < n
                    invariant
                        j <= n,
                        pos < start <= cur <= data@.len(),
                        dec_vals(n as nat, data@.skip(start as int)) == (match dec_vals(
                            (n - j) as nat,
                            data@.skip(cur as int),
                        ) {
                            Some((s2, r2)) => Some::<(Seq<Val>, Seq<u8>)>(
                                (views_of_vals(elems@) + s2, r2),
                            ),
                            None => None::<(Seq<Val>, Seq<u8>)>,
                        }),
                    decreases n - j,
                {
                    match read_value(data, cur) {
                        Some((v, cur2)) => {
                            proof {
                                assert(views_of_vals(elems@.push(v)) =~= views_of_vals(
                                    elems@,
                                ).push(v@));
                                match dec_vals((n - j - 1) as nat, data@.skip(cur2 as int)) {
                                    Some((s2, r2)) => {
                                        assert(views_of_vals(elems@).push(v@) + s2
                                            =~= views_of_vals(elems@) + (seq![v@] + s2));
                                    },
                                    None => {},
                                }
                            }
                            elems.push(v);
                            j = j + 1;
                            cur = cur2;
                        },
                        None => {
                            return None;
                        },
                    }
                }
                proof {
                    assert(views_of_vals(elems@) + Seq::<Val>::empty() =~= views_of_vals(elems@));
                }
                Some((Value::List(elems), cur))
            },
            None => None,
        }
    } else if tag == 6 {
        match read_u64(data, pos + 1) {
            Some((n, start)) => {
                let mut fields: Vec<(String, Value)> = Vec::new();
                let mut cur: usize = start;
                let mut j: u64 = 0;
                proof {
                    assert(views_of_fields(fields@) =~= Seq::<(Seq<char>, Val)>::empty());
                    match dec_fields(n as nat, data@.skip(start as int)) {
                        Some((s2, r2)) => {
                            assert(Seq::<(Seq<char>, Val)>::empty() + s2 =~= s2);
                        },
                        None => {},
                    }
                }
                while j < n
                    invariant
                        j <= n,
                        pos < start <= cur <= data@.len(),
                        dec_fields(n as nat, data@.skip(start as int)) == (match dec_fields(
                            (n - j) as nat,
                            data@.skip(cur as int),
                        ) {
                            Some((s2, r2)) => Some::<(Seq<(Seq<char>, Val)>, Seq<u8>)>(
                                (views_of_fields(fields@) + s2, r2),
                            ),
                            None => None::<(Seq<(Seq<char>, Val)>, Seq<u8>)>,
                        }),
                    decreases n - j,
                {
                    match read_text(data, cur) {
                        Some((key, mid)) => {
                            match read_value(data, mid) {
                                Some((v, cur2)) => {
                                    proof {
                                        assert(views_of_fields(fields@.push((key, v)))
                                            =~= views_of_fields(fields@).push((key@, v@)));
                                        match dec_fields(
                                            (n - j - 1) as nat,
                                            data@.skip(cur2 as int),
                                        ) {
                                            Some((s2, r2)) => {
                                                assert(views_of_fields(fields@).push((key@, v@))
                                                    + s2 =~= views_of_fields(fields@) + (seq![
                                                    (key@, v@),
                                                ] + s2));
                                            },
                                            None => {},
                                        }
                                    }
                                    fields.push((key, v));
                                    j = j + 1;
                                    cur = cur2;
                                },
                                None => {
                                    return None;
                                },
                            }
                        },
                        None => {
                            return None;
                        },
                    }
                }
                proof {
                    assert(views_of_fields(fields@) + Seq::<(Seq<char>, Val)>::empty()
                        =~= views_of_fields(fields@));
                }
                Some((Value::Record(fields), cur))
            },
            None => None,
        }
    } else {
        None
    }
}

fn byte_reason(t: u8) -> (r: Option<IoReason>)
    ensures
        r == dec_reason(t),
{
    if t == 0 {
        Some(IoReason::NotFound)
    } else if t == 1 {
        Some(IoReason::PermissionDenied)
    } else if t == 2 {
        Some(IoReason::ConnectionRefused)
    } else if t == 3 {
        Some(IoReason::ConnectionReset)
    } else if t == 4 {
        Some(IoReason::ConnectionAborted)
    } else if t == 5 {
        Some(IoReason::NotConnected)
    } else if t == 6 {
        Some(IoReason::AddrInUse)
    } else if t == 7 {
        Some(IoReason::AddrNotAvailable)
    } else if t == 8 {
        Some(IoReason::BrokenPipe)
    } else if t == 9 {
        Some(IoReason::AlreadyExists)
    } else if t == 10 {
        Some(IoReason::WouldBlock)
    } else if t == 11 {
        Some(IoReason::InvalidInput)
    } else if t == 12 {
        Some(IoReason::InvalidData)
    } else if t == 13 {
        Some(IoReason::TimedOut)
    } else if t == 14 {
        Some(IoReason::WriteZero)
    } else if t == 15 {
        Some(IoReason::Interrupted)
    } else if t == 16 {
        Some(IoReason::Unknown)
    } else {
        None
    }
}

fn read_kind(data: &[u8], pos: usize) -> (r: Option<(ErrorKind, usize)>)
    requires
        pos <= data@.len(),
    ensures
        match r {
            Some((k, end)) => pos < end <= data@.len() && dec_kind(data@.skip(pos as int)) == Some(
                (k, data@.skip(end as int)),
            ),
            None => dec_kind(data@.skip(pos as int)) is None,
        },
{
    if pos >= data.len() {
        proof {
            assert(data@.skip(pos as int).len() == 0);
        }
        return None;
    }
    let tag: u8 = *slice_index_get(data, pos);
    proof {
        assert(data@.skip(pos as int)[0] == data@[pos as int]);
        assert(data@.skip(pos as int).drop_first() =~= data@.skip(pos as int + 1));
    }
    if tag == 0 {
        if pos + 1 >= data.len() {
            proof {
                assert(data@.skip(pos as int + 1).len() == 0);
            }
            return None;
        }
        let t: u8 = *slice_index_get(data, pos + 1);
        proof {
            assert(data@.skip(pos as int + 1)[0] == data@[pos as int + 1]);
            assert(data@.skip(pos as int + 1).drop_first() =~= data@.skip(pos as int + 2));
        }
        match byte_reason(t) {
            Some(reason) => Some((ErrorKind::Io(reason), pos + 2)),
            None => None,
        }
    } else if tag == 1 {
        Some((ErrorKind::Disconnected, pos + 1))
    } else if tag == 2 {
        Some((ErrorKind::Decoding, pos + 1))
    } else if tag == 3 {
        Some((ErrorKind::InvalidArgs, pos + 1))
    } else if tag == 4 {
        Some((ErrorKind::Domain, pos + 1))
    } else {
        None
    }
}

fn read_error(data: &[u8], pos: usize) -> (r: Option<(Error, usize)>)
    requires
        pos <= data@.len(),
    ensures
        match r {
            Some((e, end)) => pos < end <= data@.len() && dec_error(data@.skip(pos as int)) == Some(
                (e@, data@.skip(end as int)),
            ),
            None => dec_error(data@.skip(pos as int)) is None,
        },
{
    match read_kind(data, pos) {
        Some((kind, mid)) => {
            if mid >= data.len() {
                proof {
                    assert(data@.skip(mid as int).len() == 0);
                }
                return None;
            }
            let tag: u8 = *slice_index_get(data, mid);
            proof {
                assert(data@.skip(mid as int)[0] == data@[mid as int]);
                assert(data@.skip(mid as int).drop_first() =~= data@.skip(mid as int + 1));
            }
            if tag == 0 {
                Some((Error { kind, details: None }, mid + 1))
            } else if tag == 1 {
                match read_value(data, mid + 1) {
                    Some((v, end)) => Some((Error { kind, details: Some(v) }, end)),
                    None => None,
                }
            } else {
                None
            }
        },
        None => None,
    }
}

fn read_outcome(data: &[u8], pos: usize) -> (r: Option<(Outcome, usize)>)
    requires
        pos <= data@.len(),
    ensures
        match r {
            Some((o, end)) => pos < end <= data@.len() && dec_outcome(data@.skip(pos as int))
                == Some((o@, data@.skip(end as int))),
            None => dec_outcome(data@.skip(pos as int)) is None,
        },
{
    if pos >= data.len() {
        proof {
            assert(data@.skip(pos as int).len() == 0);
        }
        return None;
    }
    let tag: u8 = *slice_index_get(data, pos);
    proof {
        assert(data@.skip(pos as int)[0] == data@[pos as int]);
        assert(data@.skip(pos as int).drop_first() =~= data@.skip(pos as int + 1));
    }
    if tag == 0 {
        match read_value(data, pos + 1) {
            Some((v, end)) => Some((Outcome::Success(v), end)),
            None => None,
        }
    } else if tag == 1 {
        Some((Outcome::NotHandled, pos + 1))
    } else if tag == 2 {
        match read_error(data, pos + 1) {
            Some((e, end)) => Some((Outcome::Failure(e), end)),
            None => None,
        }
    } else {
        None
    }
}

/// Decodes one message starting at `pos`. On success the returned
/// position is just past the message's last byte.
pub fn decode_message_at(data: &[u8], pos: usize) -> (r: Option<(Message, usize)>)
    requires
        pos <= data@.len(),
    ensures
        match r {
            Some((m, end)) => pos < end <= data@.len() && dec_message(data@.skip(pos as int))
                == Some((m@, data@.skip(end as int))),
            None => dec_message(data@.skip(pos as int)) is None,
        },
{
    if pos >= data.len() {
        proof {
            assert(data@.skip(pos as int).len() == 0);
        }
        return None;
    }
    let tag: u8 = *slice_index_get(data, pos);
    proof {
        assert(data@.skip(pos as int)[0] == data@[pos as int]);
        assert(data@.skip(pos as int).drop_first() =~= data@.skip(pos as int + 1));
    }
    if tag == 0 {
        match read_u64(data, pos + 1) {
            Some((id, r1)) => match read_text(data, r1) {
                Some((method, r2)) => match read_value(data, r2) {
                    Some((payload, end)) => Some((Message::Request { id, method, payload }, end)),
                    None => None,
                },
                None => None,
            },
            None => None,
        }
    } else if tag == 1 {
        match read_u64(data, pos + 1) {
            Some((id, r1)) => match read_outcome(data, r1) {
                Some((outcome, end)) => Some((Message::Response { id, outcome }, end)),
                None => None,
            },
            None => None,
        }
    } else {
        None
    }
}

// ---------------------------------------------------------------------
// Framing on the stream
// ---------------------------------------------------------------------

/// What a decode attempt on a receive buffer can yield.
pub enum FrameStatus {
    /// A whole valid frame: the message and the bytes it took.
    Complete(MessageVal, int),
    /// The buffer does not yet hold a whole frame.
    NeedMoreBytes,
    /// The bytes at the head of the buffer are not a valid frame.
    CorruptFraming,
}

pub open spec fn dec_frame(b: Seq<u8>) -> FrameStatus {
    if b.len() < 8 {
        FrameStatus::NeedMoreBytes
    } else {
        let len = spec_u64_from_le_bytes(b.take(8));
        if b.len() < 8 + len {
            FrameStatus::NeedMoreBytes
        } else {
            match dec_message(b.subrange(8, 8 + len)) {
                Some((m, rest)) => if rest.len() == 0 {
                    FrameStatus::Complete(m, 8 + len)
                } else {
                    FrameStatus::CorruptFraming
                },
                None => FrameStatus::CorruptFraming,
            }
        }
    }
}

/// The executable mirror of `FrameStatus`.
#[derive(Debug, PartialEq, Eq)]
pub enum FrameDecode {
    Complete(Message, usize),
    NeedMoreBytes,
    CorruptFraming,
}

/// Tries to take one whole frame off the head of a receive buffer.
pub fn decode_frame(data: &[u8]) -> (r: FrameDecode)
    ensures
        match dec_frame(data@) {
            FrameStatus::Complete(mv, used) => (r matches FrameDecode::Complete(m2, u2) && m2@
                == mv && u2 == used),
            FrameStatus::NeedMoreBytes => r is NeedMoreBytes,
            FrameStatus::CorruptFraming => r is CorruptFraming,
        },
{
    if data.len() < 8 {
        return FrameDecode::NeedMoreBytes;
    }
    let len64 = u64_from_le_bytes(slice_subrange(data, 0, 8));
    proof {
        assert(data@.take(8) =~= data@.subrange(0, 8));
    }
    if ((data.len() - 8) as u64) < len64 {
        return FrameDecode::NeedMoreBytes;
    }
    let len: usize = len64 as usize;
    let end: usize = 8 + len;
    let frame = slice_subrange(data, 8, end);
    proof {
        assert(frame@.skip(0) =~= frame@);
    }
    match decode_message_at(frame, 0) {
        Some((m, used)) => {
            if used == len {
                proof {
                    assert(frame@.skip(used as int).len() == 0);
                }
                FrameDecode::Complete(m, end)
            } else {
                proof {
                    assert(frame@.skip(used as int).len() > 0);
                }
                FrameDecode::CorruptFraming
            }
        },
        None => FrameDecode::CorruptFraming,
    }
}

/// The receive side of a connection: bytes arrive in arbitrary chunks,
/// and whole frames are peeled off the front as soon as they are
/// complete. Partial frames wait for more bytes; a corrupt frame is
/// reported and left in place, for the connection to tear down.
pub struct RecvBuffer {
    pub data: Vec<u8>,
}

impl RecvBuffer {
    pub fn new() -> (r: RecvBuffer)
        ensures
            r.data@ == Seq::<u8>::empty(),
    {
        RecvBuffer { data: Vec::new() }
    }

    /// Appends what the socket read.
    pub fn extend(&mut self, bytes: &[u8])
        ensures
            final(self).data@ == old(self).data@ + bytes@,
    {
        self.data.extend_from_slice(bytes);
    }

    /// Takes one whole frame off the front, if one is complete: the
    /// decoded message, with its bytes consumed. Anything else leaves
    /// the buffer as it is.
    pub fn next_message(&mut self) -> (r: FrameDecode)
        ensures
            match dec_frame(old(self).data@) {
                FrameStatus::Complete(mv, used) => (r matches FrameDecode::Complete(m, u) && m@
                    == mv && u == used) && final(self).data@ == old(self).data@.skip(used),
                FrameStatus::NeedMoreBytes => r is NeedMoreBytes && final(self).data@ == old(
                    self,
                ).data@,
                FrameStatus::CorruptFraming => r is CorruptFraming && final(self).data@ == old(
                    self,
                ).data@,
            },
    {
        let r = decode_frame(self.data.as_slice());
        match r {
            FrameDecode::Complete(_, used) => {
                let tail = self.data.split_off(used);
                self.data = tail;
            },
            _ => {},
        }
        r
    }
}

/// Round trip through the stream: with any bytes following it in the
/// buffer, an encoded frame decodes back to its message and consumes
/// exactly its own bytes.
pub proof fn lemma_frame_round_trip(m: MessageVal, extra: Seq<u8>)
    requires
        message_wf(m),
        enc_message(m).len() <= u64::MAX,
    ensures
        dec_frame(enc_frame(m) + extra) == FrameStatus::Complete(
            m,
            8 + enc_message(m).len() as int,
        ),
{
    let body = enc_message(m);
    let b = enc_frame(m) + extra;
    lemma_auto_spec_u64_to_from_le_bytes();
    assert(b.take(8) =~= enc_u64(body.len() as u64));
    assert(b.subrange(8, 8 + body.len() as int) =~= body);
    lemma_round_trip(m);
}

/// Encodes one message with its length prefix, ready for the stream.
pub fn encode_frame(m: &Message) -> (out: Vec<u8>)
    ensures
        out@ == enc_frame(m@),
{
    let mut body = encode_message(m);
    let mut out: Vec<u8> = Vec::new();
    push_u64(&mut out, body.len() as u64);
    out.append(&mut body);
    proof {
        assert(Seq::<u8>::empty() + enc_u64(enc_message(m@).len() as u64) + enc_message(m@)
            =~= enc_frame(m@));
    }
    out
}

} // verus!
