//! The messages that cross the wire: requests carrying a method name and
//! a payload, and responses carrying exactly one terminal outcome. A
//! notification is a request whose sender does not await the response.

use vstd::prelude::*;
use crate::value::{Val, Value};
use crate::error::{Error, ErrorVal};

verus! {

/// The terminal outcome of one request: a success payload, a decline
/// ("try the next handler"), or a structured failure. These outcomes
/// exhaust the observable result space of any call.
#[derive(Debug, PartialEq, Eq)]
pub enum Outcome {
    Success(Value),
    NotHandled,
    Failure(Error),
}

/// The mathematical model of an `Outcome`.
pub enum OutcomeVal {
    Success(Val),
    NotHandled,
    Failure(ErrorVal),
}

impl View for Outcome {
    type V = OutcomeVal;

    open spec fn view(&self) -> OutcomeVal {
        match self {
            Outcome::Success(v) => OutcomeVal::Success(v@),
            Outcome::NotHandled => OutcomeVal::NotHandled,
            Outcome::Failure(e) => OutcomeVal::Failure(e@),
        }
    }
}

/// One wire message. A request is consumed exactly once by the
/// responder; a response correlates with its request by id alone.
#[derive(Debug, PartialEq, Eq)]
pub enum Message {
    Request { id: u64, method: String, payload: Value },
    Response { id: u64, outcome: Outcome },
}

/// The mathematical model of a `Message`.
pub enum MessageVal {
    Request { id: u64, method: Seq<char>, payload: Val },
    Response { id: u64, outcome: OutcomeVal },
}

impl View for Message {
    type V = MessageVal;

    open spec fn view(&self) -> MessageVal {
        match self {
            Message::Request { id, method, payload } => MessageVal::Request {
                id: *id,
                method: method@,
                payload: payload@,
            },
            Message::Response { id, outcome } => MessageVal::Response {
                id: *id,
                outcome: outcome@,
            },
        }
    }
}

} // verus!
