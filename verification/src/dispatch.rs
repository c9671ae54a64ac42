//! Dispatching one inbound request over its handler list: handlers are
//! tried in registration order, the first outcome other than NotHandled
//! wins and ends the dispatch, and exactly one response is produced —
//! also when no handler is registered or every handler declines. Each
//! handler speaks through a single-use `ServerContext`, so a second
//! completion attempt is rejected rather than delivered.

use vstd::prelude::*;
use crate::error::{Error, ErrorKind, ErrorVal};
use crate::message::{Message, Outcome, OutcomeVal};
use crate::value::{Val, Value};

verus! {

/// The failure answering a request whose method has no handler list.
pub open spec fn spec_unknown_method_error() -> ErrorVal {
    ErrorVal { kind: ErrorKind::Domain, details: Some(Val::Text("unknown_rpc"@)) }
}

/// The failure answering a request that every registered handler
/// declined. Distinct from the unknown-method failure.
pub open spec fn spec_all_declined_error() -> ErrorVal {
    ErrorVal { kind: ErrorKind::Domain, details: Some(Val::Text("not_handled"@)) }
}

pub fn unknown_method_error() -> (e: Error)
    ensures
        e@ == spec_unknown_method_error(),
{
    Error { kind: ErrorKind::Domain, details: Some(Value::Text("unknown_rpc".to_owned())) }
}

pub fn all_declined_error() -> (e: Error)
    ensures
        e@ == spec_all_declined_error(),
{
    Error { kind: ErrorKind::Domain, details: Some(Value::Text("not_handled".to_owned())) }
}

/// The outcome a dispatch settles on, given what each handler in
/// registration order would answer: the first answer other than
/// NotHandled; the all-declined failure when there is none.
pub open spec fn dispatch_result(answers: Seq<OutcomeVal>) -> OutcomeVal
    decreases answers.len(),
{
    if answers.len() == 0 {
        OutcomeVal::Failure(spec_all_declined_error())
    } else if !(answers[0] is NotHandled) {
        answers[0]
    } else {
        dispatch_result(answers.drop_first())
    }
}

/// Ordered fallback, in general: if the first `k` handlers decline and
/// handler `k` answers, its answer is the response — whatever any later
/// handler would have answered. In particular the handlers after `k`
/// are never consulted.
pub proof fn lemma_first_terminal_wins(answers: Seq<OutcomeVal>, k: int)
    requires
        0 <= k < answers.len(),
        !(answers[k] is NotHandled),
        forall|i: int| 0 <= i < k ==> answers[i] is NotHandled,
    ensures
        dispatch_result(answers) == answers[k],
    decreases k,
{
    if k > 0 {
        lemma_first_terminal_wins(answers.drop_first(), k - 1);
    }
}

/// When every handler declines, the dispatch answers the all-declined
/// failure — and a request with no handlers at all gets it too.
pub proof fn lemma_all_declined(answers: Seq<OutcomeVal>)
    requires
        forall|i: int| 0 <= i < answers.len() ==> answers[i] is NotHandled,
    ensures
        dispatch_result(answers) == OutcomeVal::Failure(spec_all_declined_error()),
    decreases answers.len(),
{
    if answers.len() > 0 {
        lemma_all_declined(answers.drop_first());
    }
}

/// Exactly one response: the outcome delivered for a request is fixed
/// by the handlers up to and including the first that answers; the
/// handlers after it contribute nothing and are never consulted, so no
/// second terminal outcome can ever reach the caller.
pub proof fn lemma_exactly_once_response(answers: Seq<OutcomeVal>, k: int)
    requires
        0 <= k < answers.len(),
        !(answers[k] is NotHandled),
        forall|i: int| 0 <= i < k ==> answers[i] is NotHandled,
    ensures
        dispatch_result(answers) == dispatch_result(answers.take(k + 1)),
        dispatch_result(answers) == answers[k],
{
    lemma_first_terminal_wins(answers, k);
    lemma_first_terminal_wins(answers.take(k + 1), k);
}

/// Ordered fallback with two handlers, as at a provider chain: H1
/// declines or answers, H2 always answers. A request H1 accepts is
/// answered by H1; one it declines is answered by H2.
pub proof fn lemma_ordered_fallback(a1: OutcomeVal, a2: OutcomeVal)
    requires
        !(a2 is NotHandled),
    ensures
        !(a1 is NotHandled) ==> dispatch_result(seq![a1, a2]) == a1,
        (a1 is NotHandled) ==> dispatch_result(seq![a1, a2]) == a2,
{
    let s = seq![a1, a2];
    assert(s[0] == a1 && s[1] == a2);
    if a1 is NotHandled {
        assert(s.drop_first() =~= seq![a2]);
        assert(seq![a2][0] == a2);
        assert(dispatch_result(seq![a2]) == a2);
    }
}

/// The single-use completion capability handed to a handler: the
/// handler delivers its terminal outcome through `finish`, exactly
/// once. The second attempt is rejected and changes nothing.
pub struct ServerContext {
    pub request_id: u64,
    pub slot: Option<Outcome>,
}

impl ServerContext {
    pub open spec fn unfinished(&self) -> bool {
        self.slot is None
    }

    pub open spec fn delivered(&self) -> Option<OutcomeVal> {
        match self.slot {
            Some(o) => Some(o@),
            None => None,
        }
    }

    pub fn new(request_id: u64) -> (r: ServerContext)
        ensures
            r.unfinished(),
            r.request_id == request_id,
    {
        ServerContext { request_id, slot: None }
    }

    /// Records the handler's terminal outcome. Callable at most once:
    /// a double finish is a handler bug, detected and rejected here, so
    /// it can never overwrite the outcome already delivered.
    pub fn finish(&mut self, outcome: Outcome) -> (r: Result<(), Error>)
        ensures
            old(self).unfinished() ==> r is Ok && final(self).delivered() == Some(outcome@),
            !old(self).unfinished() ==> r is Err && *final(self) == *old(self) && (r matches Err(e)
                && e@.kind == ErrorKind::Domain),
            final(self).request_id == old(self).request_id,
    {
        if self.slot.is_none() {
            self.slot = Some(outcome);
            Ok(())
        } else {
            Err(
                Error {
                    kind: ErrorKind::Domain,
                    details: Some(Value::Text("finish_called_twice".to_owned())),
                },
            )
        }
    }

    /// What the handler delivered, if anything; consumes the context.
    pub fn take(self) -> (r: Option<Outcome>)
        ensures
            match r {
                Some(o) => self.delivered() == Some(o@),
                None => self.unfinished(),
            },
    {
        self.slot
    }
}

/// One request's dispatch in progress: how many handlers its method
/// has, how many have answered, and the terminal outcome once decided.
pub struct Dispatch {
    pub request_id: u64,
    pub total: usize,
    pub tried: usize,
    pub decided: Option<Outcome>,
    pub answers: Ghost<Seq<OutcomeVal>>,
}

impl Dispatch {
    pub open spec fn wf(&self) -> bool {
        &&& self.tried <= self.total
        &&& self.answers@.len() == self.tried
        &&& (forall|i: int|
            0 <= i < self.answers@.len() - 1 ==> #[trigger] self.answers@[i] is NotHandled)
        &&& (match self.decided {
            Some(o) => {
                if self.total == 0 {
                    o@ == OutcomeVal::Failure(spec_unknown_method_error())
                } else {
                    o@ == dispatch_result(self.answers@) && (self.tried == self.total || (
                    self.answers@.len() > 0 && !(self.answers@.last() is NotHandled)))
                }
            },
            None => self.total > 0 && self.tried < self.total && (forall|i: int|
                0 <= i < self.answers@.len() ==> #[trigger] self.answers@[i] is NotHandled),
        })
    }

    pub open spec fn done(&self) -> bool {
        self.decided is Some
    }

    /// Starts a dispatch for a request over `total` handlers. With no
    /// handler list for the method, the response is immediately the
    /// unknown-method failure.
    pub fn new(request_id: u64, total: usize) -> (r: Dispatch)
        ensures
            r.wf(),
            r.request_id == request_id,
            r.total == total,
            r.tried == 0,
            r.answers@ == Seq::<OutcomeVal>::empty(),
            total == 0 ==> r.done() && (r.decided matches Some(o) && o@ == OutcomeVal::Failure(
                spec_unknown_method_error(),
            )),
            total > 0 ==> !r.done(),
    {
        if total == 0 {
            Dispatch {
                request_id,
                total,
                tried: 0,
                decided: Some(Outcome::Failure(unknown_method_error())),
                answers: Ghost(Seq::empty()),
            }
        } else {
            Dispatch { request_id, total, tried: 0, decided: None, answers: Ghost(Seq::empty()) }
        }
    }

    /// The index of the handler to consult next, in registration
    /// order; nothing once the dispatch is decided.
    pub fn next_handler(&self) -> (r: Option<usize>)
        requires
            self.wf(),
        ensures
            r == (if !self.done() {
                Some(self.tried)
            } else {
                None::<usize>
            }),
    {
        if self.decided.is_none() {
            Some(self.tried)
        } else {
            None
        }
    }

    /// Feeds what the handler delivered through its ServerContext —
    /// nothing means the handler returned without finishing, which is
    /// treated as declining, so the bus never hangs the caller. A
    /// NotHandled answer advances to the next handler; any other answer
    /// decides the dispatch; an exhausted list decides it with the
    /// all-declined failure.
    pub fn feed(&mut self, answer: Option<Outcome>)
        requires
            old(self).wf(),
            !old(self).done(),
        ensures
            final(self).wf(),
            final(self).request_id == old(self).request_id,
            final(self).total == old(self).total,
            final(self).tried == old(self).tried + 1,
            final(self).answers@ == old(self).answers@.push(feed_view(answer)),
            final(self).done() <==> (!(feed_view(answer) is NotHandled) || old(self).tried + 1
                == old(self).total),
    {
        let ghost a = feed_view(answer);
        proof {
            self.answers@ = self.answers@.push(a);
        }
        self.tried = self.tried + 1;
        match answer {
            Some(Outcome::NotHandled) | None => {
                if self.tried == self.total {
                    self.decided = Some(Outcome::Failure(all_declined_error()));
                    proof {
                        lemma_all_declined(self.answers@);
                    }
                }
            },
            Some(o) => {
                self.decided = Some(o);
                proof {
                    lemma_first_terminal_wins(self.answers@, self.answers@.len() - 1);
                }
            },
        }
        proof {
            assert(self.answers@.drop_last() =~= old(self).answers@);
        }
    }

    /// The response, once the dispatch is decided: exactly one, carrying
    /// the request's id and the decided outcome.
    pub fn response(self) -> (r: Option<Message>)
        requires
            self.wf(),
        ensures
            self.done() <==> r is Some,
            r matches Some(m) ==> m@ == (crate::message::MessageVal::Response {
                id: self.request_id,
                outcome: match self.decided {
                    Some(o) => o@,
                    None => OutcomeVal::NotHandled,
                },
            }),
    {
        match self.decided {
            Some(o) => Some(Message::Response { id: self.request_id, outcome: o }),
            None => None,
        }
    }
}

/// What a handler's ServerContext held when it returned, as the
/// dispatch records it: returning without finishing counts as declining.
pub open spec fn feed_view(answer: Option<Outcome>) -> OutcomeVal {
    match answer {
        Some(o) => o@,
        None => OutcomeVal::NotHandled,
    }
}

pub open spec fn outcome_views(s: Seq<Outcome>) -> Seq<OutcomeVal> {
    Seq::new(s.len(), |i: int| if 0 <= i < s.len() {
        s[i]@
    } else {
        OutcomeVal::NotHandled
    })
}

/// The dispatch loop over a whole handler list, as the receive loop
/// drives it: `answers[i]` is what handler `i` would deliver. Exactly
/// one response comes back, and its outcome is the dispatch result of
/// the answers — the first one that is not NotHandled.
pub fn run_dispatch(request_id: u64, answers: &Vec<Outcome>) -> (r: Message)
    ensures
        r@ == (crate::message::MessageVal::Response {
            id: request_id,
            outcome: if answers@.len() == 0 {
                OutcomeVal::Failure(spec_unknown_method_error())
            } else {
                dispatch_result(outcome_views(answers@))
            },
        }),
{
    let mut d = Dispatch::new(request_id, answers.len());
    let ghost views = outcome_views(answers@);
    loop
        invariant
            d.wf(),
            d.request_id == request_id,
            d.total == answers@.len(),
            d.answers@ =~= views.take(d.tried as int),
            views.len() == answers@.len(),
            forall|i: int| 0 <= i < views.len() ==> views[i] == answers@[i]@,
        ensures
            d.wf(),
            d.done(),
            d.request_id == request_id,
            d.total == answers@.len(),
            d.answers@ =~= views.take(d.tried as int),
        decreases answers@.len() - d.tried + (if d.done() {
            0int
        } else {
            1int
        }),
    {
        match d.next_handler() {
            Some(i) => {
                let mut ctx = ServerContext::new(request_id);
                let _ = ctx.finish(clone_outcome(&answers[i]));
                let delivered = ctx.take();
                proof {
                    assert(views.take(i as int + 1) =~= views.take(i as int).push(views[i as int]));
                }
                d.feed(delivered);
            },
            None => {
                break ;
            },
        }
    }
    proof {
        if answers@.len() > 0 {
            if d.tried == d.total {
                assert(d.answers@ =~= views);
            } else {
                assert(!(d.answers@.last() is NotHandled));
                let k = d.answers@.len() - 1;
                assert forall|i: int| 0 <= i < k implies views[i] is NotHandled by {
                    assert(d.answers@[i] is NotHandled);
                }
                assert(views[k] == d.answers@[k]);
                lemma_first_terminal_wins(views, k);
                lemma_first_terminal_wins(d.answers@, k);
            }
        }
    }
    let r = d.response();
    match r {
        Some(m) => m,
        None => {
            proof {
                assert(false);
            }
            Message::Response { id: request_id, outcome: Outcome::NotHandled }
        },
    }
}

/// A field-for-field copy of an outcome.
fn clone_outcome(o: &Outcome) -> (r: Outcome)
    ensures
        r@ == o@,
{
    match o {
        Outcome::Success(v) => Outcome::Success(crate::value::clone_value(v)),
        Outcome::NotHandled => Outcome::NotHandled,
        Outcome::Failure(e) => Outcome::Failure(
            Error {
                kind: e.kind,
                details: match &e.details {
                    Some(v) => Some(crate::value::clone_value(v)),
                    None => None,
                },
            },
        ),
    }
}

} // verus!
