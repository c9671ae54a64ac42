//! The call registry: correlates asynchronous responses with the call
//! that issued them. One entry per in-flight request, keyed by the
//! request id; ids are issued from a monotonic counter, so no two
//! outstanding calls ever share one. On teardown every still-pending
//! entry is force-resolved with a disconnection failure, so no caller
//! waits forever past a connection loss.

use vstd::prelude::*;
use crate::error::{Error, ErrorKind};
use crate::message::{Outcome, OutcomeVal};

verus! {

pub open spec fn slot_view(o: Option<Outcome>) -> Option<OutcomeVal> {
    match o {
        Some(x) => Some(x@),
        None => None,
    }
}

pub open spec fn has_id(s: Seq<(u64, Option<Outcome>)>, id: u64) -> bool {
    exists|i: int| 0 <= i < s.len() && s[i].0 == id
}

pub open spec fn find_id(s: Seq<(u64, Option<Outcome>)>, id: u64) -> int {
    choose|i: int| 0 <= i < s.len() && s[i].0 == id
}

/// The failure delivered to calls cut off by a connection teardown.
pub open spec fn spec_disconnect_error() -> crate::error::ErrorVal {
    crate::error::ErrorVal { kind: ErrorKind::Disconnected, details: None }
}

pub struct CallRegistry {
    pub next_id: u64,
    pub entries: Vec<(u64, Option<Outcome>)>,
}

impl CallRegistry {
    /// Ids are pairwise distinct, and all below the counter.
    pub open spec fn wf(&self) -> bool {
        &&& (forall|i: int, j: int|
            0 <= i < j < self.entries@.len() ==> self.entries@[i].0 != self.entries@[j].0)
        &&& (forall|i: int| 0 <= i < self.entries@.len() ==> #[trigger] self.entries@[i].0
            < self.next_id)
    }

    /// The id has an entry: the call is outstanding or resolved,
    /// not yet taken by its caller.
    pub open spec fn has(&self, id: u64) -> bool {
        has_id(self.entries@, id)
    }

    /// What the slot for `id` holds: nothing yet, or the outcome.
    pub open spec fn slot(&self, id: u64) -> Option<OutcomeVal>
        recommends
            self.has(id),
    {
        slot_view(self.entries@[find_id(self.entries@, id)].1)
    }

    /// The call is outstanding: registered and not yet answered.
    pub open spec fn is_pending(&self, id: u64) -> bool {
        self.has(id) && self.slot(id) is None
    }

    pub open spec fn spec_next_id(&self) -> u64 {
        self.next_id
    }

    pub fn new() -> (r: CallRegistry)
        ensures
            r.wf(),
            r.entries@.len() == 0,
            r.spec_next_id() == 0,
            forall|id: u64| !r.has(id),
    {
        CallRegistry { next_id: 0, entries: Vec::new() }
    }

    /// Allocates a fresh id, distinct from every id this registry ever
    /// issued and in particular from every outstanding one, and inserts
    /// a pending slot for it.
    pub fn register(&mut self) -> (id: u64)
        requires
            old(self).wf(),
            old(self).spec_next_id() < u64::MAX,
        ensures
            final(self).wf(),
            id == old(self).spec_next_id(),
            !old(self).has(id),
            final(self).entries@ == old(self).entries@.push((id, None::<Outcome>)),
            final(self).is_pending(id),
            final(self).spec_next_id() == id + 1,
            forall|other: u64|
                other != id ==> (#[trigger] final(self).has(other) == old(self).has(other)
                    && (old(self).has(other) ==> final(self).slot(other) == old(self).slot(
                    other,
                ))),
    {
        let id = self.next_id;
        self.next_id = self.next_id + 1;
        self.entries.push((id, None));
        proof {
            let s0 = old(self).entries@;
            let s1 = self.entries@;
            assert(s1[s0.len() as int].0 == id);
            assert(self.has(id));
            let j = find_id(s1, id);
            assert(s1[j].0 == id);
            if j < s0.len() {
                assert(s0[j].0 == id);
                assert(false);
            }
            assert(self.slot(id) is None);
            assert forall|other: u64| other != id implies #[trigger] self.has(other) == old(
                self,
            ).has(other) && (old(self).has(other) ==> self.slot(other) == old(self).slot(
                other,
            )) by {
                if old(self).has(other) {
                    let i = find_id(s0, other);
                    assert(s1[i].0 == other);
                    let j = find_id(s1, other);
                    assert(s1[j] == s0[j]);
                }
                if self.has(other) {
                    let i = find_id(s1, other);
                    assert(i < s0.len() && s0[i].0 == other);
                }
            }
        }
        id
    }

    /// Allocates a fresh id without a slot, for a fire-and-forget call
    /// whose response nothing will await: distinct from every id this
    /// registry ever issued, outstanding ids included.
    pub fn fresh_id(&mut self) -> (id: u64)
        requires
            old(self).wf(),
            old(self).spec_next_id() < u64::MAX,
        ensures
            final(self).wf(),
            id == old(self).spec_next_id(),
            !old(self).has(id),
            final(self).entries@ == old(self).entries@,
            final(self).spec_next_id() == id + 1,
    {
        let id = self.next_id;
        self.next_id = self.next_id + 1;
        id
    }

    /// Delivers `outcome` into the pending slot for `id` and reports
    /// whether it was delivered. A stale or duplicate id is a no-op:
    /// delivery happens exactly when the call was outstanding, so a
    /// second response for one id can never overwrite the first.
    pub fn resolve(&mut self, id: u64, outcome: Outcome) -> (hit: bool)
        requires
            old(self).wf(),
        ensures
            final(self).wf(),
            hit == old(self).is_pending(id),
            hit ==> final(self).has(id) && final(self).slot(id) == Some(outcome@),
            !hit ==> *final(self) == *old(self),
            final(self).spec_next_id() == old(self).spec_next_id(),
            forall|other: u64|
                other != id ==> (#[trigger] final(self).has(other) == old(self).has(other)
                    && (old(self).has(other) ==> final(self).slot(other) == old(self).slot(
                    other,
                ))),
            final(self).has(id) == old(self).has(id),
    {
        let n = self.entries.len();
        let mut i: usize = 0;
        while i < n
            invariant
                n == self.entries@.len(),
                i <= n,
                *self == *old(self),
                old(self).wf(),
                forall|k: int| 0 <= k < i ==> (#[trigger] self.entries@[k].0) != id,
            decreases n - i,
        {
            if self.entries[i].0 == id {
                if self.entries[i].1.is_none() {
                    let ghost s0 = self.entries@;
                    self.entries[i] = (id, Some(outcome));
                    proof {
                        let s1 = self.entries@;
                        assert(s1 =~= s0.update(i as int, (id, Some(outcome))));
                        assert(old(self).is_pending(id)) by {
                            assert(s0[i as int].0 == id);
                            let j = find_id(s0, id);
                            assert(s0[j].0 == id);
                        }
                        assert(self.has(id) && self.slot(id) == Some(outcome@)) by {
                            assert(s1[i as int].0 == id);
                            let j = find_id(s1, id);
                            assert(s1[j].0 == id);
                        }
                        assert forall|other: u64| other != id implies #[trigger] self.has(other)
                            == old(self).has(other) && (old(self).has(other) ==> self.slot(other)
                            == old(self).slot(other)) by {
                            if old(self).has(other) {
                                let j = find_id(s0, other);
                                assert(s1[j].0 == other);
                                let j1 = find_id(s1, other);
                                assert(s0[j1] == s1[j1]);
                            }
                            if self.has(other) {
                                let j = find_id(s1, other);
                                assert(s0[j].0 == other);
                            }
                        }
                    }
                    return true;
                } else {
                    proof {
                        let j = find_id(self.entries@, id);
                        assert(self.entries@[i as int].0 == id);
                        assert(j == i);
                    }
                    return false;
                }
            }
            i = i + 1;
        }
        proof {
            assert(!old(self).has(id));
        }
        false
    }

    /// Takes the outcome for `id` if one has been delivered, removing
    /// the entry. Nothing is returned while the call is still pending,
    /// or for an id this registry does not hold.
    pub fn take_resolved(&mut self, id: u64) -> (r: Option<Outcome>)
        requires
            old(self).wf(),
        ensures
            final(self).wf(),
            r is Some <==> (old(self).has(id) && old(self).slot(id) is Some),
            r is Some ==> slot_view(r) == old(self).slot(id) && !final(self).has(id),
            r is None ==> *final(self) == *old(self),
            final(self).spec_next_id() == old(self).spec_next_id(),
            forall|other: u64|
                other != id ==> (#[trigger] final(self).has(other) == old(self).has(other)
                    && (old(self).has(other) ==> final(self).slot(other) == old(self).slot(
                    other,
                ))),
    {
        let n = self.entries.len();
        let mut i: usize = 0;
        while i < n
            invariant
                n == self.entries@.len(),
                i <= n,
                *self == *old(self),
                old(self).wf(),
                forall|k: int| 0 <= k < i ==> (#[trigger] self.entries@[k].0) != id,
            decreases n - i,
        {
            if self.entries[i].0 == id {
                proof {
                    let s0 = self.entries@;
                    assert(s0[i as int].0 == id);
                    let j = find_id(s0, id);
                    assert(j == i);
                }
                if self.entries[i].1.is_some() {
                    let (_, slot) = self.entries.remove(i);
                    proof {
                        let s0 = old(self).entries@;
                        let s1 = self.entries@;
                        assert(s1 =~= s0.remove(i as int));
                        assert forall|other: u64| other != id implies #[trigger] self.has(other)
                            == old(self).has(other) && (old(self).has(other) ==> self.slot(other)
                            == old(self).slot(other)) by {
                            if old(self).has(other) {
                                let j = find_id(s0, other);
                                let jj: int = if j < i { j } else { j - 1 };
                                assert(s1[jj].0 == other);
                                let j1 = find_id(s1, other);
                                let back: int = if j1 < i {
                                    j1
                                } else {
                                    j1 + 1
                                };
                                assert(s0[back] == s1[j1]);
                            }
                            if self.has(other) {
                                let j1 = find_id(s1, other);
                                let back: int = if j1 < i {
                                    j1
                                } else {
                                    j1 + 1
                                };
                                assert(s0[back].0 == other);
                            }
                        }
                        assert(!self.has(id)) by {
                            if self.has(id) {
                                let j1 = find_id(s1, id);
                                let back: int = if j1 < i {
                                    j1
                                } else {
                                    j1 + 1
                                };
                                assert(s0[back].0 == id);
                                assert(back != i);
                            }
                        }
                    }
                    return slot;
                } else {
                    return None;
                }
            }
            i = i + 1;
        }
        proof {
            assert(!old(self).has(id));
        }
        None
    }

    /// Teardown: resolves every still-outstanding slot with a
    /// disconnection failure. Afterwards no call is pending, so every
    /// waiter gets an answer rather than blocking forever.
    pub fn fail_all(&mut self)
        requires
            old(self).wf(),
        ensures
            final(self).wf(),
            final(self).spec_next_id() == old(self).spec_next_id(),
            forall|id: u64| #[trigger] final(self).has(id) == old(self).has(id),
            forall|id: u64| !final(self).is_pending(id),
            forall|id: u64|
                old(self).is_pending(id) ==> #[trigger] final(self).slot(id) == Some(
                    OutcomeVal::Failure(spec_disconnect_error()),
                ),
            forall|id: u64|
                old(self).has(id) && !old(self).is_pending(id) ==> #[trigger] final(self).slot(id)
                    == old(self).slot(id),
    {
        let n = self.entries.len();
        let mut i: usize = 0;
        while i < n
            invariant
                n == self.entries@.len(),
                self.entries@.len() == old(self).entries@.len(),
                i <= n,
                self.next_id == old(self).next_id,
                old(self).wf(),
                forall|k: int|
                    0 <= k < self.entries@.len() ==> (#[trigger] self.entries@[k].0) == old(
                        self,
                    ).entries@[k].0,
                forall|k: int|
                    i <= k < self.entries@.len() ==> (#[trigger] self.entries@[k].1) == old(
                        self,
                    ).entries@[k].1,
                forall|k: int|
                    0 <= k < i ==> (#[trigger] self.entries@[k].1) == (match old(
                        self,
                    ).entries@[k].1 {
                        None => Some(
                            Outcome::Failure(Error { kind: ErrorKind::Disconnected, details: None }),
                        ),
                        Some(o) => Some(o),
                    }),
            decreases n - i,
        {
            if self.entries[i].1.is_none() {
                let key = self.entries[i].0;
                self.entries[i] = (
                    key,
                    Some(Outcome::Failure(Error { kind: ErrorKind::Disconnected, details: None })),
                );
            }
            i = i + 1;
        }
        proof {
            let s0 = old(self).entries@;
            let s1 = self.entries@;
            assert(self.wf());
            assert forall|id: u64| #[trigger] self.has(id) == old(self).has(id) by {
                if self.has(id) {
                    let j = find_id(s1, id);
                    assert(s0[j].0 == id);
                }
                if old(self).has(id) {
                    let j = find_id(s0, id);
                    assert(s1[j].0 == id);
                }
            }
            assert forall|id: u64| !self.is_pending(id) by {
                if self.has(id) {
                    let j = find_id(s1, id);
                    assert(s1[j].1 is Some);
                }
            }
            assert forall|id: u64| old(self).is_pending(id) implies #[trigger] self.slot(id)
                == Some(OutcomeVal::Failure(spec_disconnect_error())) by {
                let j0 = find_id(s0, id);
                assert(s0[j0].1 is None);
                assert(s1[j0].0 == id);
                let j1 = find_id(s1, id);
                assert(j1 == j0);
            }
            assert forall|id: u64| old(self).has(id) && !old(self).is_pending(id)
                implies #[trigger] self.slot(id) == old(self).slot(id) by {
                let j0 = find_id(s0, id);
                assert(s0[j0].1 is Some);
                assert(s1[j0].0 == id);
                let j1 = find_id(s1, id);
                assert(j1 == j0);
            }
        }
    }
}

/// No two outstanding requests on one registry share an id: distinct
/// entries always carry distinct ids.
pub proof fn lemma_outstanding_ids_unique(r: CallRegistry, i: int, j: int)
    requires
        r.wf(),
        0 <= i < r.entries@.len(),
        0 <= j < r.entries@.len(),
        i != j,
    ensures
        r.entries@[i].0 != r.entries@[j].0,
{
}

} // verus!
