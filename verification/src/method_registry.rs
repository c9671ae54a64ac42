//! The method registry: an ordered list of handlers per method name.
//! Registration appends, so dispatch tries handlers in registration
//! order — a protocol-level guarantee, since it decides which provider
//! wins a multi-handler method. Lookups hand out a snapshot, safe to
//! iterate while later registrations happen.

use vstd::prelude::*;

verus! {

pub open spec fn name_at<H>(s: Seq<(String, Vec<H>)>, i: int) -> Seq<char> {
    s[i].0@
}

pub open spec fn has_name<H>(s: Seq<(String, Vec<H>)>, name: Seq<char>) -> bool {
    exists|i: int| 0 <= i < s.len() && name_at(s, i) == name
}

pub open spec fn find_name<H>(s: Seq<(String, Vec<H>)>, name: Seq<char>) -> int {
    choose|i: int| 0 <= i < s.len() && name_at(s, i) == name
}

/// A table from method name to the handlers registered for it, in
/// registration order. `H` is whatever stands for a handler: an index
/// into a handler table, or any other copyable token.
pub struct MethodRegistry<H> {
    pub entries: Vec<(String, Vec<H>)>,
}

impl<H: Copy> MethodRegistry<H> {
    /// Method names are pairwise distinct.
    pub open spec fn wf(&self) -> bool {
        forall|i: int, j: int|
            0 <= i < j < self.entries@.len() ==> name_at(self.entries@, i) != name_at(
                self.entries@,
                j,
            )
    }

    /// The handlers registered for `name`, oldest first; empty when the
    /// method is unknown.
    pub open spec fn handlers(&self, name: Seq<char>) -> Seq<H> {
        if has_name(self.entries@, name) {
            self.entries@[find_name(self.entries@, name)].1@
        } else {
            Seq::empty()
        }
    }

    pub fn new() -> (r: MethodRegistry<H>)
        ensures
            r.wf(),
            forall|name: Seq<char>| r.handlers(name) == Seq::<H>::empty(),
    {
        MethodRegistry { entries: Vec::new() }
    }

    /// Registers one more handler for `name`, after all those already
    /// registered for it; creates the method's list if absent. Other
    /// methods' handler lists are untouched.
    pub fn register(&mut self, name: String, handler: H)
        requires
            old(self).wf(),
        ensures
            final(self).wf(),
            final(self).handlers(name@) == old(self).handlers(name@).push(handler),
            forall|other: Seq<char>|
                other != name@ ==> #[trigger] final(self).handlers(other) == old(self).handlers(
                    other,
                ),
    {
        let n = self.entries.len();
        let mut i: usize = 0;
        while i < n
            invariant
                n == self.entries@.len(),
                i <= n,
                *self == *old(self),
                old(self).wf(),
                forall|k: int| 0 <= k < i ==> name_at(self.entries@, k) != name@,
            decreases n - i,
        {
            if self.entries[i].0 == name {
                let ghost s0 = self.entries@;
                let ghost hs0 = s0[i as int].1@;
                proof {
                    assert(name_at(s0, i as int) == name@);
                    let j = find_name(s0, name@);
                    assert(name_at(s0, j) == name@);
                    assert(j == i);
                }
                let (found_name, mut hs) = self.entries.remove(i);
                hs.push(handler);
                self.entries.insert(i, (found_name, hs));
                proof {
                    let s1 = self.entries@;
                    assert(s1 =~= s0.update(i as int, (s0[i as int].0, s1[i as int].1)));
                    assert(s1[i as int].1@ =~= hs0.push(handler));
                    assert forall|k: int| 0 <= k < s1.len() implies name_at(s1, k) == name_at(
                        s0,
                        k,
                    ) by {}
                    assert(self.wf());
                    assert(name_at(s1, i as int) == name@);
                    let j1 = find_name(s1, name@);
                    assert(name_at(s1, j1) == name@);
                    assert(j1 == i);
                    assert forall|other: Seq<char>| other != name@ implies #[trigger] self.handlers(
                        other,
                    ) == old(self).handlers(other) by {
                        if has_name(s0, other) {
                            let k = find_name(s0, other);
                            assert(name_at(s1, k) == other);
                            let k1 = find_name(s1, other);
                            assert(s0[k1] == s1[k1]);
                        }
                        if has_name(s1, other) {
                            let k1 = find_name(s1, other);
                            assert(name_at(s0, k1) == other);
                        }
                    }
                }
                return ;
            }
            i = i + 1;
        }
        let ghost s0 = self.entries@;
        let mut hs: Vec<H> = Vec::new();
        hs.push(handler);
        self.entries.push((name, hs));
        proof {
            let s1 = self.entries@;
            assert(!has_name(s0, name@));
            assert forall|k: int| 0 <= k < s0.len() implies name_at(s1, k) == name_at(s0, k) by {}
            assert(name_at(s1, s0.len() as int) == name@);
            assert(self.wf()) by {
                assert forall|a: int, b: int| 0 <= a < b < s1.len() implies name_at(s1, a)
                    != name_at(s1, b) by {
                    if b == s0.len() {
                        assert(name_at(s1, a) == name_at(s0, a));
                        assert(name_at(s0, a) != name@);
                    }
                }
            }
            let j1 = find_name(s1, name@);
            assert(name_at(s1, j1) == name@);
            if j1 < s0.len() {
                assert(name_at(s0, j1) == name@);
                assert(false);
            }
            assert(self.handlers(name@) =~= old(self).handlers(name@).push(handler));
            assert forall|other: Seq<char>| other != name@ implies #[trigger] self.handlers(other)
                == old(self).handlers(other) by {
                if has_name(s0, other) {
                    let k = find_name(s0, other);
                    assert(name_at(s1, k) == other);
                    let k1 = find_name(s1, other);
                    assert(k1 < s0.len());
                    assert(s0[k1] == s1[k1]);
                }
                if has_name(s1, other) {
                    let k1 = find_name(s1, other);
                    assert(k1 != s0.len());
                    assert(name_at(s0, k1) == other);
                }
            }
        }
    }

    /// A snapshot of the handlers for `name`, in registration order.
    /// Registrations after the snapshot do not change it.
    pub fn handlers_for(&self, name: &String) -> (r: Vec<H>)
        requires
            self.wf(),
        ensures
            r@ == self.handlers(name@),
    {
        let n = self.entries.len();
        let mut i: usize = 0;
        while i < n
            invariant
                n == self.entries@.len(),
                i <= n,
                self.wf(),
                forall|k: int| 0 <= k < i ==> name_at(self.entries@, k) != name@,
            decreases n - i,
        {
            if self.entries[i].0 == *name {
                proof {
                    assert(name_at(self.entries@, i as int) == name@);
                    let j = find_name(self.entries@, name@);
                    assert(name_at(self.entries@, j) == name@);
                    assert(j == i);
                }
                let src = &self.entries[i].1;
                let m = src.len();
                let mut r: Vec<H> = Vec::new();
                let mut k: usize = 0;
                while k < m
                    invariant
                        m == src@.len(),
                        k <= m,
                        r@ == src@.take(k as int),
                    decreases m - k,
                {
                    r.push(src[k]);
                    proof {
                        assert(src@.take(k as int + 1) =~= src@.take(k as int).push(
                            src@[k as int],
                        ));
                    }
                    k = k + 1;
                }
                proof {
                    assert(src@.take(m as int) =~= src@);
                }
                return r;
            }
            i = i + 1;
        }
        proof {
            assert(!has_name(self.entries@, name@));
        }
        Vec::new()
    }
}

} // verus!
