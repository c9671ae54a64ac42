//! The client facade: the entry point a plugin uses. It owns the two
//! registries of one connection — outstanding calls and registered
//! methods — issues calls with fresh ids, demultiplexes what the
//! receive loop decodes, and on teardown force-resolves every pending
//! call. The socket itself lives outside the library: `call` and
//! `notify` hand back the message to transmit, and the receive loop
//! hands every decoded message to `deliver`.

use vstd::prelude::*;
use crate::call_registry::{spec_disconnect_error, CallRegistry};
use crate::message::{Message, MessageVal, Outcome, OutcomeVal};
use crate::method_registry::MethodRegistry;
use crate::value::Value;

verus! {

/// One connection's client-side state. `H` is the caller's handler
/// token, looked up again when a request is dispatched.
pub struct Client<H> {
    pub calls: CallRegistry,
    pub methods: MethodRegistry<H>,
    pub connected: bool,
}

impl<H: Copy> Client<H> {
    pub open spec fn wf(&self) -> bool {
        self.calls.wf() && self.methods.wf()
    }

    pub fn new() -> (r: Client<H>)
        ensures
            r.wf(),
            r.connected,
            forall|id: u64| !r.calls.has(id),
            forall|name: Seq<char>| r.methods.handlers(name) == Seq::<H>::empty(),
    {
        Client { calls: CallRegistry::new(), methods: MethodRegistry::new(), connected: true }
    }

    /// Issues a call: allocates an id no outstanding call shares,
    /// registers its delivery slot, and returns the id with the request
    /// to transmit. The caller later blocks on `wait(id)`.
    pub fn call(&mut self, method: &String, args: Value) -> (r: (u64, Message))
        requires
            old(self).wf(),
            old(self).calls.spec_next_id() < u64::MAX,
        ensures
            final(self).wf(),
            !old(self).calls.has(r.0),
            final(self).calls.is_pending(r.0),
            r.1@ == (MessageVal::Request { id: r.0, method: method@, payload: args@ }),
            final(self).methods == old(self).methods,
            final(self).connected == old(self).connected,
            forall|other: u64|
                other != r.0 ==> (#[trigger] final(self).calls.has(other) == old(self).calls.has(
                    other,
                ) && (old(self).calls.has(other) ==> final(self).calls.slot(other) == old(
                    self,
                ).calls.slot(other))),
    {
        let id = self.calls.register();
        (id, Message::Request { id, method: method.clone(), payload: args })
    }

    /// A fire-and-forget notification: a request with its own fresh id
    /// that no slot awaits. The sender ignores whatever comes back, so
    /// delivery is best-effort by design.
    pub fn notify(&mut self, method: &String, args: Value) -> (r: Message)
        requires
            old(self).wf(),
            old(self).calls.spec_next_id() < u64::MAX,
        ensures
            final(self).wf(),
            r@ matches MessageVal::Request { id, method: m, payload } && !old(self).calls.has(id)
                && !final(self).calls.has(id) && m == method@ && payload == args@,
            final(self).methods == old(self).methods,
            final(self).connected == old(self).connected,
            final(self).calls.entries@ == old(self).calls.entries@,
    {
        let id = self.calls.fresh_id();
        Message::Request { id, method: method.clone(), payload: args }
    }

    /// Registers one more handler for `method`, tried after those
    /// already registered for it.
    pub fn new_rpc(&mut self, method: String, handler: H)
        requires
            old(self).wf(),
        ensures
            final(self).wf(),
            final(self).methods.handlers(method@) == old(self).methods.handlers(method@).push(
                handler,
            ),
            forall|other: Seq<char>|
                other != method@ ==> #[trigger] final(self).methods.handlers(other) == old(
                    self,
                ).methods.handlers(other),
            final(self).calls == old(self).calls,
            final(self).connected == old(self).connected,
    {
        self.methods.register(method, handler);
    }

    /// The handlers to try for `method`, in registration order: a
    /// snapshot, unaffected by registrations that happen during the
    /// dispatch it feeds.
    pub fn handlers_for(&self, method: &String) -> (r: Vec<H>)
        requires
            self.wf(),
        ensures
            r@ == self.methods.handlers(method@),
    {
        self.methods.handlers_for(method)
    }

    /// The receive loop's demultiplexer. A response resolves the
    /// matching outstanding call — a stale or duplicate id is ignored,
    /// never an error, so the loop cannot be crashed from the wire. An
    /// inbound request comes back to the caller for dispatch over the
    /// method registry.
    pub fn deliver(&mut self, msg: Message) -> (r: Option<(u64, String, Value)>)
        requires
            old(self).wf(),
        ensures
            final(self).wf(),
            final(self).methods == old(self).methods,
            final(self).connected == old(self).connected,
            final(self).calls.spec_next_id() == old(self).calls.spec_next_id(),
            match msg@ {
                MessageVal::Response { id, outcome } => {
                    &&& r is None
                    &&& (old(self).calls.is_pending(id) ==> final(self).calls.slot(id) == Some(
                        outcome,
                    ))
                    &&& (!old(self).calls.is_pending(id) ==> final(self).calls == old(self).calls)
                    &&& (forall|other: u64|
                        other != id ==> (#[trigger] final(self).calls.has(other) == old(
                            self,
                        ).calls.has(other) && (old(self).calls.has(other) ==> final(self).calls.slot(other) == old(self).calls.slot(other))))
                },
                MessageVal::Request { id, method, payload } => {
                    &&& (r matches Some((rid, rmethod, rpayload)) && rid == id && rmethod@ == method
                        && rpayload@ == payload)
                    &&& final(self).calls == old(self).calls
                },
            },
    {
        match msg {
            Message::Response { id, outcome } => {
                let _ = self.calls.resolve(id, outcome);
                None
            },
            Message::Request { id, method, payload } => Some((id, method, payload)),
        }
    }

    /// Blocking wait, as the model sees it: the outcome once the slot
    /// has been resolved — by a response or by teardown — and nothing
    /// while the call is still outstanding. The thread that parks on a
    /// call keeps asking until this answers.
    pub fn wait(&mut self, id: u64) -> (r: Option<Outcome>)
        requires
            old(self).wf(),
        ensures
            final(self).wf(),
            final(self).methods == old(self).methods,
            final(self).connected == old(self).connected,
            r is Some <==> (old(self).calls.has(id) && old(self).calls.slot(id) is Some),
            r matches Some(o) ==> old(self).calls.slot(id) == Some(o@) && !final(self).calls.has(
                id,
            ),
            r is None ==> final(self).calls == old(self).calls,
            forall|other: u64|
                other != id ==> (#[trigger] final(self).calls.has(other) == old(self).calls.has(
                    other,
                ) && (old(self).calls.has(other) ==> final(self).calls.slot(other) == old(
                    self,
                ).calls.slot(other))),
    {
        let r = self.calls.take_resolved(id);
        proof {
            assert forall|other: u64| other != id implies (#[trigger] self.calls.has(other) == old(
                self,
            ).calls.has(other) && (old(self).calls.has(other) ==> self.calls.slot(other) == old(
                self,
            ).calls.slot(other))) by {}
        }
        r
    }

    /// Teardown drains pending calls: every call outstanding at this
    /// moment is resolved with the disconnection failure, so a `wait`
    /// on any of them returns instead of blocking forever.
    pub fn teardown(&mut self)
        requires
            old(self).wf(),
        ensures
            final(self).wf(),
            !final(self).connected,
            final(self).methods == old(self).methods,
            forall|id: u64| #[trigger] final(self).calls.has(id) == old(self).calls.has(id),
            forall|id: u64| !final(self).calls.is_pending(id),
            forall|id: u64|
                old(self).calls.is_pending(id) ==> #[trigger] final(self).calls.slot(id) == Some(
                    OutcomeVal::Failure(spec_disconnect_error()),
                ),
            forall|id: u64|
                old(self).calls.has(id) && !old(self).calls.is_pending(id) ==> #[trigger] final(self).calls.slot(id) == old(self).calls.slot(id),
    {
        self.connected = false;
        self.calls.fail_all();
    }
}

} // verus!
