//! The buffer plugin: the reference consumer of the bus. It holds a
//! table of text buffers keyed by index, answers the `buffer.*` methods,
//! and broadcasts `on.buffer.new` / `on.buffer.deleted` notifications —
//! fire-and-forget, queued in an outbox for the connection to send.
//! Each handler parses its arguments from the structured payload; a
//! payload of the wrong shape short-circuits into a decoding failure,
//! finishing the request without consulting later handlers.

use vstd::prelude::*;
use crate::dispatch::ServerContext;
use crate::error::{Error, ErrorKind, ErrorVal, IoReason};
use crate::message::{Outcome, OutcomeVal};
use crate::value::{record_get, spec_record_get, views_of_fields, views_of_vals, Val, Value};
use vstd::string::StrSliceExecFns;

verus! {

/// What the buffer table can hold against a caller.
#[derive(Debug, Clone, Copy, PartialEq, Eq, Structural)]
pub enum BufferError {
    UnknownBuffer,
}

/// The failure a buffer error turns into at the call boundary: the
/// arguments named a buffer that does not exist.
pub open spec fn spec_unknown_buffer_error() -> ErrorVal {
    ErrorVal { kind: ErrorKind::InvalidArgs, details: Some(Val::Text("unknown_buffer"@)) }
}

/// The failure answering a payload that does not have the shape the
/// method expects.
pub open spec fn spec_decode_error() -> ErrorVal {
    ErrorVal { kind: ErrorKind::Decoding, details: None }
}

impl BufferError {
    /// The fixed mapping of a buffer failure into the bus taxonomy.
    pub fn to_rpc_error(&self) -> (e: Error)
        ensures
            e@ == spec_unknown_buffer_error(),
    {
        Error {
            kind: ErrorKind::InvalidArgs,
            details: Some(Value::Text("unknown_buffer".to_owned())),
        }
    }
}

fn decode_error() -> (e: Error)
    ensures
        e@ == spec_decode_error(),
{
    Error { kind: ErrorKind::Decoding, details: None }
}

// ---------------------------------------------------------------------
// The method payload shapes, and their mapping to and from the wire's
// structured values.
// ---------------------------------------------------------------------

#[derive(Debug, PartialEq, Eq)]
pub struct BufferCreated {
    pub buffer_index: usize,
}

#[derive(Debug, PartialEq, Eq)]
pub struct BufferDeleted {
    pub buffer_index: usize,
}

#[derive(Debug, PartialEq, Eq)]
pub struct NewRequest {
    pub content: Option<String>,
}

#[derive(Debug, PartialEq, Eq)]
pub struct NewResponse {
    pub buffer_index: usize,
}

#[derive(Debug, PartialEq, Eq)]
pub struct DeleteRequest {
    pub buffer_index: usize,
}

#[derive(Debug, PartialEq, Eq)]
pub struct DeleteResponse;

#[derive(Debug, PartialEq, Eq)]
pub struct GetContentRequest {
    pub buffer_index: usize,
}

#[derive(Debug, PartialEq, Eq)]
pub struct GetContentResponse {
    pub content: String,
}

#[derive(Debug, PartialEq, Eq)]
pub struct OpenRequest {
    pub uri: String,
}

#[derive(Debug, PartialEq, Eq)]
pub struct OpenResponse {
    pub buffer_index: usize,
}

#[derive(Debug, PartialEq, Eq)]
pub struct ListRequest;

#[derive(Debug, PartialEq, Eq)]
pub struct ListResponse {
    pub buffer_indices: Vec<usize>,
}

/// A record with one index field, as several payloads carry it.
pub open spec fn spec_index_record(idx: u64) -> Val {
    Val::Record(seq![("buffer_index"@, Val::Uint(idx))])
}

/// Builds the one-field index record.
fn index_record(idx: usize) -> (v: Value)
    ensures
        v@ == spec_index_record(idx as u64),
{
    let mut fields: Vec<(String, Value)> = Vec::new();
    fields.push(("buffer_index".to_owned(), Value::Uint(idx as u64)));
    proof {
        assert(views_of_fields(fields@) =~= seq![("buffer_index"@, Val::Uint(idx as u64))]);
    }
    Value::Record(fields)
}

/// Reads a record's `buffer_index` field, as the delete, get-content
/// and open responses carry it and the index-taking requests expect it.
pub open spec fn spec_parse_index(v: Val) -> Option<u64> {
    match v {
        Val::Record(fields) => match spec_record_get(fields, "buffer_index"@) {
            Some(Val::Uint(n)) => Some(n),
            _ => None,
        },
        _ => None,
    }
}

fn parse_index(args: &Value) -> (r: Option<u64>)
    ensures
        r == spec_parse_index(args@),
{
    match args {
        Value::Record(fields) => {
            let key: String = "buffer_index".to_owned();
            match record_get(fields, &key) {
                Some(Value::Uint(n)) => Some(*n),
                _ => None,
            }
        },
        _ => None,
    }
}

/// What a `buffer.new` payload means: an optional `content` text field
/// in a record; a missing field or a null stands for an empty buffer.
pub open spec fn spec_parse_new(v: Val) -> Option<Option<Seq<char>>> {
    match v {
        Val::Record(fields) => match spec_record_get(fields, "content"@) {
            None => Some(None),
            Some(Val::Null) => Some(None),
            Some(Val::Text(s)) => Some(Some(s)),
            Some(_) => None,
        },
        _ => None,
    }
}

impl NewRequest {
    pub open spec fn view_content(&self) -> Option<Seq<char>> {
        match self.content {
            Some(s) => Some(s@),
            None => None,
        }
    }

    /// Reads a `buffer.new` payload; a payload of another shape is a
    /// decoding failure.
    pub fn from_value(args: &Value) -> (r: Result<NewRequest, Error>)
        ensures
            match spec_parse_new(args@) {
                Some(c) => r matches Ok(req) && req.view_content() == c,
                None => r matches Err(e) && e@ == spec_decode_error(),
            },
    {
        match args {
            Value::Record(fields) => {
                let key: String = "content".to_owned();
                match record_get(fields, &key) {
                    None => Ok(NewRequest { content: None }),
                    Some(Value::Null) => Ok(NewRequest { content: None }),
                    Some(Value::Text(s)) => Ok(NewRequest { content: Some(s.clone()) }),
                    Some(_) => Err(decode_error()),
                }
            },
            _ => Err(decode_error()),
        }
    }
}

impl NewResponse {
    pub fn to_value(&self) -> (v: Value)
        ensures
            v@ == spec_index_record(self.buffer_index as u64),
    {
        index_record(self.buffer_index)
    }
}

impl BufferCreated {
    pub fn to_value(&self) -> (v: Value)
        ensures
            v@ == spec_index_record(self.buffer_index as u64),
    {
        index_record(self.buffer_index)
    }
}

impl BufferDeleted {
    pub fn to_value(&self) -> (v: Value)
        ensures
            v@ == spec_index_record(self.buffer_index as u64),
    {
        index_record(self.buffer_index)
    }
}

impl DeleteRequest {
    /// Reads a `buffer.delete` payload: a record with the buffer index.
    pub fn from_value(args: &Value) -> (r: Result<DeleteRequest, Error>)
        ensures
            match spec_parse_index(args@) {
                Some(n) => if n <= usize::MAX {
                    r matches Ok(req) && req.buffer_index == n
                } else {
                    r matches Err(e) && e@ == spec_decode_error()
                },
                None => r matches Err(e) && e@ == spec_decode_error(),
            },
    {
        match parse_index(args) {
            Some(n) => {
                if n <= usize::MAX as u64 {
                    Ok(DeleteRequest { buffer_index: n as usize })
                } else {
                    Err(decode_error())
                }
            },
            None => Err(decode_error()),
        }
    }
}

impl DeleteResponse {
    pub fn to_value(&self) -> (v: Value)
        ensures
            v@ == Val::Null,
    {
        Value::Null
    }
}

impl GetContentRequest {
    /// Reads a `buffer.get_content` payload: a record with the index.
    pub fn from_value(args: &Value) -> (r: Result<GetContentRequest, Error>)
        ensures
            match spec_parse_index(args@) {
                Some(n) => if n <= usize::MAX {
                    r matches Ok(req) && req.buffer_index == n
                } else {
                    r matches Err(e) && e@ == spec_decode_error()
                },
                None => r matches Err(e) && e@ == spec_decode_error(),
            },
    {
        match parse_index(args) {
            Some(n) => {
                if n <= usize::MAX as u64 {
                    Ok(GetContentRequest { buffer_index: n as usize })
                } else {
                    Err(decode_error())
                }
            },
            None => Err(decode_error()),
        }
    }
}

/// A record carrying one text field named `content`.
pub open spec fn spec_content_record(s: Seq<char>) -> Val {
    Val::Record(seq![("content"@, Val::Text(s))])
}

impl GetContentResponse {
    pub fn to_value(&self) -> (v: Value)
        ensures
            v@ == spec_content_record(self.content@),
    {
        let mut fields: Vec<(String, Value)> = Vec::new();
        fields.push(("content".to_owned(), Value::Text(self.content.clone())));
        proof {
            assert(views_of_fields(fields@) =~= seq![("content"@, Val::Text(self.content@))]);
        }
        Value::Record(fields)
    }
}

/// What a `buffer.open` payload means: a record with a `uri` text field.
pub open spec fn spec_parse_open(v: Val) -> Option<Seq<char>> {
    match v {
        Val::Record(fields) => match spec_record_get(fields, "uri"@) {
            Some(Val::Text(s)) => Some(s),
            _ => None,
        },
        _ => None,
    }
}

impl OpenRequest {
    pub fn from_value(args: &Value) -> (r: Result<OpenRequest, Error>)
        ensures
            match spec_parse_open(args@) {
                Some(s) => r matches Ok(req) && req.uri@ == s,
                None => r matches Err(e) && e@ == spec_decode_error(),
            },
    {
        match args {
            Value::Record(fields) => {
                let key: String = "uri".to_owned();
                match record_get(fields, &key) {
                    Some(Value::Text(s)) => Ok(OpenRequest { uri: s.clone() }),
                    _ => Err(decode_error()),
                }
            },
            _ => Err(decode_error()),
        }
    }
}

impl OpenResponse {
    pub fn to_value(&self) -> (v: Value)
        ensures
            v@ == spec_index_record(self.buffer_index as u64),
    {
        index_record(self.buffer_index)
    }
}

impl ListRequest {
    /// A `buffer.list` payload carries nothing: a null.
    pub fn from_value(args: &Value) -> (r: Result<ListRequest, Error>)
        ensures
            args@ is Null ==> r matches Ok(_),
            !(args@ is Null) ==> (r matches Err(e) && e@ == spec_decode_error()),
    {
        match args {
            Value::Null => Ok(ListRequest),
            _ => Err(decode_error()),
        }
    }
}

/// A record carrying the list of live buffer indices.
pub open spec fn spec_indices_record(indices: Seq<u64>) -> Val {
    Val::Record(
        seq![
            (
                "buffer_indices"@,
                Val::List(Seq::new(indices.len(), |i: int| Val::Uint(indices[i]))),
            ),
        ],
    )
}

impl ListResponse {
    pub fn to_value(&self) -> (v: Value)
        ensures
            v@ == spec_indices_record(
                Seq::new(self.buffer_indices@.len(), |i: int| self.buffer_indices@[i] as u64),
            ),
    {
        let n = self.buffer_indices.len();
        let mut items: Vec<Value> = Vec::new();
        let mut i: usize = 0;
        while i < n
            invariant
                i <= n,
                n == self.buffer_indices@.len(),
                items@.len() == i,
                forall|k: int|
                    0 <= k < i ==> (#[trigger] items@[k]) == Value::Uint(
                        self.buffer_indices@[k] as u64,
                    ),
            decreases n - i,
        {
            items.push(Value::Uint(self.buffer_indices[i] as u64));
            i = i + 1;
        }
        let mut fields: Vec<(String, Value)> = Vec::new();
        fields.push(("buffer_indices".to_owned(), Value::List(items)));
        proof {
            let idx = Seq::new(
                self.buffer_indices@.len(),
                |i: int| self.buffer_indices@[i] as u64,
            );
            assert(views_of_vals(items@) =~= Seq::new(idx.len(), |i: int| Val::Uint(idx[i])));
            assert(views_of_fields(fields@) =~= seq![
                ("buffer_indices"@, Val::List(views_of_vals(items@))),
            ]);
        }
        Value::Record(fields)
    }
}

// ---------------------------------------------------------------------
// The buffer store
// ---------------------------------------------------------------------

/// One text buffer.
#[derive(Debug, PartialEq, Eq)]
pub struct Buffer {
    pub content: String,
}

impl View for Buffer {
    type V = Seq<char>;

    open spec fn view(&self) -> Seq<char> {
        self.content@
    }
}

impl Buffer {
    /// An empty buffer.
    pub fn new() -> (b: Buffer)
        ensures
            b@ == Seq::<char>::empty(),
    {
        Buffer::from_string(String::new())
    }

    /// A buffer holding `content`.
    pub fn from_string(content: String) -> (b: Buffer)
        ensures
            b@ == content@,
    {
        Buffer { content }
    }

    /// The buffer's text, as its own string.
    pub fn to_string(&self) -> (s: String)
        ensures
            s@ == self@,
    {
        self.content.clone()
    }
}

/// A fire-and-forget call queued for the connection to send.
#[derive(Debug, PartialEq, Eq)]
pub struct Notification {
    pub method: String,
    pub payload: Value,
}

pub open spec fn has_key(s: Seq<(usize, Buffer)>, key: usize) -> bool {
    exists|i: int| 0 <= i < s.len() && s[i].0 == key
}

pub open spec fn find_key(s: Seq<(usize, Buffer)>, key: usize) -> int {
    choose|i: int| 0 <= i < s.len() && s[i].0 == key
}

/// The table of live buffers, keyed by the index that created them, in
/// creation order, with the notifications it has queued.
pub struct BuffersManager {
    pub next_buffer_index: usize,
    pub buffers: Vec<(usize, Buffer)>,
    pub outbox: Vec<Notification>,
}

impl BuffersManager {
    /// Indices are pairwise distinct and below the counter, so a fresh
    /// index never collides with a live buffer.
    pub open spec fn wf(&self) -> bool {
        &&& (forall|i: int, j: int|
            0 <= i < j < self.buffers@.len() ==> self.buffers@[i].0 != self.buffers@[j].0)
        &&& (forall|i: int| 0 <= i < self.buffers@.len() ==> #[trigger] self.buffers@[i].0
            < self.next_buffer_index)
    }

    pub open spec fn has(&self, key: usize) -> bool {
        has_key(self.buffers@, key)
    }

    /// The text of the buffer under `key`.
    pub open spec fn content_of(&self, key: usize) -> Seq<char>
        recommends
            self.has(key),
    {
        self.buffers@[find_key(self.buffers@, key)].1@
    }

    pub fn new() -> (r: BuffersManager)
        ensures
            r.wf(),
            r.buffers@.len() == 0,
            r.outbox@.len() == 0,
            r.next_buffer_index == 0,
            forall|key: usize| !r.has(key),
    {
        BuffersManager { next_buffer_index: 0, buffers: Vec::new(), outbox: Vec::new() }
    }

    /// Stores a buffer under the next free index and queues the
    /// `on.buffer.new` notification — sent without awaiting an answer.
    pub fn new_buffer(&mut self, buffer: Buffer) -> (idx: usize)
        requires
            old(self).wf(),
            old(self).next_buffer_index < usize::MAX,
        ensures
            final(self).wf(),
            idx == old(self).next_buffer_index,
            !old(self).has(idx),
            final(self).has(idx),
            final(self).content_of(idx) == buffer@,
            final(self).next_buffer_index == idx + 1,
            final(self).buffers@ == old(self).buffers@.push((idx, buffer)),
            forall|other: usize|
                other != idx ==> (#[trigger] final(self).has(other) == old(self).has(other) && (old(
                    self,
                ).has(other) ==> final(self).content_of(other) == old(self).content_of(other))),
            final(self).outbox@.len() == old(self).outbox@.len() + 1,
            final(self).outbox@.drop_last() == old(self).outbox@,
            final(self).outbox@.last().method@ == "on.buffer.new"@,
            final(self).outbox@.last().payload@ == spec_index_record(idx as u64),
    {
        let idx = self.next_buffer_index;
        self.next_buffer_index = self.next_buffer_index + 1;
        self.buffers.push((idx, buffer));
        let note = Notification {
            method: "on.buffer.new".to_owned(),
            payload: BufferCreated { buffer_index: idx }.to_value(),
        };
        self.outbox.push(note);
        proof {
            let s0 = old(self).buffers@;
            let s1 = self.buffers@;
            assert(self.outbox@.drop_last() =~= old(self).outbox@);
            assert(s1[s0.len() as int].0 == idx);
            assert(self.has(idx));
            let j = find_key(s1, idx);
            assert(s1[j].0 == idx);
            if j < s0.len() {
                assert(s0[j].0 == idx);
                assert(false);
            }
            assert forall|other: usize| other != idx implies #[trigger] self.has(other) == old(
                self,
            ).has(other) && (old(self).has(other) ==> self.content_of(other) == old(
                self,
            ).content_of(other)) by {
                if old(self).has(other) {
                    let i = find_key(s0, other);
                    assert(s1[i].0 == other);
                    let k = find_key(s1, other);
                    assert(s1[k] == s0[k]);
                }
                if self.has(other) {
                    let i = find_key(s1, other);
                    assert(s0[i].0 == other);
                }
            }
        }
        idx
    }

    /// Removes the buffer under `buffer_index` and queues the
    /// `on.buffer.deleted` notification; an index with no live buffer
    /// is refused, and nothing changes.
    pub fn delete_buffer(&mut self, buffer_index: usize) -> (r: Result<(), BufferError>)
        requires
            old(self).wf(),
        ensures
            final(self).wf(),
            r is Ok <==> old(self).has(buffer_index),
            r is Err ==> *final(self) == *old(self) && (r matches Err(e) && e
                == BufferError::UnknownBuffer),
            final(self).next_buffer_index == old(self).next_buffer_index,
            r is Ok ==> {
                &&& !final(self).has(buffer_index)
                &&& (forall|other: usize|
                    other != buffer_index ==> (#[trigger] final(self).has(other) == old(self).has(
                        other,
                    ) && (old(self).has(other) ==> final(self).content_of(other) == old(
                        self,
                    ).content_of(other))))
                &&& final(self).outbox@.len() == old(self).outbox@.len() + 1
                &&& final(self).outbox@.drop_last() == old(self).outbox@
                &&& final(self).outbox@.last().method@ == "on.buffer.deleted"@
                &&& final(self).outbox@.last().payload@ == spec_index_record(buffer_index as u64)
            },
    {
        let n = self.buffers.len();
        let mut i: usize = 0;
        while i < n
            invariant
                n == self.buffers@.len(),
                i <= n,
                *self == *old(self),
                old(self).wf(),
                forall|k: int| 0 <= k < i ==> (#[trigger] self.buffers@[k].0) != buffer_index,
            decreases n - i,
        {
            if self.buffers[i].0 == buffer_index {
                let ghost s0 = self.buffers@;
                proof {
                    assert(s0[i as int].0 == buffer_index);
                    let j = find_key(s0, buffer_index);
                    assert(s0[j].0 == buffer_index);
                }
                let _ = self.buffers.remove(i);
                let note = Notification {
                    method: "on.buffer.deleted".to_owned(),
                    payload: BufferDeleted { buffer_index }.to_value(),
                };
                self.outbox.push(note);
                proof {
                    let s1 = self.buffers@;
                    assert(s1 =~= s0.remove(i as int));
                    assert(self.outbox@.drop_last() =~= old(self).outbox@);
                    assert(!self.has(buffer_index)) by {
                        if self.has(buffer_index) {
                            let j1 = find_key(s1, buffer_index);
                            let back: int = if j1 < i {
                                j1
                            } else {
                                j1 + 1
                            };
                            assert(s0[back].0 == buffer_index);
                            assert(back != i);
                        }
                    }
                    assert forall|other: usize| other != buffer_index implies #[trigger] self.has(
                        other,
                    ) == old(self).has(other) && (old(self).has(other) ==> self.content_of(other)
                        == old(self).content_of(other)) by {
                        if old(self).has(other) {
                            let j = find_key(s0, other);
                            let jj: int = if j < i {
                                j
                            } else {
                                j - 1
                            };
                            assert(s1[jj].0 == other);
                            let j1 = find_key(s1, other);
                            let back: int = if j1 < i {
                                j1
                            } else {
                                j1 + 1
                            };
                            assert(s0[back] == s1[j1]);
                        }
                        if self.has(other) {
                            let j1 = find_key(s1, other);
                            let back: int = if j1 < i {
                                j1
                            } else {
                                j1 + 1
                            };
                            assert(s0[back].0 == other);
                        }
                    }
                }
                return Ok(());
            }
            i = i + 1;
        }
        proof {
            assert(!old(self).has(buffer_index));
        }
        Err(BufferError::UnknownBuffer)
    }

    /// The buffer under `index`, or the unknown-buffer failure.
    pub fn get(&self, index: usize) -> (r: Result<&Buffer, BufferError>)
        requires
            self.wf(),
        ensures
            r is Ok <==> self.has(index),
            r matches Ok(b) ==> b@ == self.content_of(index),
            r is Err ==> (r matches Err(e) && e == BufferError::UnknownBuffer),
    {
        let n = self.buffers.len();
        let mut i: usize = 0;
        while i < n
            invariant
                n == self.buffers@.len(),
                i <= n,
                self.wf(),
                forall|k: int| 0 <= k < i ==> (#[trigger] self.buffers@[k].0) != index,
            decreases n - i,
        {
            if self.buffers[i].0 == index {
                proof {
                    assert(self.buffers@[i as int].0 == index);
                    let j = find_key(self.buffers@, index);
                    assert(self.buffers@[j].0 == index);
                    assert(j == i);
                }
                return Ok(&self.buffers[i].1);
            }
            i = i + 1;
        }
        proof {
            assert(!self.has(index));
        }
        Err(BufferError::UnknownBuffer)
    }

    /// The live buffer indices, in creation order.
    pub fn keys(&self) -> (r: Vec<usize>)
        ensures
            r@.len() == self.buffers@.len(),
            forall|i: int| 0 <= i < r@.len() ==> r@[i] == (#[trigger] self.buffers@[i]).0,
    {
        let n = self.buffers.len();
        let mut r: Vec<usize> = Vec::new();
        let mut i: usize = 0;
        while i < n
            invariant
                n == self.buffers@.len(),
                i <= n,
                r@.len() == i,
                forall|k: int| 0 <= k < i ==> r@[k] == (#[trigger] self.buffers@[k]).0,
            decreases n - i,
        {
            r.push(self.buffers[i].0);
            i = i + 1;
        }
        r
    }

    /// Hands the queued notifications to the connection, oldest first,
    /// leaving the outbox empty.
    pub fn take_outbox(&mut self) -> (r: Vec<Notification>)
        ensures
            r@ == old(self).outbox@,
            final(self).outbox@.len() == 0,
            final(self).buffers@ == old(self).buffers@,
            final(self).next_buffer_index == old(self).next_buffer_index,
    {
        let mut taken: Vec<Notification> = Vec::new();
        taken.append(&mut self.outbox);
        proof {
            assert(taken@ =~= old(self).outbox@);
        }
        taken
    }
}

// ---------------------------------------------------------------------
// The plugin: one handler per buffer method. Every handler finishes its
// request through the single-use context exactly once — except
// `call_open` on a file URI, which first needs the file's bytes from
// the connection's side and finishes in `call_open_content`.
// ---------------------------------------------------------------------

/// A `file://` URI: what the open handler claims; everything else it
/// declines, leaving the request to the next handler in the chain.
pub open spec fn spec_is_file_uri(u: Seq<char>) -> bool {
    u.len() >= 7 && u.take(7) == "file://"@
}

/// Strips the `file://` prefix, or reports that the URI has none.
fn strip_file_prefix(uri: &String) -> (r: Option<String>)
    ensures
        match r {
            Some(rest) => spec_is_file_uri(uri@) && rest@ == uri@.skip(7),
            None => !spec_is_file_uri(uri@),
        },
{
    proof {
        reveal_strlit("file://");
    }
    let n = uri.as_str().unicode_len();
    if n < 7 {
        return None;
    }
    let prefix = "file://";
    let mut i: usize = 0;
    while i < 7
        invariant
            i <= 7,
            n == uri@.len(),
            n >= 7,
            prefix@ == "file://"@,
            prefix@.len() == 7,
            forall|k: int| 0 <= k < i ==> uri@[k] == prefix@[k],
        decreases 7 - i,
    {
        let c = uri.as_str().get_char(i);
        let pc = prefix.get_char(i);
        if c != pc {
            proof {
                assert(uri@.take(7)[i as int] != "file://"@[i as int]);
            }
            return None;
        }
        i = i + 1;
    }
    proof {
        assert(uri@.take(7) =~= "file://"@);
    }
    let rest = uri.as_str().substring_char(7, n);
    proof {
        assert(uri@.subrange(7, n as int) =~= uri@.skip(7));
    }
    Some(rest.to_owned())
}

/// The buffer plugin: the manager plus the handlers it registers.
pub struct BufferPlugin {
    pub buffers: BuffersManager,
}

impl BufferPlugin {
    pub open spec fn wf(&self) -> bool {
        self.buffers.wf()
    }

    /// A fresh plugin with no buffers. Its five methods are the ones in
    /// `method_names`, registered in that order on the connection that
    /// hosts it.
    pub fn new() -> (p: BufferPlugin)
        ensures
            p.wf(),
            p.buffers.buffers@.len() == 0,
            p.buffers.outbox@.len() == 0,
            p.buffers.next_buffer_index == 0,
    {
        BufferPlugin { buffers: BuffersManager::new() }
    }

    /// The methods this plugin serves, in registration order.
    pub fn method_names() -> (r: Vec<String>)
        ensures
            r@.len() == 5,
            r@[0]@ == "buffer.new"@,
            r@[1]@ == "buffer.delete"@,
            r@[2]@ == "buffer.get_content"@,
            r@[3]@ == "buffer.open"@,
            r@[4]@ == "buffer.list"@,
    {
        let mut r: Vec<String> = Vec::new();
        r.push("buffer.new".to_owned());
        r.push("buffer.delete".to_owned());
        r.push("buffer.get_content".to_owned());
        r.push("buffer.open".to_owned());
        r.push("buffer.list".to_owned());
        r
    }

    /// `buffer.new`: stores a buffer with the given content, or an
    /// empty one, and answers its index; queues `on.buffer.new`.
    pub fn call_new(&mut self, ctx: &mut ServerContext, args: Value)
        requires
            old(self).wf(),
            old(ctx).unfinished(),
            old(self).buffers.next_buffer_index < usize::MAX,
        ensures
            final(self).wf(),
            final(ctx).request_id == old(ctx).request_id,
            match spec_parse_new(args@) {
                None => final(ctx).delivered() == Some(
                    OutcomeVal::Failure(spec_decode_error()),
                ) && *final(self) == *old(self),
                Some(content) => {
                    let idx = old(self).buffers.next_buffer_index;
                    &&& final(ctx).delivered() == Some(
                        OutcomeVal::Success(spec_index_record(idx as u64)),
                    )
                    &&& final(self).buffers.has(idx)
                    &&& final(self).buffers.content_of(idx) == (match content {
                        Some(s) => s,
                        None => Seq::<char>::empty(),
                    })
                    &&& final(self).buffers.next_buffer_index == idx + 1
                    &&& final(self).buffers.outbox@.len() == old(self).buffers.outbox@.len() + 1
                    &&& final(self).buffers.outbox@.last().method@ == "on.buffer.new"@
                },
            },
    {
        match NewRequest::from_value(&args) {
            Err(e) => {
                let _ = ctx.finish(Outcome::Failure(e));
            },
            Ok(request) => {
                let buffer = match request.content {
                    Some(content) => Buffer::from_string(content),
                    None => Buffer::new(),
                };
                let idx = self.buffers.new_buffer(buffer);
                let response = NewResponse { buffer_index: idx };
                let _ = ctx.finish(Outcome::Success(response.to_value()));
            },
        }
    }

    /// `buffer.delete`: removes the buffer the arguments name; an index
    /// with no live buffer is answered with the unknown-buffer failure,
    /// never a crash — deleting twice fails the second time.
    pub fn call_delete(&mut self, ctx: &mut ServerContext, args: Value)
        requires
            old(self).wf(),
            old(ctx).unfinished(),
        ensures
            final(self).wf(),
            final(ctx).request_id == old(ctx).request_id,
            match spec_parse_index(args@) {
                None => final(ctx).delivered() == Some(
                    OutcomeVal::Failure(spec_decode_error()),
                ) && *final(self) == *old(self),
                Some(n) => {
                    if n <= usize::MAX && old(self).buffers.has(n as usize) {
                        &&& final(ctx).delivered() == Some(OutcomeVal::Success(Val::Null))
                        &&& !final(self).buffers.has(n as usize)
                        &&& final(self).buffers.outbox@.last().method@ == "on.buffer.deleted"@
                        &&& final(self).buffers.outbox@.len() == old(
                            self,
                        ).buffers.outbox@.len() + 1
                    } else if n <= usize::MAX {
                        final(ctx).delivered() == Some(
                            OutcomeVal::Failure(spec_unknown_buffer_error()),
                        ) && *final(self) == *old(self)
                    } else {
                        final(ctx).delivered() == Some(OutcomeVal::Failure(spec_decode_error()))
                            && *final(self) == *old(self)
                    }
                },
            },
    {
        match DeleteRequest::from_value(&args) {
            Err(e) => {
                let _ = ctx.finish(Outcome::Failure(e));
            },
            Ok(request) => {
                match self.buffers.delete_buffer(request.buffer_index) {
                    Err(buffer_error) => {
                        let _ = ctx.finish(Outcome::Failure(buffer_error.to_rpc_error()));
                    },
                    Ok(()) => {
                        let response = DeleteResponse;
                        let _ = ctx.finish(Outcome::Success(response.to_value()));
                    },
                }
            },
        }
    }

    /// `buffer.get_content`: answers the named buffer's text, or the
    /// unknown-buffer failure.
    pub fn call_get_content(&mut self, ctx: &mut ServerContext, args: Value)
        requires
            old(self).wf(),
            old(ctx).unfinished(),
        ensures
            final(self).wf(),
            *final(self) == *old(self),
            final(ctx).request_id == old(ctx).request_id,
            match spec_parse_index(args@) {
                None => final(ctx).delivered() == Some(OutcomeVal::Failure(spec_decode_error())),
                Some(n) => {
                    if n <= usize::MAX && old(self).buffers.has(n as usize) {
                        final(ctx).delivered() == Some(
                            OutcomeVal::Success(
                                spec_content_record(old(self).buffers.content_of(n as usize)),
                            ),
                        )
                    } else if n <= usize::MAX {
                        final(ctx).delivered() == Some(
                            OutcomeVal::Failure(spec_unknown_buffer_error()),
                        )
                    } else {
                        final(ctx).delivered() == Some(OutcomeVal::Failure(spec_decode_error()))
                    }
                },
            },
    {
        match GetContentRequest::from_value(&args) {
            Err(e) => {
                let _ = ctx.finish(Outcome::Failure(e));
            },
            Ok(request) => {
                match self.buffers.get(request.buffer_index) {
                    Err(buffer_error) => {
                        let _ = ctx.finish(Outcome::Failure(buffer_error.to_rpc_error()));
                    },
                    Ok(buffer) => {
                        let response = GetContentResponse { content: buffer.to_string() };
                        let _ = ctx.finish(Outcome::Success(response.to_value()));
                    },
                }
            },
        }
    }

    /// `buffer.open`, first half: claims only `file://` URIs. A payload
    /// of the wrong shape finishes with a decoding failure; a URI with
    /// another scheme finishes NotHandled, leaving the request to the
    /// next handler. For a file URI nothing is finished yet: the path
    /// comes back, the connection's side reads the file, and
    /// `call_open_content` completes the request.
    pub fn call_open(&mut self, ctx: &mut ServerContext, args: Value) -> (r: Option<String>)
        requires
            old(self).wf(),
            old(ctx).unfinished(),
        ensures
            final(self).wf(),
            *final(self) == *old(self),
            final(ctx).request_id == old(ctx).request_id,
            match spec_parse_open(args@) {
                None => final(ctx).delivered() == Some(OutcomeVal::Failure(spec_decode_error()))
                    && r is None,
                Some(uri) => {
                    if spec_is_file_uri(uri) {
                        &&& final(ctx).unfinished()
                        &&& (r matches Some(path) && path@ == uri.skip(7))
                    } else {
                        final(ctx).delivered() == Some(OutcomeVal::NotHandled) && r is None
                    }
                },
            },
    {
        match OpenRequest::from_value(&args) {
            Err(e) => {
                let _ = ctx.finish(Outcome::Failure(e));
                None
            },
            Ok(request) => {
                match strip_file_prefix(&request.uri) {
                    None => {
                        let _ = ctx.finish(Outcome::NotHandled);
                        None
                    },
                    Some(path) => Some(path),
                }
            },
        }
    }

    /// `buffer.open`, second half: takes what reading the file gave.
    /// A read failure finishes the request with the transport failure,
    /// classified by its reason; the file's text becomes a new buffer,
    /// answered by its index.
    pub fn call_open_content(&mut self, ctx: &mut ServerContext, content: Result<String, IoReason>)
        requires
            old(self).wf(),
            old(ctx).unfinished(),
            old(self).buffers.next_buffer_index < usize::MAX,
        ensures
            final(self).wf(),
            final(ctx).request_id == old(ctx).request_id,
            match content {
                Err(reason) => final(ctx).delivered() == Some(
                    OutcomeVal::Failure(
                        ErrorVal {
                            kind: ErrorKind::Io(reason),
                            details: Some(
                                Val::Text(crate::error::spec_io_reason_tag(reason)),
                            ),
                        },
                    ),
                ) && *final(self) == *old(self),
                Ok(text) => {
                    let idx = old(self).buffers.next_buffer_index;
                    &&& final(ctx).delivered() == Some(
                        OutcomeVal::Success(spec_index_record(idx as u64)),
                    )
                    &&& final(self).buffers.has(idx)
                    &&& final(self).buffers.content_of(idx) == text@
                    &&& final(self).buffers.outbox@.last().method@ == "on.buffer.new"@
                },
            },
    {
        match content {
            Err(reason) => {
                let _ = ctx.finish(Outcome::Failure(Error::from_io(reason)));
            },
            Ok(text) => {
                let buffer = Buffer::from_string(text);
                let idx = self.buffers.new_buffer(buffer);
                let response = OpenResponse { buffer_index: idx };
                let _ = ctx.finish(Outcome::Success(response.to_value()));
            },
        }
    }

    /// `buffer.list`: answers the live buffer indices, oldest first.
    pub fn call_list(&mut self, ctx: &mut ServerContext, args: Value)
        requires
            old(self).wf(),
            old(ctx).unfinished(),
        ensures
            final(self).wf(),
            *final(self) == *old(self),
            final(ctx).request_id == old(ctx).request_id,
            !(args@ is Null) ==> final(ctx).delivered() == Some(
                OutcomeVal::Failure(spec_decode_error()),
            ),
            args@ is Null ==> final(ctx).delivered() == Some(
                OutcomeVal::Success(
                    spec_indices_record(
                        Seq::new(
                            old(self).buffers.buffers@.len(),
                            |i: int| old(self).buffers.buffers@[i].0 as u64,
                        ),
                    ),
                ),
            ),
    {
        match ListRequest::from_value(&args) {
            Err(e) => {
                let _ = ctx.finish(Outcome::Failure(e));
            },
            Ok(_) => {
                let response = ListResponse { buffer_indices: self.buffers.keys() };
                proof {
                    assert(Seq::new(
                        response.buffer_indices@.len(),
                        |i: int| response.buffer_indices@[i] as u64,
                    ) =~= Seq::new(
                        self.buffers.buffers@.len(),
                        |i: int| self.buffers.buffers@[i].0 as u64,
                    ));
                }
                let _ = ctx.finish(Outcome::Success(response.to_value()));
            },
        }
    }
}

} // verus!
