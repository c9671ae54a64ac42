//! The structured payload carried by requests and responses: scalars,
//! text, lists and key/value records, nestable to any depth, so that
//! method-specific argument and result shapes can travel through the bus
//! without the bus knowing their schema.

use vstd::prelude::*;

verus! {

/// An executable payload value.
#[derive(Debug, PartialEq, Eq)]
pub enum Value {
    Null,
    Bool(bool),
    Uint(u64),
    Text(String),
    List(Vec<Value>),
    Record(Vec<(String, Value)>),
}

/// The mathematical model of a `Value`: text as a character sequence,
/// lists and records as mathematical sequences.
pub enum Val {
    Null,
    Bool(bool),
    Uint(u64),
    Text(Seq<char>),
    List(Seq<Val>),
    Record(Seq<(Seq<char>, Val)>),
}

/// The views of a list's elements, in order.
pub open spec fn views_of_vals(elems: Seq<Value>) -> Seq<Val>
    decreases elems,
{
    Seq::new(elems.len(), |i: int| if 0 <= i < elems.len() {
        elems[i]@
    } else {
        Val::Null
    })
}

/// The views of a record's fields, in order.
pub open spec fn views_of_fields(fields: Seq<(String, Value)>) -> Seq<(Seq<char>, Val)>
    decreases fields,
{
    Seq::new(fields.len(), |i: int| if 0 <= i < fields.len() {
        (fields[i].0@, fields[i].1@)
    } else {
        (Seq::empty(), Val::Null)
    })
}

/// The value under `key` in a record's fields: the first binding wins.
pub open spec fn spec_record_get(fields: Seq<(Seq<char>, Val)>, key: Seq<char>) -> Option<Val>
    decreases fields.len(),
{
    if fields.len() == 0 {
        None
    } else if fields[0].0 == key {
        Some(fields[0].1)
    } else {
        spec_record_get(fields.drop_first(), key)
    }
}

/// Looks `key` up among a record's fields.
pub fn record_get<'a>(fields: &'a Vec<(String, Value)>, key: &String) -> (r: Option<&'a Value>)
    ensures
        match r {
            Some(v) => spec_record_get(views_of_fields(fields@), key@) == Some(v@),
            None => spec_record_get(views_of_fields(fields@), key@) is None,
        },
{
    let n = fields.len();
    let mut i: usize = 0;
    proof {
        assert(views_of_fields(fields@).skip(0) =~= views_of_fields(fields@));
    }
    while i < n
        invariant
            i <= n,
            n == fields@.len(),
            spec_record_get(views_of_fields(fields@), key@) == spec_record_get(
                views_of_fields(fields@).skip(i as int),
                key@,
            ),
        decreases n - i,
    {
        proof {
            let fs = views_of_fields(fields@);
            assert(fs.skip(i as int)[0] == fs[i as int]);
            assert(fs.skip(i as int).drop_first() =~= fs.skip(i as int + 1));
        }
        if fields[i].0 == *key {
            return Some(&fields[i].1);
        }
        i = i + 1;
    }
    proof {
        assert(views_of_fields(fields@).skip(n as int).len() == 0);
    }
    None
}

impl View for Value {
    type V = Val;

    open spec fn view(&self) -> Val
        decreases self,
    {
        match self {
            Value::Null => Val::Null,
            Value::Bool(b) => Val::Bool(*b),
            Value::Uint(n) => Val::Uint(*n),
            Value::Text(s) => Val::Text(s@),
            Value::List(elems) => Val::List(views_of_vals(elems@)),
            Value::Record(fields) => Val::Record(views_of_fields(fields@)),
        }
    }
}

/// A field-for-field copy of a value.
#[verifier::loop_isolation(false)]
pub fn clone_value(v: &Value) -> (r: Value)
    ensures
        r@ == v@,
    decreases v,
{
    match v {
        Value::Null => Value::Null,
        Value::Bool(b) => Value::Bool(*b),
        Value::Uint(n) => Value::Uint(*n),
        Value::Text(s) => Value::Text(clone_string(s)),
        Value::List(elems) => {
            let n = elems.len();
            let mut out: Vec<Value> = Vec::new();
            let mut i: usize = 0;
            while i < n
                invariant
                    i <= n,
                    n == elems@.len(),
                    out@.len() == i,
                    forall|k: int| 0 <= k < i ==> (#[trigger] out@[k])@ == elems@[k]@,
                decreases n - i,
            {
                out.push(clone_value(&elems[i]));
                i = i + 1;
            }
            proof {
                assert(views_of_vals(out@) =~= views_of_vals(elems@));
            }
            Value::List(out)
        },
        Value::Record(fields) => {
            let n = fields.len();
            let mut out: Vec<(String, Value)> = Vec::new();
            let mut i: usize = 0;
            while i < n
                invariant
                    i <= n,
                    n == fields@.len(),
                    out@.len() == i,
                    forall|k: int|
                        0 <= k < i ==> (#[trigger] out@[k]).0@ == fields@[k].0@ && out@[k].1@
                            == fields@[k].1@,
                decreases n - i,
            {
                out.push((clone_string(&fields[i].0), clone_value(&fields[i].1)));
                i = i + 1;
            }
            proof {
                assert(views_of_fields(out@) =~= views_of_fields(
                    fields@,
                ));
            }
            Value::Record(out)
        },
    }
}

fn clone_string(s: &String) -> (r: String)
    ensures
        r@ == s@,
{
    s.clone()
}

} // verus!
