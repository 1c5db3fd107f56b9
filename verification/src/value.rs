//! A JSON value as the library reads it: what a case's opaque blocks hold.

use vstd::prelude::*;
use crate::report::jsonl::{json_bool, json_quoted, quoted};

verus! {

/// A JSON value.
///
/// An object keeps its members in the order they came, which for a parsed document is ascending
/// key order.
#[derive(Debug)]
pub enum Value {
    /// `null`.
    Null,
    /// `true` or `false`.
    Bool(bool),
    /// A number, as JSON writes it.
    Number(String),
    /// A string.
    String(String),
    /// A list of values.
    Array(Vec<Value>),
    /// Members, each a key and its value.
    Object(Vec<(String, Value)>),
}

/// `v` written as compact JSON.
pub open spec fn json_text(v: Value) -> Seq<char>
    decreases v, 1nat,
{
    match v {
        Value::Null => "null"@,
        Value::Bool(b) => json_bool(b),
        Value::Number(n) => n@,
        Value::String(s) => json_quoted(s@),
        Value::Array(items) => "["@ + items_text(items@) + "]"@,
        Value::Object(members) => "{"@ + members_text(members@) + "}"@,
    }
}

/// Values written as JSON, separated by commas.
pub open spec fn items_text(items: Seq<Value>) -> Seq<char>
    decreases items, 0nat,
{
    if items.len() == 0 {
        Seq::empty()
    } else if items.len() == 1 {
        json_text(items[0])
    } else {
        json_text(items[0]) + ","@ + items_text(items.drop_first())
    }
}

/// Members written as JSON, `"key":value`, separated by commas.
pub open spec fn members_text(members: Seq<(String, Value)>) -> Seq<char>
    decreases members, 0nat,
{
    if members.len() == 0 {
        Seq::empty()
    } else if members.len() == 1 {
        json_quoted(members[0].0@) + ":"@ + json_text(members[0].1)
    } else {
        json_quoted(members[0].0@) + ":"@ + json_text(members[0].1) + ","@ + members_text(
            members.drop_first(),
        )
    }
}

/// `v` written as compact JSON.
#[verifier::loop_isolation(false)]
pub fn to_json(v: &Value) -> (out: String)
    ensures
        out@ == json_text(*v),
    decreases v,
{
    match v {
        Value::Null => String::from_str("null"),
        Value::Bool(b) => {
            if *b {
                String::from_str("true")
            } else {
                String::from_str("false")
            }
        },
        Value::Number(n) => n.clone(),
        Value::String(s) => quoted(s.as_str()),
        Value::Array(items) => {
            let mut out = String::from_str("[");
            let mut i: usize = 0;
            while i < items.len()
                invariant
                    i <= items@.len(),
                    out@ == "["@ + items_text(items@.take(i as int)),
                decreases items@.len() - i,
            {
                if i > 0 {
                    out.append(",");
                }
                proof {
                    assert(decreases_to!(*items => items@));
                    assert(decreases_to!(items@ => items@[i as int]));
                }
                let item = to_json(&items[i]);
                out.append(item.as_str());
                proof {
                    lemma_items_push(items@.take(i as int), items@[i as int]);
                    assert(items@.take(i + 1) =~= items@.take(i as int).push(items@[i as int]));
                }
                i = i + 1;
            }
            assert(items@.take(items@.len() as int) =~= items@);
            out.append("]");
            out
        },
        Value::Object(members) => {
            let mut out = String::from_str("{");
            let mut i: usize = 0;
            while i < members.len()
                invariant
                    i <= members@.len(),
                    out@ == "{"@ + members_text(members@.take(i as int)),
                decreases members@.len() - i,
            {
                if i > 0 {
                    out.append(",");
                }
                out.append(quoted(members[i].0.as_str()).as_str());
                out.append(":");
                proof {
                    assert(decreases_to!(*members => members@));
                    assert(decreases_to!(members@ => members@[i as int]));
                    assert(decreases_to!(members@[i as int] => members@[i as int].1));
                }
                let item = to_json(&members[i].1);
                out.append(item.as_str());
                proof {
                    lemma_members_push(members@.take(i as int), members@[i as int]);
                    assert(members@.take(i + 1) =~= members@.take(i as int).push(members@[i as int]));
                }
                i = i + 1;
            }
            assert(members@.take(members@.len() as int) =~= members@);
            out.append("}");
            out
        },
    }
}

proof fn lemma_items_push(items: Seq<Value>, v: Value)
    ensures
        items_text(items.push(v)) == if items.len() == 0 {
            json_text(v)
        } else {
            items_text(items) + ","@ + json_text(v)
        },
    decreases items.len(),
{
    if items.len() >= 1 {
        let pushed = items.push(v);
        assert(pushed.drop_first() =~= items.drop_first().push(v));
        assert(pushed[0] == items[0]);
        lemma_items_push(items.drop_first(), v);
        if items.len() == 1 {
            assert(items.drop_first() =~= Seq::<Value>::empty());
        }
    }
}

proof fn lemma_members_push(members: Seq<(String, Value)>, m: (String, Value))
    ensures
        members_text(members.push(m)) == if members.len() == 0 {
            json_quoted(m.0@) + ":"@ + json_text(m.1)
        } else {
            members_text(members) + ","@ + json_quoted(m.0@) + ":"@ + json_text(m.1)
        },
    decreases members.len(),
{
    if members.len() >= 1 {
        let pushed = members.push(m);
        assert(pushed.drop_first() =~= members.drop_first().push(m));
        assert(pushed[0] == members[0]);
        lemma_members_push(members.drop_first(), m);
        if members.len() == 1 {
            assert(members.drop_first() =~= Seq::<(String, Value)>::empty());
        }
    }
}

impl Value {
    /// The text of a string value, if this is one.
    pub fn as_str(&self) -> (r: Option<&String>)
        ensures
            self matches Value::String(s) ==> r == Some(s),
            !(self is String) ==> r is None,
    {
        match self {
            Value::String(s) => Some(s),
            _ => None,
        }
    }
}

} // verus!
