//! What the searches share: the options of a run, and the values of a
//! dictionary reply.

use vstd::prelude::*;
use vstd::string::*;
use crate::text::same_text;

verus! {

/// The options of a run.
#[derive(Debug, Clone)]
pub struct Options {
    /// The greatest number of results to show; zero for no limit.
    pub limit: usize,
    /// The search term.
    pub query: String,
    /// Whether to go on asking for search terms after the first.
    pub interactive: bool,
}

impl Default for Options {
    fn default() -> (r: Options)
        ensures
            r.limit == 0,
            r.query@ == Seq::<char>::empty(),
            !r.interactive,
    {
        Options { limit: 0, query: String::new(), interactive: false }
    }
}

/// A value of a reply in JSON. A number is kept as the text that denotes it;
/// an object keeps its members in their order.
#[derive(Debug)]
pub enum Value {
    Null,
    Bool(bool),
    Number(String),
    String(String),
    Array(Vec<Value>),
    Object(Vec<(String, Value)>),
}

/// The value of the first member named `key`.
pub open spec fn lookup(members: Seq<(String, Value)>, key: Seq<char>) -> Option<Value>
    decreases members.len(),
{
    if members.len() == 0 {
        None
    } else if members[0].0@ == key {
        Some(members[0].1)
    } else {
        lookup(members.drop_first(), key)
    }
}

impl Value {
    /// The member named `key` of an object; `None` where `self` is no
    /// object or has no such member.
    pub open spec fn member(self, key: Seq<char>) -> Option<Value> {
        match self {
            Value::Object(members) => lookup(members@, key),
            _ => None,
        }
    }

    /// The member named `key` of an object.
    pub fn get(&self, key: &str) -> (found: Option<&Value>)
        ensures
            match found {
                Some(value) => self.member(key@) == Some(*value),
                None => self.member(key@) is None,
            },
    {
        match self {
            Value::Object(members) => {
                let mut i: usize = 0;
                assert(members@.subrange(0, members@.len() as int) =~= members@);
                while i < members.len()
                    invariant
                        i <= members.len(),
                        self.member(key@) == lookup(members@, key@),
                        lookup(members@, key@) == lookup(
                            members@.subrange(i as int, members@.len() as int),
                            key@,
                        ),
                    decreases members.len() - i,
                {
                    let ghost rest = members@.subrange(i as int, members@.len() as int);
                    assert(rest.drop_first() =~= members@.subrange(i + 1, members@.len() as int));
                    if same_text(members[i].0.as_str(), key) {
                        return Some(&members[i].1);
                    }
                    i += 1;
                }
                None
            },
            _ => None,
        }
    }
}

/// The truth value that `value` holds.
pub fn value_to_bool(value: &Value) -> (b: bool)
    requires
        value is Bool,
    ensures
        b == value->Bool_0,
{
    match value {
        Value::Bool(b) => *b,
        _ => vstd::pervasive::unreached(),
    }
}

/// The text that `value` holds.
pub fn value_to_str(value: &Value) -> (s: &str)
    requires
        value is String,
    ensures
        s@ == value->String_0@,
{
    match value {
        Value::String(s) => s.as_str(),
        _ => vstd::pervasive::unreached(),
    }
}

/// The elements that `value` holds.
pub fn value_to_arr(value: &Value) -> (a: &Vec<Value>)
    requires
        value is Array,
    ensures
        *a == value->Array_0,
{
    match value {
        Value::Array(a) => a,
        _ => vstd::pervasive::unreached(),
    }
}

} // verus!
