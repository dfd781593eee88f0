//! A JSON document as a plain value.
//!
//! Responses of the upstream API arrive as JSON. The decoders of this
//! library read them through this type, which holds exactly what they look
//! at: the shape of a value, texts, and the numbers that fit 64 signed bits.

use vstd::prelude::*;
use crate::text::str_eq;

verus! {

/// A JSON value.
#[derive(Debug, PartialEq)]
pub enum Json {
    Null,
    Bool(bool),
    /// A number that is an integer and fits 64 signed bits.
    Int(i64),
    /// Any other number: one with a fraction or an exponent, or an integer
    /// beyond 64 signed bits.
    Number,
    Text(String),
    Array(Vec<Json>),
    /// The members of an object in the order of the document. A name is
    /// looked up from the front, so the first member of a name is the one
    /// that counts.
    Object(Vec<(String, Json)>),
}

/// The value of the first member named `key`, if there is one.
pub open spec fn lookup(members: Seq<(String, Json)>, key: Seq<char>) -> Option<Json>
    decreases members.len(),
{
    if members.len() == 0 {
        None
    } else if members[0].0@ == key {
        Some(members[0].1)
    } else {
        lookup(members.drop_first(), key)
    }
}

/// What a reference to a value stands for in a contract.
pub open spec fn deref_opt(r: Option<&Json>) -> Option<Json> {
    match r {
        Some(v) => Some(*v),
        None => None,
    }
}

/// Looking a name up finds a member: the result, where there is one, is the
/// value of a member of that name, and no member before it has the name.
pub proof fn lemma_lookup_finds_first(members: Seq<(String, Json)>, key: Seq<char>)
    ensures
        match lookup(members, key) {
            Some(v) => exists|i: int|
                0 <= i < members.len() && #[trigger] members[i].0@ == key && members[i].1 == v
                    && forall|j: int| 0 <= j < i ==> (#[trigger] members[j]).0@ != key,
            None => forall|i: int| 0 <= i < members.len() ==> (#[trigger] members[i]).0@ != key,
        },
    decreases members.len(),
{
    if members.len() > 0 && members[0].0@ != key {
        let rest = members.drop_first();
        lemma_lookup_finds_first(rest, key);
        match lookup(rest, key) {
            Some(v) => {
                let i = choose|i: int|
                    0 <= i < rest.len() && #[trigger] rest[i].0@ == key && rest[i].1 == v
                        && forall|j: int| 0 <= j < i ==> (#[trigger] rest[j]).0@ != key;
                assert(members[i + 1] == rest[i]);
                assert forall|j: int| 0 <= j < i + 1 implies (#[trigger] members[j]).0@ != key by {
                    if j > 0 {
                        assert(members[j] == rest[j - 1]);
                    }
                }
            },
            None => {
                assert forall|i: int| 0 <= i < members.len() implies (#[trigger] members[i]).0@
                    != key by {
                    if i > 0 {
                        assert(members[i] == rest[i - 1]);
                    }
                }
            },
        }
    }
}

impl Json {
    /// The member of an object under a name; `None` for a value that is no
    /// object or has no such member.
    pub open spec fn field(self, key: Seq<char>) -> Option<Json> {
        match self {
            Json::Object(members) => lookup(members@, key),
            _ => None,
        }
    }

    /// The element of an array at a position; `None` for a value that is no
    /// array or is shorter.
    pub open spec fn item(self, index: int) -> Option<Json> {
        match self {
            Json::Array(items) => if 0 <= index < items@.len() {
                Some(items@[index])
            } else {
                None
            },
            _ => None,
        }
    }

    /// The text of a string value.
    pub open spec fn text(self) -> Option<String> {
        match self {
            Json::Text(s) => Some(s),
            _ => None,
        }
    }

    /// The number of an integer value that fits 64 signed bits.
    pub open spec fn integer(self) -> Option<i64> {
        match self {
            Json::Int(n) => Some(n),
            _ => None,
        }
    }

    /// The elements of an array value.
    pub open spec fn items(self) -> Option<Seq<Json>> {
        match self {
            Json::Array(items) => Some(items@),
            _ => None,
        }
    }

    /// The member of an object under `key`.
    pub fn get(&self, key: &str) -> (r: Option<&Json>)
        ensures
            deref_opt(r) == self.field(key@),
    {
        match self {
            Json::Object(members) => {
                let mut i: usize = 0;
                assert(members@.subrange(0, members.len() as int) =~= members@);
                while i < members.len()
                    invariant
                        i <= members.len(),
                        self.field(key@) == lookup(members@, key@),
                        lookup(members@, key@) == lookup(
                            members@.subrange(i as int, members.len() as int),
                            key@,
                        ),
                    decreases members.len() - i,
                {
                    let ghost tail = members@.subrange(i as int, members.len() as int);
                    assert(tail[0] == members@[i as int]);
                    assert(tail.drop_first() =~= members@.subrange(
                        i as int + 1,
                        members.len() as int,
                    ));
                    if str_eq(members[i].0.as_str(), key) {
                        assert(lookup(tail, key@) == Some(tail[0].1));
                        return Some(&members[i].1);
                    }
                    assert(lookup(tail, key@) == lookup(tail.drop_first(), key@));
                    i += 1;
                }
                None
            },
            _ => None,
        }
    }

    /// The element of an array at `index`.
    pub fn get_index(&self, index: usize) -> (r: Option<&Json>)
        ensures
            deref_opt(r) == self.item(index as int),
    {
        match self {
            Json::Array(items) => if index < items.len() {
                Some(&items[index])
            } else {
                None
            },
            _ => None,
        }
    }

    /// The text of a string value; `None` for any other value.
    pub fn as_str(&self) -> (r: Option<&String>)
        ensures
            match r {
                Some(s) => self.text() == Some(*s),
                None => self.text() is None,
            },
    {
        match self {
            Json::Text(s) => Some(s),
            _ => None,
        }
    }

    /// The number of an integer value; `None` for any other value, a
    /// number with a fraction among them.
    pub fn as_i64(&self) -> (r: Option<i64>)
        ensures
            r == self.integer(),
    {
        match self {
            Json::Int(n) => Some(*n),
            _ => None,
        }
    }

    /// The elements of an array value; `None` for any other value.
    pub fn as_array(&self) -> (r: Option<&Vec<Json>>)
        ensures
            match r {
                Some(items) => self.items() == Some(items@),
                None => self.items() is None,
            },
    {
        match self {
            Json::Array(items) => Some(items),
            _ => None,
        }
    }
}

/// A member of an object is a smaller value than the object.
pub proof fn lemma_field_is_smaller(node: Json, key: Seq<char>)
    ensures
        node.field(key) matches Some(v) ==> decreases_to!(node => v),
{
    if let Json::Object(members) = node {
        lemma_lookup_finds_first(members@, key);
        if let Some(v) = lookup(members@, key) {
            let i = choose|i: int|
                0 <= i < members@.len() && #[trigger] members@[i].0@ == key && members@[i].1 == v;
            assert(decreases_to!(node => members@[i]));
        }
    }
}

} // verus!
