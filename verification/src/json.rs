//! A JSON document tree and its mathematical model.

use crate::text::{compare_keys, KeyOrder};
use vstd::prelude::*;

verus! {

/// A JSON number: a non-negative integer, a negative integer, or a binary64
/// value held by its bit pattern.
#[derive(Clone, Copy, Debug, PartialEq, Eq, Structural)]
pub enum Number {
    PosInt(u64),
    NegInt(i64),
    Float(u64),
}

/// A JSON document. An object is held as its members in order.
#[derive(Debug, PartialEq, Eq)]
pub enum Value {
    Null,
    Bool(bool),
    Number(Number),
    String(String),
    Array(Vec<Value>),
    Object(Vec<(String, Value)>),
}

/// The mathematical model of a [`Value`].
pub enum Json {
    Null,
    Bool(bool),
    Number(Number),
    String(Seq<char>),
    Array(Seq<Json>),
    Object(Seq<(Seq<char>, Json)>),
}

/// The model of `value`: the same tree, with sequences for vectors and
/// strings.
pub open spec fn model(value: Value) -> Json
    decreases value,
{
    match value {
        Value::Null => Json::Null,
        Value::Bool(b) => Json::Bool(b),
        Value::Number(n) => Json::Number(n),
        Value::String(s) => Json::String(s@),
        Value::Array(items) => Json::Array(
            Seq::new(
                items@.len(),
                |i: int|
                    if 0 <= i < items@.len() {
                        model(items@[i])
                    } else {
                        Json::Null
                    },
            ),
        ),
        Value::Object(members) => Json::Object(
            Seq::new(
                members@.len(),
                |i: int|
                    if 0 <= i < members@.len() {
                        (members@[i].0@, model(members@[i].1))
                    } else {
                        (Seq::empty(), Json::Null)
                    },
            ),
        ),
    }
}

impl View for Value {
    type V = Json;

    open spec fn view(&self) -> Json {
        model(*self)
    }
}

/// The models of the values of an array, in order.
pub open spec fn values_view(items: Seq<Value>) -> Seq<Json> {
    Seq::new(items.len(), |i: int| items[i]@)
}

/// The models of the members of an object, in order.
pub open spec fn members_view(members: Seq<(String, Value)>) -> Seq<(Seq<char>, Json)> {
    Seq::new(members.len(), |i: int| (members[i].0@, members[i].1@))
}

/// The model of a value that may be missing.
pub open spec fn option_view(value: Option<Value>) -> Option<Json> {
    match value {
        Some(v) => Some(v@),
        None => None,
    }
}

/// The value that `members` hold under `key`: that of the last member of
/// that name.
pub open spec fn lookup(members: Seq<(Seq<char>, Json)>, key: Seq<char>) -> Option<Json>
    decreases members.len(),
{
    if members.len() == 0 {
        None
    } else if members.last().0 == key {
        Some(members.last().1)
    } else {
        lookup(members.drop_last(), key)
    }
}

impl Json {
    /// The value under `key`, where this is an object that has such a
    /// member.
    pub open spec fn field(self, key: Seq<char>) -> Option<Json> {
        match self {
            Json::Object(members) => lookup(members, key),
            _ => None,
        }
    }
}

/// What one more member does to a lookup.
pub proof fn lemma_lookup_push(
    members: Seq<(Seq<char>, Json)>,
    added: (Seq<char>, Json),
    key: Seq<char>,
)
    ensures
        lookup(members.push(added), key) == if added.0 == key {
            Some(added.1)
        } else {
            lookup(members, key)
        },
{
    assert(members.push(added).drop_last() =~= members);
}

/// A lookup finds the last member of the name.
pub proof fn lemma_lookup_last(members: Seq<(Seq<char>, Json)>, key: Seq<char>, i: int)
    requires
        0 <= i < members.len(),
        members[i].0 == key,
        forall|j: int| i < j < members.len() ==> (#[trigger] members[j]).0 != key,
    ensures
        lookup(members, key) == Some(members[i].1),
    decreases members.len(),
{
    if i < members.len() - 1 {
        assert(members[members.len() - 1].0 != key);
        lemma_lookup_last(members.drop_last(), key, i);
    }
}

/// A lookup finds nothing where no member has the name.
pub proof fn lemma_lookup_none(members: Seq<(Seq<char>, Json)>, key: Seq<char>)
    requires
        forall|j: int| 0 <= j < members.len() ==> (#[trigger] members[j]).0 != key,
    ensures
        lookup(members, key) is None,
    decreases members.len(),
{
    if members.len() > 0 {
        assert(members[members.len() - 1].0 != key);
        lemma_lookup_none(members.drop_last(), key);
    }
}

/// The model of an array is the array of its values' models.
pub proof fn lemma_array_view(items: Vec<Value>)
    ensures
        Value::Array(items)@ == Json::Array(values_view(items@)),
{
    assert(Value::Array(items)@->Array_0 =~= values_view(items@));
}

/// The model of an object is the object of its members' models.
pub proof fn lemma_object_view(members: Vec<(String, Value)>)
    ensures
        Value::Object(members)@ == Json::Object(members_view(members@)),
{
    assert(Value::Object(members)@->Object_0 =~= members_view(members@));
}

impl Clone for Value {
    /// A copy of the whole tree.
    fn clone(&self) -> (copy: Self)
        ensures
            copy@ == self@,
        decreases self,
    {
        match self {
            Value::Null => Value::Null,
            Value::Bool(b) => Value::Bool(*b),
            Value::Number(n) => Value::Number(*n),
            Value::String(s) => Value::String(s.clone()),
            Value::Array(items) => {
                let mut copies: Vec<Value> = Vec::new();
                let mut i: usize = 0;
                while i < items.len()
                    invariant
                        *self == Value::Array(*items),
                        i <= items.len(),
                        copies@.len() == i,
                        forall|k: int| 0 <= k < i ==> (#[trigger] copies@[k])@ == items@[k]@,
                    decreases items.len() - i,
                {
                    assert(self->Array_0 == *items);
                    copies.push(items[i].clone());
                    i += 1;
                }
                proof {
                    lemma_array_view(*items);
                    lemma_array_view(copies);
                    assert(values_view(copies@) =~= values_view(items@));
                }
                Value::Array(copies)
            },
            Value::Object(members) => {
                let mut copies: Vec<(String, Value)> = Vec::new();
                let mut i: usize = 0;
                while i < members.len()
                    invariant
                        *self == Value::Object(*members),
                        i <= members.len(),
                        copies@.len() == i,
                        forall|k: int|
                            0 <= k < i ==> (#[trigger] copies@[k]).0@ == members@[k].0@
                                && copies@[k].1@ == members@[k].1@,
                    decreases members.len() - i,
                {
                    assert(self->Object_0 == *members);
                    copies.push((members[i].0.clone(), members[i].1.clone()));
                    i += 1;
                }
                proof {
                    lemma_object_view(*members);
                    lemma_object_view(copies);
                    assert(members_view(copies@) =~= members_view(members@));
                }
                Value::Object(copies)
            },
        }
    }
}

impl Value {
    /// A string value with the characters of `text`.
    pub fn string(text: &str) -> (value: Value)
        ensures
            value@ == Json::String(text@),
    {
        Value::String(text.to_owned())
    }

    /// An array of `items`.
    pub fn array(items: Vec<Value>) -> (value: Value)
        ensures
            value@ == Json::Array(values_view(items@)),
    {
        proof {
            lemma_array_view(items);
        }
        Value::Array(items)
    }

    /// An object of `members`.
    pub fn object(members: Vec<(String, Value)>) -> (value: Value)
        ensures
            value@ == Json::Object(members_view(members@)),
    {
        proof {
            lemma_object_view(members);
        }
        Value::Object(members)
    }

    /// Takes the value under `key` out of an object: that of the last member
    /// of that name. Anything else has no such value.
    pub fn into_field(self, key: &str) -> (found: Option<Value>)
        ensures
            option_view(found) == self@.field(key@),
    {
        match self {
            Value::Object(members) => {
                proof {
                    lemma_object_view(members);
                }
                let ghost given = members_view(members@);
                let mut found: Option<Value> = None;
                for member in it: members
                    invariant
                        it.seq() == members@,
                        given == members_view(members@),
                        option_view(found) == lookup(given.take(it.index() as int), key@),
                {
                    proof {
                        let done = given.take(it.index() as int);
                        assert(given.take(it.index() + 1) =~= done.push(given[it.index() as int]));
                        lemma_lookup_push(done, given[it.index() as int], key@);
                    }
                    let (name, value) = member;
                    if compare_keys(name.as_str(), key) == KeyOrder::Same {
                        found = Some(value);
                    }
                }
                assert(given.take(members@.len() as int) =~= given);
                found
            },
            _ => None,
        }
    }

    /// An object with one member.
    pub fn singleton(key: &str, inner: Value) -> (value: Value)
        ensures
            value@ == Json::Object(seq![(key@, inner@)]),
    {
        let mut members: Vec<(String, Value)> = Vec::new();
        members.push((key.to_owned(), inner));
        assert(members_view(members@) =~= seq![(key@, inner@)]);
        Value::object(members)
    }
}

} // verus!
