//! The field sanitizer: one naming convention for the fields of a hit.

use crate::error::ElasticsearchError;
use crate::json::{lemma_object_view, members_view, Json, Value};
use crate::object::{is_keyed, lemma_keyed_unique, sorted_members};
use crate::text::{sanitize_key, sanitized_key};
use vstd::prelude::*;

verus! {

/// The members with their names sanitized, value by value as they were.
pub open spec fn renamed(members: Seq<(Seq<char>, Json)>) -> Seq<(Seq<char>, Json)> {
    Seq::new(members.len(), |i: int| (sanitized_key(members[i].0), members[i].1))
}

/// `out` is `document` sanitized: both are objects, and `out` holds the
/// members of `document` under their sanitized names, in key order. Where
/// two names sanitize to one, the member that stood later in `document`
/// stays. The values are not looked into.
pub open spec fn is_sanitized(document: Json, out: Json) -> bool {
    &&& document is Object
    &&& out is Object
    &&& is_keyed(renamed(document->Object_0), out->Object_0)
}

/// Sanitizing is deterministic: a document has one sanitized form, so
/// sanitizing it twice gives the same members in the same order.
pub proof fn lemma_sanitized_unique(document: Json, first: Json, second: Json)
    requires
        is_sanitized(document, first),
        is_sanitized(document, second),
    ensures
        first == second,
{
    lemma_keyed_unique(renamed(document->Object_0), first->Object_0, second->Object_0);
}

/// Gives each member its sanitized name, and leaves order and values alone.
pub fn rename_members(members: Vec<(String, Value)>) -> (out: Vec<(String, Value)>)
    ensures
        members_view(out@) == renamed(members_view(members@)),
{
    let mut out: Vec<(String, Value)> = Vec::new();
    for member in it: members
        invariant
            it.seq() == members@,
            out@.len() == it.index(),
            forall|i: int|
                0 <= i < out@.len() ==> (#[trigger] out@[i]).0@ == sanitized_key(members@[i].0@)
                    && out@[i].1@ == members@[i].1@,
    {
        let (key, value) = member;
        let name = sanitize_key(key.as_str());
        out.push((name, value));
    }
    assert(members_view(out@) =~= renamed(members_view(members@)));
    out
}

/// Sanitizes the top-level field names of a document. A document that is not
/// an object is refused.
pub fn fix_property_keys(log_line: Value) -> (r: Result<Value, ElasticsearchError>)
    ensures
        match r {
            Ok(out) => is_sanitized(log_line@, out@),
            Err(e) => e == ElasticsearchError::MalformedDocument && !(log_line@ is Object),
        },
{
    match log_line {
        Value::Object(members) => {
            proof {
                lemma_object_view(members);
            }
            let out = sorted_members(rename_members(members));
            proof {
                lemma_object_view(out);
            }
            Ok(Value::Object(out))
        },
        _ => Err(ElasticsearchError::MalformedDocument),
    }
}

} // verus!
