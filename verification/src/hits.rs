//! The result mapper: from the answer of the search engine to normalized
//! hits.

use crate::error::ElasticsearchError;
use crate::json::{
    lemma_array_view, lemma_lookup_push, lemma_object_view, lookup, members_view, option_view,
    values_view, Json, Value,
};
use crate::sanitize::{fix_property_keys, is_sanitized, lemma_sanitized_unique};
use crate::text::{compare_keys, KeyOrder};
use vstd::prelude::*;

verus! {

/// One search result. `T` is what its source is held as.
#[derive(Clone, Debug, PartialEq, Eq)]
pub struct Hit<T> {
    /// The document that was found.
    pub source: T,
    /// The sort keys of the hit: the cursor for the page after it.
    pub sort: Option<Vec<Value>>,
    /// The identifier of the document.
    pub id: String,
    /// The fragments in which the matches are marked.
    pub highlight: Option<Value>,
}

/// The hits of one page.
#[derive(Clone, Debug, PartialEq, Eq)]
pub struct Hits<T> {
    pub hits: Vec<Hit<T>>,
}

/// The answer of the search engine to a search.
#[derive(Clone, Debug, PartialEq, Eq)]
pub struct ElasticsearchResponse<T> {
    pub hits: Hits<T>,
}

/// The mathematical model of a hit.
pub struct HitView {
    pub source: Json,
    pub sort: Option<Seq<Json>>,
    pub id: Seq<char>,
    pub highlight: Option<Json>,
}

impl View for Hit<Value> {
    type V = HitView;

    open spec fn view(&self) -> HitView {
        HitView {
            source: self.source@,
            sort: match self.sort {
                Some(keys) => Some(values_view(keys@)),
                None => None,
            },
            id: self.id@,
            highlight: option_view(self.highlight),
        }
    }
}

/// The models of hits, in order.
pub open spec fn hits_view(hits: Seq<Hit<Value>>) -> Seq<HitView> {
    Seq::new(hits.len(), |i: int| hits[i]@)
}

impl View for ElasticsearchResponse<Value> {
    type V = Seq<HitView>;

    open spec fn view(&self) -> Seq<HitView> {
        hits_view(self.hits.hits@)
    }
}

/// `out` is `raw` normalized: the same identifier, sort keys and highlight,
/// and the source sanitized.
pub open spec fn is_normalized(raw: HitView, out: HitView) -> bool {
    &&& out.id == raw.id
    &&& out.sort == raw.sort
    &&& out.highlight == raw.highlight
    &&& is_sanitized(raw.source, out.source)
}

/// `out` is the page `raw` normalized: as many hits, in the same order, each
/// the normalized form of the one in its place.
pub open spec fn is_normalized_page(raw: Seq<HitView>, out: Seq<HitView>) -> bool {
    &&& out.len() == raw.len()
    &&& forall|i: int| 0 <= i < raw.len() ==> is_normalized(raw[i], #[trigger] out[i])
}

/// The source of every hit of the page is an object.
pub open spec fn all_sources_are_objects(raw: Seq<HitView>) -> bool {
    forall|i: int| 0 <= i < raw.len() ==> (#[trigger] raw[i]).source is Object
}

/// A page has one normalized form: normalizing it twice gives the same hits
/// in the same order.
pub proof fn lemma_normalized_page_unique(
    raw: Seq<HitView>,
    first: Seq<HitView>,
    second: Seq<HitView>,
)
    requires
        is_normalized_page(raw, first),
        is_normalized_page(raw, second),
    ensures
        first == second,
{
    assert forall|i: int| 0 <= i < raw.len() implies first[i] == second[i] by {
        assert(is_normalized(raw[i], first[i]));
        assert(is_normalized(raw[i], second[i]));
        lemma_sanitized_unique(raw[i].source, first[i].source, second[i].source);
    }
    assert(first =~= second);
}

/// Normalizes one hit. A hit whose source is not an object is refused.
pub fn normalize_hit(hit: Hit<Value>) -> (r: Result<Hit<Value>, ElasticsearchError>)
    ensures
        match r {
            Ok(out) => is_normalized(hit@, out@),
            Err(e) => e == ElasticsearchError::MalformedDocument && !(hit@.source is Object),
        },
{
    let Hit { source, sort, id, highlight } = hit;
    match fix_property_keys(source) {
        Ok(fixed) => Ok(Hit { source: fixed, sort, id, highlight }),
        Err(e) => Err(e),
    }
}

/// Normalizes a page of hits, in their order. One hit whose source is not an
/// object fails the whole page.
pub fn normalize_hits(hits: Vec<Hit<Value>>) -> (r: Result<Vec<Hit<Value>>, ElasticsearchError>)
    ensures
        match r {
            Ok(out) => is_normalized_page(hits_view(hits@), hits_view(out@)),
            Err(e) => e == ElasticsearchError::MalformedDocument && !all_sources_are_objects(
                hits_view(hits@),
            ),
        },
{
    let ghost raw = hits_view(hits@);
    let mut out: Vec<Hit<Value>> = Vec::new();
    for hit in it: hits
        invariant
            it.seq() == hits@,
            raw == hits_view(hits@),
            out@.len() == it.index(),
            forall|i: int| 0 <= i < out@.len() ==> is_normalized(raw[i], (#[trigger] out@[i])@),
    {
        match normalize_hit(hit) {
            Ok(done) => {
                out.push(done);
            },
            Err(e) => {
                assert(!(raw[it.index() as int].source is Object));
                return Err(e);
            },
        }
    }
    Ok(out)
}

/// The sort keys that an answer gives a hit: none where the member is
/// missing or null, those of an array, and no others.
pub open spec fn sort_keys(member: Option<Json>) -> Option<Option<Seq<Json>>> {
    match member {
        None => Some(None),
        Some(Json::Null) => Some(None),
        Some(Json::Array(keys)) => Some(Some(keys)),
        Some(_) => None,
    }
}

/// A member that may be left out: missing and null are the same.
pub open spec fn optional(member: Option<Json>) -> Option<Json> {
    match member {
        Some(Json::Null) => None,
        other => other,
    }
}

/// The hit that one entry of an answer stands for: an object with a source
/// and an identifier that is a string, and sort keys of the right shape if
/// there are any.
pub open spec fn raw_hit(item: Json) -> Option<HitView> {
    match (item.field("_source"@), item.field("_id"@), sort_keys(item.field("sort"@))) {
        (Some(source), Some(Json::String(id)), Some(sort)) => Some(
            HitView { source, sort, id, highlight: optional(item.field("highlight"@)) },
        ),
        _ => None,
    }
}

/// The hits that the entries of an answer stand for, if each stands for one.
pub open spec fn raw_hits(items: Seq<Json>) -> Option<Seq<HitView>> {
    if forall|i: int| 0 <= i < items.len() ==> raw_hit(#[trigger] items[i]) is Some {
        Some(Seq::new(items.len(), |i: int| raw_hit(items[i])->0))
    } else {
        None
    }
}

/// The hits of an answer: the entries of the array `hits` in the object
/// `hits` of the body.
pub open spec fn response_hits(body: Json) -> Option<Seq<HitView>> {
    match body.field("hits"@) {
        Some(page) => match page.field("hits"@) {
            Some(Json::Array(items)) => raw_hits(items),
            _ => None,
        },
        None => None,
    }
}

/// Reads one entry of an answer as a hit.
pub fn read_hit(item: Value) -> (hit: Option<Hit<Value>>)
    ensures
        match hit {
            Some(h) => raw_hit(item@) == Some(h@),
            None => raw_hit(item@) is None,
        },
{
    match item {
        Value::Object(members) => {
            proof {
                lemma_object_view(members);
            }
            let ghost given = members_view(members@);
            let mut source: Option<Value> = None;
            let mut id: Option<Value> = None;
            let mut sort: Option<Value> = None;
            let mut highlight: Option<Value> = None;
            for member in it: members
                invariant
                    it.seq() == members@,
                    given == members_view(members@),
                    option_view(source) == lookup(given.take(it.index() as int), "_source"@),
                    option_view(id) == lookup(given.take(it.index() as int), "_id"@),
                    option_view(sort) == lookup(given.take(it.index() as int), "sort"@),
                    option_view(highlight) == lookup(given.take(it.index() as int), "highlight"@),
            {
                proof {
                    let done = given.take(it.index() as int);
                    let next = given[it.index() as int];
                    assert(given.take(it.index() + 1) =~= done.push(next));
                    reveal_strlit("_source");
                    reveal_strlit("_id");
                    reveal_strlit("sort");
                    reveal_strlit("highlight");
                    lemma_lookup_push(done, next, "_source"@);
                    lemma_lookup_push(done, next, "_id"@);
                    lemma_lookup_push(done, next, "sort"@);
                    lemma_lookup_push(done, next, "highlight"@);
                }
                let (name, value) = member;
                if compare_keys(name.as_str(), "_source") == KeyOrder::Same {
                    source = Some(value);
                } else if compare_keys(name.as_str(), "_id") == KeyOrder::Same {
                    id = Some(value);
                } else if compare_keys(name.as_str(), "sort") == KeyOrder::Same {
                    sort = Some(value);
                } else if compare_keys(name.as_str(), "highlight") == KeyOrder::Same {
                    highlight = Some(value);
                }
            }
            assert(given.take(members@.len() as int) =~= given);
            let keys = match sort {
                None => None,
                Some(Value::Null) => None,
                Some(Value::Array(keys)) => {
                    proof {
                        lemma_array_view(keys);
                    }
                    Some(keys)
                },
                Some(_) => {
                    return None;
                },
            };
            let marked = match highlight {
                Some(Value::Null) => None,
                other => other,
            };
            match (source, id) {
                (Some(source), Some(Value::String(id))) => Some(
                    Hit { source, sort: keys, id, highlight: marked },
                ),
                _ => None,
            }
        },
        _ => None,
    }
}

/// Reads the body of an answer of the search engine. A body of another
/// shape is refused.
pub fn read_response(body: Value) -> (r: Result<
    ElasticsearchResponse<Value>,
    ElasticsearchError,
>)
    ensures
        match r {
            Ok(response) => response_hits(body@) == Some(response@),
            Err(e) => e == ElasticsearchError::BackendProtocolError && response_hits(body@) is None,
        },
{
    let page = match body.into_field("hits") {
        Some(page) => page,
        None => {
            return Err(ElasticsearchError::BackendProtocolError);
        },
    };
    let items = match page.into_field("hits") {
        Some(Value::Array(items)) => {
            proof {
                lemma_array_view(items);
            }
            items
        },
        _ => {
            return Err(ElasticsearchError::BackendProtocolError);
        },
    };
    let ghost given = values_view(items@);
    let mut hits: Vec<Hit<Value>> = Vec::new();
    for item in it: items
        invariant
            it.seq() == items@,
            given == values_view(items@),
            response_hits(body@) == raw_hits(given),
            hits@.len() == it.index(),
            forall|i: int| 0 <= i < hits@.len() ==> raw_hit(given[i]) == Some((#[trigger] hits@[i])@),
    {
        match read_hit(item) {
            Some(hit) => {
                hits.push(hit);
            },
            None => {
                assert(raw_hit(given[it.index() as int]) is None);
                return Err(ElasticsearchError::BackendProtocolError);
            },
        }
    }
    assert forall|i: int| 0 <= i < given.len() implies raw_hit(#[trigger] given[i]) is Some by {
        assert(raw_hit(given[i]) == Some(hits@[i]@));
    }
    assert(raw_hits(given)->0 =~= hits_view(hits@));
    Ok(ElasticsearchResponse { hits: Hits { hits } })
}

/// What a search answers, given the body that the search engine sent: the
/// hits of the body, normalized. A body of another shape is a protocol
/// error; a hit whose source is not an object is a malformed document.
/// Either way no hit is handed on.
pub fn hits_of_response(body: Value) -> (r: Result<Vec<Hit<Value>>, ElasticsearchError>)
    ensures
        match r {
            Ok(out) => response_hits(body@) is Some && is_normalized_page(
                response_hits(body@)->0,
                hits_view(out@),
            ),
            Err(ElasticsearchError::BackendProtocolError) => response_hits(body@) is None,
            Err(ElasticsearchError::MalformedDocument) => response_hits(body@) is Some
                && !all_sources_are_objects(response_hits(body@)->0),
            Err(ElasticsearchError::BackendUnavailable) => false,
        },
{
    match read_response(body) {
        Ok(response) => normalize_hits(response.hits.hits),
        Err(e) => Err(e),
    }
}

} // verus!
