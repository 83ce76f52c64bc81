//! The query builder: from a search filter to the request body of the
//! search engine.

use crate::date::{iso_text, Date, Ymd};
use crate::json::{
    lemma_lookup_last, lemma_lookup_none, members_view, values_view, Json, Number, Value,
};
use crate::object::{keys_ascending, lemma_bytes_before_transitive};
use crate::text::lemma_ascii_before;
use vstd::prelude::*;
use vstd::utf8::encode_utf8;

verus! {

/// The direction in which hits are sorted by time.
#[derive(Clone, Copy, Debug, PartialEq, Eq, Structural)]
pub enum Order {
    Asc,
    Desc,
}

impl Default for Order {
    /// The newest hits first.
    fn default() -> (order: Self)
        ensures
            order == Order::Desc,
    {
        Order::Desc
    }
}

/// What a caller searches for.
#[derive(Clone, Debug)]
pub struct SearchFilter {
    /// The most hits that one page holds.
    pub size: u64,
    /// A text that is matched against the whole document.
    pub query: Option<String>,
    /// The first day that is searched.
    pub start_date: Option<Date>,
    /// The last day that is searched.
    pub end_date: Option<Date>,
    /// The sort keys of the last hit of the page before, to go on after it.
    pub search_after: Option<Vec<Value>>,
    /// The direction of the sort.
    pub order: Order,
}

/// The mathematical model of a [`SearchFilter`].
pub struct SearchFilterView {
    pub size: u64,
    pub query: Option<Seq<char>>,
    pub start_date: Option<Ymd>,
    pub end_date: Option<Ymd>,
    pub search_after: Option<Seq<Json>>,
    pub order: Order,
}

impl View for SearchFilter {
    type V = SearchFilterView;

    open spec fn view(&self) -> SearchFilterView {
        SearchFilterView {
            size: self.size,
            query: match self.query {
                Some(text) => Some(text@),
                None => None,
            },
            start_date: match self.start_date {
                Some(date) => Some(date@),
                None => None,
            },
            end_date: match self.end_date {
                Some(date) => Some(date@),
                None => None,
            },
            search_after: match self.search_after {
                Some(keys) => Some(values_view(keys@)),
                None => None,
            },
            order: self.order,
        }
    }
}

/// An object with one member.
pub open spec fn singleton(key: Seq<char>, value: Json) -> Json {
    Json::Object(seq![(key, value)])
}

/// The clause that matches a free text against the whole document. The text
/// is handed on as it is, with the operators that the search engine reads in
/// it.
pub open spec fn text_clause(query: Seq<char>) -> Json {
    singleton("simple_query_string"@, singleton("query"@, Json::String(query)))
}

/// One side of a range: the date in ISO 8601, or null where that side is
/// open.
pub open spec fn range_bound(date: Option<Ymd>) -> Json {
    match date {
        Some(day) => Json::String(iso_text(day)),
        None => Json::Null,
    }
}

/// The clause that holds the time of a hit between two days, both included.
pub open spec fn range_clause(start: Option<Ymd>, end: Option<Ymd>) -> Json {
    singleton(
        "range"@,
        singleton(
            "@timestamp"@,
            Json::Object(seq![("gte"@, range_bound(start)), ("lte"@, range_bound(end))]),
        ),
    )
}

/// The clauses that every hit must meet: one for the free text if there is
/// any, then one for the days if either bound is set.
pub open spec fn must_clauses(filter: SearchFilterView) -> Seq<Json> {
    let by_text = match filter.query {
        Some(query) => if query.len() > 0 {
            seq![text_clause(query)]
        } else {
            seq![]
        },
        None => seq![],
    };
    let by_date = if filter.start_date is Some || filter.end_date is Some {
        seq![range_clause(filter.start_date, filter.end_date)]
    } else {
        seq![]
    };
    by_text + by_date
}

/// The word of the search engine for a direction.
pub open spec fn order_token(order: Order) -> Seq<char> {
    match order {
        Order::Asc => "asc"@,
        Order::Desc => "desc"@,
    }
}

/// The one sort clause: by time, in the direction asked for.
pub open spec fn sort_clauses(order: Order) -> Json {
    Json::Array(
        seq![singleton("@timestamp"@, singleton("order"@, Json::String(order_token(order))))],
    )
}

/// The request to mark the matches in the message of a hit.
pub open spec fn highlight_request() -> Json {
    Json::Object(
        seq![
            ("fields"@, singleton("message"@, Json::Object(seq![]))),
            ("post_tags"@, Json::Array(seq![Json::String("</span>"@)])),
            ("pre_tags"@, Json::Array(seq![Json::String("<span class='highlight'>"@)])),
        ],
    )
}

/// The member that tells the search engine where to go on, if the filter
/// has a cursor.
pub open spec fn cursor_members(filter: SearchFilterView) -> Seq<(Seq<char>, Json)> {
    match filter.search_after {
        Some(keys) => seq![("search_after"@, Json::Array(keys))],
        None => seq![],
    }
}

/// The request body for a filter.
pub open spec fn query_document(filter: SearchFilterView) -> Json {
    Json::Object(
        seq![
            ("highlight"@, highlight_request()),
            ("query"@, singleton("bool"@, singleton("must"@, Json::Array(must_clauses(filter))))),
        ] + cursor_members(filter) + seq![
            ("size"@, Json::Number(Number::PosInt(filter.size))),
            ("sort"@, sort_clauses(filter.order)),
        ],
    )
}

/// The clauses of a request body: what stands at `query.bool.must`.
pub open spec fn document_clauses(document: Json) -> Option<Seq<Json>> {
    match document.field("query"@) {
        Some(query) => match query.field("bool"@) {
            Some(all) => match all.field("must"@) {
                Some(Json::Array(clauses)) => Some(clauses),
                _ => None,
            },
            None => None,
        },
        None => None,
    }
}

/// The clause bounds the time of a hit.
pub open spec fn is_range_clause(clause: Json) -> bool {
    clause.field("range"@) is Some
}

/// The two sides of a range clause.
pub open spec fn clause_bounds(clause: Json) -> Option<Json> {
    match clause.field("range"@) {
        Some(range) => range.field("@timestamp"@),
        None => None,
    }
}

/// The names of the members of a request body differ from one another.
proof fn lemma_member_names()
    ensures
        "highlight"@ != "query"@,
        "highlight"@ != "search_after"@,
        "highlight"@ != "size"@,
        "highlight"@ != "sort"@,
        "query"@ != "search_after"@,
        "query"@ != "size"@,
        "query"@ != "sort"@,
        "search_after"@ != "size"@,
        "search_after"@ != "sort"@,
        "size"@ != "sort"@,
        "gte"@ != "lte"@,
        "simple_query_string"@ != "range"@,
{
    reveal_strlit("highlight");
    reveal_strlit("query");
    reveal_strlit("search_after");
    reveal_strlit("size");
    reveal_strlit("sort");
    reveal_strlit("gte");
    reveal_strlit("lte");
    reveal_strlit("simple_query_string");
    reveal_strlit("range");
    assert("highlight"@.len() == 9);
    assert("query"@.len() == 5);
    assert("search_after"@.len() == 12);
    assert("size"@.len() == 4);
    assert("sort"@.len() == 4);
    assert("simple_query_string"@.len() == 19);
    assert("range"@.len() == 5);
    assert("size"@[1] != "sort"@[1]);
    assert("gte"@[0] != "lte"@[0]);
}

/// What stands under each name of a request body: the highlight request,
/// the clauses, the page size, the sort clause, and the cursor exactly where
/// the filter has one.
pub proof fn lemma_document_members(filter: SearchFilterView)
    ensures
        query_document(filter).field("highlight"@) == Some(highlight_request()),
        document_clauses(query_document(filter)) == Some(must_clauses(filter)),
        query_document(filter).field("size"@) == Some(Json::Number(Number::PosInt(filter.size))),
        query_document(filter).field("sort"@) == Some(sort_clauses(filter.order)),
        query_document(filter).field("search_after"@) == match filter.search_after {
            Some(keys) => Some(Json::Array(keys)),
            None => None,
        },
{
    lemma_member_names();
    let members = query_document(filter)->Object_0;
    let n = members.len() as int;
    assert(members[0].0 == "highlight"@);
    assert(members[1].0 == "query"@);
    assert(members[n - 2].0 == "size"@);
    assert(members[n - 1].0 == "sort"@);
    lemma_lookup_last(members, "highlight"@, 0);
    lemma_lookup_last(members, "query"@, 1);
    lemma_lookup_last(members, "size"@, n - 2);
    lemma_lookup_last(members, "sort"@, n - 1);
    if filter.search_after is Some {
        assert(members[2].0 == "search_after"@);
        lemma_lookup_last(members, "search_after"@, 2);
    } else {
        lemma_lookup_none(members, "search_after"@);
    }
    let query = members[1].1;
    lemma_lookup_last(query->Object_0, "bool"@, 0);
    lemma_lookup_last(query->Object_0[0].1->Object_0, "must"@, 0);
}

/// The members of a request body stand in key order, with or without a
/// cursor.
pub proof fn lemma_document_in_key_order(filter: SearchFilterView)
    ensures
        keys_ascending(query_document(filter)->Object_0),
{
    reveal_strlit("highlight");
    reveal_strlit("query");
    reveal_strlit("search_after");
    reveal_strlit("size");
    reveal_strlit("sort");
    let h = "highlight"@;
    let q = "query"@;
    let a = "search_after"@;
    let z = "size"@;
    let t = "sort"@;
    assert(h.subrange(0, 0) =~= q.subrange(0, 0));
    assert(h.subrange(0, 0) =~= a.subrange(0, 0));
    assert(q.subrange(0, 0) =~= a.subrange(0, 0));
    assert(a.subrange(0, 1) =~= z.subrange(0, 1));
    assert(a.subrange(0, 1) =~= t.subrange(0, 1));
    assert(z.subrange(0, 1) =~= t.subrange(0, 1));
    lemma_ascii_before(h, q, 0);
    lemma_ascii_before(h, a, 0);
    lemma_ascii_before(q, a, 0);
    lemma_ascii_before(a, z, 1);
    lemma_ascii_before(a, t, 1);
    lemma_ascii_before(z, t, 1);
    lemma_bytes_before_transitive(encode_utf8(h), encode_utf8(a), encode_utf8(z));
    lemma_bytes_before_transitive(encode_utf8(h), encode_utf8(a), encode_utf8(t));
    lemma_bytes_before_transitive(encode_utf8(q), encode_utf8(a), encode_utf8(z));
    lemma_bytes_before_transitive(encode_utf8(q), encode_utf8(a), encode_utf8(t));
    let members = query_document(filter)->Object_0;
    let n = members.len() as int;
    assert(members[0].0 == h);
    assert(members[1].0 == q);
    assert(members[n - 2].0 == z);
    assert(members[n - 1].0 == t);
    if filter.search_after is Some {
        assert(members[2].0 == a);
    }
}

/// What a range clause holds: the two sides, each the day in ISO 8601 or
/// null.
pub proof fn lemma_range_clause(start: Option<Ymd>, end: Option<Ymd>)
    ensures
        is_range_clause(range_clause(start, end)),
        clause_bounds(range_clause(start, end)) is Some,
        clause_bounds(range_clause(start, end))->0.field("gte"@) == Some(range_bound(start)),
        clause_bounds(range_clause(start, end))->0.field("lte"@) == Some(range_bound(end)),
{
    lemma_member_names();
    let clause = range_clause(start, end);
    lemma_lookup_last(clause->Object_0, "range"@, 0);
    let range = clause->Object_0[0].1;
    lemma_lookup_last(range->Object_0, "@timestamp"@, 0);
    let bounds = range->Object_0[0].1;
    lemma_lookup_last(bounds->Object_0, "gte"@, 0);
    lemma_lookup_last(bounds->Object_0, "lte"@, 1);
}

/// A filter without a first and a last day asks for no range: none of the
/// clauses of its request body bounds the time.
pub proof fn lemma_no_bounds_no_range(filter: SearchFilterView)
    requires
        filter.start_date is None,
        filter.end_date is None,
    ensures
        document_clauses(query_document(filter)) == Some(must_clauses(filter)),
        forall|i: int|
            0 <= i < must_clauses(filter).len() ==> !is_range_clause(
                #[trigger] must_clauses(filter)[i],
            ),
{
    lemma_document_members(filter);
    lemma_member_names();
    assert forall|i: int| 0 <= i < must_clauses(filter).len() implies !is_range_clause(
        #[trigger] must_clauses(filter)[i],
    ) by {
        let clause = must_clauses(filter)[i];
        assert(clause == text_clause(filter.query->0));
        lemma_lookup_none(clause->Object_0, "range"@);
    }
}

/// A filter with a first day alone asks for one range, as its last clause:
/// from that day on, with the other side null.
pub proof fn lemma_only_start_bound(filter: SearchFilterView, day: Ymd)
    requires
        filter.start_date == Some(day),
        filter.end_date is None,
    ensures
        document_clauses(query_document(filter)) == Some(must_clauses(filter)),
        must_clauses(filter).len() > 0,
        forall|i: int|
            0 <= i < must_clauses(filter).len() ==> (is_range_clause(
                #[trigger] must_clauses(filter)[i],
            ) <==> i == must_clauses(filter).len() - 1),
        clause_bounds(must_clauses(filter).last()) is Some,
        clause_bounds(must_clauses(filter).last())->0.field("gte"@) == Some(
            Json::String(iso_text(day)),
        ),
        clause_bounds(must_clauses(filter).last())->0.field("lte"@) == Some(Json::Null),
{
    lemma_document_members(filter);
    lemma_one_range_clause(filter);
    lemma_range_clause(filter.start_date, filter.end_date);
}

/// A filter with both days asks for one range that holds them as they were
/// given: the first day is not held against the last.
pub proof fn lemma_both_bounds_verbatim(filter: SearchFilterView, first: Ymd, last: Ymd)
    requires
        filter.start_date == Some(first),
        filter.end_date == Some(last),
    ensures
        document_clauses(query_document(filter)) == Some(must_clauses(filter)),
        must_clauses(filter).len() > 0,
        forall|i: int|
            0 <= i < must_clauses(filter).len() ==> (is_range_clause(
                #[trigger] must_clauses(filter)[i],
            ) <==> i == must_clauses(filter).len() - 1),
        clause_bounds(must_clauses(filter).last()) is Some,
        clause_bounds(must_clauses(filter).last())->0.field("gte"@) == Some(
            Json::String(iso_text(first)),
        ),
        clause_bounds(must_clauses(filter).last())->0.field("lte"@) == Some(
            Json::String(iso_text(last)),
        ),
{
    lemma_document_members(filter);
    lemma_one_range_clause(filter);
    lemma_range_clause(filter.start_date, filter.end_date);
}

/// Where either day is set, the last clause is the one range clause.
proof fn lemma_one_range_clause(filter: SearchFilterView)
    requires
        filter.start_date is Some || filter.end_date is Some,
    ensures
        must_clauses(filter).len() > 0,
        must_clauses(filter).last() == range_clause(filter.start_date, filter.end_date),
        forall|i: int|
            0 <= i < must_clauses(filter).len() ==> (is_range_clause(
                #[trigger] must_clauses(filter)[i],
            ) <==> i == must_clauses(filter).len() - 1),
{
    lemma_member_names();
    lemma_range_clause(filter.start_date, filter.end_date);
    let clauses = must_clauses(filter);
    assert forall|i: int| 0 <= i < clauses.len() implies (is_range_clause(#[trigger] clauses[i])
        <==> i == clauses.len() - 1) by {
        if i < clauses.len() - 1 {
            assert(clauses[i] == text_clause(filter.query->0));
            lemma_lookup_none(clauses[i]->Object_0, "range"@);
        }
    }
}

/// The cursor goes round: where the filter carries the sort keys of a hit,
/// the request body holds exactly those keys, in their order, as the place
/// to go on after. A filter without a cursor gives a body without one.
pub proof fn lemma_cursor_round_trip(filter: SearchFilterView)
    ensures
        filter.search_after matches Some(keys) ==> query_document(filter).field("search_after"@)
            == Some(Json::Array(keys)),
        filter.search_after is None ==> query_document(filter).field("search_after"@) is None,
{
    lemma_document_members(filter);
}

/// Builds one side of a range.
fn bound_value(date: &Option<Date>) -> (value: Value)
    ensures
        value@ == range_bound(
            match *date {
                Some(day) => Some(day@),
                None => None,
            },
        ),
{
    match date {
        Some(day) => {
            let text = day.to_text();
            Value::string(text.as_str())
        },
        None => Value::Null,
    }
}

/// Builds the request to mark the matches.
fn highlight_value() -> (value: Value)
    ensures
        value@ == highlight_request(),
{
    let mut post: Vec<Value> = Vec::new();
    post.push(Value::string("</span>"));
    let mut pre: Vec<Value> = Vec::new();
    pre.push(Value::string("<span class='highlight'>"));
    let mut members: Vec<(String, Value)> = Vec::new();
    let none: Vec<(String, Value)> = Vec::new();
    assert(members_view(none@) =~= seq![]);
    members.push(("fields".to_owned(), Value::singleton("message", Value::object(none))));
    members.push(("post_tags".to_owned(), Value::array(post)));
    members.push(("pre_tags".to_owned(), Value::array(pre)));
    let value = Value::object(members);
    assert(value@->Object_0 =~= highlight_request()->Object_0) by {
        assert(values_view(post@) =~= seq![Json::String("</span>"@)]);
        assert(values_view(pre@) =~= seq![Json::String("<span class='highlight'>"@)]);
    }
    value
}

impl SearchFilter {
    /// Builds the request body of the search engine for this filter.
    pub fn into_query_object(self) -> (document: Value)
        ensures
            document@ == query_document(self@),
    {
        let ghost filter = self@;
        let mut clauses: Vec<Value> = Vec::new();
        if let Some(query) = self.query {
            if !query.as_str().is_empty() {
                clauses.push(
                    Value::singleton(
                        "simple_query_string",
                        Value::singleton("query", Value::String(query)),
                    ),
                );
            }
        }
        if self.start_date.is_some() || self.end_date.is_some() {
            let mut bounds: Vec<(String, Value)> = Vec::new();
            bounds.push(("gte".to_owned(), bound_value(&self.start_date)));
            bounds.push(("lte".to_owned(), bound_value(&self.end_date)));
            assert(members_view(bounds@) =~= seq![
                ("gte"@, range_bound(filter.start_date)),
                ("lte"@, range_bound(filter.end_date)),
            ]);
            clauses.push(
                Value::singleton("range", Value::singleton("@timestamp", Value::object(bounds))),
            );
        }
        assert(values_view(clauses@) =~= must_clauses(filter));
        let token = match self.order {
            Order::Asc => "asc",
            Order::Desc => "desc",
        };
        let mut sort: Vec<Value> = Vec::new();
        sort.push(Value::singleton("@timestamp", Value::singleton("order", Value::string(token))));
        assert(values_view(sort@) =~= sort_clauses(filter.order)->Array_0);

        let mut members: Vec<(String, Value)> = Vec::new();
        members.push(("highlight".to_owned(), highlight_value()));
        members.push(
            (
                "query".to_owned(),
                Value::singleton("bool", Value::singleton("must", Value::array(clauses))),
            ),
        );
        if let Some(after) = self.search_after {
            members.push(("search_after".to_owned(), Value::array(after)));
        }
        members.push(("size".to_owned(), Value::Number(Number::PosInt(self.size))));
        members.push(("sort".to_owned(), Value::array(sort)));
        assert(members_view(members@) =~= query_document(filter)->Object_0);
        Value::object(members)
    }
}

} // verus!
