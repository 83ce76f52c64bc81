use log_viewer::date::Date;
use log_viewer::json::{Number, Value};
use log_viewer::query::{Order, SearchFilter};

fn text(s: &str) -> Value {
    Value::String(s.to_string())
}

fn num(n: u64) -> Value {
    Value::Number(Number::PosInt(n))
}

fn object(members: Vec<(&str, Value)>) -> Value {
    Value::Object(members.into_iter().map(|(k, v)| (k.to_string(), v)).collect())
}

fn filter() -> SearchFilter {
    SearchFilter {
        size: 10,
        query: None,
        start_date: None,
        end_date: None,
        search_after: None,
        order: Order::default(),
    }
}

fn day(year: i32, month: u32, day: u32) -> Option<Date> {
    Some(Date::from_ymd_opt(year, month, day).unwrap())
}

fn field<'a>(value: &'a Value, key: &str) -> Option<&'a Value> {
    match value {
        Value::Object(members) => {
            members.iter().rev().find(|(name, _)| name == key).map(|(_, v)| v)
        }
        _ => None,
    }
}

fn clauses(document: &Value) -> &Vec<Value> {
    let all = field(field(document, "query").unwrap(), "bool").unwrap();
    match field(all, "must").unwrap() {
        Value::Array(clauses) => clauses,
        other => panic!("not an array: {:?}", other),
    }
}

fn highlight() -> Value {
    object(vec![
        ("fields", object(vec![("message", object(vec![]))])),
        ("post_tags", Value::Array(vec![text("</span>")])),
        ("pre_tags", Value::Array(vec![text("<span class='highlight'>")])),
    ])
}

fn sort(order: &str) -> Value {
    Value::Array(vec![object(vec![("@timestamp", object(vec![("order", text(order))]))])])
}

fn range(gte: Value, lte: Value) -> Value {
    object(vec![("range", object(vec![("@timestamp", object(vec![("gte", gte), ("lte", lte)]))]))])
}

fn simple(query: &str) -> Value {
    object(vec![("simple_query_string", object(vec![("query", text(query))]))])
}

#[test]
fn the_order_is_descending_unless_asked_otherwise() {
    assert_eq!(Order::default(), Order::Desc);
}

#[test]
fn a_bare_filter_matches_everything() {
    let document = filter().into_query_object();
    assert_eq!(
        document,
        object(vec![
            ("highlight", highlight()),
            ("query", object(vec![("bool", object(vec![("must", Value::Array(vec![]))]))])),
            ("size", num(10)),
            ("sort", sort("desc")),
        ])
    );
}

#[test]
fn a_filter_without_days_has_no_range_clause() {
    let document = SearchFilter { query: Some("error".to_string()), ..filter() }.into_query_object();
    assert_eq!(clauses(&document), &vec![simple("error")]);
    assert!(clauses(&document).iter().all(|clause| field(clause, "range").is_none()));
    let document = filter().into_query_object();
    assert!(clauses(&document).is_empty());
}

#[test]
fn a_first_day_alone_leaves_the_other_side_null() {
    let document = SearchFilter { start_date: day(2024, 1, 1), ..filter() }.into_query_object();
    assert_eq!(clauses(&document), &vec![range(text("2024-01-01"), Value::Null)]);
}

#[test]
fn a_last_day_alone_leaves_the_other_side_null() {
    let document = SearchFilter { end_date: day(2024, 1, 31), ..filter() }.into_query_object();
    assert_eq!(clauses(&document), &vec![range(Value::Null, text("2024-01-31"))]);
}

#[test]
fn inverted_days_are_handed_on_as_they_are() {
    let document =
        SearchFilter { start_date: day(2024, 1, 31), end_date: day(2024, 1, 1), ..filter() }
            .into_query_object();
    assert_eq!(clauses(&document), &vec![range(text("2024-01-31"), text("2024-01-01"))]);
}

#[test]
fn the_cursor_is_handed_on_as_it_is() {
    let keys = vec![num(1620000000), text("doc42")];
    let document = SearchFilter {
        search_after: Some(vec![num(1620000000), text("doc42")]),
        ..filter()
    }
    .into_query_object();
    assert_eq!(field(&document, "search_after"), Some(&Value::Array(keys)));
}

#[test]
fn an_empty_cursor_is_still_a_cursor() {
    let document = SearchFilter { search_after: Some(vec![]), ..filter() }.into_query_object();
    assert_eq!(field(&document, "search_after"), Some(&Value::Array(vec![])));
}

#[test]
fn a_full_filter_builds_the_whole_body() {
    let document = SearchFilter {
        size: 20,
        query: Some("error".to_string()),
        start_date: day(2024, 1, 1),
        end_date: day(2024, 1, 31),
        search_after: None,
        order: Order::Desc,
    }
    .into_query_object();
    assert_eq!(
        document,
        object(vec![
            ("highlight", highlight()),
            (
                "query",
                object(vec![(
                    "bool",
                    object(vec![(
                        "must",
                        Value::Array(vec![
                            simple("error"),
                            range(text("2024-01-01"), text("2024-01-31")),
                        ])
                    )])
                )])
            ),
            ("size", num(20)),
            ("sort", sort("desc")),
        ])
    );
    assert_eq!(clauses(&document).len(), 2);
    assert_eq!(field(&document, "size"), Some(&num(20)));
    assert_eq!(field(&document, "sort"), Some(&sort("desc")));
    assert_eq!(field(&document, "search_after"), None);
}

#[test]
fn a_body_with_a_cursor_has_its_members_in_key_order() {
    let document = SearchFilter {
        size: 5,
        search_after: Some(vec![num(5)]),
        order: Order::Asc,
        ..filter()
    }
    .into_query_object();
    assert_eq!(
        document,
        object(vec![
            ("highlight", highlight()),
            ("query", object(vec![("bool", object(vec![("must", Value::Array(vec![]))]))])),
            ("search_after", Value::Array(vec![num(5)])),
            ("size", num(5)),
            ("sort", sort("asc")),
        ])
    );
}

#[test]
fn an_empty_text_gives_no_clause() {
    let document = SearchFilter { query: Some(String::new()), ..filter() }.into_query_object();
    assert!(clauses(&document).is_empty());
}

#[test]
fn the_text_is_not_escaped() {
    let query = "+error -debug | \"disk full\"";
    let document = SearchFilter { query: Some(query.to_string()), ..filter() }.into_query_object();
    assert_eq!(clauses(&document), &vec![simple(query)]);
}

#[test]
fn the_page_size_is_handed_on() {
    let document = SearchFilter { size: u64::MAX, ..filter() }.into_query_object();
    assert_eq!(field(&document, "size"), Some(&num(u64::MAX)));
}

#[test]
fn the_highlight_does_not_depend_on_the_filter() {
    let bare = filter().into_query_object();
    let full = SearchFilter {
        size: 20,
        query: Some("error".to_string()),
        start_date: day(2024, 1, 1),
        end_date: day(2024, 1, 31),
        search_after: Some(vec![num(1)]),
        order: Order::Asc,
    }
    .into_query_object();
    assert_eq!(field(&bare, "highlight"), Some(&highlight()));
    assert_eq!(field(&full, "highlight"), Some(&highlight()));
}
