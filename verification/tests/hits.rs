use log_viewer::error::ElasticsearchError;
use log_viewer::hits::{
    hits_of_response, normalize_hit, normalize_hits, read_hit, read_response,
    ElasticsearchResponse, Hit, Hits,
};
use log_viewer::json::{Number, Value};

fn text(s: &str) -> Value {
    Value::String(s.to_string())
}

fn num(n: u64) -> Value {
    Value::Number(Number::PosInt(n))
}

fn object(members: Vec<(&str, Value)>) -> Value {
    Value::Object(members.into_iter().map(|(k, v)| (k.to_string(), v)).collect())
}

fn raw(id: &str, source: Value) -> Hit<Value> {
    Hit { source, sort: None, id: id.to_string(), highlight: None }
}

fn body(items: Vec<Value>) -> Value {
    object(vec![
        ("took", num(3)),
        ("hits", object(vec![("total", num(items.len() as u64)), ("hits", Value::Array(items))])),
    ])
}

#[test]
fn a_hit_keeps_all_but_the_names_of_its_fields() {
    let hit = Hit {
        source: object(vec![("user.id", text("u1"))]),
        sort: Some(vec![num(5)]),
        id: "abc".to_string(),
        highlight: None,
    };
    assert_eq!(
        normalize_hit(hit),
        Ok(Hit {
            source: object(vec![("userId", text("u1"))]),
            sort: Some(vec![num(5)]),
            id: "abc".to_string(),
            highlight: None,
        })
    );
}

#[test]
fn the_highlight_is_handed_on_as_it_is() {
    let marks = object(vec![("log.message", Value::Array(vec![text("<span>x</span>")]))]);
    let hit = Hit {
        source: object(vec![("log.message", text("x"))]),
        sort: None,
        id: "h".to_string(),
        highlight: Some(object(vec![(
            "log.message",
            Value::Array(vec![text("<span>x</span>")]),
        )])),
    };
    let out = normalize_hit(hit).unwrap();
    assert_eq!(out.highlight, Some(marks));
    assert_eq!(out.source, object(vec![("logMessage", text("x"))]));
}

#[test]
fn a_page_keeps_its_order_and_its_length() {
    let hits = vec![
        raw("c", object(vec![("n.o", num(3))])),
        raw("a", object(vec![("n.o", num(1))])),
        raw("b", object(vec![("n.o", num(2))])),
    ];
    let out = normalize_hits(hits).unwrap();
    assert_eq!(out.len(), 3);
    assert_eq!(
        out,
        vec![
            raw("c", object(vec![("nO", num(3))])),
            raw("a", object(vec![("nO", num(1))])),
            raw("b", object(vec![("nO", num(2))])),
        ]
    );
}

#[test]
fn an_empty_page_stays_empty() {
    assert_eq!(normalize_hits(vec![]), Ok(vec![]));
}

#[test]
fn one_malformed_hit_fails_the_page() {
    let hits = vec![
        raw("a", object(vec![("n.o", num(1))])),
        raw("b", text("scalar")),
        raw("c", object(vec![("n.o", num(3))])),
    ];
    assert_eq!(normalize_hits(hits), Err(ElasticsearchError::MalformedDocument));
    assert_eq!(normalize_hit(raw("b", num(7))), Err(ElasticsearchError::MalformedDocument));
}

#[test]
fn an_entry_is_read_as_a_hit() {
    let item = object(vec![
        ("_index", text("filebeat-1")),
        ("_id", text("abc")),
        ("_score", Value::Null),
        ("_source", object(vec![("user.id", text("u1"))])),
        ("sort", Value::Array(vec![num(5)])),
        ("highlight", object(vec![("message", Value::Array(vec![text("m")]))])),
    ]);
    assert_eq!(
        read_hit(item),
        Some(Hit {
            source: object(vec![("user.id", text("u1"))]),
            sort: Some(vec![num(5)]),
            id: "abc".to_string(),
            highlight: Some(object(vec![("message", Value::Array(vec![text("m")]))])),
        })
    );
}

#[test]
fn what_an_entry_may_leave_out() {
    let item = object(vec![("_id", text("x")), ("_source", Value::Null)]);
    assert_eq!(read_hit(item), Some(raw("x", Value::Null)));
    let item = object(vec![
        ("_id", text("x")),
        ("_source", num(1)),
        ("sort", Value::Null),
        ("highlight", Value::Null),
    ]);
    assert_eq!(read_hit(item), Some(raw("x", num(1))));
}

#[test]
fn what_an_entry_must_have() {
    assert_eq!(read_hit(object(vec![("_id", text("x"))])), None);
    assert_eq!(read_hit(object(vec![("_source", object(vec![]))])), None);
    assert_eq!(read_hit(object(vec![("_id", num(1)), ("_source", object(vec![]))])), None);
    assert_eq!(
        read_hit(object(vec![("_id", text("x")), ("_source", object(vec![])), ("sort", num(1))])),
        None
    );
    assert_eq!(read_hit(text("x")), None);
    assert_eq!(read_hit(Value::Array(vec![])), None);
    assert_eq!(read_hit(Value::Null), None);
}

#[test]
fn the_later_of_two_members_with_one_name_is_read() {
    let item = object(vec![("_id", text("old")), ("_source", num(1)), ("_id", text("new"))]);
    assert_eq!(read_hit(item), Some(raw("new", num(1))));
    let page = object(vec![("hits", num(1)), ("hits", object(vec![("hits", Value::Array(vec![]))]))]);
    assert_eq!(read_response(page).map(|r| r.hits.hits.len()), Ok(0));
}

#[test]
fn an_answer_is_read_entry_by_entry() {
    let answer = body(vec![
        object(vec![("_id", text("b")), ("_source", object(vec![("k", num(2))]))]),
        object(vec![("_id", text("a")), ("_source", object(vec![("k", num(1))]))]),
    ]);
    assert_eq!(
        read_response(answer),
        Ok(ElasticsearchResponse {
            hits: Hits {
                hits: vec![
                    raw("b", object(vec![("k", num(2))])),
                    raw("a", object(vec![("k", num(1))])),
                ]
            }
        })
    );
}

#[test]
fn an_answer_of_another_shape_is_a_protocol_error() {
    let bad = Err(ElasticsearchError::BackendProtocolError);
    assert_eq!(read_response(Value::Null), bad);
    assert_eq!(read_response(text("hits")), bad);
    assert_eq!(read_response(object(vec![])), bad);
    assert_eq!(read_response(object(vec![("hits", Value::Array(vec![]))])), bad);
    assert_eq!(read_response(object(vec![("hits", object(vec![]))])), bad);
    assert_eq!(read_response(object(vec![("hits", object(vec![("hits", Value::Null)]))])), bad);
    assert_eq!(read_response(object(vec![("hits", object(vec![("hits", object(vec![]))]))])), bad);
    assert_eq!(read_response(body(vec![num(1)])), bad);
    assert_eq!(
        read_response(body(vec![
            object(vec![("_id", text("a")), ("_source", object(vec![]))]),
            object(vec![("_source", object(vec![]))]),
        ])),
        bad
    );
    assert_eq!(hits_of_response(Value::Bool(false)), Err(ElasticsearchError::BackendProtocolError));
}

#[test]
fn a_search_hands_on_the_hits_normalized() {
    let answer = body(vec![object(vec![
        ("_source", object(vec![("user.id", text("u1"))])),
        ("sort", Value::Array(vec![num(5)])),
        ("_id", text("abc")),
    ])]);
    assert_eq!(
        hits_of_response(answer),
        Ok(vec![Hit {
            source: object(vec![("userId", text("u1"))]),
            sort: Some(vec![num(5)]),
            id: "abc".to_string(),
            highlight: None,
        }])
    );
}

#[test]
fn a_scalar_source_fails_the_search_with_no_hits() {
    let answer = body(vec![
        object(vec![("_id", text("a")), ("_source", object(vec![("k", num(1))]))]),
        object(vec![("_id", text("b")), ("_source", text("scalar"))]),
    ]);
    assert_eq!(hits_of_response(answer), Err(ElasticsearchError::MalformedDocument));
}

#[test]
fn the_sort_keys_of_a_hit_are_the_cursor_of_the_next_page() {
    let answer = body(vec![object(vec![
        ("_id", text("doc42")),
        ("_source", object(vec![])),
        ("sort", Value::Array(vec![num(1620000000), text("doc42")])),
    ])]);
    let mut hits = hits_of_response(answer).unwrap();
    let last = hits.pop().unwrap();
    let next = log_viewer::query::SearchFilter {
        size: 10,
        query: None,
        start_date: None,
        end_date: None,
        search_after: last.sort,
        order: log_viewer::query::Order::Desc,
    };
    let Value::Object(members) = next.into_query_object() else { panic!("not an object") };
    let cursor = members.into_iter().find(|(name, _)| name == "search_after").map(|(_, v)| v);
    assert_eq!(cursor, Some(Value::Array(vec![num(1620000000), text("doc42")])));
}
