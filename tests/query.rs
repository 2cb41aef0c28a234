use ormox::{Number, OrmoxError, Query, QueryKey, QueryValue, SimpleQuery, WireDocument, WireValue};

fn text(s: &str) -> WireValue {
    WireValue::String(s.to_string())
}

fn num(i: i64) -> WireValue {
    WireValue::Number(Number::Int64(i))
}

fn doc(entries: Vec<(&str, WireValue)>) -> WireDocument {
    entries.into_iter().map(|(k, v)| (k.to_string(), v)).collect()
}

#[test]
fn key_tokens_are_canonical() {
    assert_eq!(QueryKey::GreaterThan.to_string(), "$gt");
    assert_eq!(QueryKey::LessThan.to_string(), "$lt");
    assert_eq!(QueryKey::GreaterThanEqual.to_string(), "$gte");
    assert_eq!(QueryKey::LessThanEqual.to_string(), "$lte");
    assert_eq!(QueryKey::Equals.to_string(), "$eq");
    assert_eq!(QueryKey::NotEquals.to_string(), "$ne");
    assert_eq!(QueryKey::In.to_string(), "$in");
    assert_eq!(QueryKey::NotIn.to_string(), "$nin");
    assert_eq!(QueryKey::And.to_string(), "$and");
    assert_eq!(QueryKey::Or.to_string(), "$or");
    assert_eq!(QueryKey::Not.to_string(), "$not");
    assert_eq!(QueryKey::String("name".to_string()).to_string(), "name");
    assert_eq!(QueryKey::Operator("$regex".to_string()).to_string(), "$regex");
}

#[test]
fn key_from_text_classifies() {
    assert_eq!(QueryKey::from_text("$gte"), QueryKey::GreaterThanEqual);
    assert_eq!(QueryKey::from_text("$nin"), QueryKey::NotIn);
    assert_eq!(QueryKey::from_text("$regex"), QueryKey::Operator("$regex".to_string()));
    assert_eq!(QueryKey::from_text("age"), QueryKey::String("age".to_string()));
    assert_eq!(QueryKey::from_text(""), QueryKey::String(String::new()));
    assert!(QueryKey::from_text("$gt").same_as(&QueryKey::GreaterThan));
    assert!(!QueryKey::from_text("$gt").same_as(&QueryKey::GreaterThanEqual));
}

#[test]
fn field_serializes_as_itself() {
    let q = Query::new().field("name", text("Ada")).build();
    assert_eq!(q.to_wire(), doc(vec![("name", text("Ada"))]));
}

#[test]
fn operators_serialize_to_tokens() {
    let q = Query::new()
        .greater_than(Number::Int64(1))
        .less_than_equal(Number::Int32(9))
        .in_array(vec![num(1), num(2)])
        .build();
    assert_eq!(
        q.to_wire(),
        doc(vec![
            ("$gt", num(1)),
            ("$lte", WireValue::Number(Number::Int32(9))),
            ("$in", WireValue::Array(vec![num(1), num(2)])),
        ])
    );
}

#[test]
fn subquery_and_cases_serialize_nested() {
    let inner = Query::new().greater_than_equal(Number::Int64(18)).build();
    let a = Query::new().field("x", num(1)).build();
    let b = Query::new().field("y", num(2)).build();
    let q = Query::new().subquery("age", inner).or(vec![a, b]).build();
    assert_eq!(
        q.to_wire(),
        doc(vec![
            ("age", WireValue::Document(doc(vec![("$gte", num(18))]))),
            (
                "$or",
                WireValue::Array(vec![
                    WireValue::Document(doc(vec![("x", num(1))])),
                    WireValue::Document(doc(vec![("y", num(2))])),
                ])
            ),
        ])
    );
}

#[test]
fn last_write_wins_in_place() {
    let q = Query::new()
        .field("a", num(1))
        .field("b", num(2))
        .field("a", num(3))
        .build();
    assert_eq!(q.to_wire(), doc(vec![("a", num(3)), ("b", num(2))]));
}

#[test]
fn or_replaces_previous_cases() {
    let first = Query::new().field("x", num(1)).build();
    let second = Query::new().field("y", num(2)).build();
    let q = Query::new().or(vec![first]).or(vec![second]).build();
    assert_eq!(
        q.to_wire(),
        doc(vec![("$or", WireValue::Array(vec![WireValue::Document(doc(vec![("y", num(2))]))]))])
    );
}

#[test]
fn not_and_operation_serialize() {
    let q = Query::new()
        .not(Query::new().equals(num(4)).build())
        .operation("$exists", QueryValue::Value(WireValue::Boolean(true)))
        .not_equals(text("z"))
        .not_in_array(vec![text("q")])
        .and(vec![])
        .build();
    assert_eq!(
        q.to_wire(),
        doc(vec![
            ("$not", WireValue::Document(doc(vec![("$eq", num(4))]))),
            ("$exists", WireValue::Boolean(true)),
            ("$ne", text("z")),
            ("$nin", WireValue::Array(vec![text("q")])),
            ("$and", WireValue::Array(vec![])),
        ])
    );
}

#[test]
fn build_snapshots_the_query() {
    let mut b = Query::new();
    b.field("a", num(1));
    let snap = b.build();
    b.field("b", num(2));
    assert_eq!(snap.to_wire(), doc(vec![("a", num(1))]));
    assert_eq!(b.to_wire().len(), 2);
}

#[test]
fn parses_operators_and_fields() {
    let wire = doc(vec![
        ("age", WireValue::Document(doc(vec![("$gte", num(18)), ("$lte", num(65))]))),
        ("name", text("Ada")),
        ("$or", WireValue::Array(vec![WireValue::Document(doc(vec![("x", num(1))]))])),
    ]);
    let q = Query::from_wire(&wire).unwrap();
    let expected = Query::new()
        .subquery(
            "age",
            Query::new()
                .greater_than_equal(Number::Int64(18))
                .less_than_equal(Number::Int64(65))
                .build(),
        )
        .field("name", text("Ada"))
        .or(vec![Query::new().field("x", num(1)).build()])
        .build();
    assert_eq!(q, expected);
    assert_eq!(q.to_wire(), wire);
}

#[test]
fn comparison_needs_a_number() {
    let wire = doc(vec![("$gt", text("ten"))]);
    assert!(matches!(Query::from_wire(&wire), Err(OrmoxError::Deserialization { .. })));
}

#[test]
fn in_needs_an_array() {
    let wire = doc(vec![("$in", num(3))]);
    assert!(matches!(Query::from_wire(&wire), Err(OrmoxError::Deserialization { .. })));
    let wire = doc(vec![("$nin", text("x"))]);
    assert!(matches!(Query::from_wire(&wire), Err(OrmoxError::Deserialization { .. })));
}

#[test]
fn not_needs_a_document() {
    let wire = doc(vec![("$not", num(3))]);
    assert!(matches!(Query::from_wire(&wire), Err(OrmoxError::Deserialization { .. })));
}

#[test]
fn and_needs_documents() {
    let wire = doc(vec![("$and", WireValue::Array(vec![num(1)]))]);
    assert!(matches!(Query::from_wire(&wire), Err(OrmoxError::Deserialization { .. })));
    let wire = doc(vec![("$or", num(1))]);
    assert!(matches!(Query::from_wire(&wire), Err(OrmoxError::Deserialization { .. })));
}

#[test]
fn nested_failure_propagates() {
    let wire = doc(vec![("age", WireValue::Document(doc(vec![("$lt", WireValue::Null)])))]);
    assert!(matches!(Query::from_wire(&wire), Err(OrmoxError::Deserialization { .. })));
}

#[test]
fn named_operator_is_classified_by_shape() {
    let wire = doc(vec![
        ("$elemMatch", WireValue::Document(doc(vec![("a", num(1))]))),
        ("$nor", WireValue::Array(vec![WireValue::Document(doc(vec![("b", num(2))]))])),
        ("$all", WireValue::Array(vec![num(1), num(2)])),
        ("$regex", text("^A")),
    ]);
    let q = Query::from_wire(&wire).unwrap();
    let expected = Query::new()
        .operation("$elemMatch", QueryValue::Mapping(Query::new().field("a", num(1)).build()))
        .operation(
            "$nor",
            QueryValue::Casematch(vec![Query::new().field("b", num(2)).build()]),
        )
        .operation("$all", QueryValue::Value(WireValue::Array(vec![num(1), num(2)])))
        .operation("$regex", QueryValue::Value(text("^A")))
        .build();
    assert_eq!(q, expected);
    assert_eq!(q.to_wire(), wire);
}

#[test]
fn round_trip_of_built_query() {
    let q = Query::new()
        .field("name", text("Ada"))
        .subquery("age", Query::new().greater_than(Number::Int64(3)).build())
        .in_array(vec![num(1)])
        .not(Query::new().equals(WireValue::Null).build())
        .and(vec![Query::new().field("k", WireValue::Boolean(false)).build()])
        .build();
    let wire = q.to_wire();
    let back = Query::from_wire(&wire).unwrap();
    assert_eq!(back.to_wire(), wire);
    assert_eq!(back, q);
}

#[test]
fn empty_document_is_the_empty_query() {
    let q = Query::from_wire(&Vec::new()).unwrap();
    assert_eq!(q, Query::new());
    assert!(q.to_wire().is_empty());
}

#[test]
fn simple_query_nests_single_operators() {
    let q = SimpleQuery::new()
        .equals("name", text("Ada"))
        .not_equals("nick", text("A"))
        .less_than("a", Number::Int64(1))
        .less_than_equal("b", Number::Int64(2))
        .greater_than("c", Number::Int64(3))
        .greater_than_equal("d", Number::Int64(4))
        .in_array("e", vec![num(5)])
        .not_in_array("f", vec![num(6)])
        .not("g", Query::new().equals(num(7)).build())
        .build();
    let sub = |k: &str, v: WireValue| WireValue::Document(doc(vec![(k, v)]));
    assert_eq!(
        q.to_wire(),
        doc(vec![
            ("name", text("Ada")),
            ("nick", sub("$ne", text("A"))),
            ("a", sub("$lt", num(1))),
            ("b", sub("$lte", num(2))),
            ("c", sub("$gt", num(3))),
            ("d", sub("$gte", num(4))),
            ("e", sub("$in", WireValue::Array(vec![num(5)]))),
            ("f", sub("$nin", WireValue::Array(vec![num(6)]))),
            ("g", sub("$not", WireValue::Document(doc(vec![("$eq", num(7))])))),
        ])
    );
}

#[test]
fn simple_query_wraps_and_unwraps() {
    let q = Query::new().field("a", num(1)).build();
    let s = SimpleQuery::from_query(q.build());
    assert_eq!(s.build(), q);
    assert_eq!(s.into_query(), q);
}

#[test]
fn wire_values_copy_deeply() {
    let v = WireValue::Document(doc(vec![
        ("a", WireValue::Array(vec![WireValue::Binary(vec![1, 2]), WireValue::Null])),
        ("b", WireValue::Number(Number::DoubleBits(4614253070214989087))),
    ]));
    assert_eq!(v.duplicate(), v);
}
