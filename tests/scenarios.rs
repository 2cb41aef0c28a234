use ormox::engine::{first_or_not_found, identity_query, save_request};
use ormox::wire::duplicate_document;
use ormox::{Number, OperationCount, OrmoxError, Query, QueryKey, WireDocument, WireValue};

fn text(s: &str) -> WireValue {
    WireValue::String(s.to_string())
}

fn num(i: i64) -> WireValue {
    WireValue::Number(Number::Int64(i))
}

fn as_int(v: &WireValue) -> Option<i64> {
    match v {
        WireValue::Number(Number::Int64(i)) => Some(*i),
        WireValue::Number(Number::Int32(i)) => Some(*i as i64),
        _ => None,
    }
}

fn lookup<'a>(d: &'a WireDocument, name: &str) -> Option<&'a WireValue> {
    d.iter().find(|(k, _)| k == name).map(|(_, v)| v)
}

/// A small evaluator of field filters, standing in for a backend.
fn value_matches(cond: &WireValue, v: Option<&WireValue>) -> bool {
    match cond {
        WireValue::Document(ops) if ops.iter().all(|(k, _)| k.starts_with('$')) => {
            ops.iter().all(|(op, arg)| {
                let (a, b) = match (v.and_then(as_int), as_int(arg)) {
                    (Some(a), Some(b)) => (a, b),
                    _ => return op == "$eq" && v == Some(arg),
                };
                match op.as_str() {
                    "$gt" => a > b,
                    "$gte" => a >= b,
                    "$lt" => a < b,
                    "$lte" => a <= b,
                    "$eq" => a == b,
                    "$ne" => a != b,
                    _ => false,
                }
            })
        }
        other => v == Some(other),
    }
}

fn matches(filter: &WireDocument, d: &WireDocument) -> bool {
    filter.iter().all(|(k, cond)| value_matches(cond, lookup(d, k)))
}

#[derive(Default)]
struct Store {
    docs: Vec<WireDocument>,
}

impl Store {
    fn find(&self, filter: &WireDocument) -> Vec<WireDocument> {
        self.docs.iter().filter(|d| matches(filter, d)).map(duplicate_document).collect()
    }

    fn delete_one(&mut self, filter: &WireDocument) {
        if let Some(p) = self.docs.iter().position(|d| matches(filter, d)) {
            self.docs.remove(p);
        }
    }

    fn upsert_one(&mut self, filter: &WireDocument, doc: WireDocument) {
        match self.docs.iter().position(|d| matches(filter, d)) {
            Some(p) => self.docs[p] = doc,
            None => self.docs.push(doc),
        }
    }
}

const X: u128 = 0x0123_4567_89ab_cdef_0123_4567_89ab_cdef;

fn id_text(id: u128) -> WireValue {
    identity_query("_id", id).to_wire().remove(0).1
}

fn ada(age: i64) -> WireDocument {
    vec![
        ("_id".to_string(), id_text(X)),
        ("name".to_string(), text("Ada")),
        ("age".to_string(), num(age)),
    ]
}

#[test]
fn insert_get_delete_get() {
    let mut store = Store::default();
    store.docs.push(ada(30));
    let by_id = identity_query("_id", X).to_wire();
    let got = first_or_not_found(store.find(&by_id), "by id");
    assert_eq!(got, Ok(ada(30)));

    let by_name = Query::new().field("name", text("Ada")).build().to_wire();
    store.delete_one(&by_name);
    let again = first_or_not_found(store.find(&by_id), "by id");
    assert_eq!(again, Err(OrmoxError::NotFound { query: "by id".to_string() }));
}

#[test]
fn save_inserts_then_replaces_by_identity() {
    let mut store = Store::default();
    let req = save_request("_id", X);
    assert_eq!(req.count, OperationCount::One);
    assert!(req.upsert);
    let filter = req.query.to_wire();
    store.upsert_one(&filter, ada(30));
    assert_eq!(store.docs, vec![ada(30)]);
    store.upsert_one(&filter, ada(31));
    assert_eq!(store.docs, vec![ada(31)]);
    assert_eq!(lookup(&store.docs[0], "_id"), Some(&id_text(X)));
}

#[test]
fn age_range_filter_round_trips() {
    let original: WireDocument = vec![(
        "age".to_string(),
        WireValue::Document(vec![
            ("$gte".to_string(), num(18)),
            ("$lte".to_string(), num(65)),
        ]),
    )];
    let q = Query::from_wire(&original).unwrap();
    let expected = Query::new()
        .subquery(
            "age",
            Query::new()
                .greater_than_equal(Number::Int64(18))
                .less_than_equal(Number::Int64(65))
                .build(),
        )
        .build();
    assert_eq!(q, expected);
    assert_eq!(QueryKey::from_text("$gte"), QueryKey::GreaterThanEqual);

    let again = q.to_wire();
    let fixture: Vec<WireDocument> =
        [10, 18, 40, 65, 70].iter().map(|a| vec![("age".to_string(), num(*a))]).collect();
    let pick = |f: &WireDocument| -> Vec<i64> {
        fixture
            .iter()
            .filter(|d| matches(f, d))
            .map(|d| as_int(lookup(d, "age").unwrap()).unwrap())
            .collect()
    };
    assert_eq!(pick(&original), vec![18, 40, 65]);
    assert_eq!(pick(&again), vec![18, 40, 65]);
    assert_eq!(again, original);
}
