use ormox::{Find, Index, OperationCount, OrmoxError, Sorting};

fn names(v: &[&str]) -> Vec<String> {
    v.iter().map(|s| s.to_string()).collect()
}

#[test]
fn compound_index_is_sorted_and_deduplicated() {
    let i = Index::new_compound(names(&["b", "a", "a"]));
    assert_eq!(i.fields, names(&["a", "b"]));
    assert_eq!(i.name, None);
    assert!(!i.unique);
}

#[test]
fn compound_index_ignores_declaration_order() {
    let x = Index::new_compound(names(&["zeta", "alpha", "mid", "alpha"]));
    let y = Index::new_compound(names(&["mid", "zeta", "alpha"]));
    assert_eq!(x.fields, y.fields);
    assert_eq!(x.fields, names(&["alpha", "mid", "zeta"]));
}

#[test]
fn compound_index_of_nothing() {
    let i = Index::new_compound(Vec::new());
    assert!(i.fields.is_empty());
}

#[test]
fn single_index_and_setters() {
    let mut i = Index::new("name");
    assert_eq!(i.fields, names(&["name"]));
    i.named("by_name").unique(true);
    assert_eq!(i.name, Some("by_name".to_string()));
    assert!(i.unique);
    i.unnamed();
    assert_eq!(i.name, None);
    let copy = i.build();
    assert_eq!(copy, i);
}

#[test]
fn index_field_inserts_in_order_once() {
    let mut i = Index::new("m");
    i.field("a").field("z").field("m").field("b");
    assert_eq!(i.fields, names(&["a", "b", "m", "z"]));
}

#[test]
fn string_order_is_by_code_point() {
    let i = Index::new_compound(names(&["b", "B", "ab", "a", ""]));
    assert_eq!(i.fields, names(&["", "B", "a", "ab", "b"]));
}

#[test]
fn find_defaults() {
    let m = Find::many();
    assert_eq!(m.operation, OperationCount::Many);
    assert_eq!(m.offset, None);
    assert_eq!(m.limit, None);
    assert_eq!(m.sort, None);
    let o = Find::one();
    assert_eq!(o.operation, OperationCount::One);
    assert_eq!(Find::or_many(None), Find::many());
    assert_eq!(Find::or_many(Some(Find::one())), Find::one());
}

#[test]
fn sorting_constructors() {
    assert_eq!(Sorting::asc("age"), Sorting::Ascending("age".to_string()));
    assert_eq!(Sorting::desc("age"), Sorting::Descending("age".to_string()));
}

#[test]
fn one_yields_at_most_one_whatever_the_paging() {
    let f = Find {
        operation: OperationCount::One,
        offset: Some(2),
        limit: Some(5),
        sort: Some(Sorting::desc("age")),
    };
    assert_eq!(f.window(vec![10, 20, 30, 40]), vec![10]);
    assert_eq!(f.window(Vec::<i32>::new()), Vec::<i32>::new());
    assert_eq!(Find::one().window(vec![7, 8]), vec![7]);
}

#[test]
fn many_applies_offset_then_limit() {
    let f = Find { operation: OperationCount::Many, offset: Some(1), limit: Some(2), sort: None };
    assert_eq!(f.window(vec![1, 2, 3, 4, 5]), vec![2, 3]);
    let past_end = Find { operation: OperationCount::Many, offset: Some(9), limit: None, sort: None };
    assert_eq!(past_end.window(vec![1, 2]), Vec::<i32>::new());
    assert_eq!(Find::many().window(vec![1, 2, 3]), vec![1, 2, 3]);
}

#[test]
fn error_constructors() {
    assert_eq!(
        OrmoxError::serialization("s"),
        OrmoxError::Serialization { error: "s".to_string() }
    );
    assert_eq!(
        OrmoxError::deserialization("d"),
        OrmoxError::Deserialization { error: "d".to_string() }
    );
    assert_eq!(OrmoxError::insert("i"), OrmoxError::Insert { error: "i".to_string() });
    assert_eq!(
        OrmoxError::compaibility("c"),
        OrmoxError::Compatibility { error: "c".to_string() }
    );
    assert_eq!(OrmoxError::not_found("q"), OrmoxError::NotFound { query: "q".to_string() });
    assert_eq!(OrmoxError::id("x"), OrmoxError::Id { provided: "x".to_string() });
    assert_eq!(
        OrmoxError::driver("base::polodb", "boom"),
        OrmoxError::Driver { driver_name: "base::polodb".to_string(), error: "boom".to_string() }
    );
}
