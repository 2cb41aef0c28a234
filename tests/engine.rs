use ormox::engine::{
    check_inserted, collect_results, delete_request, first_or_not_found, id_query,
    identity_query, resolve_collection, save_request,
};
use ormox::{GlobalSlot, OperationCount, OrmoxError, WireValue};

const ID: u128 = 0x67e5_5044_10b1_426f_9247_bb68_0e5f_e0c8;

#[test]
fn identity_query_uses_hyphenated_lowercase_text() {
    let q = identity_query("_id", ID);
    assert_eq!(
        q.to_wire(),
        vec![(
            "_id".to_string(),
            WireValue::String("67e55044-10b1-426f-9247-bb680e5fe0c8".to_string())
        )]
    );
}

#[test]
fn identity_query_of_small_value_keeps_leading_zeros() {
    let q = identity_query("id", 0xab);
    assert_eq!(
        q.to_wire(),
        vec![(
            "id".to_string(),
            WireValue::String("00000000-0000-0000-0000-0000000000ab".to_string())
        )]
    );
}

#[test]
fn id_query_is_field_equality() {
    let q = id_query("id", "abc");
    assert_eq!(q.to_wire(), vec![("id".to_string(), WireValue::String("abc".to_string()))]);
}

#[test]
fn save_is_an_upsert_of_one_by_identity() {
    let r = save_request("_id", ID);
    assert_eq!(r.count, OperationCount::One);
    assert!(r.upsert);
    assert_eq!(r.query, identity_query("_id", ID));
}

#[test]
fn delete_is_a_delete_of_one_by_identity() {
    let r = delete_request("_id", ID);
    assert_eq!(r.count, OperationCount::One);
    assert!(!r.upsert);
    assert_eq!(r.query, identity_query("_id", ID));
}

#[test]
fn find_one_takes_the_first_result() {
    assert_eq!(first_or_not_found(vec![3, 4], "{}"), Ok(3));
}

#[test]
fn find_one_of_nothing_is_not_found() {
    assert_eq!(
        first_or_not_found(Vec::<i32>::new(), "{ \"name\": \"Bob\" }"),
        Err(OrmoxError::NotFound { query: "{ \"name\": \"Bob\" }".to_string() })
    );
}

#[test]
fn batch_fails_at_first_error() {
    let items: Vec<Result<i32, OrmoxError>> = vec![
        Ok(1),
        Err(OrmoxError::serialization("first")),
        Err(OrmoxError::serialization("second")),
    ];
    assert_eq!(collect_results(items), Err(OrmoxError::serialization("first")));
    let fine: Vec<Result<i32, OrmoxError>> = vec![Ok(1), Ok(2)];
    assert_eq!(collect_results(fine), Ok(vec![1, 2]));
    assert_eq!(collect_results(Vec::<Result<i32, OrmoxError>>::new()), Ok(vec![]));
}

#[test]
fn insert_needs_one_identifier_per_document() {
    assert_eq!(check_inserted(2, vec![7u128, 8]), Ok(vec![7u128, 8]));
    assert!(matches!(check_inserted(3, vec![7u128]), Err(OrmoxError::Insert { .. })));
}

#[test]
fn attached_collection_comes_first() {
    assert_eq!(resolve_collection(Some("attached"), Some("global")), Ok("attached"));
    assert_eq!(resolve_collection(None, Some("global")), Ok("global"));
    assert_eq!(resolve_collection::<&str>(None, None), Err(OrmoxError::Uninitialized));
}

#[test]
fn global_slot_is_set_once() {
    let mut slot: GlobalSlot<&str> = GlobalSlot::new();
    assert_eq!(slot.get(), None);
    assert_eq!(slot.set("first"), Ok(()));
    assert_eq!(slot.set("second"), Err("second"));
    assert_eq!(slot.get(), Some(&"first"));
}
