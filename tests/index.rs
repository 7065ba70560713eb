use holaplex_indexer::index::{create_index, IndexPlan, PrimaryKeyMismatch};

fn s(x: &str) -> String {
    x.to_string()
}

#[test]
fn absent_index_is_created() {
    assert_eq!(create_index(&s("metadatas"), None, &s("id")), Ok(IndexPlan::Create));
}

#[test]
fn existing_index_with_same_key_is_kept() {
    assert_eq!(create_index(&s("metadatas"), Some(Some(s("id"))), &s("id")), Ok(IndexPlan::Keep));
}

#[test]
fn ensuring_twice_is_a_no_op_the_second_time() {
    let first = create_index(&s("name_service"), None, &s("id"));
    assert_eq!(first, Ok(IndexPlan::Create));
    let second = create_index(&s("name_service"), Some(Some(s("id"))), &s("id"));
    assert_eq!(second, Ok(IndexPlan::Keep));
}

#[test]
fn mismatched_primary_key_fails() {
    assert_eq!(
        create_index(&s("metadatas"), Some(Some(s("id"))), &s("uuid")),
        Err(PrimaryKeyMismatch { index: s("metadatas") })
    );
}

#[test]
fn index_without_primary_key_fails() {
    assert_eq!(
        create_index(&s("metadatas"), Some(None), &s("id")),
        Err(PrimaryKeyMismatch { index: s("metadatas") })
    );
}
