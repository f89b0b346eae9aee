use restaurant::item::MenuItem;
use restaurant::store::{TableStore, DEFAULT_TABLE_COUNT};
use restaurant::validate::{validate_request, RequestError};

const API_KEY: &str = "QXlj";

fn setup_store() -> TableStore {
    TableStore::new(DEFAULT_TABLE_COUNT)
}

fn add_items(store: &TableStore, table: usize, items: Vec<u64>) -> bool {
    assert!(validate_request(Some(API_KEY), API_KEY, None).is_ok());
    store.add_items(table, &items)
}

fn delete_item(store: &TableStore, table: usize, item_position: usize) -> bool {
    assert!(validate_request(Some(API_KEY), API_KEY, None).is_ok());
    store.delete_item(table, item_position)
}

fn get_items(store: &TableStore, table: usize) -> Vec<MenuItem> {
    let limit = validate_request(Some(API_KEY), API_KEY, None).unwrap();
    store.list_items(table, limit).unwrap()
}

fn numbers(items: &[MenuItem]) -> Vec<u64> {
    items.iter().map(|i| i.item_number).collect()
}

#[test]
fn simple_insert_test() {
    let store = setup_store();
    let limit = validate_request(Some(API_KEY), API_KEY, None).unwrap();
    assert!(store.list_items(1, limit).is_ok());
}

#[test]
fn too_large_table() {
    let store = setup_store();
    let limit = validate_request(Some(API_KEY), API_KEY, None).unwrap();
    assert!(store.list_items(300, limit).is_err());
}

#[test]
fn simple_delete_test() {
    let store = setup_store();
    assert!(add_items(&store, 1, vec![1, 2, 3, 4]));
    assert!(delete_item(&store, 1, 1));
}

#[test]
fn simple_post_test() {
    let store = setup_store();
    assert!(add_items(&store, 1, vec![1, 2, 3, 4]));
}

#[test]
fn items_added_exists() {
    let store = setup_store();
    assert_eq!(add_items(&store, 1, vec![1, 2, 3]), true);
    assert_eq!(add_items(&store, 2, vec![4, 5, 6]), true);
    let menu_items = numbers(&get_items(&store, 1));
    assert_eq!(menu_items, vec![1, 2, 3]);
}

#[test]
fn deletion_works() {
    let store = setup_store();
    assert_eq!(add_items(&store, 1, vec![1, 2, 3]), true);
    assert_eq!(delete_item(&store, 1, 2), true);
    assert_eq!(add_items(&store, 2, vec![4, 5, 6]), true);
    let menu_items = numbers(&get_items(&store, 1));
    assert_eq!(menu_items, vec![1, 2]);
}

#[test]
fn deletion_works_by_item_position() {
    let store = setup_store();
    assert_eq!(add_items(&store, 1, vec![10, 20, 30]), true);
    assert_eq!(delete_item(&store, 1, 2), true);
    assert_eq!(add_items(&store, 2, vec![4, 5, 6]), true);
    let menu_items = numbers(&get_items(&store, 1));
    assert_eq!(menu_items, vec![10, 20]);
}

#[test]
fn deletion_does_not_disturb_other() {
    let store = setup_store();
    assert_eq!(add_items(&store, 1, vec![10, 20, 30]), true);
    assert_eq!(delete_item(&store, 1, 2), true);
    assert_eq!(add_items(&store, 2, vec![4, 5, 6]), true);
    let menu_items = numbers(&get_items(&store, 2));
    assert_eq!(menu_items, vec![4, 5, 6]);
}

#[test]
fn get_specific_item() {
    let store = setup_store();
    assert_eq!(add_items(&store, 1, vec![10, 20, 30]), true);
    assert!(validate_request(Some(API_KEY), API_KEY, None).is_ok());
    assert_eq!(store.get_item(1, 1).unwrap().item_number, 20);
}

#[test]
fn unauthorized_no_query_param() {
    // Every request (list, add, delete) goes through the same gate.
    assert_eq!(validate_request(None, API_KEY, None), Err(RequestError::MissingToken));
    assert_eq!(validate_request(None, API_KEY, None), Err(RequestError::MissingToken));
    assert_eq!(validate_request(None, API_KEY, None), Err(RequestError::MissingToken));
}

#[test]
fn unauthorized_wrong_key() {
    assert_eq!(validate_request(Some("foo"), API_KEY, None), Err(RequestError::Unauthorized));
    assert_eq!(validate_request(Some("foo"), API_KEY, None), Err(RequestError::Unauthorized));
    assert_eq!(validate_request(Some("foo"), API_KEY, None), Err(RequestError::Unauthorized));
}

#[test]
fn limit() {
    let store = setup_store();
    assert!(add_items(&store, 1, vec![20; 500]));
    let limit = validate_request(Some(API_KEY), API_KEY, Some("50")).unwrap();
    let result = store.list_items(1, limit).unwrap();
    assert_eq!(result.len(), 50);
}

#[test]
fn limit_to_large() {
    let store = setup_store();
    assert!(add_items(&store, 1, vec![1, 2, 3, 4]));
    let limit = validate_request(Some(API_KEY), API_KEY, Some("600")).unwrap();
    let result = store.list_items(1, limit).unwrap();
    assert_eq!(numbers(&result), vec![1, 2, 3, 4]);
}

#[test]
fn limit_is_zero() {
    let store = setup_store();
    assert!(add_items(&store, 1, vec![20; 500]));
    let limit = validate_request(Some(API_KEY), API_KEY, Some("0")).unwrap();
    let result = store.list_items(1, limit).unwrap();
    assert!(result.is_empty());
}

#[test]
fn limit_is_negative() {
    let store = setup_store();
    assert!(add_items(&store, 1, vec![20; 500]));
    assert_eq!(
        validate_request(Some(API_KEY), API_KEY, Some("-1")),
        Err(RequestError::InvalidLimit)
    );
}

#[test]
fn all_items() {
    let store = setup_store();
    assert!(add_items(&store, 1, vec![10, 20, 30]));
    assert!(add_items(&store, 2, vec![12, 22, 32]));
    let limit = validate_request(Some(API_KEY), API_KEY, None).unwrap();
    let item_numbers: Vec<u64> = store
        .list_all_non_empty(limit)
        .iter()
        .flat_map(|t| numbers(&t.items))
        .collect();
    assert_eq!(item_numbers, vec![10, 20, 30, 12, 22, 32]);
}

#[test]
fn all_items_with_gap() {
    let store = setup_store();
    assert!(add_items(&store, 1, vec![10, 20, 30]));
    assert!(add_items(&store, 3, vec![13, 23, 33]));
    let limit = validate_request(Some(API_KEY), API_KEY, None).unwrap();
    let item_numbers: Vec<Vec<u64>> = store
        .list_all_non_empty(limit)
        .iter()
        .map(|t| numbers(&t.items))
        .collect();
    assert_eq!(item_numbers, vec![vec![10, 20, 30], vec![13, 23, 33]]);
}

#[test]
fn all_items_limit() {
    // The limit counts the non-empty tables listed, so both tables fit.
    let store = setup_store();
    assert!(add_items(&store, 1, vec![10, 20, 30]));
    assert!(add_items(&store, 2, vec![12, 22, 32]));
    let limit = validate_request(Some(API_KEY), API_KEY, Some("2")).unwrap();
    let item_numbers: Vec<u64> = store
        .list_all_non_empty(limit)
        .iter()
        .flat_map(|t| numbers(&t.items))
        .collect();
    assert_eq!(item_numbers, vec![10, 20, 30, 12, 22, 32]);
}
