use kek::client_table::ClienTable;
use kek::operation::OpResult;

#[test]
fn client_table_add_client() {
    let mut ct = ClienTable::default();
    for i in 1..=10 {
        assert_eq!(ct.add_client(), i);
    }
}

#[test]
fn client_table_update_client() {
    let mut ct = ClienTable::default();
    let id = ct.add_client();
    ct.update_client(id, 5, None);

    assert!(ct.find_client(id).is_some());
}

#[test]
fn new_client_starts_without_result() {
    let mut ct = ClienTable::new();
    let id = ct.add_client();
    let e = ct.find_client(id).unwrap();
    assert_eq!(e.last_request_id, 0);
    assert_eq!(e.last_result, None);
    assert_eq!(ct.len(), 1);
}

#[test]
fn update_client_keeps_result() {
    let mut ct = ClienTable::new();
    let id = ct.add_client();
    ct.update_client(id, 7, Some(OpResult::AddResult(Ok(()))));
    let e = ct.find_client(id).unwrap();
    assert_eq!(e.last_request_id, 7);
    assert_eq!(e.last_result, Some(OpResult::AddResult(Ok(()))));
}

#[test]
fn unknown_client_is_not_found() {
    let mut ct = ClienTable::new();
    assert!(ct.find_client(0).is_none());
    assert!(ct.find_client(1).is_none());
    ct.add_client();
    assert!(ct.find_client(1).is_some());
    assert!(ct.find_client(2).is_none());
}
