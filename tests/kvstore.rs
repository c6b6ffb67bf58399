use kek::kvstore::KVStore;
use kek::operation::{OpResult, Operation};

#[test]
fn set_update_remove() {
    let mut s = KVStore::new();
    assert_eq!(s.set(b"k".to_vec(), b"v".to_vec()), Ok(()));
    assert_eq!(s.set(b"k".to_vec(), b"w".to_vec()), Err(()));
    assert_eq!(s.get(&b"k".to_vec()), Some(&b"v".to_vec()));
    assert_eq!(s.update(b"k".to_vec(), b"w".to_vec()), Ok(()));
    assert_eq!(s.get(&b"k".to_vec()), Some(&b"w".to_vec()));
    assert_eq!(s.update(b"x".to_vec(), b"w".to_vec()), Err(()));
    assert_eq!(s.remove(&b"k".to_vec()), Ok(()));
    assert_eq!(s.get(&b"k".to_vec()), None);
    assert_eq!(s.remove(&b"k".to_vec()), Err(()));
}

#[test]
fn apply_reports_results() {
    let mut s = KVStore::new();
    let add = Operation::Add { key: vec![1], value: vec![2] };
    assert_eq!(s.apply(&add), OpResult::AddResult(Ok(())));
    assert_eq!(s.apply(&add), OpResult::AddResult(Err(())));
    assert_eq!(s.apply(&Operation::Update { key: vec![1], value: vec![3] }), OpResult::UpdateResult(Ok(())));
    assert_eq!(s.get(&vec![1]), Some(&vec![3]));
    assert_eq!(s.apply(&Operation::Remove { key: vec![1] }), OpResult::RemoveResult(Ok(())));
    assert_eq!(s.apply(&Operation::Remove { key: vec![1] }), OpResult::RemoveResult(Err(())));
    assert_eq!(s.apply(&Operation::Update { key: vec![1], value: vec![3] }), OpResult::UpdateResult(Err(())));
}
