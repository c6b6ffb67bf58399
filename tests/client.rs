use kek::client::{parse_command, Client};
use kek::message::Reply;
use kek::operation::{OpResult, Operation};
use kek::utils::do_nothing;

#[test]
fn parses_commands() {
    let state = Client { client_id: 3, request_number: 9 };
    let r = parse_command("Join", &state).unwrap();
    assert_eq!((r.client_id, r.request_number, r.op), (3, 9, Operation::Join));
    let r = parse_command("  Add   key value \n", &state).unwrap();
    assert_eq!(r.op, Operation::Add { key: b"key".to_vec(), value: b"value".to_vec() });
    let r = parse_command("Update\tk v", &state).unwrap();
    assert_eq!(r.op, Operation::Update { key: b"k".to_vec(), value: b"v".to_vec() });
    let r = parse_command("Remove k", &state).unwrap();
    assert_eq!(r.op, Operation::Remove { key: b"k".to_vec() });
}

#[test]
fn rejects_other_lines() {
    let state = Client::new(0);
    for bad in ["", "   ", "join", "Join now", "Add k", "Add k v w", "Remove", "Update k", "Delete k"] {
        assert!(parse_command(bad, &state).is_none(), "{}", bad);
    }
}

#[test]
fn join_reply_sets_identifier() {
    let mut c = Client::new(77);
    assert_eq!((c.client_id, c.request_number), (77, 0));
    c.on_reply(&Reply { view_number: 0, request_number: 0, result: OpResult::JoinResult(Ok(4)) });
    assert_eq!((c.client_id, c.request_number), (4, 1));
    c.on_reply(&Reply { view_number: 0, request_number: 0, result: OpResult::AddResult(Ok(())) });
    assert_eq!((c.client_id, c.request_number), (4, 1));
    c.on_reply(&Reply { view_number: 0, request_number: 1, result: OpResult::AddResult(Ok(())) });
    assert_eq!((c.client_id, c.request_number), (4, 2));
    do_nothing();
}

#[test]
fn splits_at_unicode_whitespace() {
    let state = Client { client_id: 1, request_number: 2 };
    let r = parse_command("Join\u{3000}", &state).unwrap();
    assert_eq!(r.op, Operation::Join);
    let r = parse_command("Add\u{3000}k v", &state).unwrap();
    assert_eq!(r.op, Operation::Add { key: b"k".to_vec(), value: b"v".to_vec() });
    let r = parse_command("Remove\u{a0}ключ", &state).unwrap();
    assert_eq!(r.op, Operation::Remove { key: "ключ".as_bytes().to_vec() });
    assert!(parse_command("Add\u{2003}k", &state).is_none());
}
