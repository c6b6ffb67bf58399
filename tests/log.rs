use kek::log::{Log, LogEntry};
use kek::message::ClientRequest;
use kek::operation::Operation;

fn join(client_id: u64, request_number: u64) -> ClientRequest {
    ClientRequest { client_id, request_number, op: Operation::Join }
}

#[test]
fn append_numbers_from_one_without_gaps() {
    let mut log = Log::new();
    assert_eq!(log.last_op_num(), 0);
    for i in 1..=20u64 {
        assert_eq!(log.append(i / 5, join(i, i)), i);
        assert_eq!(log.last_op_num(), i);
    }
    assert_eq!(log.size(), 20);
}

#[test]
fn get_entry_finds_each_entry() {
    let mut log = Log::new();
    log.append(0, join(1, 1));
    log.append(2, ClientRequest { client_id: 3, request_number: 4, op: Operation::Remove { key: vec![1, 2] } });
    assert!(log.get_entry(0).is_none());
    let e1 = log.get_entry(1).unwrap();
    assert_eq!(e1.op_number, 1);
    assert_eq!(e1.view_number, 0);
    assert_eq!(e1.request, join(1, 1));
    let e2 = log.get_entry(2).unwrap();
    assert_eq!(e2.op_number, 2);
    assert_eq!(e2.view_number, 2);
    assert_eq!(e2.request.op, Operation::Remove { key: vec![1, 2] });
    assert!(log.get_entry(3).is_none());
}

#[test]
fn append_entry_takes_the_next_number() {
    let mut log = Log::new();
    log.append_entry(LogEntry { op_number: 1, view_number: 4, request: join(2, 3) });
    log.append_entry(LogEntry { op_number: 2, view_number: 4, request: join(5, 6) });
    assert_eq!(log.last_op_num(), 2);
    assert_eq!(log.get_entry(2).unwrap().request, join(5, 6));
    assert_eq!(log.get_entry(1).unwrap().view_number, 4);
}
