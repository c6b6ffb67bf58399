use kek::framing::{frame_message, take_frame};

#[test]
fn frame_has_big_endian_length_prefix() {
    let payload: Vec<u8> = (0..300u32).map(|i| i as u8).collect();
    let f = frame_message(&payload).unwrap();
    assert_eq!(&f[..4], &[0, 0, 1, 44]);
    assert_eq!(&f[4..], &payload[..]);
    assert_eq!(frame_message(&vec![]).unwrap(), vec![0, 0, 0, 0]);
}

#[test]
fn take_frame_round_trip_keeps_rest() {
    let mut buf = frame_message(&vec![7, 8, 9]).unwrap();
    buf.extend_from_slice(&[0, 0, 0]);
    assert_eq!(take_frame(&mut buf), Some(vec![7, 8, 9]));
    assert_eq!(buf, vec![0, 0, 0]);
}

#[test]
fn take_frame_waits_for_whole_frame() {
    let mut buf = vec![0, 0];
    assert_eq!(take_frame(&mut buf), None);
    assert_eq!(buf, vec![0, 0]);
    let mut buf = vec![0, 0, 0, 5, 1, 2];
    assert_eq!(take_frame(&mut buf), None);
    assert_eq!(buf, vec![0, 0, 0, 5, 1, 2]);
    let mut buf = vec![0, 0, 0, 0];
    assert_eq!(take_frame(&mut buf), Some(vec![]));
    assert!(buf.is_empty());
}
