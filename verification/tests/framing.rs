use esotereel::framing::{encode_frame, frame_header, frame_len, take_frame};

#[test]
fn a_frame_is_its_length_in_little_endian_then_the_payload() {
    let f = encode_frame(&vec![7, 8, 9]);
    assert_eq!(f, vec![3, 0, 0, 0, 7, 8, 9]);
    assert_eq!(frame_header(0x0102_0304), [4, 3, 2, 1]);
    assert_eq!(frame_len([4, 3, 2, 1]), 0x0102_0304);
}

#[test]
fn frames_are_read_back_one_by_one() {
    let mut buf = encode_frame(&vec![1, 2]);
    buf.extend(encode_frame(&vec![]));
    buf.extend(encode_frame(&vec![5]));
    buf.push(9);
    assert_eq!(take_frame(&mut buf), Some(vec![1, 2]));
    assert_eq!(take_frame(&mut buf), Some(vec![]));
    assert_eq!(take_frame(&mut buf), Some(vec![5]));
    assert_eq!(take_frame(&mut buf), None);
    assert_eq!(buf, vec![9]);
}

#[test]
fn an_incomplete_frame_waits_for_more_bytes() {
    let mut buf = vec![5, 0, 0, 0, 1, 2];
    assert_eq!(take_frame(&mut buf), None);
    assert_eq!(buf, vec![5, 0, 0, 0, 1, 2]);
    buf.extend(vec![3, 4, 5]);
    assert_eq!(take_frame(&mut buf), Some(vec![1, 2, 3, 4, 5]));
    assert!(buf.is_empty());
}
