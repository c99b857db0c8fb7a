use ax25::kiss::{encode_kiss_data_frame, make_frame_from_buffer, FEND, FESC, TFEND, TFESC};

#[test]
fn test_normal_frame() {
    let mut rx = vec![FEND, 0x01, 0x02, FEND];
    assert_eq!(make_frame_from_buffer(&mut rx), Some(vec![0x01, 0x02]));
    assert_eq!(rx, vec![FEND]);
}

#[test]
fn test_trailing_data() {
    let mut rx = vec![FEND, 0x01, 0x02, FEND, 0x03, 0x04];
    assert_eq!(make_frame_from_buffer(&mut rx), Some(vec![0x01, 0x02]));
    assert_eq!(rx, vec![FEND, 0x03, 0x04]);
}

#[test]
fn test_leading_data() {
    let mut rx = vec![0x03, 0x04, FEND, 0x01, 0x02, FEND];
    assert_eq!(make_frame_from_buffer(&mut rx), Some(vec![0x01, 0x02]));
    assert_eq!(rx, vec![FEND]);
}

#[test]
fn test_consecutive_marker() {
    let mut rx = vec![FEND, FEND, FEND, 0x01, 0x02, FEND];
    assert_eq!(make_frame_from_buffer(&mut rx), Some(vec![0x01, 0x02]));
    assert_eq!(rx, vec![FEND]);
}

#[test]
fn test_escapes() {
    let mut rx = vec![FEND, 0x01, FESC, TFESC, 0x02, FESC, TFEND, 0x03, FEND];
    assert_eq!(
        make_frame_from_buffer(&mut rx),
        Some(vec![0x01, FESC, 0x02, FEND, 0x03])
    );
    assert_eq!(rx, vec![FEND]);
}

#[test]
fn test_incorrect_escape_skipped() {
    let mut rx = vec![
        FEND, 0x01, FESC, 0x04, TFESC, /* passes normally without leading FESC */
        0x02, FEND,
    ];
    assert_eq!(
        make_frame_from_buffer(&mut rx),
        Some(vec![0x01, TFESC, 0x02])
    );
    assert_eq!(rx, vec![FEND]);
}

#[test]
fn test_two_frames_single_fend() {
    let mut rx = vec![FEND, 0x01, 0x02, FEND, 0x03, 0x04, FEND];
    assert_eq!(make_frame_from_buffer(&mut rx), Some(vec![0x01, 0x02]));
    assert_eq!(make_frame_from_buffer(&mut rx), Some(vec![0x03, 0x04]));
    assert_eq!(rx, vec![FEND]);
}

#[test]
fn test_two_frames_double_fend() {
    let mut rx = vec![FEND, 0x01, 0x02, FEND, FEND, 0x03, 0x04, FEND];
    assert_eq!(make_frame_from_buffer(&mut rx), Some(vec![0x01, 0x02]));
    assert_eq!(make_frame_from_buffer(&mut rx), Some(vec![0x03, 0x04]));
    assert_eq!(rx, vec![FEND]);
}

#[test]
fn test_no_complete_frame_leaves_buffer() {
    let mut rx = vec![FEND, 0x01, 0x02];
    assert_eq!(make_frame_from_buffer(&mut rx), None);
    assert_eq!(rx, vec![FEND, 0x01, 0x02]);
}

#[test]
fn test_extraction_deterministic() {
    let original = vec![0x07, FEND, 0x01, FESC, TFEND, 0x02, FEND, 0x09];
    let mut a = original.clone();
    let mut b = original.clone();
    assert_eq!(make_frame_from_buffer(&mut a), make_frame_from_buffer(&mut b));
    assert_eq!(a, b);
    assert_eq!(a[0], FEND);
}

#[test]
fn test_encode_plain_frame() {
    let out = encode_kiss_data_frame(&[0x01, 0x02]);
    assert_eq!(out, vec![FEND, 0x00, 0x01, 0x02, FEND]);
}

#[test]
fn test_encode_escapes_sentinels() {
    let out = encode_kiss_data_frame(&[FEND, 0x10, FESC]);
    assert_eq!(out, vec![FEND, 0x00, FESC, TFEND, 0x10, FESC, TFESC, FEND]);
}

#[test]
fn test_encode_decode_identity() {
    // a payload holding both sentinel octets comes back intact,
    // with the command octet in front
    let payload = vec![FEND, FESC, 0x00, 0x42, FESC, FEND, FEND];
    let mut buffer = encode_kiss_data_frame(&payload);
    let frame = make_frame_from_buffer(&mut buffer).unwrap();
    let mut expected = vec![0x00];
    expected.extend(&payload);
    assert_eq!(frame, expected);
    assert_eq!(buffer, vec![FEND]);
}
