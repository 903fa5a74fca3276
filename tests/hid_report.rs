use concept2::hid_report::{report_has_flag, report_message, MSG_LENGTH};

#[test]
fn report_message_pads_with_zeros() {
    let msg = report_message(2, &[0xf1, 0x80, 0x80, 0xf2]);
    assert_eq!(MSG_LENGTH, msg.len());
    assert_eq!(vec![2, 0xf1, 0x80, 0x80, 0xf2, 0], msg[..6].to_vec());
    assert!(msg[5..].iter().all(|&b| b == 0));
}

#[test]
fn report_message_cuts_long_frames() {
    let frame = vec![7u8; 200];
    let msg = report_message(1, &frame);
    assert_eq!(MSG_LENGTH, msg.len());
    assert_eq!(1, msg[0]);
    assert!(msg[1..].iter().all(|&b| b == 7));
}

#[test]
fn report_flags() {
    assert!(report_has_flag(&[0, 0, 0xf1, 0]));
    assert!(report_has_flag(&[0xf2]));
    assert!(!report_has_flag(&[0, 0xf0, 0xf3]));
    assert!(!report_has_flag(&[]));
}
