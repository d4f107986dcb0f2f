use screen_broadcast::annexb::{find_nal_units, is_h264_keyframe, nal_type};

fn units(data: &[u8]) -> Vec<Vec<u8>> {
    find_nal_units(data).into_iter().map(|u| u.to_vec()).collect()
}

#[test]
fn splits_on_four_byte_start_codes() {
    let data = [0, 0, 0, 1, 0x67, 1, 2, 0, 0, 0, 1, 0x68, 3, 0, 0, 0, 1, 0x65, 4, 5];
    assert_eq!(units(&data), vec![vec![0x67, 1, 2], vec![0x68, 3], vec![0x65, 4, 5]]);
}

#[test]
fn splits_on_three_byte_start_codes() {
    let data = [0, 0, 1, 0x67, 1, 0, 0, 1, 0x68, 2];
    assert_eq!(units(&data), vec![vec![0x67, 1], vec![0x68, 2]]);
}

#[test]
fn mixed_start_codes_give_the_same_units() {
    let data = [0, 0, 0, 1, 0x67, 9, 0, 0, 1, 0x41, 8, 7];
    assert_eq!(units(&data), vec![vec![0x67, 9], vec![0x41, 8, 7]]);
}

#[test]
fn zero_padding_before_a_start_code_is_no_part_of_a_unit() {
    let data = [0, 0, 1, 0x67, 5, 0, 0, 0, 0, 0, 1, 0x68, 6];
    assert_eq!(units(&data), vec![vec![0x67, 5], vec![0x68, 6]]);
}

#[test]
fn last_unit_keeps_its_bytes() {
    let data = [0, 0, 1, 0x41, 0, 0, 0];
    assert_eq!(units(&data), vec![vec![0x41, 0, 0, 0]]);
}

#[test]
fn data_without_start_code_is_one_unit() {
    assert_eq!(units(&[0x65, 1, 2]), vec![vec![0x65, 1, 2]]);
    assert_eq!(units(&[0]), vec![vec![0]]);
    assert_eq!(units(&[0, 0]), vec![vec![0, 0]]);
}

#[test]
fn empty_data_and_bare_start_codes_hold_no_unit() {
    assert!(units(&[]).is_empty());
    assert!(units(&[0, 0, 1]).is_empty());
    assert!(units(&[0, 0, 0, 1]).is_empty());
    assert!(units(&[0, 0, 1, 0, 0, 1]).is_empty());
}

#[test]
fn bytes_before_the_first_start_code_form_a_unit() {
    let data = [0x09, 0x10, 0, 0, 1, 0x65, 1];
    assert_eq!(units(&data), vec![vec![0x09, 0x10], vec![0x65, 1]]);
}

#[test]
fn start_code_at_the_end_closes_the_last_unit() {
    let data = [0, 0, 1, 0x65, 0, 0, 1];
    assert_eq!(units(&data), vec![vec![0x65]]);
}

#[test]
fn nal_type_is_low_five_bits() {
    assert_eq!(nal_type(0x67), 7);
    assert_eq!(nal_type(0x65), 5);
    assert_eq!(nal_type(0x41), 1);
    assert_eq!(nal_type(0x7C), 28);
    assert_eq!(nal_type(0xFF), 31);
    assert_eq!(nal_type(0xE0), 0);
}

#[test]
fn keyframe_found_behind_either_start_code() {
    assert!(is_h264_keyframe(&[0, 0, 1, 0x65]));
    assert!(is_h264_keyframe(&[0, 0, 0, 1, 0x65]));
    assert!(is_h264_keyframe(&[0, 0, 0, 1, 0x67, 1, 2, 3]));
    assert!(is_h264_keyframe(&[0, 0, 1, 0x25, 9]));
}

#[test]
fn keyframe_found_behind_a_later_start_code() {
    let data = [0, 0, 1, 0x41, 1, 2, 3, 0, 0, 0, 1, 0x68, 4, 0, 0, 1, 0x65, 5];
    assert!(is_h264_keyframe(&data));
}

#[test]
fn no_keyframe_in_delta_frames_or_short_data() {
    assert!(!is_h264_keyframe(&[]));
    assert!(!is_h264_keyframe(&[0, 0, 1]));
    assert!(!is_h264_keyframe(&[0, 0, 0, 1]));
    assert!(!is_h264_keyframe(&[0, 0, 1, 0x41, 5, 7]));
    assert!(!is_h264_keyframe(&[0, 0, 0, 1, 0x68, 0x65, 0x67]));
    assert!(!is_h264_keyframe(&[0x65, 0x67, 5, 7]));
}

#[test]
fn keyframe_of_concatenation_is_keyframe_of_a_part() {
    let with_key: Vec<u8> = vec![0, 0, 0, 1, 0x65, 1, 2];
    let without: Vec<u8> = vec![0, 0, 1, 0x41, 3, 4];
    for (a, b) in [
        (&with_key, &without),
        (&without, &with_key),
        (&without, &without),
        (&with_key, &with_key),
    ] {
        let mut joined = a.clone();
        joined.extend_from_slice(b);
        assert_eq!(is_h264_keyframe(&joined), is_h264_keyframe(a) || is_h264_keyframe(b));
    }
}

#[test]
fn keyframe_law_needs_the_header_byte_on_the_side_of_its_start_code() {
    let a = [0u8, 0, 1];
    let b = [0x65u8];
    assert!(!is_h264_keyframe(&a));
    assert!(!is_h264_keyframe(&b));
    assert!(is_h264_keyframe(&[0, 0, 1, 0x65]));
}
