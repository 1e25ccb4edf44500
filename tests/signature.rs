use rip::signature::find_signature;

#[test]
fn finds_lowest_offset_at_or_after_start() {
    let data = [1u8, 2, 3, 1, 2, 3, 1, 2];
    assert_eq!(find_signature(&data, 0, &[1, 2]), Some(0));
    assert_eq!(find_signature(&data, 1, &[1, 2]), Some(3));
    assert_eq!(find_signature(&data, 4, &[1, 2]), Some(6));
}

#[test]
fn no_match_when_pattern_absent() {
    let data = [1u8, 2, 3, 4];
    assert_eq!(find_signature(&data, 0, &[4, 3]), None);
}

#[test]
fn no_match_when_rest_shorter_than_pattern() {
    let data = [1u8, 2, 3, 4];
    assert_eq!(find_signature(&data, 3, &[4, 5]), None);
    assert_eq!(find_signature(&data, 9, &[4]), None);
    assert_eq!(find_signature(&data, 0, &[1, 2, 3, 4, 5]), None);
}

#[test]
fn match_at_very_end() {
    let data = [0u8, 0, 7, 8];
    assert_eq!(find_signature(&data, 0, &[7, 8]), Some(2));
}
