use krnlstring::OwnedUnicodeString;

#[test]
fn test_round_trip_supplementary() {
    let text = "Hi \u{1F980}!";
    let owned = OwnedUnicodeString::from_text(text);
    assert_eq!(owned.to_display_string(), text);
}

#[test]
fn test_encode_surrogate_pair_units() {
    let owned = OwnedUnicodeString::from_text("\u{1F600}");
    assert_eq!(owned.as_units(), &vec![0xD83D_u16, 0xDE00_u16]);
    assert_eq!(owned.length(), 4);
    assert_eq!(owned.maximum_length(), 4);
}

#[test]
fn test_decode_surrogate_pair_units() {
    let owned = OwnedUnicodeString::from_units(vec![0xD83D, 0xDE00]);
    assert_eq!(owned.to_display_string(), "\u{1F600}");
}

#[test]
fn test_decode_lone_low_surrogate() {
    let mut owned = OwnedUnicodeString::from_text("Hello");
    owned.push_unit(0xDC00);
    owned.compute_size();
    assert_eq!(owned.to_display_string(), "Hello\u{FFFD}");
}

#[test]
fn test_equality_ignores_termination_padding() {
    let plain = OwnedUnicodeString::from_text("abc");
    let mut padded = OwnedUnicodeString::from_text("abc");
    padded.ensure_is_null_terminated();
    assert_eq!(plain == padded, true);
    assert_eq!(padded == plain, true);
    assert_ne!(padded.maximum_length(), plain.maximum_length());
}

#[test]
fn test_termination_idempotence() {
    let mut owned = OwnedUnicodeString::from_text("abc");
    assert!(!owned.is_null_terminated());
    owned.ensure_is_null_terminated();
    assert!(owned.is_null_terminated());
    let units_once = owned.as_units().clone();
    let length_once = owned.length();
    let maximum_once = owned.maximum_length();
    owned.ensure_is_null_terminated();
    assert_eq!(owned.as_units(), &units_once);
    assert_eq!(owned.length(), length_once);
    assert_eq!(owned.maximum_length(), maximum_once);
}

#[test]
fn test_termination_of_empty_buffer() {
    let mut owned = OwnedUnicodeString::from_units(Vec::new());
    assert!(!owned.is_null_terminated());
    owned.ensure_is_null_terminated();
    assert!(owned.is_null_terminated());
    assert_eq!(owned.length(), 0);
    assert_eq!(owned.maximum_length(), 2);
}

#[test]
fn test_termination_keeps_logical_length() {
    let mut owned = OwnedUnicodeString::from_text("ab");
    owned.ensure_is_null_terminated();
    assert_eq!(owned.length(), 4);
    assert_eq!(owned.maximum_length(), 6);
}

#[test]
fn test_concat_embedded_terminator() {
    // A left operand terminated before concatenation keeps its zero
    // unit embedded in the middle of the result.
    let mut left = OwnedUnicodeString::from_text("ab");
    left.ensure_is_null_terminated();
    let right = OwnedUnicodeString::from_text("cd");
    let joined = left.concat(right);
    assert_eq!(joined.as_units(), &vec![0x61, 0x62, 0, 0x63, 0x64]);
    assert_eq!(joined.length(), 10);
    assert_eq!(joined.maximum_length(), 10);
    assert_eq!(joined.to_display_string(), "ab\u{0}cd");
}

#[test]
fn test_concat_strips_right_trailing_zeros() {
    let left = OwnedUnicodeString::from_text("ab");
    let mut right = OwnedUnicodeString::from_text("cd");
    right.ensure_is_null_terminated();
    let joined = left.concat(right);
    assert_eq!(joined.as_units(), &vec![0x61, 0x62, 0x63, 0x64]);
    assert_eq!(joined.to_display_string(), "abcd");
}

#[test]
fn test_unit_limit_rejected() {
    let too_many = vec![0x41_u16; 32768];
    assert!(OwnedUnicodeString::try_from_units(too_many).is_none());
}

#[test]
fn test_unit_limit_accepted() {
    let just_enough = vec![0x41_u16; 32767];
    let owned = OwnedUnicodeString::try_from_units(just_enough).unwrap();
    assert_eq!(owned.length(), 65534);
    assert_eq!(owned.maximum_length(), 65534);
}

#[test]
fn test_text_limit_rejected() {
    let too_long = "A".repeat(32768);
    assert!(OwnedUnicodeString::try_from_text(too_long.as_str()).is_none());
}

#[test]
fn test_try_from_text_accepted() {
    let owned = OwnedUnicodeString::try_from_text("ok").unwrap();
    assert_eq!(owned.to_display_string(), "ok");
}

#[test]
fn test_large_input_capacity() {
    let large_string = "A".repeat(10000);
    let owned = OwnedUnicodeString::from_text(large_string.as_str());
    assert_eq!(owned.maximum_length(), 20000);
    assert_eq!(owned.length(), 20000);
}

#[test]
fn test_round_trip_mixed_planes() {
    let text = "a\u{3B1}\u{3053}\u{10348}z";
    let owned = OwnedUnicodeString::from_text(text);
    assert_eq!(owned.to_display_string(), text);
}

#[test]
fn test_descriptor_fields() {
    let owned = OwnedUnicodeString::from_text("Test");
    assert_eq!(owned.length(), 8);
    assert_eq!(owned.maximum_length(), 8);
    assert_eq!(owned.as_units().len(), 4);
}

#[test]
fn test_into_units_round_trip() {
    let owned = OwnedUnicodeString::from_text("abc");
    let units = owned.into_units();
    assert_eq!(units, vec![0x61, 0x62, 0x63]);
    let rebuilt = OwnedUnicodeString::from_units(units);
    let again = OwnedUnicodeString::from_text("abc");
    assert_eq!(rebuilt == again, true);
}

#[test]
fn test_trailing_zero_units_excluded_from_length() {
    let owned = OwnedUnicodeString::from_units(vec![0x61, 0, 0, 0]);
    assert_eq!(owned.length(), 2);
    assert_eq!(owned.maximum_length(), 8);
    assert_eq!(owned.to_display_string(), "a");
}

#[test]
fn test_trailing_nul_text_not_round_tripped() {
    // A trailing NUL encodes to a trailing zero unit, which the
    // recomputed logical length excludes, so it does not come back.
    let owned = OwnedUnicodeString::from_text("a\u{0}");
    assert_eq!(owned.length(), 2);
    assert_eq!(owned.maximum_length(), 4);
    assert_eq!(owned.to_display_string(), "a");
}

#[test]
fn test_all_zero_buffer() {
    let owned = OwnedUnicodeString::from_units(vec![0, 0]);
    assert_eq!(owned.length(), 0);
    assert_eq!(owned.maximum_length(), 4);
    assert_eq!(owned.to_display_string(), "");
}
