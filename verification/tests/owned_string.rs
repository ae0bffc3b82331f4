use krnlstring::OwnedUnicodeString;

#[test]
fn test_fmt() {
    let owned_unicode = OwnedUnicodeString::from_text("Hello, world !");
    let formated = owned_unicode.to_display_string();
    assert_eq!(formated, "Hello, world !");
}

#[test]
fn test_eq() {
    let owned_unicode = OwnedUnicodeString::from_text("Hello, world !");
    let same = OwnedUnicodeString::from_text("Hello, world !");
    let result = owned_unicode == same;
    assert_eq!(result, true)
}

#[test]
fn test_add() {
    let owned_unicode = OwnedUnicodeString::from_text("Hello, world !");
    let other_str: &str = " Bye";
    let other = OwnedUnicodeString::from_text(" !");
    let expected1 = OwnedUnicodeString::from_text("Hello, world ! Bye");
    let expected2 = OwnedUnicodeString::from_text("Hello, world ! Bye !");
    let concat1 = owned_unicode.concat_text(other_str);
    let mut result = concat1 == expected1;
    assert_eq!(result, true);
    let concat2 = concat1.concat(other);
    result = concat2 == expected2;
    assert_eq!(result, true);
}

#[test]
fn test_empty_string() {
    let owned_unicode = OwnedUnicodeString::from_text("");
    let expected = OwnedUnicodeString::from_units(Vec::new());
    let result = owned_unicode == expected;
    assert_eq!(result, true);
}

#[test]
fn test_unicode_characters() {
    let unicode_str = "こんにちは"; // "Hello" in Japanese
    let owned_unicode = OwnedUnicodeString::from_text(unicode_str);
    let formated = owned_unicode.to_display_string();
    assert_eq!(formated, unicode_str);
}

#[test]
fn test_add_special_characters() {
    let owned_unicode = OwnedUnicodeString::from_text("Line1\n");
    let other = OwnedUnicodeString::from_text("Line2\tEnd");
    let expected = OwnedUnicodeString::from_text("Line1\nLine2\tEnd");

    let result = owned_unicode.concat(other);
    assert_eq!(result == expected, true);
}

#[test]
fn test_buffer_overflow_protection() {
    let mut owned_unicode = OwnedUnicodeString::from_text("Test");

    // Manually extend the buffer to simulate potential overflow
    owned_unicode.push_unit(1);

    // Ensure the buffer still respects the max length
    owned_unicode.compute_size();
    assert!(owned_unicode.length() <= owned_unicode.maximum_length());
}

#[test]
fn test_multiple_consecutive_null_characters() {
    let mut owned_unicode = OwnedUnicodeString::from_text("Test");

    // Add multiple null characters
    owned_unicode.push_unit(0);
    owned_unicode.push_unit(0);
    owned_unicode.push_unit(0);

    owned_unicode.compute_size();

    // Check length is properly adjusted
    let expected_length: u16 = 4 * 2;
    assert_eq!(owned_unicode.length(), expected_length);
}

#[test]
fn test_large_input_handling() {
    let large_string = "A".repeat(10000);
    let owned_unicode = OwnedUnicodeString::from_text(large_string.as_str());

    // Check the length is correctly calculated
    assert_eq!(owned_unicode.length(), 10000 * 2);
}

#[test]
fn test_equality_case_sensitivity() {
    let upper_case = OwnedUnicodeString::from_text("HELLO");
    let lower_case = OwnedUnicodeString::from_text("hello");

    assert_ne!(upper_case == lower_case, true);
}

#[test]
fn test_fmt_invalid_utf16_sequence() {
    let mut owned_unicode = OwnedUnicodeString::from_text("Hello");

    // Manually add invalid UTF-16 sequence
    owned_unicode.push_unit(0xD800); // Half of a surrogate pair
    owned_unicode.compute_size();

    let formated = owned_unicode.to_display_string();
    assert_eq!(formated, "Hello\u{FFFD}");
}
