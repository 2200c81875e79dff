use unicode_truncate::UnicodeTruncateStr;

#[test]
fn empty() {
    assert_eq!("".unicode_truncate(4), ("", 0));
}

#[test]
fn zero_width() {
    assert_eq!("ab".unicode_truncate(0), ("", 0));
    assert_eq!("你好".unicode_truncate(0), ("", 0));
}

#[test]
fn less_than_limit() {
    assert_eq!("abc".unicode_truncate(4), ("abc", 3));
    assert_eq!("你".unicode_truncate(4), ("你", 2));
}

#[test]
fn at_boundary() {
    assert_eq!("boundary".unicode_truncate(5), ("bound", 5));
    assert_eq!("你好吗".unicode_truncate(4), ("你好", 4));
}

#[test]
fn not_boundary() {
    assert_eq!("你好吗".unicode_truncate(3), ("你", 2));
    assert_eq!("你好吗".unicode_truncate(1), ("", 0));
}

#[test]
fn zero_width_char_in_middle() {
    // a combining mark stays with the letter before it
    assert_eq!("y\u{0306}es".unicode_truncate(2), ("y\u{0306}e", 2));
}

#[test]
fn keep_zero_width_char_at_boundary() {
    // a zero-width mark at the end is kept
    assert_eq!(
        "y\u{0306}ey\u{0306}s".unicode_truncate(3),
        ("y\u{0306}ey\u{0306}", 3)
    );
}

#[test]
fn family_stays_together() {
    let input = "123\u{1F468}\u{200D}\u{1F469}\u{200D}\u{1F467}\u{200D}\u{1F466}456";
    assert_eq!(input.unicode_truncate(4), ("123", 3));
    assert_eq!(input.unicode_truncate(8), ("123", 3));
    assert_eq!(
        input.unicode_truncate(12),
        ("123\u{1F468}\u{200D}\u{1F469}\u{200D}\u{1F467}\u{200D}\u{1F466}4", 12)
    );
    assert_eq!(input.unicode_truncate(20), (input, 14));
}

#[test]
fn end_keeps_zero_width_unit_after_cut() {
    // U+200B is a cluster of its own, of width zero: it stays after "a"
    assert_eq!("a\u{200B}b".unicode_truncate(1), ("a\u{200B}", 1));
}

#[test]
fn end_zero_budget_drops_leading_zero_width_unit() {
    assert_eq!("\u{200B}a".unicode_truncate(0), ("", 0));
}

#[test]
fn end_largest_budget_keeps_everything() {
    assert_eq!("你好吗".unicode_truncate(usize::MAX), ("你好吗", 6));
}
