use unicode_truncate::UnicodeTruncateStr;
use unicode_width::{UnicodeWidthChar, UnicodeWidthStr};

#[test]
fn centered_empty() {
    assert_eq!("".unicode_truncate_centered(4), ("", 0));
}

#[test]
fn centered_zero_width() {
    assert_eq!("ab".unicode_truncate_centered(0), ("", 0));
    assert_eq!("你好".unicode_truncate_centered(0), ("", 0));
}

#[test]
fn centered_less_than_limit() {
    assert_eq!("abc".unicode_truncate_centered(4), ("abc", 3));
    assert_eq!("你".unicode_truncate_centered(4), ("你", 2));
}

#[test]
fn truncate_exactly_one() {
    assert_eq!("abcd".unicode_truncate_centered(3), ("abc", 3));
}

#[test]
fn centered_at_boundary() {
    assert_eq!(
        "boundaryboundary".unicode_truncate_centered(5),
        ("arybo", 5)
    );
    assert_eq!(
        "你好吗你好吗你好吗".unicode_truncate_centered(4),
        ("你好", 4)
    );
}

#[test]
fn centered_not_boundary() {
    assert_eq!("你好吗你好吗".unicode_truncate_centered(3), ("吗", 2));
    assert_eq!("你好吗你好吗".unicode_truncate_centered(1), ("", 0));
}

#[test]
fn centered_zero_width_char_in_middle() {
    assert_eq!(
        "yy\u{0306}es".unicode_truncate_centered(2),
        ("y\u{0306}e", 2)
    );
}

#[test]
fn zero_width_char_at_boundary() {
    // marks at the start cut go with the removed letter, those at the end
    // cut stay with the kept one
    assert_eq!(
        "y\u{0306}ea\u{0306}b\u{0306}y\u{0306}ea\u{0306}b\u{0306}"
            .unicode_truncate_centered(2),
        ("b\u{0306}y\u{0306}", 2)
    );
    assert_eq!(
        "ay\u{0306}ea\u{0306}b\u{0306}y\u{0306}ea\u{0306}b\u{0306}"
            .unicode_truncate_centered(2),
        ("a\u{0306}b\u{0306}", 2)
    );
    assert_eq!(
        "y\u{0306}ea\u{0306}b\u{0306}y\u{0306}ea\u{0306}b\u{0306}a"
            .unicode_truncate_centered(2),
        ("b\u{0306}y\u{0306}", 2)
    );
}

#[test]
fn control_char() {
    assert_eq!("\u{0019}".width(), 1);
    assert_eq!('\u{0019}'.width(), None);
    assert_eq!("\u{0019}".unicode_truncate(2), ("\u{0019}", 1));
}

#[test]
fn centered_family_stays_together() {
    let family = "\u{1F468}\u{200D}\u{1F469}\u{200D}\u{1F467}\u{200D}\u{1F466}";
    let input = "123\u{1F468}\u{200D}\u{1F469}\u{200D}\u{1F467}\u{200D}\u{1F466}456";
    assert_eq!(input.unicode_truncate_centered(4), ("", 0));
    assert_eq!(input.unicode_truncate_centered(8), (family, 8));
    assert_eq!(
        input.unicode_truncate_centered(12),
        ("23\u{1F468}\u{200D}\u{1F469}\u{200D}\u{1F467}\u{200D}\u{1F466}45", 12)
    );
    assert_eq!(input.unicode_truncate_centered(20), (input, 14));
}

#[test]
fn centered_wide_unit_after_one_narrow() {
    // removing the single narrow unit at the start is enough
    let family = "\u{1F468}\u{200D}\u{1F469}\u{200D}\u{1F467}\u{200D}\u{1F466}";
    let input = "a\u{1F468}\u{200D}\u{1F469}\u{200D}\u{1F467}\u{200D}\u{1F466}";
    assert_eq!(input.unicode_truncate_centered(8), (family, 8));
}

#[test]
fn centered_drops_exposed_zero_width_unit() {
    assert_eq!("a\u{200B}bcd".unicode_truncate_centered(2), ("bc", 2));
}

#[test]
fn centered_keeps_zero_width_unit_before_end_cut() {
    assert_eq!("a\u{200B}b".unicode_truncate_centered(1), ("a\u{200B}", 1));
}

#[test]
fn centered_tie_trims_end_first() {
    assert_eq!("abcdef".unicode_truncate_centered(5), ("abcde", 5));
    assert_eq!("abcdef".unicode_truncate_centered(4), ("bcde", 4));
    assert_eq!("abcdef".unicode_truncate_centered(3), ("bcd", 3));
}
