use unicode_truncate::{Alignment, UnicodeTruncateStr};
use unicode_width::UnicodeWidthStr;

const TEXTS: [&str; 7] = [
    "",
    "abc",
    "你好吗你好吗",
    "y\u{0306}ea\u{0306}b\u{0306}",
    "a\u{200B}bcd",
    "123\u{1F468}\u{200D}\u{1F469}\u{200D}\u{1F467}\u{200D}\u{1F466}456",
    "boundaryboundary",
];

const ALIGNS: [Alignment; 3] = [Alignment::Left, Alignment::Center, Alignment::Right];

#[test]
fn reported_width_is_slice_width_and_fits() {
    for text in TEXTS {
        for align in ALIGNS {
            for max in 0..20 {
                let (slice, width) = text.unicode_truncate_aligned(max, align);
                assert!(width <= max);
                assert_eq!(slice.width(), width);
            }
        }
    }
}

#[test]
fn slice_is_contiguous_piece_of_input() {
    for text in TEXTS {
        for align in ALIGNS {
            for max in 0..20 {
                let (slice, _) = text.unicode_truncate_aligned(max, align);
                assert!(text.contains(slice));
            }
        }
    }
}

#[test]
fn fitting_text_is_unchanged() {
    for align in ALIGNS {
        assert_eq!("abc".unicode_truncate_aligned(3, align), ("abc", 3));
        assert_eq!("你好".unicode_truncate_aligned(7, align), ("你好", 4));
    }
}

#[test]
fn zero_budget_gives_empty() {
    for text in TEXTS {
        for align in ALIGNS {
            assert_eq!(text.unicode_truncate_aligned(0, align), ("", 0));
        }
    }
}

#[test]
fn truncating_twice_changes_nothing() {
    for text in TEXTS {
        for align in ALIGNS {
            for max in 0..20 {
                let once = text.unicode_truncate_aligned(max, align);
                let twice = once.0.unicode_truncate_aligned(max, align);
                assert_eq!(once, twice);
            }
        }
    }
}

#[test]
fn family_is_never_split() {
    let family = "\u{1F468}\u{200D}\u{1F469}\u{200D}\u{1F467}\u{200D}\u{1F466}";
    let text = TEXTS[5];
    for align in ALIGNS {
        for max in 0..20 {
            let (slice, width) = text.unicode_truncate_aligned(max, align);
            let has_part = slice.contains('\u{1F468}') || slice.contains('\u{1F466}');
            assert_eq!(has_part, slice.contains(family));
            assert!(!slice.contains(family) || width >= 8);
        }
    }
}
