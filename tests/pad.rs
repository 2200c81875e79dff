use unicode_truncate::{Alignment, UnicodeTruncateStr};
use unicode_width::UnicodeWidthStr;

#[test]
fn pad_zero_width() {
    assert_eq!("你好".unicode_pad(0, Alignment::Left, true), "");
    assert_eq!("你好".unicode_pad(0, Alignment::Left, false), "你好");
}

#[test]
fn pad_less_than_limit() {
    assert_eq!("你".unicode_pad(4, Alignment::Left, true), "你  ");
    assert_eq!("你".unicode_pad(4, Alignment::Left, false), "你  ");
}

#[test]
fn width_at_boundary() {
    assert_eq!("你好吗".unicode_pad(4, Alignment::Left, true), "你好");
    assert_eq!("你好吗".unicode_pad(4, Alignment::Left, false), "你好吗");
}

#[test]
fn width_not_boundary() {
    // above the limit, wide characters not at the boundary
    assert_eq!("你好吗".unicode_pad(3, Alignment::Left, true), "你 ");
    assert_eq!("你好吗".unicode_pad(1, Alignment::Left, true), " ");
    assert_eq!("你好吗".unicode_pad(3, Alignment::Left, false), "你好吗");

    // padding truncates by the same alignment that places the spaces
    assert_eq!("你好吗".unicode_pad(3, Alignment::Center, true), "好 ");

    assert_eq!("你好吗".unicode_pad(3, Alignment::Right, true), " 吗");
}

#[test]
fn pad_center_odd_difference_puts_extra_space_right() {
    assert_eq!("a".unicode_pad(4, Alignment::Center, true), " a  ");
    assert_eq!("ab".unicode_pad(4, Alignment::Center, false), " ab ");
}

#[test]
fn pad_right_fills_left() {
    assert_eq!("ab".unicode_pad(4, Alignment::Right, true), "  ab");
}

#[test]
fn pad_exact_width_is_unchanged() {
    assert_eq!("你好".unicode_pad(4, Alignment::Center, true), "你好");
}

#[test]
fn pad_with_truncation_fills_target_exactly() {
    let texts = ["", "a", "你好吗", "y\u{0306}ey\u{0306}s", "boundaryboundary"];
    let aligns = [Alignment::Left, Alignment::Center, Alignment::Right];
    for text in texts {
        for align in aligns {
            for target in 0..10 {
                let padded = text.unicode_pad(target, align, true);
                assert_eq!(padded.width(), target);
            }
        }
    }
}

#[test]
fn pad_borrows_exactly_when_nothing_is_added() {
    assert!(matches!(
        "你好吗".unicode_pad(3, Alignment::Left, false),
        std::borrow::Cow::Borrowed("你好吗")
    ));
    assert!(matches!(
        "你好吗".unicode_pad(4, Alignment::Left, true),
        std::borrow::Cow::Borrowed("你好")
    ));
    assert!(matches!(
        "你好吗".unicode_pad(3, Alignment::Left, true),
        std::borrow::Cow::Owned(_)
    ));
    assert!(matches!("ab".unicode_pad(4, Alignment::Center, false), std::borrow::Cow::Owned(_)));
}
