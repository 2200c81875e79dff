use unicode_truncate::{Alignment, UnicodeTruncateStr};

#[test]
fn integration_main() {
    assert_eq!("你好吗".unicode_truncate(5), ("你好", 4));
    assert_eq!("你好吗".unicode_truncate_start(5), ("好吗", 4));

    assert_eq!("你好吗".unicode_pad(5, Alignment::Left, true), "你好 ");
}

#[test]
fn no_std_main() {
    let (rv, w) = "你好吗".unicode_truncate(5);
    assert_eq!(rv, "你好");
    assert_eq!(w, 4);
}

#[test]
fn truncate_aligned() {
    assert_eq!("abc".unicode_truncate_aligned(1, Alignment::Left), ("a", 1));
    assert_eq!(
        "abc".unicode_truncate_aligned(1, Alignment::Center),
        ("b", 1)
    );
    assert_eq!(
        "abc".unicode_truncate_aligned(1, Alignment::Right),
        ("c", 1)
    );
}
