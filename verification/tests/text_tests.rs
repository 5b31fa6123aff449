use word_trainer::text::{push_decimal, push_signed_decimal, remove_spaces};

#[test]
fn remove_spaces_drops_all_unicode_white_space() {
    assert_eq!(remove_spaces(" при вет\t\n"), "привет");
    assert_eq!(remove_spaces("a\u{00A0}b\u{3000}c\u{2009}d"), "abcd");
    assert_eq!(remove_spaces("   "), "");
    assert_eq!(remove_spaces(""), "");
}

#[test]
fn remove_spaces_twice_is_once() {
    let once = remove_spaces(" a b  c ");
    assert_eq!(remove_spaces(&once), once);
}

#[test]
fn decimals_are_rendered_like_display() {
    for n in [0u64, 7, 10, 42, 1000, u64::MAX] {
        let mut s = String::from("x");
        push_decimal(&mut s, n);
        assert_eq!(s, format!("x{}", n));
    }
    for n in [0i64, -1, -42, 15, i64::MIN, i64::MAX] {
        let mut s = String::new();
        push_signed_decimal(&mut s, n);
        assert_eq!(s, n.to_string());
    }
}
