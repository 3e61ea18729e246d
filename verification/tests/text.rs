use cargo_install_update::text::{join, number, text_order, text_precedes};
use std::cmp::Ordering;

#[test]
fn text_is_ordered_like_std_strings() {
    let texts = ["", "a", "a-b", "ab", "b", "cargo", "cargo-update", "\u{e9}", "\u{1f980}"];
    for a in texts.iter() {
        for b in texts.iter() {
            assert_eq!(text_order(a, b), a.cmp(b));
            assert_eq!(text_precedes(a, b), a < b);
        }
    }
}

#[test]
fn text_order_is_transitive_on_prefixes() {
    assert_eq!(text_order("", "a"), Ordering::Less);
    assert_eq!(text_order("a", "aa"), Ordering::Less);
    assert_eq!(text_order("", "aa"), Ordering::Less);
    assert_eq!(text_order("aa", ""), Ordering::Greater);
}

#[test]
fn numbers_are_written_in_decimal() {
    assert_eq!(number(0), "0");
    assert_eq!(number(9), "9");
    assert_eq!(number(10), "10");
    assert_eq!(number(4096), "4096");
    assert_eq!(number(usize::MAX), usize::MAX.to_string());
}

#[test]
fn names_are_joined_with_commas() {
    assert_eq!(join(&vec![]), "");
    assert_eq!(join(&vec!["a".to_string()]), "a");
    assert_eq!(join(&vec!["a".to_string(), "b".to_string(), "c".to_string()]), "a, b, c");
}
