use soymilk_curry::text::{characters, decimal_text, replace_all};

#[test]
fn replaces_from_the_left_without_overlap() {
    assert_eq!(replace_all("aaaaa", "aa", "b"), "bba");
    assert_eq!(replace_all("ababa", "aba", "<aba>"), "<aba>ba");
    assert_eq!(replace_all("none", "x", "y"), "none");
    assert_eq!(replace_all("", "x", "y"), "");
    assert_eq!(replace_all("xx", "x", ""), "");
}

#[test]
fn replaces_as_the_standard_library_does() {
    for (text, pattern, with) in [
        ("a<b><b>c<b", "<b>", "<b>"),
        ("\u{65e5}\u{672c}\u{65e5}", "\u{65e5}", "\u{e9}"),
        ("<<a>>", "<a>", "x"),
    ] {
        assert_eq!(replace_all(text, pattern, with), text.replace(pattern, with));
    }
}

#[test]
fn writes_decimal_numerals() {
    for n in [0u64, 7, 9, 10, 99, 100, 1024, 40772, u64::MAX] {
        assert_eq!(decimal_text(n), n.to_string());
    }
}

#[test]
fn splits_text_into_characters() {
    assert_eq!(characters("a\u{e9}\u{1f600}"), vec!['a', '\u{e9}', '\u{1f600}']);
}
