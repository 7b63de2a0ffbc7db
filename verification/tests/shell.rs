use soymilk_curry::shell::shell_quote;

#[test]
fn quotes_a_plain_value() {
    assert_eq!(shell_quote("GR"), "'GR'");
}

#[test]
fn quotes_an_empty_value() {
    assert_eq!(shell_quote(""), "''");
}

#[test]
fn escapes_quotation_marks() {
    assert_eq!(shell_quote("a'b"), "'a'\"'\"'b'");
    assert_eq!(shell_quote("''"), "''\"'\"''\"'\"''");
}

#[test]
fn leaves_other_special_characters_alone() {
    assert_eq!(shell_quote("$HOME `id` \\ \" \u{65e5}"), "'$HOME `id` \\ \" \u{65e5}'");
}
