use wikigraph::utils::sanitize_string;

#[test]
fn trims_replaces_and_lowercases() {
    assert_eq!(sanitize_string(" Foo_Bar\n"), "foo bar");
}

#[test]
fn strips_one_leading_colon() {
    assert_eq!(sanitize_string(":Category"), "category");
    assert_eq!(sanitize_string("::Twice"), ":twice");
}

#[test]
fn windows_newline_becomes_one_space() {
    assert_eq!(sanitize_string("a\r\nb"), "a b");
    assert_eq!(sanitize_string("a\nb"), "a b");
}

#[test]
fn underscores_become_spaces() {
    assert_eq!(sanitize_string("New_York_City"), "new york city");
}

#[test]
fn empty_and_whitespace_only() {
    assert_eq!(sanitize_string(""), "");
    assert_eq!(sanitize_string("  \t \n "), "");
}

#[test]
fn already_canonical_is_unchanged() {
    assert_eq!(sanitize_string("plain title"), "plain title");
}

#[test]
fn unicode_lowercasing() {
    assert_eq!(sanitize_string("Österreich"), "österreich");
}
