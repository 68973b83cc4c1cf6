use cntryl_tools::text::{trim, words};

#[test]
fn should_trim_what_the_standard_library_trims() {
    for c in '\u{0}'..=char::MAX {
        assert_eq!(trim(&c.to_string()).is_empty(), c.is_whitespace());
    }
    assert_eq!(trim("\u{3000} a\u{a0}b \n"), "a\u{a0}b");
}

#[test]
fn should_split_words_at_spaces() {
    assert_eq!(words(" a  b "), vec!["a".to_string(), "b".to_string()]);
}
