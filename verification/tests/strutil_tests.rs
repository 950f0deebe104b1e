use shell_bun::strutil::{contains_str, split_ws, str_eq, trim_str};

#[test]
fn words_split_at_whitespace_runs() {
    assert_eq!(split_ws("docker exec dev"), vec!["docker", "exec", "dev"]);
    assert_eq!(split_ws("  a \t b\n"), vec!["a", "b"]);
}

#[test]
fn unicode_whitespace_separates_words() {
    assert_eq!(split_ws("a\u{a0}b"), vec!["a", "b"]);
}

#[test]
fn an_empty_or_blank_string_has_no_words() {
    assert!(split_ws("").is_empty());
    assert!(split_ws(" \t ").is_empty());
}

#[test]
fn trimming_strips_unicode_whitespace() {
    assert_eq!(trim_str("\u{a0} x \u{2003}"), "x");
    assert_eq!(trim_str("  "), "");
    assert_eq!(trim_str("x"), "x");
}

#[test]
fn containment_and_equality_behave_exactly() {
    assert!(contains_str("haystack", "sta"));
    assert!(!contains_str("haystack", "stacks"));
    assert!(contains_str("anything", ""));
    assert!(str_eq("same", "same"));
    assert!(!str_eq("same", "sane"));
}
