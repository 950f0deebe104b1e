use shell_bun::matcher::{match_actions_fuzzy, match_apps_fuzzy};

fn names(v: &[&str]) -> Vec<String> {
    v.iter().map(|s| s.to_string()).collect()
}

#[test]
fn exact_names_in_first_occurrence_order() {
    let apps = names(&["alpha", "beta", "gamma"]);
    let matched = match_apps_fuzzy(&apps, "beta,alpha,beta");
    assert_eq!(matched, names(&["beta", "alpha"]));
}

#[test]
fn exact_single_name() {
    let apps = names(&["alpha", "beta"]);
    let matched = match_apps_fuzzy(&apps, "alpha");
    assert_eq!(matched, names(&["alpha"]));
}

#[test]
fn comma_pieces_are_trimmed() {
    let apps = names(&["alpha", "beta"]);
    let matched = match_apps_fuzzy(&apps, "  beta ,\talpha ");
    assert_eq!(matched, names(&["beta", "alpha"]));
}

#[test]
fn glob_agrees_with_reference_matcher() {
    let apps = names(&["build-ui", "build-api", "docs", "deploy-ui"]);
    for pattern in ["build-*", "*-ui", "d*s", "*ploy*", "z*", "d?cs", "build-?pi", "[bd]*"] {
        let matched = match_apps_fuzzy(&apps, pattern);
        let reference = glob::Pattern::new(pattern).unwrap();
        let mut expected: Vec<String> = apps
            .iter()
            .filter(|a| reference.matches(a))
            .cloned()
            .collect();
        let mut got = matched.clone();
        got.sort();
        expected.sort();
        assert_eq!(got, expected, "pattern {}", pattern);
    }
}

#[test]
fn question_mark_is_a_glob_wildcard() {
    let apps = names(&["ab", "abc", "xb"]);
    let matched = match_apps_fuzzy(&apps, "a?");
    assert_eq!(matched, names(&["ab"]));
}

#[test]
fn bracket_class_is_a_glob_wildcard() {
    let apps = names(&["ab", "bb", "cb"]);
    let matched = match_apps_fuzzy(&apps, "[ab]b");
    assert_eq!(matched, names(&["ab", "bb"]));
}

#[test]
fn action_glob_with_question_mark_matches() {
    let actions = names(&["ab", "abc"]);
    let matched = match_actions_fuzzy(&actions, "a?");
    assert_eq!(matched, names(&["ab"]));
}

#[test]
fn invalid_glob_matches_nothing_by_rule_two() {
    let apps = names(&["bracket"]);
    // An unclosed bracket does not parse as a glob; the substring rule
    // still applies and finds nothing here.
    let matched = match_apps_fuzzy(&apps, "[*");
    assert!(matched.is_empty());
}

#[test]
fn uppercase_pattern_matches_lowercase_name() {
    let apps = names(&["build-api"]);
    let matched = match_apps_fuzzy(&apps, "API");
    assert_eq!(matched, names(&["build-api"]));
}

#[test]
fn case_folding_covers_unicode() {
    let apps = names(&["\u{c9}p\u{e9}e"]);
    let matched = match_apps_fuzzy(&apps, "\u{e9}p\u{e9}e");
    assert_eq!(matched, apps);
}

#[test]
fn unicode_whitespace_is_trimmed_from_patterns() {
    let apps = names(&["alpha"]);
    let matched = match_apps_fuzzy(&apps, "\u{a0}alpha\u{a0}");
    assert_eq!(matched, names(&["alpha"]));
}

#[test]
fn substring_is_case_insensitive() {
    let apps = names(&["Build-UI", "api"]);
    let matched = match_apps_fuzzy(&apps, "ui");
    assert_eq!(matched, names(&["Build-UI"]));
}

#[test]
fn substring_does_not_invent_matches() {
    let apps = names(&["api"]);
    let matched = match_apps_fuzzy(&apps, "ui");
    assert!(matched.is_empty());
}

#[test]
fn action_pattern_all_selects_every_action() {
    let actions = names(&["build", "test", "Run All", "x*y"]);
    let matched = match_actions_fuzzy(&actions, "all");
    assert_eq!(matched, actions);
}

#[test]
fn action_pattern_all_is_case_sensitive() {
    let actions = names(&["install"]);
    // `All` is not the literal short-circuit; it falls back to the three
    // matching rules and matches `install` by substring only if present.
    let matched = match_actions_fuzzy(&actions, "All");
    assert_eq!(matched, names(&["install"]));
    let none = match_actions_fuzzy(&names(&["build"]), "All");
    assert!(none.is_empty());
}

#[test]
fn matching_is_idempotent() {
    let apps = names(&["Build-UI", "build-api", "docs"]);
    let first = match_apps_fuzzy(&apps, "build*,docs,ui");
    let second = match_apps_fuzzy(&apps, "build*,docs,ui");
    assert_eq!(first, second);
}
