use shell_bun::config::Config;
use shell_bun::resolve::{resolve_targets, ResolveError};

fn sample() -> Config {
    Config::parse(
        "[Build-UI]\nbuild = make ui\ntest = make ui-test\n[api]\nbuild = make api\n[docs]\nrender = mkdocs\n",
    )
    .unwrap()
}

fn pairs(r: &shell_bun::resolve::Resolution) -> Vec<(String, String)> {
    r.targets.iter().map(|t| (t.app.clone(), t.action.clone())).collect()
}

#[test]
fn resolves_exact_app_and_action() {
    let cfg = sample();
    let res = resolve_targets(&cfg, "api", "build").unwrap();
    assert_eq!(res.matched_apps, vec!["api"]);
    assert_eq!(pairs(&res), vec![("api".to_string(), "build".to_string())]);
    assert!(res.apps_without_actions.is_empty());
}

#[test]
fn pattern_all_selects_every_action_of_every_matched_app() {
    let cfg = sample();
    let res = resolve_targets(&cfg, "Build*,api", "all").unwrap();
    assert_eq!(res.matched_apps, vec!["Build-UI", "api"]);
    assert_eq!(
        pairs(&res),
        vec![
            ("Build-UI".to_string(), "build".to_string()),
            ("Build-UI".to_string(), "test".to_string()),
            ("api".to_string(), "build".to_string()),
        ]
    );
}

#[test]
fn no_matching_application_is_an_error() {
    let cfg = sample();
    assert!(matches!(
        resolve_targets(&cfg, "nothing-here", "all"),
        Err(ResolveError::NoApplicationsMatched)
    ));
}

#[test]
fn no_matching_action_anywhere_is_an_error() {
    let cfg = sample();
    assert!(matches!(
        resolve_targets(&cfg, "api,docs", "deploy"),
        Err(ResolveError::NoActionsMatched)
    ));
}

#[test]
fn an_app_without_matching_actions_is_warned_not_fatal() {
    let cfg = sample();
    let res = resolve_targets(&cfg, "api,docs", "build").unwrap();
    assert_eq!(res.matched_apps, vec!["api", "docs"]);
    assert_eq!(pairs(&res), vec![("api".to_string(), "build".to_string())]);
    assert_eq!(res.apps_without_actions, vec!["docs"]);
}

#[test]
fn resolution_is_idempotent() {
    let cfg = sample();
    let first = resolve_targets(&cfg, "Build*,docs", "all").unwrap();
    let second = resolve_targets(&cfg, "Build*,docs", "all").unwrap();
    assert_eq!(first.matched_apps, second.matched_apps);
    assert_eq!(pairs(&first), pairs(&second));
    assert_eq!(first.apps_without_actions, second.apps_without_actions);
}
