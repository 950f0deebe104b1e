use shell_bun::config::{Config, ConfigError};

const SAMPLE: &str = "# build environments\n\
log_dir = /var/log/runs\n\
container = docker exec dev\n\
\n\
[App One]\n\
working_dir = ~/src/one\n\
log_dir = /tmp/one-logs\n\
build = make all\n\
test = make check\n\
\n\
[two]\n\
run = ./two.sh\n";

#[test]
fn parses_sections_actions_and_globals() {
    let cfg = Config::parse(SAMPLE).unwrap();
    assert_eq!(cfg.apps.len(), 2);
    assert_eq!(cfg.apps[0].name, "App One");
    assert_eq!(cfg.apps[1].name, "two");
    assert_eq!(cfg.global_log_dir.as_deref(), Some("/var/log/runs"));
    assert_eq!(cfg.global_container.as_deref(), Some("docker exec dev"));
    assert_eq!(cfg.apps[0].working_dir.as_deref(), Some("~/src/one"));
    assert_eq!(cfg.apps[0].log_dir.as_deref(), Some("/tmp/one-logs"));
    assert_eq!(cfg.get_actions("App One"), vec!["build", "test"]);
    assert_eq!(cfg.get_actions("two"), vec!["run"]);
    assert_eq!(cfg.get_command("App One", "build").as_deref(), Some("make all"));
    assert_eq!(cfg.get_command("two", "run").as_deref(), Some("./two.sh"));
}

#[test]
fn reserved_keys_are_not_actions() {
    let cfg = Config::parse("[a]\nworking_dir = /w\nlog_dir = /l\ngo = run\n").unwrap();
    assert_eq!(cfg.get_actions("a"), vec!["go"]);
    assert!(cfg.get_command("a", "working_dir").is_none());
}

#[test]
fn later_duplicate_action_overwrites_in_place() {
    let cfg = Config::parse("[a]\nbuild = one\ntest = t\nbuild = two\n").unwrap();
    assert_eq!(cfg.get_actions("a"), vec!["build", "test"]);
    assert_eq!(cfg.get_command("a", "build").as_deref(), Some("two"));
}

#[test]
fn duplicate_section_reopens_the_same_app() {
    let cfg = Config::parse("[a]\nx = 1\n[b]\ny = 2\n[a]\nz = 3\n").unwrap();
    assert_eq!(cfg.apps.len(), 2);
    assert_eq!(cfg.get_actions("a"), vec!["x", "z"]);
}

#[test]
fn comments_blanks_and_empty_headers_are_skipped() {
    let cfg = Config::parse("# top\n\n[ ]\n[a]\n  # inner\n\ngo = run\n").unwrap();
    assert_eq!(cfg.apps.len(), 1);
    assert_eq!(cfg.apps[0].name, "a");
    assert_eq!(cfg.get_actions("a"), vec!["go"]);
}

#[test]
fn keys_and_values_are_trimmed_and_split_at_first_equals() {
    let cfg = Config::parse("[a]\n  go  =  echo x=y  \n").unwrap();
    assert_eq!(cfg.get_command("a", "go").as_deref(), Some("echo x=y"));
}

#[test]
fn empty_key_lines_are_skipped() {
    let cfg = Config::parse("[a]\n = nothing\ngo = run\n").unwrap();
    assert_eq!(cfg.get_actions("a"), vec!["go"]);
}

#[test]
fn a_text_without_sections_is_rejected() {
    assert!(matches!(
        Config::parse("log_dir = /l\n# only globals\n"),
        Err(ConfigError::NoApplications)
    ));
    assert!(matches!(Config::parse(""), Err(ConfigError::NoApplications)));
}

#[test]
fn unknown_lookups_are_empty() {
    let cfg = Config::parse("[a]\ngo = run\n").unwrap();
    assert!(cfg.get_actions("missing").is_empty());
    assert!(cfg.get_command("a", "missing").is_none());
    assert!(cfg.get_command("missing", "go").is_none());
    assert!(cfg.working_dir_of("a").is_none());
    assert!(cfg.log_dir_of("missing").is_none());
}

#[test]
fn app_names_come_in_declaration_order() {
    let cfg = Config::parse("[z]\na = 1\n[m]\nb = 2\n[a]\nc = 3\n").unwrap();
    assert_eq!(cfg.app_names(), vec!["z", "m", "a"]);
}
