use shell_bun::command::{
    build_container_inner, build_full_command, build_tee_command, expand_path,
    resolve_working_dir, shell_escape, validate_log_file, validate_working_dir, ExecError,
};

#[test]
fn escape_wraps_in_single_quotes() {
    assert_eq!(shell_escape("abc"), "'abc'");
    assert_eq!(shell_escape(""), "''");
}

#[test]
fn escape_round_trips_a_single_quote() {
    // `it's` becomes `'it'\''s'`: close, escaped quote, reopen.
    assert_eq!(shell_escape("it's"), "'it'\\''s'");
    assert_eq!(shell_escape("''"), "''\\'''\\'''");
}

#[test]
fn host_command_is_quoted_for_bash() {
    let built = build_full_command("make all && echo done", Some("/w"), None);
    assert_eq!(built, "bash -c 'make all && echo done'");
}

#[test]
fn container_command_wraps_a_login_shell() {
    let built = build_full_command("make", Some("/srv/app"), Some("docker exec dev"));
    assert_eq!(built, "docker exec dev bash -lc \"cd '/srv/app' && make\"");
    let built_no_dir = build_full_command("make", None, Some("docker exec dev"));
    assert_eq!(built_no_dir, "docker exec dev bash -lc \"make\"");
}

#[test]
fn container_inner_command_changes_directory_first() {
    assert_eq!(build_container_inner("make", Some("/srv/a b")), "cd '/srv/a b' && make");
    assert_eq!(build_container_inner("make", None), "make");
}

#[test]
fn tee_command_folds_stderr_and_quotes_the_log() {
    assert_eq!(
        build_tee_command("make", "/logs/x.log"),
        "make 2>&1 | tee '/logs/x.log'"
    );
}

#[test]
fn tilde_expands_to_home() {
    let home = "/home/user".to_string();
    assert_eq!(expand_path("~/src", "/opt/bin", Some(&home)), "/home/user/src");
    assert_eq!(expand_path("~", "/opt/bin", Some(&home)), "/home/user");
}

#[test]
fn tilde_without_home_stays_verbatim_and_resolves_relatively() {
    assert_eq!(expand_path("~x", "/opt/bin", None), "/opt/bin/~x");
}

#[test]
fn absolute_paths_pass_through_and_relative_ones_join() {
    let home = "/home/user".to_string();
    assert_eq!(expand_path("/abs/path", "/opt/bin", Some(&home)), "/abs/path");
    assert_eq!(expand_path("rel/path", "/opt/bin", Some(&home)), "/opt/bin/rel/path");
    assert_eq!(expand_path("rel", "/opt/bin/", Some(&home)), "/opt/bin/rel");
}

#[test]
fn host_mode_defaults_to_the_script_directory() {
    let r = resolve_working_dir(None, false, "/opt/bin", None);
    assert_eq!(r.as_deref(), Some("/opt/bin"));
}

#[test]
fn container_mode_has_no_default_directory() {
    let r = resolve_working_dir(None, true, "/opt/bin", None);
    assert!(r.is_none());
}

#[test]
fn missing_directory_fails_before_spawning_on_the_host() {
    assert!(matches!(
        validate_working_dir(false, false),
        Err(ExecError::WorkingDirectoryNotFound)
    ));
    assert!(validate_working_dir(false, true).is_ok());
}

#[test]
fn an_uncreatable_log_file_fails_the_launch() {
    assert!(matches!(validate_log_file(false), Err(ExecError::LogFileCreateError)));
    assert!(validate_log_file(true).is_ok());
}

#[test]
fn container_mode_never_validates_against_the_host() {
    assert!(validate_working_dir(true, false).is_ok());
    assert!(validate_working_dir(true, true).is_ok());
}
