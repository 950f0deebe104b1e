use shell_bun::logger::{ExecutionStatus, Logger};

#[test]
fn app_log_dir_takes_precedence() {
    let app_dir = "/app/logs".to_string();
    let global_dir = "/global/logs".to_string();
    let p = Logger::generate_log_path(
        "a",
        "x",
        Some(&global_dir),
        Some(&app_dir),
        "/opt/bin",
        None,
        "20240101_120000",
        true,
    );
    assert_eq!(p, "/app/logs/20240101_120000_a_x.log");
}

#[test]
fn global_log_dir_is_the_second_choice() {
    let global_dir = "/global/logs".to_string();
    let p = Logger::generate_log_path(
        "a", "x", Some(&global_dir), None, "/opt/bin", None, "20240101_120000", true,
    );
    assert_eq!(p, "/global/logs/20240101_120000_a_x.log");
}

#[test]
fn the_default_is_a_logs_directory_beside_the_executable() {
    let p = Logger::generate_log_path("a", "x", None, None, "/opt/bin", None, "t", true);
    assert_eq!(p, "/opt/bin/logs/t_a_x.log");
}

#[test]
fn an_uncreatable_directory_degrades_to_the_script_directory() {
    let global_dir = "/global/logs".to_string();
    let p = Logger::generate_log_path(
        "a", "x", Some(&global_dir), None, "/opt/bin", None, "t", false,
    );
    assert_eq!(p, "/opt/bin/t_a_x.log");
}

#[test]
fn relative_log_dirs_resolve_against_the_executable() {
    let app_dir = "runs".to_string();
    let home = "/home/u".to_string();
    let p = Logger::generate_log_path(
        "a", "x", None, Some(&app_dir), "/opt/bin", Some(&home), "t", true,
    );
    assert_eq!(p, "/opt/bin/runs/t_a_x.log");
    let tilde_dir = "~/runs".to_string();
    let q = Logger::generate_log_path(
        "a", "x", None, Some(&tilde_dir), "/opt/bin", Some(&home), "t", true,
    );
    assert_eq!(q, "/home/u/runs/t_a_x.log");
}

#[test]
fn distinct_timestamps_give_distinct_files() {
    let p1 = Logger::generate_log_path("a", "x", None, None, "/opt", None, "20240101_120000", true);
    let p2 = Logger::generate_log_path("a", "x", None, None, "/opt", None, "20240101_120001", true);
    assert_ne!(p1, p2);
}

#[test]
fn a_repeated_timestamp_names_the_same_file() {
    let p1 = Logger::generate_log_path("a", "x", None, None, "/opt", None, "20240101_120000", true);
    let p2 = Logger::generate_log_path("a", "x", None, None, "/opt", None, "20240101_120000", true);
    assert_eq!(p1, p2);
}

#[test]
fn status_lines_name_the_target() {
    let start = Logger::status_line("a", "x", ExecutionStatus::Start, Some("bash -c 'm'"));
    assert!(start.contains("Starting: a - x"));
    assert!(start.contains("bash -c 'm'"));
    let done = Logger::status_line("a", "x", ExecutionStatus::Success, None);
    assert!(done.contains("Completed: a - x"));
    let failed = Logger::status_line("a", "x", ExecutionStatus::Error, None);
    assert!(failed.contains("Failed: a - x"));
}
