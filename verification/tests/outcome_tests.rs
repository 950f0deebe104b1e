use shell_bun::outcome::{aggregate_outcomes, target_label, ExecutionOutcome};

fn outcome(app: &str, action: &str, code: i32) -> ExecutionOutcome {
    ExecutionOutcome::from_status(app.to_string(), action.to_string(), Some(code))
}

#[test]
fn one_failure_among_three_is_counted_and_named() {
    let outcomes = vec![
        outcome("app1", "build", 0),
        outcome("app2", "build", 2),
        outcome("app3", "build", 0),
    ];
    let s = aggregate_outcomes(&outcomes);
    assert_eq!(s.executed, 3);
    assert_eq!(s.succeeded, 2);
    assert_eq!(s.failed, 1);
    assert_eq!(s.failed_labels, vec!["app2 - build"]);
    assert_eq!(s.exit_code(), 1);
    assert!(s.is_multi());
}

#[test]
fn all_successes_exit_zero() {
    let outcomes = vec![outcome("a", "x", 0), outcome("b", "y", 0)];
    let s = aggregate_outcomes(&outcomes);
    assert_eq!((s.succeeded, s.failed), (2, 0));
    assert_eq!(s.exit_code(), 0);
    assert!(s.failed_labels.is_empty());
}

#[test]
fn a_single_target_skips_the_summary_banner() {
    let outcomes = vec![outcome("a", "x", 1)];
    let s = aggregate_outcomes(&outcomes);
    assert!(!s.is_multi());
    assert_eq!(s.exit_code(), 1);
}

#[test]
fn success_is_exactly_exit_code_zero() {
    assert!(outcome("a", "x", 0).success);
    assert!(!outcome("a", "x", 1).success);
    assert!(!outcome("a", "x", -9).success);
}

#[test]
fn signal_termination_counts_as_exit_code_one() {
    let o = ExecutionOutcome::from_status("a".to_string(), "x".to_string(), None);
    assert!(!o.success);
    assert_eq!(o.exit_code, Some(1));
}

#[test]
fn a_task_failure_is_a_failure_without_exit_code() {
    let o = ExecutionOutcome::task_failure("a".to_string(), "x".to_string());
    assert!(!o.success);
    assert!(o.exit_code.is_none());
    let s = aggregate_outcomes(&vec![o]);
    assert_eq!(s.failed, 1);
    assert_eq!(s.failed_labels, vec!["a - x"]);
}

#[test]
fn labels_keep_dispatch_order() {
    let outcomes = vec![
        outcome("b", "z", 1),
        outcome("a", "y", 1),
        outcome("c", "w", 0),
        outcome("a", "x", 3),
    ];
    let s = aggregate_outcomes(&outcomes);
    assert_eq!(s.failed_labels, vec!["b - z", "a - y", "a - x"]);
}

#[test]
fn label_text_is_app_dash_action() {
    assert_eq!(target_label("App One", "build"), "App One - build");
}
