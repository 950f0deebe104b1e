use shell_bun::config::Config;
use shell_bun::menu::{build_menu, App, KeyInput, MenuItem, UiAction};

fn sample_app() -> App {
    let cfg = Config::parse("[Build-UI]\nbuild = make ui\ntest = make t\n[api]\nrun = ./r\n")
        .unwrap();
    App::new(build_menu(&cfg))
}

fn item_text(it: &MenuItem) -> String {
    match it {
        MenuItem::Action { app, action } => format!("{} - {}", app, action),
        MenuItem::ShowDetails { app } => format!("{} - Show Details", app),
    }
}

#[test]
fn the_menu_lists_actions_then_details_per_app() {
    let app = sample_app();
    let texts: Vec<String> = app.menu_items.iter().map(item_text).collect();
    assert_eq!(
        texts,
        vec![
            "Build-UI - build",
            "Build-UI - test",
            "Build-UI - Show Details",
            "api - run",
            "api - Show Details",
        ]
    );
    // No filter: every entry is visible.
    assert_eq!(app.filtered_items, vec![0, 1, 2, 3, 4]);
    assert_eq!(app.selected_index, 0);
}

#[test]
fn typing_filters_case_insensitively_and_resets_the_cursor() {
    let mut app = sample_app();
    app.handle_key(KeyInput::Down);
    app.handle_key(KeyInput::Down);
    assert_eq!(app.selected_index, 2);
    app.handle_key(KeyInput::Typed('U'));
    app.handle_key(KeyInput::Typed('i'));
    assert_eq!(app.filter, "Ui");
    // `Ui` matches the three Build-UI rows (via `Build-UI`), none of api's.
    assert_eq!(app.filtered_items, vec![0, 1, 2]);
    assert_eq!(app.selected_index, 0);
}

#[test]
fn backspace_and_delete_edit_the_filter() {
    let mut app = sample_app();
    app.handle_key(KeyInput::Typed('r'));
    app.handle_key(KeyInput::Typed('u'));
    app.handle_key(KeyInput::Typed('n'));
    assert_eq!(app.filtered_items, vec![3]);
    app.handle_key(KeyInput::Backspace);
    assert_eq!(app.filter, "ru");
    app.handle_key(KeyInput::Delete);
    assert_eq!(app.filter, "");
    assert_eq!(app.filtered_items.len(), 5);
}

#[test]
fn navigation_stays_inside_the_filtered_list() {
    let mut app = sample_app();
    app.handle_key(KeyInput::Up);
    assert_eq!(app.selected_index, 0);
    app.handle_key(KeyInput::PageDown);
    assert_eq!(app.selected_index, 4);
    app.handle_key(KeyInput::Down);
    assert_eq!(app.selected_index, 4);
    app.handle_key(KeyInput::PageUp);
    assert_eq!(app.selected_index, 0);
}

#[test]
fn escape_quits() {
    let mut app = sample_app();
    assert!(matches!(app.handle_key(KeyInput::Esc), UiAction::Quit));
}

#[test]
fn enter_on_an_action_runs_it() {
    let mut app = sample_app();
    app.handle_key(KeyInput::Down);
    match app.handle_key(KeyInput::Enter) {
        UiAction::RunSingle { app: a, action } => {
            assert_eq!(a, "Build-UI");
            assert_eq!(action, "test");
        },
        other => panic!("unexpected action {:?}", other),
    }
}

#[test]
fn enter_on_a_details_row_inspects() {
    let mut app = sample_app();
    app.handle_key(KeyInput::PageDown);
    match app.handle_key(KeyInput::Enter) {
        UiAction::Inspect { app: a } => assert_eq!(a, "api"),
        other => panic!("unexpected action {:?}", other),
    }
}

#[test]
fn space_toggles_only_action_rows() {
    let mut app = sample_app();
    app.handle_key(KeyInput::Typed(' '));
    assert_eq!(app.selected_items, vec![0]);
    app.handle_key(KeyInput::Typed(' '));
    assert!(app.selected_items.is_empty());
    // Move onto the details row: space there selects nothing.
    app.handle_key(KeyInput::Down);
    app.handle_key(KeyInput::Down);
    app.handle_key(KeyInput::Typed(' '));
    assert!(app.selected_items.is_empty());
}

#[test]
fn plus_and_minus_select_and_deselect_everything_visible() {
    let mut app = sample_app();
    app.handle_key(KeyInput::Typed('+'));
    assert_eq!(app.selected_items, vec![0, 1, 2, 3, 4]);
    app.handle_key(KeyInput::Typed('-'));
    assert!(app.selected_items.is_empty());
}

#[test]
fn enter_with_a_selection_runs_the_batch() {
    let mut app = sample_app();
    app.handle_key(KeyInput::Typed(' '));
    assert!(matches!(app.handle_key(KeyInput::Enter), UiAction::RunSelected));
}

#[test]
fn selected_targets_keep_selection_order_and_skip_details_rows() {
    let mut app = sample_app();
    app.handle_key(KeyInput::Typed('+'));
    let targets: Vec<(String, String)> = app
        .selected_targets()
        .iter()
        .map(|t| (t.app.clone(), t.action.clone()))
        .collect();
    assert_eq!(
        targets,
        vec![
            ("Build-UI".to_string(), "build".to_string()),
            ("Build-UI".to_string(), "test".to_string()),
            ("api".to_string(), "run".to_string()),
        ]
    );
}

#[test]
fn is_selected_reports_membership() {
    let mut app = sample_app();
    assert!(!app.is_selected(0));
    app.toggle_selection(0);
    assert!(app.is_selected(0));
    app.toggle_selection(0);
    assert!(!app.is_selected(0));
}
