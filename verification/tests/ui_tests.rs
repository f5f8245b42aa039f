use web_watcher_alert::config::Config;
use web_watcher_alert::ui::{
    keywords_from_input, parse_interval_input, service_running_from_status, InputKey, Screen,
    UiAction, UiState,
};
use web_watcher_alert::watcher::Watcher;

fn fresh_ui() -> UiState {
    UiState::new(Config::new())
}

fn type_text(ui: &mut UiState, text: &str) {
    for c in text.chars() {
        ui.handle_input(InputKey::Char(c));
    }
}

#[test]
fn keyword_entry_splits_on_commas_and_trims() {
    assert_eq!(
        keywords_from_input(" rust , verus ,,  "),
        vec!["rust".to_string(), "verus".to_string()]
    );
    assert!(keywords_from_input("").is_empty());
    assert!(keywords_from_input(" , ,").is_empty());
}

#[test]
fn interval_entry_reads_minutes_with_a_default() {
    assert_eq!(parse_interval_input("2"), 120);
    assert_eq!(parse_interval_input("30"), 1800);
    assert_eq!(parse_interval_input(""), 1800);
    assert_eq!(parse_interval_input("0"), 1800);
    assert_eq!(parse_interval_input("99999999999999999999"), 1800);
}

#[test]
fn menu_navigation_wraps_both_ways() {
    let mut ui = fresh_ui();
    assert_eq!(ui.menu_selected, 0);
    ui.handle_input(InputKey::Up);
    assert_eq!(ui.menu_selected, 4);
    ui.handle_input(InputKey::Down);
    assert_eq!(ui.menu_selected, 0);
    ui.handle_input(InputKey::Char('j'));
    assert_eq!(ui.menu_selected, 1);
    ui.handle_input(InputKey::Char('k'));
    assert_eq!(ui.menu_selected, 0);
}

#[test]
fn quitting_and_monitoring_leave_the_surface() {
    let mut ui = fresh_ui();
    let (exit, _) = ui.handle_input(InputKey::Char('q'));
    assert!(exit);
    let mut ui = fresh_ui();
    let (exit, action) = ui.handle_input(InputKey::Char('3'));
    assert!(exit);
    assert!(matches!(action, UiAction::StartMonitoring));
}

#[test]
fn adding_a_watcher_through_the_form() {
    let mut ui = fresh_ui();
    ui.handle_input(InputKey::Char('1'));
    assert!(matches!(ui.screen, Screen::AddWatcher));
    type_text(&mut ui, "http://example.com");
    ui.handle_input(InputKey::Tab);
    type_text(&mut ui, "rust, verus");
    ui.handle_input(InputKey::Tab);
    ui.handle_input(InputKey::Backspace);
    ui.handle_input(InputKey::Backspace);
    type_text(&mut ui, "2x");
    assert_eq!(ui.interval_input, "2");
    let (exit, action) = ui.handle_input(InputKey::Enter);
    assert!(!exit);
    assert!(matches!(action, UiAction::Persist));
    assert!(matches!(ui.screen, Screen::MainMenu));
    assert_eq!(ui.config.watchers.len(), 1);
    let w = &ui.config.watchers[0];
    assert_eq!(w.url, "http://example.com");
    assert_eq!(w.keywords, vec!["rust".to_string(), "verus".to_string()]);
    assert_eq!(w.check_interval, 120);
    assert!(w.enabled);
    assert_eq!(ui.url_input, "");
    assert_eq!(ui.interval_input, "30");
}

#[test]
fn an_empty_form_is_not_saved() {
    let mut ui = fresh_ui();
    ui.handle_input(InputKey::Char('1'));
    let (_, action) = ui.handle_input(InputKey::Enter);
    assert!(matches!(action, UiAction::Idle));
    assert!(ui.config.watchers.is_empty());
    assert!(matches!(ui.screen, Screen::AddWatcher));
}

#[test]
fn toggling_and_deleting_from_the_list() {
    let mut ui = fresh_ui();
    ui.config.add_watcher(Watcher::new("http://a".to_string(), vec!["k".to_string()], 60));
    ui.config.add_watcher(Watcher::new("http://b".to_string(), vec!["k".to_string()], 60));
    ui.handle_input(InputKey::Char('2'));
    assert!(matches!(ui.screen, Screen::ListWatchers));
    assert_eq!(ui.list_selected, Some(0));
    let (_, action) = ui.handle_input(InputKey::Char('t'));
    assert!(matches!(action, UiAction::Persist));
    assert!(!ui.config.watchers[0].enabled);
    ui.handle_input(InputKey::Down);
    assert_eq!(ui.list_selected, Some(1));
    let (_, action) = ui.handle_input(InputKey::Char('d'));
    assert!(matches!(action, UiAction::Persist));
    assert_eq!(ui.config.watchers.len(), 1);
    assert_eq!(ui.config.watchers[0].url, "http://a");
    assert_eq!(ui.list_selected, Some(0));
}

#[test]
fn editing_a_watcher_through_the_form() {
    let mut ui = fresh_ui();
    ui.config.add_watcher(Watcher::new(
        "http://old".to_string(),
        vec!["one".to_string(), "two".to_string()],
        120,
    ));
    let id = ui.config.watchers[0].id.clone();
    ui.handle_input(InputKey::Char('2'));
    ui.handle_input(InputKey::Char('e'));
    assert!(matches!(ui.screen, Screen::EditWatcher(0)));
    assert_eq!(ui.url_input, "http://old");
    assert_eq!(ui.keywords_input, "one, two");
    assert_eq!(ui.interval_input, "2");
    type_text(&mut ui, "/x");
    ui.handle_input(InputKey::Tab);
    type_text(&mut ui, ", three");
    let (_, action) = ui.handle_input(InputKey::Enter);
    assert!(matches!(action, UiAction::Persist));
    assert!(matches!(ui.screen, Screen::ListWatchers));
    let w = &ui.config.watchers[0];
    assert_eq!(w.url, "http://old/x");
    assert_eq!(
        w.keywords,
        vec!["one".to_string(), "two".to_string(), "three".to_string()]
    );
    assert_eq!(w.check_interval, 120);
    assert_eq!(w.id, id);
}

#[test]
fn service_screen_requests_the_right_effects() {
    let mut ui = fresh_ui();
    let (_, action) = ui.handle_input(InputKey::Char('4'));
    assert!(matches!(action, UiAction::RefreshServiceStatus));
    assert!(matches!(ui.screen, Screen::ServiceControl));
    let (_, action) = ui.handle_input(InputKey::Char('s'));
    assert!(matches!(action, UiAction::StartService));
    let (_, action) = ui.handle_input(InputKey::Char('x'));
    assert!(matches!(action, UiAction::StopService));
    let (_, action) = ui.handle_input(InputKey::Char('r'));
    assert!(matches!(action, UiAction::RefreshServiceStatus));
    assert_eq!(ui.service_status_message, "Status refreshed.");
    ui.set_service_running(true);
    assert!(ui.service_is_running);
    let (_, action) = ui.handle_input(InputKey::Esc);
    assert!(matches!(action, UiAction::Idle));
    assert!(matches!(ui.screen, Screen::MainMenu));
    assert_eq!(ui.service_status_message, "");
}

#[test]
fn list_lines_show_standing_keywords_and_cadence() {
    let mut ui = fresh_ui();
    ui.config.add_watcher(Watcher::new(
        "http://a".to_string(),
        vec!["one".to_string(), "two".to_string()],
        120,
    ));
    assert_eq!(
        ui.watcher_list_line(0),
        "✓ [1] http://a | Keywords: one, two | Every 2 min"
    );
    ui.config.toggle_watcher(0);
    assert_eq!(
        ui.watcher_list_line(0),
        "✗ [1] http://a | Keywords: one, two | Every 2 min"
    );
}

#[test]
fn status_listing_with_a_process_number_counts_as_running() {
    assert!(service_running_from_status("123\t0\tcom.example.service"));
    assert!(service_running_from_status("header\n  456 0 com.example.service"));
    assert!(!service_running_from_status("-\t0\tcom.example.service"));
    assert!(!service_running_from_status(""));
    assert!(!service_running_from_status("PID Status Label"));
    assert!(!service_running_from_status("99999999999 0 label"));
}
