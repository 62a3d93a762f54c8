use logviewer::app::{App, Key, KeyOutcome};
use logviewer::input::{AppState, InputMode};
use logviewer::source::SourceEvent;

fn state(hide: &str, filter: &str, highlight: &str) -> AppState {
    AppState {
        hide_input: hide.to_string(),
        filter_input: filter.to_string(),
        highlight_input: highlight.to_string(),
        wrap_lines: false,
        line_start_regex: String::new(),
    }
}

fn visible(app: &App) -> Vec<String> {
    app.log_state
        .filtered_indices
        .iter()
        .map(|&i| app.log_state.lines[i].content.clone())
        .collect()
}

#[test]
fn tail_with_filter() {
    let mut app = App::new(&state("", "ERROR", ""));
    for l in ["A", "B ERROR", "C"] {
        app.handle_event(SourceEvent::Line(l.to_string()), 0);
    }
    assert_eq!(visible(&app), vec!["B ERROR"]);
    app.handle_event(SourceEvent::Line("D ERROR E".to_string()), 1);
    assert_eq!(visible(&app), vec!["B ERROR", "D ERROR E"]);
}

#[test]
fn follow_tail_semantics() {
    let mut app = App::new(&state("", "", ""));
    assert!(app.log_state.follow_tail);
    for i in 0..10 {
        app.handle_event(SourceEvent::Line(format!("line {}", i)), i);
    }
    assert_eq!(app.log_state.get_bottom_line_idx(), 9);
    app.log_state.scroll_up(1);
    assert!(!app.log_state.follow_tail);
    assert_eq!(app.log_state.get_bottom_line_idx(), 8);
    for i in 10..15 {
        app.handle_event(SourceEvent::Line(format!("line {}", i)), i);
    }
    assert_eq!(app.log_state.get_bottom_line_idx(), 8);
    app.log_state.scroll_to_end();
    assert!(app.log_state.follow_tail);
    assert_eq!(app.log_state.get_bottom_line_idx(), 14);
}

#[test]
fn scroll_down_reaches_tail() {
    let mut app = App::new(&state("", "", ""));
    for i in 0..5 {
        app.handle_event(SourceEvent::Line(format!("l{}", i)), 0);
    }
    app.log_state.scroll_to_start();
    assert_eq!(app.log_state.get_bottom_line_idx(), 0);
    app.log_state.scroll_down(2);
    assert_eq!(app.log_state.bottom_line_idx, 2);
    assert!(!app.log_state.follow_tail);
    app.log_state.scroll_down(10);
    assert_eq!(app.log_state.bottom_line_idx, 4);
    assert!(app.log_state.follow_tail);
}

#[test]
fn clear_empties_everything() {
    let mut app = App::new(&state("", "", ""));
    app.handle_event(SourceEvent::Line("x".to_string()), 5);
    app.clear();
    assert!(app.log_state.lines.is_empty());
    assert!(app.log_state.filtered_indices.is_empty());
    assert_eq!(app.log_state.bottom_line_idx, 0);
    assert_eq!(app.log_state.last_update_time, None);
    assert_eq!(app.status_message.as_deref(), Some("Cleared"));
}

#[test]
fn system_lines_do_not_touch_recency() {
    let mut app = App::new(&state("", "", ""));
    app.handle_event(SourceEvent::Line("a".to_string()), 7);
    app.handle_event(SourceEvent::SystemLine("[connected: x]".to_string()), 9);
    assert_eq!(app.log_state.lines.len(), 2);
    assert_eq!(app.log_state.last_update_time, Some(7));
}

#[test]
fn source_error_sets_status() {
    let mut app = App::new(&state("", "", ""));
    app.handle_event(SourceEvent::Error("boom".to_string()), 0);
    assert_eq!(app.status_message.as_deref(), Some("Source error: boom"));
    app.handle_event(SourceEvent::Connected("peer".to_string()), 0);
    assert!(app.has_connection);
}

#[test]
fn filter_applied_twice_is_stable() {
    let mut app = App::new(&state("", "", ""));
    for l in ["error a", "ok", "error b"] {
        app.handle_event(SourceEvent::Line(l.to_string()), 0);
    }
    app.input_fields.filter.text = "error".to_string();
    app.apply_filter();
    let first = app.log_state.filtered_indices.clone();
    app.apply_filter();
    assert_eq!(app.log_state.filtered_indices, first);
    assert_eq!(first, vec![0, 2]);
}

#[test]
fn rebuild_matches_incremental() {
    let mut app = App::new(&state("", "warn", ""));
    for l in ["warn 1", "x", "warn 2", "y", "warn 3"] {
        app.handle_event(SourceEvent::Line(l.to_string()), 0);
    }
    let incremental = app.log_state.filtered_indices.clone();
    app.apply_filter();
    assert_eq!(app.log_state.filtered_indices, incremental);
    assert_eq!(incremental, vec![0, 2, 4]);
}

#[test]
fn hide_feeds_filter() {
    let mut app = App::new(&state("secret", "secret", ""));
    app.handle_event(SourceEvent::Line("a secret".to_string()), 0);
    assert!(app.log_state.filtered_indices.is_empty());
    let line = &app.log_state.lines[0];
    assert_eq!(app.get_display_content(line), "a ");
}

#[test]
fn bad_filter_keeps_previous() {
    let mut app = App::new(&state("", "a", ""));
    app.handle_event(SourceEvent::Line("a".to_string()), 0);
    app.handle_event(SourceEvent::Line("b".to_string()), 0);
    app.input_fields.filter.text = "(".to_string();
    app.input_mode = InputMode::FilterEdit;
    app.apply_current_input();
    assert!(app.input_fields.filter.has_error());
    assert_eq!(app.input_mode, InputMode::FilterEdit);
    assert_eq!(app.log_state.filtered_indices, vec![0]);
}

#[test]
fn bad_hide_regex_marks_field() {
    let mut app = App::new(&state("", "", ""));
    app.input_fields.hide.text = "(".to_string();
    app.apply_hide();
    assert!(app.input_fields.hide.has_error());
    assert!(app.filter_state.hide_regex.is_none());
}

#[test]
fn keys_edit_active_field() {
    let mut app = App::new(&state("", "", ""));
    app.input_mode = InputMode::FilterEdit;
    assert!(!app.handle_input_key(Key::Char('a')));
    assert!(!app.handle_input_key(Key::Char('c')));
    assert!(!app.handle_input_key(Key::Left));
    assert!(!app.handle_input_key(Key::Char('b')));
    assert_eq!(app.input_fields.filter.text, "abc");
    assert!(app.handle_input_key(Key::Enter));
    assert!(!app.handle_input_key(Key::Esc));
    assert_eq!(app.input_mode, InputMode::Normal);
}

#[test]
fn prefix_width_follows_time_column() {
    let mut app = App::new(&state("", "", ""));
    assert_eq!(app.prefix_width(), 18);
    app.toggle_time();
    assert_eq!(app.prefix_width(), 9);
}

#[test]
fn batch_of_events_in_order() {
    let mut app = App::new(&state("", "b", ""));
    app.handle_events(
        vec![
            SourceEvent::Line("a".to_string()),
            SourceEvent::SystemLine("b sys".to_string()),
            SourceEvent::Error("oops".to_string()),
            SourceEvent::Line("b".to_string()),
        ],
        3,
    );
    let texts: Vec<&str> = app.log_state.lines.iter().map(|l| l.content.as_str()).collect();
    assert_eq!(texts, vec!["a", "b sys", "b"]);
    assert_eq!(app.log_state.filtered_indices, vec![1, 2]);
    assert_eq!(app.status_message.as_deref(), Some("Source error: oops"));
}

#[test]
fn normal_keys_route() {
    let mut app = App::new(&state("", "", ""));
    for i in 0..5 {
        app.handle_event(SourceEvent::Line(format!("l{}", i)), 0);
    }
    assert_eq!(app.handle_normal_key(Key::Char('k'), 3), KeyOutcome::Continue);
    assert_eq!(app.log_state.bottom_line_idx, 3);
    assert!(!app.log_state.follow_tail);
    app.handle_normal_key(Key::Char('g'), 3);
    assert_eq!(app.log_state.bottom_line_idx, 0);
    app.handle_normal_key(Key::PageDown, 3);
    assert_eq!(app.log_state.bottom_line_idx, 3);
    app.handle_normal_key(Key::Char('G'), 3);
    assert!(app.log_state.follow_tail);
    app.handle_normal_key(Key::Char('d'), 3);
    assert_eq!(app.input_mode, InputMode::HideEdit);
    app.input_mode = InputMode::Normal;
    assert_eq!(app.handle_normal_key(Key::Char('w'), 3), KeyOutcome::Save);
    assert!(app.wrap_lines);
    app.handle_normal_key(Key::Char('s'), 3);
    assert!(!app.heuristic_enabled);
    app.handle_normal_key(Key::Char('c'), 3);
    assert!(app.log_state.lines.is_empty());
    assert_eq!(app.handle_normal_key(Key::CtrlC, 3), KeyOutcome::Quit);
    assert_eq!(app.handle_normal_key(Key::Char('q'), 3), KeyOutcome::Quit);
}

#[test]
fn copied_status() {
    let mut app = App::new(&state("", "", ""));
    app.set_copied("1.2.3.4:80");
    assert_eq!(app.status_message.as_deref(), Some("Copied: 1.2.3.4:80"));
}
