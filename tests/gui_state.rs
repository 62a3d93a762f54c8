use logviewer::gui_state::GuiAppState;
use logviewer::input::AppState;
use logviewer::source::SourceEvent;

fn blank() -> AppState {
    AppState {
        hide_input: String::new(),
        filter_input: String::new(),
        highlight_input: String::new(),
        wrap_lines: false,
        line_start_regex: String::new(),
    }
}

fn lines(n: usize, prefix: &str) -> Vec<SourceEvent> {
    (0..n).map(|i| SourceEvent::Line(format!("{} {}", prefix, i))).collect()
}

#[test]
fn batch_while_following_scrolls_to_bottom() {
    let mut s = GuiAppState::new(&blank(), 100);
    s.apply_batch(lines(10, "x"), 0);
    assert_eq!(s.viewport.line_heights.len(), 10);
    assert_eq!(s.viewport.total_height(), 200);
    assert_eq!(s.viewport.scroll_y, 100);
    let (a, b) = s.viewport.find_visible_range(s.viewport.scroll_y, s.viewport.container_height);
    assert!(a <= 9 && 9 < b);
}

#[test]
fn batch_after_scrolling_away_keeps_position() {
    let mut s = GuiAppState::new(&blank(), 100);
    s.apply_batch(lines(10, "x"), 0);
    s.scroll_to(20);
    assert!(!s.viewport.follow_tail);
    s.apply_batch(lines(5, "y"), 1);
    assert_eq!(s.viewport.scroll_y, 20);
    s.scroll_to(10_000);
    assert!(s.viewport.follow_tail);
}

#[test]
fn filter_change_resets_heights() {
    let mut s = GuiAppState::new(&blank(), 100);
    s.apply_batch(lines(4, "err"), 0);
    s.apply_batch(lines(3, "ok"), 0);
    s.set_line_height(0, 55);
    s.app.input_fields.filter.text = "err".to_string();
    s.apply_filter();
    assert_eq!(s.app.log_state.filtered_indices, vec![0, 1, 2, 3]);
    assert_eq!(s.viewport.line_heights, vec![20, 20, 20, 20]);
    s.clear();
    assert!(s.app.log_state.lines.is_empty());
    assert_eq!(s.viewport.scroll_y, 0);
}

#[test]
fn line_start_and_highlight_fields() {
    let mut s = GuiAppState::new(&blank(), 100);
    s.line_start_text = "(".to_string();
    s.apply_line_start();
    assert!(s.line_start_error.is_some());
    s.line_start_text = r"^\d+".to_string();
    s.apply_line_start();
    assert!(s.line_start_error.is_none());
    assert_eq!(s.app.status_message.as_deref(), Some("Line start regex saved. Restart to apply."));
    let v = s.viewport.version;
    s.app.input_fields.highlight.text = "x".to_string();
    s.apply_highlight();
    assert!(s.app.filter_state.highlight_expr.is_some());
    assert_eq!(s.viewport.version, v + 1);
}

#[test]
fn batch_status_and_connection() {
    let mut s = GuiAppState::new(&blank(), 100);
    s.apply_batch(
        vec![
            SourceEvent::Connected("p".to_string()),
            SourceEvent::SystemLine("[connected: p]".to_string()),
            SourceEvent::Error("first".to_string()),
            SourceEvent::Line("a".to_string()),
            SourceEvent::Error("second".to_string()),
        ],
        0,
    );
    assert!(s.app.has_connection);
    assert_eq!(s.app.status_message.as_deref(), Some("Source error: second"));
    let texts: Vec<&str> = s.app.log_state.lines.iter().map(|l| l.content.as_str()).collect();
    assert_eq!(texts, vec!["[connected: p]", "a"]);
}

#[test]
fn zero_height_is_recorded() {
    let mut s = GuiAppState::new(&blank(), 100);
    s.apply_batch(lines(3, "x"), 0);
    let v = s.viewport.version;
    s.set_line_height(1, 0);
    assert_eq!(s.viewport.line_heights, vec![20, 0, 20]);
    assert_eq!(s.viewport.line_offsets, vec![0, 20, 20, 40]);
    assert_eq!(s.viewport.version, v + 1);
    s.set_line_height(1, 0);
    assert_eq!(s.viewport.version, v + 1);
}

#[test]
fn batch_strips_line_ends_and_adds_default_heights() {
    let mut s = GuiAppState::new(&blank(), 100);
    s.app.input_fields.filter.text = "keep".to_string();
    s.apply_filter();
    s.apply_batch(
        vec![
            SourceEvent::Line("keep 1\r\n".to_string()),
            SourceEvent::Line("drop".to_string()),
            SourceEvent::SystemLine("keep 2\n".to_string()),
        ],
        0,
    );
    assert_eq!(s.app.log_state.lines[0].content, "keep 1");
    assert_eq!(s.app.log_state.lines[2].content, "keep 2");
    assert_eq!(s.viewport.line_heights, vec![20, 20]);
}
