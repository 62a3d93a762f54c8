use logviewer::input::{AppState, InputFields, InputMode, TextInput};
use logviewer::log_state::{get_time_age, TimeAge};
use logviewer::text::{decimal, trim};

#[test]
fn text_input_editing() {
    let mut t = TextInput::new("héllo".to_string());
    assert_eq!(t.cursor, 5);
    t.move_cursor_left();
    t.insert_char('X');
    assert_eq!(t.text, "héllXo");
    t.delete_char_before_cursor();
    assert_eq!(t.text, "héllo");
    t.move_cursor_to_start();
    t.delete_char_at_cursor();
    assert_eq!(t.text, "éllo");
    t.move_cursor_right();
    t.delete_char_before_cursor();
    assert_eq!(t.text, "llo");
    assert_eq!(t.cursor, 0);
    t.move_cursor_to_end();
    assert_eq!(t.cursor, 3);
    t.move_cursor_right();
    assert_eq!(t.cursor, 3);
}

#[test]
fn text_input_errors_and_blank() {
    let mut t = TextInput::new(" \t ".to_string());
    assert!(t.is_empty());
    t.set_error(Some("bad".to_string()));
    assert!(t.has_error());
    t.clear_error();
    assert!(!t.has_error());
    assert!(!TextInput::new(" a ".to_string()).is_empty());
}

#[test]
fn fields_from_state() {
    let s = AppState {
        hide_input: "h".to_string(),
        filter_input: "ff".to_string(),
        highlight_input: String::new(),
        wrap_lines: true,
        line_start_regex: String::new(),
    };
    let mut f = InputFields::from_state(&s);
    assert_eq!(f.filter.cursor, 2);
    assert!(f.get_active_mut(InputMode::Normal).is_none());
    f.get_active_mut(InputMode::HideEdit).unwrap().insert_char('!');
    assert_eq!(f.hide.text, "h!");
}

#[test]
fn time_age_buckets() {
    assert_eq!(get_time_age(100, 110), TimeAge::VeryRecent);
    assert_eq!(get_time_age(100, 130), TimeAge::Recent);
    assert_eq!(get_time_age(0, 3599), TimeAge::Minutes);
    assert_eq!(get_time_age(0, 3600), TimeAge::Hours);
    assert_eq!(get_time_age(0, 86400), TimeAge::Days);
}

#[test]
fn decimal_and_trim() {
    assert_eq!(decimal(0), "0");
    assert_eq!(decimal(4096), "4096");
    assert_eq!(trim("\u{a0} a b \n"), "a b");
}
