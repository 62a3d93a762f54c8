use logviewer::display::hide_with;
use logviewer::log_state::FilterState;
use logviewer::pattern::FancyPattern;

fn hidden(re: &str, s: &str) -> String {
    let p = FancyPattern::new(re).ok().unwrap();
    hide_with(&p, s).ok().unwrap()
}

#[test]
fn hide_with_capture_groups() {
    assert_eq!(hidden(r"(secret=)(\w+)", "user=alice secret=abc123 x=1"), "user=alice  x=1");
}

#[test]
fn hide_without_groups() {
    assert_eq!(hidden(r"\d+", "a1b22c333"), "abc");
}

#[test]
fn hide_no_match_keeps_text() {
    assert_eq!(hidden("zzz", "hello"), "hello");
}

#[test]
fn hide_empty_matches_terminate() {
    assert_eq!(hidden("x*", "abc"), "abc");
    assert_eq!(hidden("x*", "ééx"), "éé");
}

#[test]
fn hide_multibyte_text() {
    assert_eq!(hidden("ü+", "grüüße"), "grße");
}

#[test]
fn hide_twice_with_a_stable_regex() {
    let once = hidden(r"\d", "a1b2");
    assert_eq!(hidden(r"\d", &once), once);
}

#[test]
fn filter_state_without_hide_passes_through() {
    let fs = FilterState::new();
    assert_eq!(fs.apply_hide("raw text").ok().unwrap(), "raw text");
    assert!(fs.matches_filter("anything"));
}

#[test]
fn invalid_fancy_regex_is_rejected() {
    assert!(FancyPattern::new("(").is_err());
}

#[test]
fn hide_on_empty_content() {
    assert_eq!(hidden(r"\d", ""), "");
}

#[test]
fn whole_line_hidden() {
    assert_eq!(hidden(".*", "all of it"), "");
}

#[test]
fn splice_given_marks() {
    assert_eq!(logviewer::display::splice_out("abcdef", &vec![(1, 3), (2, 4), (5, 5)]), "aef");
}
