use logviewer::filter::parse_filter;
use logviewer::highlight::{apply_highlights, highlight_content, highlight_line, HighlightStyle, Span};

#[test]
fn highlight_priority() {
    let expr = Some(parse_filter(r"\d+").ok().unwrap());
    let segs = highlight_content("ERROR code 42", &expr);
    assert_eq!(
        segs,
        vec![
            ("ERROR".to_string(), HighlightStyle::Error),
            (" code ".to_string(), HighlightStyle::Plain),
            ("42".to_string(), HighlightStyle::Custom),
        ]
    );
    let joined: String = segs.iter().map(|s| s.0.as_str()).collect();
    assert_eq!(joined, "ERROR code 42");
}

#[test]
fn custom_wins_over_heuristic() {
    let expr = Some(parse_filter("ERR").ok().unwrap());
    let segs = highlight_content("ERROR", &expr);
    assert_eq!(
        segs,
        vec![("ERR".to_string(), HighlightStyle::Custom), ("OR".to_string(), HighlightStyle::Error)]
    );
}

#[test]
fn no_spans_is_one_plain_segment() {
    assert_eq!(apply_highlights("plain", &vec![]), vec![("plain".to_string(), HighlightStyle::Plain)]);
    assert_eq!(apply_highlights("", &vec![]), vec![(String::new(), HighlightStyle::Plain)]);
}

#[test]
fn equal_priority_later_span_wins() {
    let spans = vec![
        Span { start: 0, end: 4, style: HighlightStyle::Bracket, priority: 10 },
        Span { start: 1, end: 3, style: HighlightStyle::Error, priority: 10 },
    ];
    assert_eq!(
        apply_highlights("[ab]", &spans),
        vec![
            ("[".to_string(), HighlightStyle::Bracket),
            ("ab".to_string(), HighlightStyle::Error),
            ("]".to_string(), HighlightStyle::Bracket),
        ]
    );
}

#[test]
fn heuristic_rules_color_tokens() {
    let segs = highlight_content("[api] 2024-01-02 10:11:12 warning info debug", &None);
    let styles: Vec<HighlightStyle> = segs.iter().map(|s| s.1).collect();
    assert!(styles.contains(&HighlightStyle::Bracket));
    assert!(styles.contains(&HighlightStyle::Timestamp));
    assert!(styles.contains(&HighlightStyle::Warn));
    assert!(styles.contains(&HighlightStyle::Info));
    assert!(styles.contains(&HighlightStyle::Debug));
}

#[test]
fn spans_sorted_by_start_then_priority() {
    let expr = parse_filter("ERROR").ok().unwrap();
    let spans = highlight_line("x ERROR", Some(&expr), true, true);
    assert_eq!(spans.len(), 2);
    assert_eq!((spans[0].start, spans[0].priority), (2, 100));
    assert_eq!((spans[1].start, spans[1].priority), (2, 10));
}

#[test]
fn multibyte_segments() {
    let expr = Some(parse_filter("é+").ok().unwrap());
    let segs = highlight_content("aéé b", &expr);
    assert_eq!(
        segs,
        vec![
            ("a".to_string(), HighlightStyle::Plain),
            ("éé".to_string(), HighlightStyle::Custom),
            (" b".to_string(), HighlightStyle::Plain),
        ]
    );
}

#[test]
fn json_tokens_are_colored() {
    let segs = highlight_content(r#"got {"id": 7, "ok": true, "who": "bo", "x": null}"#, &None);
    let find = |t: &str| segs.iter().find(|s| s.0 == t).map(|s| s.1);
    assert_eq!(find("\"id\""), Some(HighlightStyle::JsonKey));
    assert_eq!(find("7"), Some(HighlightStyle::JsonNumber));
    assert_eq!(find("true"), Some(HighlightStyle::JsonBool));
    assert_eq!(find("\"bo\""), Some(HighlightStyle::JsonString));
    assert_eq!(find("null"), Some(HighlightStyle::JsonNull));
}

#[test]
fn broken_json_is_skipped() {
    let segs = highlight_content("{not json", &None);
    assert_eq!(segs, vec![("{not json".to_string(), HighlightStyle::Plain)]);
}
