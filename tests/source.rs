use logviewer::pattern::FancyPattern;
use logviewer::source::{session_close_events, session_open_events, MultilineAggregator, SourceEvent};

fn feed(agg: &mut MultilineAggregator, input: &str) -> Vec<String> {
    let mut out = Vec::new();
    for line in input.split('\n') {
        out.extend(agg.process_line(line));
    }
    out.extend(agg.flush());
    out
}

#[test]
fn multiline_aggregation() {
    let re = FancyPattern::new(r"^\d{4}-\d{2}-\d{2}").ok().unwrap();
    let mut agg = MultilineAggregator::new(Some(re));
    let records = feed(&mut agg, "2024-01-01 start\n  at foo\n  at bar\n2024-01-02 next");
    assert_eq!(records.len(), 2);
    assert_eq!(records[0], "2024-01-01 start\n  at foo\n  at bar");
    assert_eq!(records[1], "2024-01-02 next");
}

#[test]
fn aggregation_disabled_strips_line_ends() {
    let mut agg = MultilineAggregator::new(None);
    assert_eq!(agg.process_line("abc\r\n"), vec!["abc".to_string()]);
    assert_eq!(agg.flush(), None);
}

#[test]
fn continuation_before_any_start_opens_a_record() {
    let re = FancyPattern::new("^START").ok().unwrap();
    let mut agg = MultilineAggregator::new(Some(re));
    assert!(agg.process_line("orphan").is_empty());
    assert_eq!(agg.process_line("START x"), vec!["orphan".to_string()]);
    assert_eq!(agg.flush(), Some("START x".to_string()));
}

#[test]
fn tcp_session_event_order() {
    let mut log: Vec<SourceEvent> = Vec::new();
    log.extend(session_open_events("10.0.0.1:5000"));
    let mut agg = MultilineAggregator::new(None);
    for l in ["one", "two", "three"] {
        for r in agg.process_line(l) {
            log.push(SourceEvent::Line(r));
        }
    }
    if let Some(r) = agg.flush() {
        log.push(SourceEvent::Line(r));
    }
    log.extend(session_close_events("10.0.0.1:5000"));
    let names: Vec<String> = log
        .iter()
        .map(|e| match e {
            SourceEvent::Connected(p) => format!("Connected({})", p),
            SourceEvent::SystemLine(s) => format!("SystemLine({})", s),
            SourceEvent::Line(s) => format!("Line({})", s),
            SourceEvent::Disconnected(p) => format!("Disconnected({})", p),
            SourceEvent::Error(s) => format!("Error({})", s),
        })
        .collect();
    assert_eq!(
        names,
        vec![
            "Connected(10.0.0.1:5000)",
            "SystemLine([connected: 10.0.0.1:5000])",
            "Line(one)",
            "Line(two)",
            "Line(three)",
            "SystemLine([disconnected: 10.0.0.1:5000])",
            "Disconnected(10.0.0.1:5000)",
        ]
    );
}
