use logviewer::highlight::HighlightStyle;
use logviewer::wrap::wrap_highlighted;

#[test]
fn wraps_across_segments() {
    let segs = vec![("abcd".to_string(), HighlightStyle::Error), ("éfg".to_string(), HighlightStyle::Plain)];
    let rows = wrap_highlighted(&segs, 3);
    assert_eq!(
        rows,
        vec![
            vec![("abc".to_string(), HighlightStyle::Error)],
            vec![("d".to_string(), HighlightStyle::Error), ("éf".to_string(), HighlightStyle::Plain)],
            vec![("g".to_string(), HighlightStyle::Plain)],
        ]
    );
}

#[test]
fn zero_width_is_one_row() {
    let segs = vec![("abc".to_string(), HighlightStyle::Plain)];
    assert_eq!(wrap_highlighted(&segs, 0), vec![segs.clone()]);
    assert_eq!(wrap_highlighted(&vec![], 5), vec![vec![]]);
}
