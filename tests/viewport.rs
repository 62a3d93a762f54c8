use logviewer::viewport::{Viewport, LINE_HEIGHT};

#[test]
fn offsets_follow_heights() {
    let mut v = Viewport::new(100);
    for _ in 0..4 {
        v.push_line();
    }
    assert_eq!(v.line_offsets, vec![0, 20, 40, 60, 80]);
    v.set_line_height(1, 50);
    assert_eq!(v.line_heights, vec![20, 50, 20, 20]);
    assert_eq!(v.line_offsets, vec![0, 20, 70, 90, 110]);
    assert_eq!(v.total_height(), 110);
    assert_eq!(v.line_offsets[0], 0);
    for i in 0..4 {
        assert_eq!(v.line_offsets[i + 1] - v.line_offsets[i], v.line_heights[i]);
    }
}

#[test]
fn same_height_changes_nothing() {
    let mut v = Viewport::new(100);
    v.push_line();
    let version = v.version;
    v.set_line_height(0, LINE_HEIGHT);
    assert_eq!(v.version, version);
    v.set_line_height(5, 30);
    assert_eq!(v.line_heights, vec![20]);
}

#[test]
fn visible_range_binary_search() {
    let mut v = Viewport::new(50);
    v.reset(10);
    assert_eq!(v.find_visible_range(0, 50), (0, 3));
    assert_eq!(v.find_visible_range(25, 50), (1, 4));
    assert_eq!(v.find_visible_range(190, 50), (9, 10));
}

#[test]
fn bottom_shows_last_line() {
    let mut v = Viewport::new(45);
    v.reset(10);
    v.scroll_to_bottom();
    assert_eq!(v.scroll_y, 155);
    assert_eq!(v.max_scroll(), 155);
    assert!(v.is_at_bottom());
    let (s, e) = v.find_visible_range(v.scroll_y, v.container_height);
    assert!(s <= 9 && 9 < e);
}

#[test]
fn outside_scroll_sets_follow_tail() {
    let mut v = Viewport::new(100);
    v.reset(10);
    v.scroll_to(10);
    assert!(!v.follow_tail);
    v.scroll_to(1000);
    assert_eq!(v.scroll_y, 100);
    assert!(v.follow_tail);
}

#[test]
fn clear_scrolls_to_top() {
    let mut v = Viewport::new(10);
    v.reset(3);
    v.scroll_to_bottom();
    v.clear();
    assert_eq!(v.scroll_y, 0);
    assert_eq!(v.line_offsets, vec![0]);
    assert_eq!(v.get_line_offset(3), 0);
}

#[test]
fn sideways_scroll() {
    let mut v = Viewport::new(100);
    v.container_width = 300;
    v.note_line_width(logviewer::viewport::estimate_line_width(100, true));
    assert_eq!(v.max_content_width, 80 + 62 + 720 + 24);
    assert_eq!(v.max_scroll_x(), 586);
    v.scroll_x = 1000;
    v.clamp_scroll_x();
    assert_eq!(v.scroll_x, 586);
    v.note_line_width(10);
    assert_eq!(v.max_content_width, 886);
}
