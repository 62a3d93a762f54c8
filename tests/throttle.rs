use logviewer::throttle::{RenderThrottle, BASE_THRESHOLD_US, MIN_THRESHOLD_US};

#[test]
fn burst_shrinks_wait_and_flush_resets() {
    let mut t = RenderThrottle::new();
    assert_eq!(t.wait_time(0), None);
    t.on_line("a".to_string(), 1_000);
    assert_eq!(t.threshold_us, 35_000);
    assert_eq!(t.wait_time(11_000), Some(25_000));
    t.on_line("b".to_string(), 2_000);
    assert_eq!(t.threshold_us, 24_500);
    assert_eq!(t.burst_start, Some(1_000));
    for i in 0..20 {
        t.on_line(format!("c{}", i), 3_000);
    }
    assert_eq!(t.threshold_us, MIN_THRESHOLD_US);
    assert_eq!(t.wait_time(1_000_000), Some(0));
    let out = t.flush();
    assert_eq!(out.len(), 22);
    assert_eq!(out[0], "a");
    assert_eq!(t.threshold_us, BASE_THRESHOLD_US);
    assert_eq!(t.wait_time(5), None);
}
