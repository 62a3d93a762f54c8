use logviewer::app::Key;
use logviewer::listen::PopupOutcome;
use logviewer::listen::{calc_addr_line_width, format_addr_display, ListenAddrEntry, ListenDisplayMode, ListenState};
use logviewer::log_state::format_relative_time;

fn entry(ip: &str, is_v6: bool, row: u16) -> ListenAddrEntry {
    ListenAddrEntry { ip: ip.to_string(), is_v6, is_self_assigned: false, row }
}

#[test]
fn addr_texts() {
    assert_eq!(format_addr_display("10.0.0.2", 8080, false, ListenDisplayMode::AddrPort), "10.0.0.2:8080");
    assert_eq!(format_addr_display("fe80::1", 80, true, ListenDisplayMode::AddrPort), "[fe80::1]:80");
    assert_eq!(format_addr_display("10.0.0.2", 8080, false, ListenDisplayMode::NcCommand), "nc 10.0.0.2 8080");
    assert_eq!(format_addr_display("::1", 9, true, ListenDisplayMode::NcCommand), "nc -6 ::1 9");
    assert_eq!(calc_addr_line_width("10.0.0.2", 8080, false, ListenDisplayMode::AddrPort), 15);
}

#[test]
fn selection_wraps_and_copies() {
    let mut s = ListenState::new(Some(7000));
    assert!(s.show_popup());
    assert_eq!(s.get_selected_copy_text(), None);
    s.addr_list = vec![entry("1.2.3.4", false, 2), entry("::5", true, 3)];
    s.select_prev();
    assert_eq!(s.selected_idx, 1);
    s.select_next();
    assert_eq!(s.selected_idx, 0);
    s.toggle_display_mode();
    assert_eq!(s.get_selected_copy_text().as_deref(), Some("nc 1.2.3.4 7000"));
    s.popup_area = Some((10, 10, 30, 6));
    assert_eq!(s.handle_click(12, 13).as_deref(), Some("nc -6 ::5 7000"));
    assert_eq!(s.selected_idx, 1);
    assert_eq!(s.handle_click(5, 13), None);
    s.has_connection = true;
    assert!(!s.show_popup());
}

#[test]
fn relative_times() {
    assert_eq!(format_relative_time(100, 90), "+0s");
    assert_eq!(format_relative_time(100, 145), "-45s");
    assert_eq!(format_relative_time(0, 600), "-10m");
    assert_eq!(format_relative_time(0, 7200), "-2h");
    assert_eq!(format_relative_time(0, 3 * 86400 + 5), "-3d");
}

#[test]
fn address_kinds() {
    assert!(logviewer::listen::is_self_assigned([169, 254, 3, 4]));
    assert!(!logviewer::listen::is_self_assigned([192, 168, 1, 1]));
    assert!(logviewer::listen::is_link_local_v6(0xfe80));
    assert!(logviewer::listen::is_link_local_v6(0xfebf));
    assert!(!logviewer::listen::is_link_local_v6(0xfec0));
}

#[test]
fn popup_keys() {
    let mut s = ListenState::new(Some(9000));
    s.addr_list = vec![entry("1.2.3.4", false, 1), entry("5.6.7.8", false, 2)];
    assert!(matches!(s.handle_popup_key(Key::Char('j')), PopupOutcome::Continue));
    assert_eq!(s.selected_idx, 1);
    match s.handle_popup_key(Key::Enter) {
        PopupOutcome::Copy(t) => assert_eq!(t, "5.6.7.8:9000"),
        _ => panic!("expected a copy"),
    }
    s.handle_popup_key(Key::Tab);
    assert_eq!(s.display_mode, ListenDisplayMode::NcCommand);
    assert!(matches!(s.handle_popup_key(Key::Char('q')), PopupOutcome::Quit));
}
