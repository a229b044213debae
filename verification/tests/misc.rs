use tile_wm::encode::{base64_encode, bmp_data_url, BitmapInfoHeader};
use tile_wm::geometry::{centered_x, compute_width, covers_monitor, devtools_toggle, menu_position, outer_size, Placement, Rect};
use tile_wm::hotkey::{classify_key_event, HookDecision, Modifiers};
use tile_wm::monitor::{
    counts_as_maximized, hwnd_set, is_tool_window, maximized_or_fullscreen, snapshot_hwnds, window_title_if_listed, PollState,
    RaiseDecision, RaiseState,
};
use tile_wm::snap::SnapKey;
use tile_wm::windows::WindowInfo;

#[test]
fn base64_known_vectors() {
    let enc = |s: &str| base64_encode(&s.as_bytes().to_vec());
    assert_eq!(enc(""), "");
    assert_eq!(enc("f"), "Zg==");
    assert_eq!(enc("fo"), "Zm8=");
    assert_eq!(enc("foo"), "Zm9v");
    assert_eq!(enc("foobar"), "Zm9vYmFy");
    assert_eq!(base64_encode(&vec![0xff, 0xfe, 0xfd, 0x00]), "//79AA==");
    assert_eq!(base64_encode(&vec![0xfb, 0xef]), "++8=");
}

#[test]
fn bmp_data_url_layout() {
    let h = BitmapInfoHeader {
        size: 40,
        width: 1,
        height: -1,
        planes: 1,
        bit_count: 32,
        compression: 0,
        size_image: 4,
        x_pels_per_meter: 0,
        y_pels_per_meter: 0,
        clr_used: 0,
        clr_important: 0,
    };
    let url = bmp_data_url(&h, &vec![1, 2, 3, 4]);
    let mut file = vec![0x42u8, 0x4D, 58, 0, 0, 0, 0, 0, 0, 0, 54, 0, 0, 0];
    file.extend_from_slice(&[40, 0, 0, 0, 1, 0, 0, 0, 0xff, 0xff, 0xff, 0xff, 1, 0, 32, 0]);
    file.extend_from_slice(&[0, 0, 0, 0, 4, 0, 0, 0, 0, 0, 0, 0, 0, 0, 0, 0, 0, 0, 0, 0, 0, 0, 0, 0]);
    file.extend_from_slice(&[1, 2, 3, 4]);
    assert_eq!(file.len(), 58);
    assert_eq!(url, format!("data:image/bmp;base64,{}", base64_encode(&file)));
    assert!(url.starts_with("data:image/bmp;base64,Qk06"));
}

#[test]
fn taskbar_width_formula() {
    assert_eq!(compute_width(4), 560);
    assert_eq!(compute_width(0), 440);
    assert_eq!(compute_width(10), 740);
}

#[test]
fn window_size_and_position_helpers() {
    let window = Rect { left: 100, top: 0, right: 708, bottom: 48 };
    let client = Rect { left: 0, top: 0, right: 600, bottom: 40 };
    assert_eq!(outer_size(560, 40, window, client), (568, 48));
    assert_eq!(centered_x(1920, 568), 676);
    assert_eq!(centered_x(500, 601), -50);
    assert_eq!(centered_x(500, 503), -1);
    assert_eq!(menu_position(Rect { left: 600, top: 0, right: 1200, bottom: 40 }), (980, 44));
}

#[test]
fn fullscreen_detection() {
    let m = Rect { left: 0, top: 0, right: 1920, bottom: 1080 };
    assert!(covers_monitor(m, m));
    assert!(covers_monitor(Rect { left: -8, top: -8, right: 1928, bottom: 1088 }, m));
    assert!(!covers_monitor(Rect { left: 0, top: 40, right: 1920, bottom: 1080 }, m));
    assert!(maximized_or_fullscreen(true, 3, false));
    assert!(!maximized_or_fullscreen(false, 3, false));
    assert!(maximized_or_fullscreen(false, 1, true));
    assert!(!maximized_or_fullscreen(true, 1, false));
}

#[test]
fn devtools_toggle_grows_and_shrinks() {
    let small = Rect { left: 600, top: 0, right: 1200, bottom: 40 };
    assert_eq!(devtools_toggle(small, 40, 800, 600, 1920), Placement { x: 560, y: 0, width: 800, height: 600 });
    let big = Rect { left: 560, top: 0, right: 1360, bottom: 600 };
    assert_eq!(devtools_toggle(big, 40, 800, 600, 1920), Placement { x: 560, y: 0, width: 800, height: 40 });
}

#[test]
fn hook_classification() {
    let none = Modifiers { ctrl: false, alt: false, win: false, shift: false };
    let win = Modifiers { win: true, ..none };
    let all3 = Modifiers { ctrl: true, alt: true, win: true, shift: false };
    assert_eq!(classify_key_event(0, false, true, 0x25, win), HookDecision::Snap(SnapKey::Left));
    assert_eq!(classify_key_event(0, false, true, 0x28, win), HookDecision::Snap(SnapKey::Down));
    assert_eq!(classify_key_event(0, false, true, 0x25, Modifiers { shift: true, ..win }), HookDecision::PassOn);
    assert_eq!(classify_key_event(0, false, true, 0x25, none), HookDecision::PassOn);
    assert_eq!(classify_key_event(0, false, true, 0x7A, all3), HookDecision::MoveWindow(-1));
    assert_eq!(classify_key_event(0, false, true, 0x7B, all3), HookDecision::MoveWindow(1));
    assert_eq!(classify_key_event(0, false, true, 0x7B, win), HookDecision::PassOn);
    assert_eq!(classify_key_event(0, false, true, 0x41, all3), HookDecision::PassOn);
    assert_eq!(classify_key_event(-1, false, true, 0x25, win), HookDecision::PassOn);
    assert_eq!(classify_key_event(0, true, true, 0x25, win), HookDecision::PassOn);
    assert_eq!(classify_key_event(0, false, false, 0x25, win), HookDecision::PassOn);
    assert_eq!(classify_key_event(0, false, true, 0x1_0025, win), HookDecision::Snap(SnapKey::Left));
}

fn w(hwnd: isize, cloaked: bool) -> WindowInfo {
    WindowInfo {
        hwnd,
        title: "t".to_string(),
        process_name: "p".to_string(),
        rect: (0, 0, 1, 1),
        is_visible: true,
        is_minimized: false,
        is_cloaked: cloaked,
    }
}

#[test]
fn poll_loop_debounces_changes() {
    assert_eq!(snapshot_hwnds(&vec![w(1, false), w(2, true), w(3, false)]), vec![1, 3]);
    assert_eq!(hwnd_set(&vec![3, 1, 2, 2]), hwnd_set(&vec![1, 2, 3]));
    assert_ne!(hwnd_set(&vec![1, 2]), hwnd_set(&vec![1, 2, 4]));
    let mut p = PollState::new(vec![2, 1, 1]);
    assert_eq!(p.known, hwnd_set(&vec![1, 2]));
    assert!(!p.step(true, vec![1, 2], 500));
    assert!(!p.step(true, vec![1, 2, 3], 1000));
    assert_eq!(p.last_change_ms, Some(1000));
    assert!(!p.step(true, vec![1, 2, 3], 1500));
    assert!(p.step(true, vec![2, 1, 3], 1600));
    assert_eq!(p.last_change_ms, None);
    assert!(!p.step(true, vec![1, 2, 3], 2200));
    assert!(!p.step(true, vec![1], 2700));
    assert!(!p.step(false, vec![1, 5], 5000));
    assert_eq!(p.last_change_ms, None);
    assert_eq!(p.known, hwnd_set(&vec![5, 1]));
}

#[test]
fn maximize_monitor_lowers_and_restores() {
    let mut s = RaiseState::new();
    assert_eq!(s.observe(Some(50), 1, Some(2), false), RaiseDecision::Nothing);
    assert_eq!(s.observe(Some(50), 1, Some(2), true), RaiseDecision::LowerBehind(50));
    assert_eq!(s.observe(Some(50), 1, Some(2), true), RaiseDecision::Nothing);
    assert_eq!(s.observe(Some(1), 1, Some(2), false), RaiseDecision::Nothing);
    assert_eq!(s.observe(Some(2), 1, Some(2), false), RaiseDecision::Nothing);
    assert_eq!(s.observe(Some(60), 1, Some(2), true), RaiseDecision::LowerBehind(60));
    assert_eq!(s.observe(None, 1, Some(2), false), RaiseDecision::CheckOthers);
    assert!(!s.after_check(true));
    assert!(s.was_lowered);
    assert_eq!(s.observe(Some(70), 1, None, false), RaiseDecision::CheckOthers);
    assert!(s.after_check(false));
    assert!(!s.was_lowered);
    assert_eq!(s.maximized, None);
    assert_eq!(s.observe(None, 1, None, false), RaiseDecision::Nothing);
}

#[test]
fn window_listing_predicates() {
    assert!(is_tool_window(0x80));
    assert!(is_tool_window(0x180));
    assert!(!is_tool_window(0x100));
    assert!(counts_as_maximized(5, 1, Some(2), true, 0, false, true));
    assert!(!counts_as_maximized(1, 1, Some(2), true, 0, false, true));
    assert!(!counts_as_maximized(2, 1, Some(2), true, 0, false, true));
    assert!(!counts_as_maximized(5, 1, None, true, 0x80, false, true));
    assert!(!counts_as_maximized(5, 1, None, true, 0, true, true));
    let units = |t: &str| -> Vec<u16> { t.encode_utf16().collect() };
    assert_eq!(window_title_if_listed(true, 0, &units("  Notes \t")), Some("Notes".to_string()));
    assert_eq!(window_title_if_listed(true, 0, &units(" \u{3000} ")), None);
    assert_eq!(window_title_if_listed(false, 0, &units("Notes")), None);
    assert_eq!(window_title_if_listed(true, 0x80, &units("Notes")), None);
    assert_eq!(window_title_if_listed(true, 0, &vec![0x20, 0xD800, 0x41]), Some("\u{FFFD}A".to_string()));
}
