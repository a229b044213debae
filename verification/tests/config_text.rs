use tile_wm::config::{Config, ConfigUpdate};
use tile_wm::text::{str_contains, truncate_title};

#[test]
fn defaults_match_the_documented_table() {
    let c = Config::default();
    assert_eq!(c.bar_height, 40);
    assert_eq!(c.split_ratio_x, 50);
    assert_eq!(c.split_ratio_y, 50);
    assert!(c.exclude_titles.is_empty());
    assert_eq!(c.exclude_processes, vec!["tile_wm.exe".to_string()]);
    assert_eq!((c.window_x, c.window_y), (100, 100));
    assert_eq!(c.window_bg_rgba, [32, 32, 32, 255]);
    assert_eq!(c.button_fg_rgb, [136, 136, 136]);
    assert_eq!(c.button_bg_rgb, [32, 32, 32]);
    assert_eq!(c.button_highlight_fg_rgb, [255, 255, 255]);
    assert_eq!(c.button_highlight_bg_rgb, [255, 255, 255]);
    assert!(!c.flip_main);
    assert_eq!(c.min_window_height, 220);
    assert_eq!((c.top_spacing, c.bottom_spacing, c.left_spacing, c.right_spacing, c.inner_spacing), (40, 10, 10, 10, 10));
    assert!(c.apps.is_empty());
}

#[test]
fn popup_host_is_always_excluded() {
    let mut c = Config::default();
    assert_eq!(c.effective_exclude_titles(), vec!["PopupHost".to_string()]);
    c.exclude_titles = vec!["Calculator".to_string(), "Settings".to_string()];
    assert_eq!(
        c.effective_exclude_titles(),
        vec!["Calculator".to_string(), "Settings".to_string(), "PopupHost".to_string()]
    );
    c.exclude_titles = vec!["PopupHost".to_string(), "Settings".to_string()];
    assert_eq!(c.effective_exclude_titles(), vec!["PopupHost".to_string(), "Settings".to_string()]);
    c.exclude_titles = c.effective_exclude_titles();
    assert_eq!(c.effective_exclude_titles(), c.exclude_titles);
}

#[test]
fn update_reports_bar_height_change() {
    let mut c = Config::default();
    let u = ConfigUpdate {
        bar_height: 36,
        split_ratio_x: 60,
        split_ratio_y: 50,
        exclude_titles: vec!["Calculator".to_string()],
        exclude_processes: vec!["tile_wm.exe".to_string()],
        window_x: 200,
        window_y: 50,
        window_bg_rgba: [48, 48, 48, 255],
        flip_main: true,
    };
    assert!(c.apply_update(u));
    assert_eq!(c.bar_height, 36);
    assert_eq!(c.split_ratio_x, 60);
    assert_eq!(c.window_bg_rgba, [48, 48, 48, 255]);
    assert!(c.flip_main);
    assert_eq!(c.inner_spacing, 10);
    let same = ConfigUpdate {
        bar_height: 36,
        split_ratio_x: 60,
        split_ratio_y: 50,
        exclude_titles: vec![],
        exclude_processes: vec![],
        window_x: 0,
        window_y: 0,
        window_bg_rgba: [0, 0, 0, 0],
        flip_main: false,
    };
    assert!(!c.apply_update(same));
}

#[test]
fn substring_search() {
    assert!(str_contains("notepad.exe", "pad"));
    assert!(str_contains("notepad.exe", ""));
    assert!(str_contains("日本語テキスト", "テキ"));
    assert!(!str_contains("pad", "notepad"));
    assert!(!str_contains("Calculator", "calc"));
}

#[test]
fn truncation_at_char_boundary() {
    assert_eq!(truncate_title("short", 48), "short".to_string());
    assert_eq!(truncate_title("abcdef", 4), "abcd\u{2026}".to_string());
    // 'é' takes two bytes: cutting after 3 bytes keeps "ab" only.
    assert_eq!(truncate_title("abé", 4), "abé".to_string());
    assert_eq!(truncate_title("abéd", 3), "ab\u{2026}".to_string());
    assert_eq!(truncate_title("日本語", 5), "日\u{2026}".to_string());
    assert_eq!(truncate_title("", 0), "".to_string());
    assert_eq!(truncate_title("x", 0), "\u{2026}".to_string());
    let s = "ウィンドウのタイトル".repeat(5);
    let t = truncate_title(&s, 48);
    let kept = t.trim_end_matches('\u{2026}');
    assert!(kept.len() <= 48);
    assert!(s.starts_with(kept));
}
