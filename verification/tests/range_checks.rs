use tile_wm::config::Config;
use tile_wm::geometry::{
    compute_width_fits, devtools_fits_check, menu_position_fits, outer_size_fits_check, Rect,
};
use tile_wm::snap::{snap_area, snap_area_fits_check, snap_region_fits_check, SnapKey, SnapState, Spacing};
use tile_wm::state::{AppState, SnapGeometry};
use tile_wm::tiling::{tiles_fit, TilingConfig, TilingMode};
use tile_wm::windows::{plan_fits_check, WindowInfo};

fn rect(left: i32, top: i32, right: i32, bottom: i32) -> Rect {
    Rect { left, top, right, bottom }
}

fn monitor(w: i32, h: i32, flip: bool) -> TilingConfig {
    TilingConfig {
        monitor_x: 0,
        monitor_y: 0,
        monitor_w: w,
        monitor_h: h,
        split_ratio_x: 50,
        split_ratio_y: 50,
        flip_main: flip,
    }
}

#[test]
fn taskbar_width_range() {
    assert!(compute_width_fits(4));
    assert!(compute_width_fits(-10));
    assert!(!compute_width_fits(i32::MAX / 30 + 1));
    assert!(!compute_width_fits(71_582_774));
}

#[test]
fn outer_size_range() {
    let window = rect(0, 0, 816, 47);
    let client = rect(0, 0, 800, 40);
    assert!(outer_size_fits_check(560, 40, window, client));
    assert!(!outer_size_fits_check(i32::MAX, 40, window, client));
    assert!(!outer_size_fits_check(10, 10, rect(i32::MIN, 0, i32::MAX, 10), client));
}

#[test]
fn menu_position_range() {
    assert!(menu_position_fits(rect(0, 0, 800, 40)));
    assert!(!menu_position_fits(rect(0, 0, i32::MIN + 100, 40)));
    assert!(!menu_position_fits(rect(0, 0, 800, i32::MAX - 1)));
}

#[test]
fn devtools_range() {
    assert!(devtools_fits_check(rect(560, 0, 1360, 40), 40, 800, 1920));
    assert!(!devtools_fits_check(rect(0, 0, 800, 40), i32::MAX, 800, 1920));
    assert!(!devtools_fits_check(rect(0, 0, 800, 40), 40, i32::MAX, -10));
}

#[test]
fn tiles_range() {
    let c = monitor(1920, 1080, false);
    assert!(tiles_fit(TilingMode::FourWindows, &c, 4, 960, 520));
    assert!(tiles_fit(TilingMode::Free, &c, 4, i32::MAX, i32::MAX));
    assert!(tiles_fit(TilingMode::TwoWindows, &c, 2, 960, 520));
    let wide = monitor(i32::MAX, 1080, false);
    assert!(!tiles_fit(TilingMode::TwoWindows, &wide, 2, -10, 520));
    let low = monitor(1920, i32::MIN, false);
    assert!(!tiles_fit(TilingMode::TwoWindows, &low, 1, 960, 0));
    let flipped = monitor(1920, 1080, true);
    assert!(tiles_fit(TilingMode::ThreeWindows, &flipped, 3, 960, 520));
    // Mirroring needs the right edge of the monitor, which is out of range here.
    assert!(tiles_fit(TilingMode::TwoWindows, &far(false), 2, 0, 0));
    assert!(!tiles_fit(TilingMode::TwoWindows, &far(true), 2, 0, 0));
}

fn far(flip: bool) -> TilingConfig {
    TilingConfig { monitor_x: 1_000_000_000, monitor_w: 2_000_000_000, ..monitor(1920, 1080, flip) }
}

fn window(hwnd: isize) -> WindowInfo {
    WindowInfo {
        hwnd,
        title: format!("Window {}", hwnd),
        process_name: "app.exe".to_string(),
        rect: (0, 0, 100, 100),
        is_visible: true,
        is_minimized: false,
        is_cloaked: false,
    }
}

#[test]
fn plan_range() {
    let cfg = Config::default();
    let ws = vec![window(1), window(2)];
    assert!(plan_fits_check(&ws, &cfg, TilingMode::TwoWindows, monitor(1920, 1080, false), 960, 520));
    assert!(!plan_fits_check(&ws, &cfg, TilingMode::TwoWindows, far(true), 0, 0));
    // With nothing to tile there is nothing to compute.
    let none: Vec<WindowInfo> = Vec::new();
    assert!(plan_fits_check(&none, &cfg, TilingMode::TwoWindows, far(true), 0, 0));
}

#[test]
fn snap_area_range() {
    let sp = Spacing { top: 40, bottom: 10, left: 10, right: 10, inner: 10 };
    assert!(snap_area_fits_check(rect(0, 0, 1920, 1040), sp));
    assert!(!snap_area_fits_check(rect(i32::MIN, 0, i32::MAX, 1040), sp));
    assert!(!snap_area_fits_check(rect(i32::MAX - 5, 0, i32::MAX, 1040), sp));
}

#[test]
fn snap_region_range() {
    let sp = Spacing { top: 40, bottom: 10, left: 10, right: 10, inner: 10 };
    let a = snap_area(rect(0, 0, 1920, 1040), sp);
    assert!(snap_region_fits_check(SnapState::BottomRight, a, 10, 945, 485, None));
    assert!(!snap_region_fits_check(SnapState::Right, a, 10, i32::MAX, 485, None));
    assert!(!snap_region_fits_check(SnapState::Normal, a, 10, 945, 485, Some(rect(i32::MIN, 0, i32::MAX, 10))));
}

#[test]
fn snap_window_range() {
    let state = AppState::new(Config::default(), 1);
    let sp = Spacing { top: 40, bottom: 10, left: 10, right: 10, inner: 10 };
    let area = snap_area(rect(0, 0, 1920, 1040), sp);
    let g = SnapGeometry { area, half_w: 945, half_h: 485, window_rect: rect(100, 100, 900, 700), monitor_x: 0, monitor_w: 1920 };
    assert!(state.snap_fits_check(5, SnapKey::Left, g));
    let bad = SnapGeometry { half_w: i32::MAX, ..g };
    assert!(!state.snap_fits_check(5, SnapKey::Right, bad));
}
