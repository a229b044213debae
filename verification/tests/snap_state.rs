use tile_wm::config::Config;
use tile_wm::geometry::{Placement, Rect};
use tile_wm::snap::{snap_area, snap_key_from_vk, snap_region_of, snap_step, SnapArea, SnapKey, SnapState, Spacing};
use tile_wm::state::{AppState, DesktopWatch, SnapAction, SnapGeometry};
use tile_wm::tiling::TilingMode;

fn ratio_of(value: i32, percent: i32) -> i32 {
    (value as f64 * (percent as f64 / 100.0)) as i32
}

fn geometry(cfg: &Config, window: Rect) -> SnapGeometry {
    let work = Rect { left: 0, top: 0, right: 1920, bottom: 1040 };
    let sp = Spacing {
        top: cfg.top_spacing,
        bottom: cfg.bottom_spacing,
        left: cfg.left_spacing,
        right: cfg.right_spacing,
        inner: cfg.inner_spacing,
    };
    let area = snap_area(work, sp);
    SnapGeometry {
        area,
        half_w: ratio_of(area.avail_w, cfg.split_ratio_x),
        half_h: ratio_of(area.avail_h, cfg.split_ratio_y),
        window_rect: window,
        monitor_x: 0,
        monitor_w: 1920,
    }
}

#[test]
fn snap_area_leaves_margins() {
    let a = snap_area(
        Rect { left: 0, top: 0, right: 1920, bottom: 1040 },
        Spacing { top: 40, bottom: 10, left: 10, right: 10, inner: 10 },
    );
    assert_eq!(a, SnapArea { x: 10, y: 40, w: 1900, h: 990, avail_w: 1890, avail_h: 980 });
}

#[test]
fn snap_regions_of_each_state() {
    let a = SnapArea { x: 10, y: 40, w: 1900, h: 990, avail_w: 1890, avail_h: 980 };
    let p = |s| snap_region_of(s, a, 10, 945, 490, None);
    assert_eq!(p(SnapState::Left), Placement { x: 10, y: 40, width: 945, height: 990 });
    assert_eq!(p(SnapState::Right), Placement { x: 965, y: 40, width: 945, height: 990 });
    assert_eq!(p(SnapState::TopLeft), Placement { x: 10, y: 40, width: 945, height: 490 });
    assert_eq!(p(SnapState::BottomRight), Placement { x: 965, y: 540, width: 945, height: 490 });
    assert_eq!(p(SnapState::Maximized), Placement { x: 10, y: 40, width: 1900, height: 990 });
    assert_eq!(p(SnapState::Normal), Placement { x: 485, y: 287, width: 950, height: 495 });
    let saved = Rect { left: 100, top: 200, right: 900, bottom: 700 };
    assert_eq!(
        snap_region_of(SnapState::Normal, a, 10, 945, 490, Some(saved)),
        Placement { x: 100, y: 200, width: 800, height: 500 }
    );
}

#[test]
fn arrow_keys_map_to_snap_keys() {
    assert_eq!(snap_key_from_vk(0x25), Some(SnapKey::Left));
    assert_eq!(snap_key_from_vk(0x26), Some(SnapKey::Up));
    assert_eq!(snap_key_from_vk(0x27), Some(SnapKey::Right));
    assert_eq!(snap_key_from_vk(0x28), Some(SnapKey::Down));
    assert_eq!(snap_key_from_vk(0x7B), None);
}

#[test]
fn transitions_follow_the_table() {
    let s = snap_step(SnapState::Normal, SnapKey::Left, false);
    assert_eq!((s.next, s.save_bounds, s.minimize), (SnapState::Left, true, false));
    let s = snap_step(SnapState::TopRight, SnapKey::Left, false);
    assert_eq!(s.next, SnapState::TopLeft);
    let s = snap_step(SnapState::Left, SnapKey::Up, false);
    assert_eq!(s.next, SnapState::TopLeft);
    let s = snap_step(SnapState::TopLeft, SnapKey::Down, false);
    assert_eq!(s.next, SnapState::Normal);
    let s = snap_step(SnapState::Normal, SnapKey::Down, false);
    assert!(s.minimize);
    assert_eq!(s.next, SnapState::Normal);
    let s = snap_step(SnapState::Maximized, SnapKey::Right, false);
    assert_eq!((s.next, s.save_bounds), (SnapState::Right, false));
}

#[test]
fn flip_swaps_left_and_right_keys() {
    for &st in &[SnapState::Normal, SnapState::Left, SnapState::Right, SnapState::TopLeft, SnapState::BottomRight] {
        assert_eq!(snap_step(st, SnapKey::Left, true), snap_step(st, SnapKey::Right, false));
        assert_eq!(snap_step(st, SnapKey::Up, true), snap_step(st, SnapKey::Up, false));
    }
}

#[test]
fn maximize_then_restore_returns_to_saved_bounds() {
    let mut state = AppState::new(Config::default(), 1);
    let before = Rect { left: 300, top: 200, right: 1100, bottom: 800 };
    let g = geometry(&state.config, before);
    let a = state.snap_window(7, SnapKey::Up, g);
    assert_eq!(a, SnapAction::MoveTo(Placement { x: 10, y: 40, width: 1900, height: 990 }));
    assert_eq!(state.snap_state(7), SnapState::Maximized);
    let moved = Rect { left: 10, top: 40, right: 1910, bottom: 1030 };
    let a = state.snap_window(7, SnapKey::Down, geometry(&state.config, moved));
    assert_eq!(a, SnapAction::MoveTo(Placement { x: 300, y: 200, width: 800, height: 600 }));
    assert_eq!(state.snap_state(7), SnapState::Normal);
    let a = state.snap_window(7, SnapKey::Down, geometry(&state.config, before));
    assert_eq!(a, SnapAction::Minimize);
}

#[test]
fn side_snap_then_back_restores_bounds() {
    let mut state = AppState::new(Config::default(), 1);
    let before = Rect { left: 50, top: 60, right: 650, bottom: 460 };
    let a = state.snap_window(9, SnapKey::Left, geometry(&state.config, before));
    assert_eq!(a, SnapAction::MoveTo(Placement { x: 10, y: 40, width: 945, height: 990 }));
    let a = state.snap_window(9, SnapKey::Right, geometry(&state.config, before));
    assert_eq!(a, SnapAction::MoveTo(Placement { x: 50, y: 60, width: 600, height: 400 }));
    assert_eq!(state.snap_state(9), SnapState::Normal);
    assert_eq!(state.snap_state(10), SnapState::Normal);
}

#[test]
fn flipped_snap_is_mirrored() {
    let mut state = AppState::new(Config::default(), 1);
    state.toggle_flip_main();
    let before = Rect { left: 50, top: 60, right: 650, bottom: 460 };
    let a = state.snap_window(3, SnapKey::Left, geometry(&state.config, before));
    // Win+Left with a flipped layout: the "right" region, mirrored to the left.
    assert_eq!(a, SnapAction::MoveTo(Placement { x: 10, y: 40, width: 945, height: 990 }));
    assert_eq!(state.snap_state(3), SnapState::Right);
}

#[test]
fn tiling_mode_is_per_desktop() {
    let mut state = AppState::new(Config::default(), 1);
    assert_eq!(state.tiling_mode(), TilingMode::Free);
    state.set_tiling_mode(TilingMode::ThreeWindows);
    state.cycle_tiling_layout();
    state.cycle_tiling_layout();
    assert_eq!(state.tiling_cycle(), 2);
    state.current_desktop = 2;
    assert_eq!(state.tiling_mode(), TilingMode::Free);
    assert_eq!(state.tiling_cycle(), 0);
    state.set_tiling_mode(TilingMode::TwoWindows);
    assert_eq!(state.tiling_mode_of(1), TilingMode::ThreeWindows);
    assert_eq!(state.tiling_mode_of(2), TilingMode::TwoWindows);
    state.current_desktop = 1;
    assert_eq!(state.tiling_cycle(), 2);
    state.set_tiling_mode(TilingMode::FourWindows);
    assert_eq!(state.tiling_cycle(), 0);
}

#[test]
fn toggle_flip_twice_restores_and_resets_cycles() {
    let mut state = AppState::new(Config::default(), 1);
    state.set_tiling_mode(TilingMode::TwoWindows);
    state.cycle_tiling_layout();
    assert!(state.toggle_flip_main());
    assert_eq!(state.tiling_cycle(), 0);
    assert!(!state.toggle_flip_main());
    assert!(!state.config.flip_main);
    assert_eq!(state.tiling_mode(), TilingMode::TwoWindows);
}

#[test]
fn float_position_is_stored_in_config() {
    let mut state = AppState::new(Config::default(), 1);
    assert_eq!(state.float_window_pos, (100, 100));
    state.set_float_pos(320, 15);
    assert_eq!(state.float_window_pos, (320, 15));
    assert_eq!((state.config.window_x, state.config.window_y), (320, 15));
}

#[test]
fn desktop_watch_reports_changes_once() {
    let mut w = DesktopWatch { last: 1 };
    assert!(!w.observe(1));
    assert!(w.observe(3));
    assert!(!w.observe(3));
    assert_eq!(w.last, 3);
}

#[test]
fn desktop_watch_poll_reports_new_numbers_only() {
    let mut w = DesktopWatch { last: 2 };
    assert_eq!(w.poll(None), None);
    assert_eq!(w.poll(Some(2)), None);
    assert_eq!(w.poll(Some(4)), Some(4));
    assert_eq!(w.poll(None), None);
    assert_eq!(w.poll(Some(4)), None);
    assert_eq!(w.poll(Some(1)), Some(1));
    assert_eq!(w.last, 1);
}

#[test]
fn menu_flag_and_generation() {
    let mut s = AppState::new(Config::default(), 1);
    s.menu_opened();
    assert!(s.menu_shown);
    assert_eq!(s.menu_generation, 1);
    s.menu_closed();
    assert!(!s.menu_shown);
    assert_eq!(s.menu_generation, 1);
    s.menu_generation = u64::MAX;
    s.menu_opened();
    assert_eq!(s.menu_generation, 0);
}

#[test]
fn float_position_keeps_other_settings() {
    let mut s = AppState::new(Config::default(), 1);
    s.set_float_pos(300, 12);
    assert_eq!(s.float_window_pos, (300, 12));
    assert_eq!((s.config.window_x, s.config.window_y), (300, 12));
    assert_eq!(s.config.bar_height, 40);
    assert_eq!(s.config.split_ratio_x, 50);
    assert_eq!(s.config.exclude_processes, vec!["tile_wm.exe".to_string()]);
}
