use tile_wm::tiling::{calculate_tiles, TileRegion, TilingConfig, TilingMode};

fn percent_of(value: i32, percent: i32) -> i32 {
    (value as f64 * (percent as f64 / 100.0)) as i32
}

fn config(flip: bool) -> TilingConfig {
    TilingConfig {
        monitor_x: 0,
        monitor_y: 0,
        monitor_w: 1920,
        monitor_h: 1080,
        split_ratio_x: 50,
        split_ratio_y: 50,
        flip_main: flip,
    }
}

fn tiles_for(mode: TilingMode, c: TilingConfig, n: usize) -> Vec<TileRegion> {
    let left_w = percent_of(c.monitor_w, c.split_ratio_x);
    let top_h = percent_of(c.work_height(), c.split_ratio_y);
    calculate_tiles(mode, c, n, left_w, top_h)
}

fn r(x: i32, y: i32, width: i32, height: i32) -> TileRegion {
    TileRegion { x, y, width, height }
}

#[test]
fn next_cycles_through_all_modes() {
    assert_eq!(TilingMode::Free.next(), TilingMode::TwoWindows);
    assert_eq!(TilingMode::TwoWindows.next(), TilingMode::ThreeWindows);
    assert_eq!(TilingMode::ThreeWindows.next(), TilingMode::FourWindows);
    assert_eq!(TilingMode::FourWindows.next(), TilingMode::Free);
    let mut m = TilingMode::ThreeWindows;
    for _ in 0..4 {
        m = m.next();
    }
    assert_eq!(m, TilingMode::ThreeWindows);
}

#[test]
fn free_mode_has_no_tiles() {
    assert!(tiles_for(TilingMode::Free, config(false), 5).is_empty());
}

#[test]
fn two_windows_split_left_and_right() {
    let t = tiles_for(TilingMode::TwoWindows, config(false), 2);
    assert_eq!(t, vec![r(0, 40, 960, 1040), r(960, 40, 960, 1040)]);
    let single = tiles_for(TilingMode::TwoWindows, config(false), 1);
    assert_eq!(single, vec![r(0, 40, 960, 1040)]);
    let none = tiles_for(TilingMode::TwoWindows, config(false), 0);
    assert_eq!(none, vec![r(0, 40, 960, 1040)]);
}

#[test]
fn three_windows_main_and_stack() {
    let t = tiles_for(TilingMode::ThreeWindows, config(false), 3);
    assert_eq!(t, vec![r(0, 40, 960, 1040), r(960, 40, 960, 520), r(960, 560, 960, 520)]);
    let two = tiles_for(TilingMode::ThreeWindows, config(false), 2);
    assert_eq!(two.len(), 2);
    let seven = tiles_for(TilingMode::ThreeWindows, config(false), 7);
    assert_eq!(seven.len(), 3);
}

#[test]
fn four_windows_grid_and_smaller_counts() {
    let mut c = config(false);
    c.split_ratio_x = 60;
    c.split_ratio_y = 25;
    let t = tiles_for(TilingMode::FourWindows, c, 4);
    assert_eq!(t, vec![r(0, 40, 1152, 260), r(1152, 40, 768, 260), r(0, 300, 1152, 780), r(1152, 300, 768, 780)]);
    let one = tiles_for(TilingMode::FourWindows, c, 1);
    assert_eq!(one, vec![r(0, 40, 1152, 260)]);
    let three = tiles_for(TilingMode::FourWindows, c, 3);
    assert_eq!(three, vec![r(0, 40, 1152, 1040), r(1152, 40, 768, 520), r(1152, 560, 768, 520)]);
}

#[test]
fn odd_work_height_gives_bottom_the_extra_pixel() {
    let mut c = config(false);
    c.monitor_h = 1081;
    let t = tiles_for(TilingMode::ThreeWindows, c, 3);
    assert_eq!(t[1].height, 520);
    assert_eq!(t[2].height, 521);
    assert_eq!(t[2].y, 560);
}

#[test]
fn flip_mirrors_every_tile() {
    let mut c = config(true);
    c.split_ratio_x = 70;
    let t = tiles_for(TilingMode::TwoWindows, c, 2);
    assert_eq!(t, vec![r(576, 40, 1344, 1040), r(0, 40, 576, 1040)]);
    c.monitor_x = 100;
    let t = tiles_for(TilingMode::TwoWindows, c, 2);
    assert_eq!(t, vec![r(676, 40, 1344, 1040), r(100, 40, 576, 1040)]);
}

#[test]
fn tiles_never_overlap_and_stay_on_the_monitor() {
    for &mode in &[TilingMode::TwoWindows, TilingMode::ThreeWindows, TilingMode::FourWindows] {
        for &flip in &[false, true] {
            for n in 0..6usize {
                let c = TilingConfig { split_ratio_x: 37, split_ratio_y: 71, ..config(flip) };
                let t = tiles_for(mode, c, n);
                for a in &t {
                    assert!(a.x >= 0 && a.x + a.width <= 1920);
                    assert!(a.y >= 40 && a.y + a.height <= 1080);
                }
                for i in 0..t.len() {
                    for j in 0..t.len() {
                        if i != j {
                            let (a, b) = (t[i], t[j]);
                            assert!(a.x + a.width <= b.x || b.x + b.width <= a.x || a.y + a.height <= b.y || b.y + b.height <= a.y);
                        }
                    }
                }
            }
        }
    }
}

#[test]
fn float_split_rounds_toward_zero() {
    // 0.29 * 1900 is just below 551 in floating point.
    assert_eq!(percent_of(1900, 29), (1900.0f64 * (29.0f64 / 100.0)) as i32);
    let c = TilingConfig { split_ratio_x: 29, monitor_w: 1900, ..config(false) };
    let t = tiles_for(TilingMode::TwoWindows, c, 2);
    assert_eq!(t[0].width + t[1].width, 1900);
    assert_eq!(t[1].x, t[0].width);
}

#[test]
fn work_height_is_below_the_bar() {
    assert_eq!(config(false).work_height(), 1040);
}
