use tile_wm::config::Config;
use tile_wm::tiling::{TileRegion, TilingConfig, TilingMode};
use tile_wm::windows::{apps_per_desktop, is_excluded, plan_tiling, window_list, AppWindow, TileAssignment, WindowInfo};

fn win(hwnd: isize, title: &str, process: &str, cloaked: bool, minimized: bool) -> WindowInfo {
    WindowInfo {
        hwnd,
        title: title.to_string(),
        process_name: process.to_string(),
        rect: (0, 0, 100, 100),
        is_visible: true,
        is_minimized: minimized,
        is_cloaked: cloaked,
    }
}

fn monitor() -> TilingConfig {
    TilingConfig { monitor_x: 0, monitor_y: 0, monitor_w: 1000, monitor_h: 840, split_ratio_x: 50, split_ratio_y: 50, flip_main: false }
}

#[test]
fn exclusion_by_process_or_title() {
    let procs = vec!["tile_wm.exe".to_string()];
    let titles = vec!["Settings".to_string()];
    assert!(is_excluded("tile_wm.exe", "Taskbar", &procs, &titles));
    assert!(is_excluded("explorer.exe", "Windows Settings", &procs, &titles));
    assert!(!is_excluded("explorer.exe", "Downloads", &procs, &titles));
    assert!(is_excluded("a.exe", "b", &vec!["".to_string()], &vec![]));
}

#[test]
fn window_list_skips_cloaked_and_excluded() {
    let mut c = Config::default();
    c.exclude_titles = vec!["Calculator".to_string()];
    let ws = vec![
        win(30, "Editor", "code.exe", false, false),
        win(10, "Calculator", "calc.exe", false, false),
        win(20, "Ghost", "ghost.exe", true, false),
        win(40, "Taskbar", "tile_wm.exe", false, false),
        win(5, "Terminal", "wt.exe", false, true),
    ];
    let l = window_list(&ws, &c);
    let hwnds: Vec<isize> = l.iter().map(|w| w.hwnd).collect();
    assert_eq!(hwnds, vec![30, 5]);
    assert_eq!(l[1].title, "Terminal");
}

#[test]
fn plan_sorts_by_handle_and_rotates_with_cycle() {
    let c = Config::default();
    let ws = vec![win(30, "A", "a.exe", false, false), win(10, "B", "b.exe", false, true), win(20, "C", "c.exe", false, false)];
    let t = monitor();
    let p = plan_tiling(&ws, &c, TilingMode::ThreeWindows, t, 0, 500, 400).unwrap();
    let expect = |h: isize, restore: bool, x: i32, y: i32, w: i32, hh: i32| TileAssignment {
        hwnd: h,
        restore,
        region: TileRegion { x, y, width: w, height: hh },
    };
    assert_eq!(
        p,
        vec![expect(10, true, 0, 40, 500, 800), expect(20, false, 500, 40, 500, 400), expect(30, false, 500, 440, 500, 400)]
    );
    let p1 = plan_tiling(&ws, &c, TilingMode::ThreeWindows, t, 1, 500, 400).unwrap();
    assert_eq!(p1.iter().map(|a| a.hwnd).collect::<Vec<_>>(), vec![20, 30, 10]);
    let p4 = plan_tiling(&ws, &c, TilingMode::ThreeWindows, t, 4, 500, 400).unwrap();
    assert_eq!(p4, p1);
}

#[test]
fn plan_uses_fewer_of_tiles_and_windows() {
    let c = Config::default();
    let ws: Vec<WindowInfo> = (1..=6).map(|i| win(i, "w", "p.exe", false, false)).collect();
    let p = plan_tiling(&ws, &c, TilingMode::TwoWindows, monitor(), 0, 500, 400).unwrap();
    assert_eq!(p.len(), 2);
    let one = vec![win(1, "w", "p.exe", false, false)];
    let p = plan_tiling(&one, &c, TilingMode::FourWindows, monitor(), 0, 500, 400).unwrap();
    assert_eq!(p.len(), 1);
    assert_eq!(p[0].region, TileRegion { x: 0, y: 40, width: 500, height: 400 });
    assert!(plan_tiling(&one, &c, TilingMode::Free, monitor(), 0, 500, 400).unwrap().is_empty());
}

#[test]
fn plan_with_nothing_to_tile() {
    let c = Config::default();
    let ws = vec![win(1, "Taskbar", "tile_wm.exe", false, false), win(2, "x", "y", true, false)];
    assert_eq!(plan_tiling(&ws, &c, TilingMode::TwoWindows, monitor(), 0, 500, 400), None);
    assert_eq!(plan_tiling(&Vec::new(), &c, TilingMode::TwoWindows, monitor(), 0, 500, 400), None);
}

#[test]
fn apps_grouped_per_desktop_once_per_process() {
    let aw = |h: isize, title: &str, p: &str| AppWindow {
        hwnd: h,
        title: title.to_string(),
        process_name: p.to_string(),
        process_path: format!("C:\\\\Apps\\\\{}", p),
    };
    let ws = vec![
        aw(1, "Doc 1", "word.exe", ),
        aw(2, "Doc 2", "word.exe"),
        aw(3, "Browser", "edge.exe"),
        aw(4, "Taskbar", "tile_wm.exe"),
    ];
    let on = vec![vec![true, false], vec![true, true], vec![false, true], vec![true, true]];
    let r = apps_per_desktop(&ws, &on, 2, &vec!["tile_wm.exe".to_string()], &vec![]);
    assert_eq!(r, vec![vec![0], vec![1, 2]]);
}

#[test]
fn popup_host_is_never_tiled_but_still_listed() {
    let c = Config::default();
    assert!(c.exclude_titles.is_empty());
    let ws = vec![win(1, "PopupHost", "explorer.exe", false, false), win(2, "Editor", "code.exe", false, false)];
    let p = plan_tiling(&ws, &c, TilingMode::TwoWindows, monitor(), 0, 500, 400).unwrap();
    assert_eq!(p.iter().map(|a| a.hwnd).collect::<Vec<_>>(), vec![2]);
    assert_eq!(window_list(&ws, &c).len(), 2);
    let only_popup = vec![win(3, "xPopupHostx", "explorer.exe", false, false)];
    assert!(plan_tiling(&only_popup, &c, TilingMode::TwoWindows, monitor(), 0, 500, 400).is_none());
}
