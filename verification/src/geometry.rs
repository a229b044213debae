//! Screen rectangles and the window-placement arithmetic shared by the
//! taskbar, the menu and the fullscreen detection.
use vstd::prelude::*;

verus! {

/// A rectangle given by its edges, as the Windows API reports it.
#[derive(Debug, Clone, Copy, PartialEq, Eq, Structural)]
pub struct Rect {
    pub left: i32,
    pub top: i32,
    pub right: i32,
    pub bottom: i32,
}

/// `v` is a 32-bit signed integer.
pub open spec fn fits_i32(v: int) -> bool {
    i32::MIN <= v <= i32::MAX
}

/// Width of the taskbar window for a number of virtual desktops:
/// 440 + 30 * desktop_count.
pub open spec fn taskbar_width(desktop_count: int) -> int {
    440 + 30 * desktop_count
}

/// Calculate the taskbar window width from the desktop count.
/// - desktop section: 20px padding + N*28px buttons + (N-1)*2px gaps
/// - tiling section: about 342px (four fixed buttons)
/// - menu section: 28px button + 20px padding
/// - separators and gaps
pub fn compute_width(desktop_count: i32) -> (w: i32)
    requires
        fits_i32(30 * desktop_count),
        fits_i32(taskbar_width(desktop_count as int)),
    ensures
        w == taskbar_width(desktop_count as int),
{
    440 + 30 * desktop_count
}

/// The border that the window adds around its client area, per axis.
pub open spec fn border_width(window: Rect, client: Rect) -> int {
    (window.right - window.left) - (client.right - client.left)
}

pub open spec fn border_height(window: Rect, client: Rect) -> int {
    (window.bottom - window.top) - (client.bottom - client.top)
}

/// No step of `outer_size` leaves the 32-bit range.
pub open spec fn outer_size_fits(client_w: int, client_h: int, window: Rect, client: Rect) -> bool {
    &&& fits_i32(window.right - window.left)
    &&& fits_i32(client.right - client.left)
    &&& fits_i32(window.bottom - window.top)
    &&& fits_i32(client.bottom - client.top)
    &&& fits_i32(border_width(window, client))
    &&& fits_i32(border_height(window, client))
    &&& fits_i32(client_w + border_width(window, client))
    &&& fits_i32(client_h + border_height(window, client))
}

/// The outer window size that gives a client area of `client_w` x `client_h`,
/// given the current window and client rectangles of the window.
pub fn outer_size(client_w: i32, client_h: i32, window: Rect, client: Rect) -> (r: (i32, i32))
    requires
        outer_size_fits(client_w as int, client_h as int, window, client),
    ensures
        r.0 == client_w + border_width(window, client),
        r.1 == client_h + border_height(window, client),
{
    let bw = (window.right - window.left) - (client.right - client.left);
    let bh = (window.bottom - window.top) - (client.bottom - client.top);
    (client_w + bw, client_h + bh)
}

/// Integer division by two rounding toward zero, as Rust's `/` does.
pub open spec fn halve(v: int) -> int {
    if v >= 0 { v / 2 } else { -((-v) / 2) }
}

/// The x position that centres a window of width `width` on a screen of
/// width `screen_w`.
pub fn centered_x(screen_w: i32, width: i32) -> (x: i32)
    requires
        fits_i32(screen_w - width),
    ensures
        x == halve(screen_w - width),
{
    (screen_w - width) / 2
}

/// Size of the popup menu window.
pub const MENU_WIDTH: i32 = 200;
pub const MENU_HEIGHT: i32 = 200;
/// Offset of the menu from the right edge of the main window.
pub const MENU_OFFSET_X: i32 = 20;
/// Offset of the menu below the bottom edge of the main window.
pub const MENU_OFFSET_Y: i32 = 4;

/// Position of the popup menu for a main window rectangle: its right edge
/// sits `MENU_OFFSET_X` left of the main window's right edge, just below it.
pub fn menu_position(main: Rect) -> (p: (i32, i32))
    requires
        fits_i32(main.right - MENU_WIDTH - MENU_OFFSET_X),
        fits_i32(main.bottom + MENU_OFFSET_Y),
    ensures
        p.0 == main.right - MENU_WIDTH - MENU_OFFSET_X,
        p.1 == main.bottom + MENU_OFFSET_Y,
{
    (main.right - MENU_WIDTH - MENU_OFFSET_X, main.bottom + MENU_OFFSET_Y)
}

/// The window rectangle covers the whole monitor rectangle.
pub open spec fn spec_covers(window: Rect, monitor: Rect) -> bool {
    &&& window.left <= monitor.left
    &&& window.top <= monitor.top
    &&& window.right >= monitor.right
    &&& window.bottom >= monitor.bottom
}

/// A window is fullscreen when its rectangle covers its monitor.
pub fn covers_monitor(window: Rect, monitor: Rect) -> (b: bool)
    ensures
        b == spec_covers(window, monitor),
{
    window.left <= monitor.left && window.top <= monitor.top && window.right >= monitor.right
        && window.bottom >= monitor.bottom
}

/// A window placement: position and size.
#[derive(Debug, Clone, Copy, PartialEq, Eq, Structural)]
pub struct Placement {
    pub x: i32,
    pub y: i32,
    pub width: i32,
    pub height: i32,
}

/// What the DevTools toggle does with the main window.
pub open spec fn devtools_placement(
    window: Rect,
    normal_height: int,
    debug_w: int,
    debug_h: int,
    screen_w: int,
) -> (int, int, int, int) {
    let current_h = window.bottom - window.top;
    if current_h > normal_height * 2 {
        let w = window.right - window.left;
        (halve(screen_w - w), 0, w, normal_height)
    } else {
        (halve(screen_w - debug_w), 0, debug_w, debug_h)
    }
}

pub open spec fn devtools_fits(window: Rect, normal_height: int, debug_w: int, screen_w: int) -> bool {
    &&& fits_i32(window.bottom - window.top)
    &&& fits_i32(normal_height * 2)
    &&& window.bottom - window.top > normal_height * 2 ==> {
        &&& fits_i32(window.right - window.left)
        &&& fits_i32(screen_w - (window.right - window.left))
    }
    &&& window.bottom - window.top <= normal_height * 2 ==> fits_i32(screen_w - debug_w)
}

/// Toggle between the taskbar size and a size large enough for DevTools.
/// A window taller than twice its normal height is restored to the normal
/// height (keeping its width); otherwise it grows to `debug_w` x `debug_h`.
/// Either way it is centred horizontally at the top of the screen.
pub fn devtools_toggle(window: Rect, normal_height: i32, debug_w: i32, debug_h: i32, screen_w: i32) -> (p: Placement)
    requires
        devtools_fits(window, normal_height as int, debug_w as int, screen_w as int),
    ensures
        (p.x as int, p.y as int, p.width as int, p.height as int) == devtools_placement(
            window,
            normal_height as int,
            debug_w as int,
            debug_h as int,
            screen_w as int,
        ),
{
    let current_h = window.bottom - window.top;
    let threshold = normal_height * 2;
    if current_h > threshold {
        let w = window.right - window.left;
        Placement { x: (screen_w - w) / 2, y: 0, width: w, height: normal_height }
    } else {
        Placement { x: (screen_w - debug_w) / 2, y: 0, width: debug_w, height: debug_h }
    }
}

fn in_range(v: i64) -> (b: bool)
    ensures
        b == fits_i32(v as int),
{
    i32::MIN as i64 <= v && v <= i32::MAX as i64
}

/// Whether `compute_width` stays within 32-bit integers.
pub fn compute_width_fits(desktop_count: i32) -> (b: bool)
    ensures
        b == (fits_i32(30 * desktop_count) && fits_i32(taskbar_width(desktop_count as int))),
{
    let n = desktop_count as i64;
    in_range(30 * n) && in_range(440 + 30 * n)
}

/// Whether `outer_size` stays within 32-bit integers.
pub fn outer_size_fits_check(client_w: i32, client_h: i32, window: Rect, client: Rect) -> (b: bool)
    ensures
        b == outer_size_fits(client_w as int, client_h as int, window, client),
{
    let ww = window.right as i64 - window.left as i64;
    let cw = client.right as i64 - client.left as i64;
    let wh = window.bottom as i64 - window.top as i64;
    let ch = client.bottom as i64 - client.top as i64;
    in_range(ww) && in_range(cw) && in_range(wh) && in_range(ch) && in_range(ww - cw) && in_range(wh - ch)
        && in_range(client_w as i64 + (ww - cw)) && in_range(client_h as i64 + (wh - ch))
}

/// Whether `menu_position` stays within 32-bit integers.
pub fn menu_position_fits(main: Rect) -> (b: bool)
    ensures
        b == (fits_i32(main.right - MENU_WIDTH - MENU_OFFSET_X) && fits_i32(main.bottom + MENU_OFFSET_Y)),
{
    in_range(main.right as i64 - 220) && in_range(main.bottom as i64 + 4)
}

/// Whether `devtools_toggle` stays within 32-bit integers.
pub fn devtools_fits_check(window: Rect, normal_height: i32, debug_w: i32, screen_w: i32) -> (b: bool)
    ensures
        b == devtools_fits(window, normal_height as int, debug_w as int, screen_w as int),
{
    let h = window.bottom as i64 - window.top as i64;
    let t = normal_height as i64 * 2;
    if !in_range(h) || !in_range(t) {
        return false;
    }
    if h > t {
        let w = window.right as i64 - window.left as i64;
        in_range(w) && in_range(screen_w as i64 - w)
    } else {
        in_range(screen_w as i64 - debug_w as i64)
    }
}

} // verus!
