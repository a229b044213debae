//! Win+Arrow window snapping: the snap state machine and the target regions.
use vstd::prelude::*;
use crate::geometry::{fits_i32, halve, Placement, Rect};

verus! {

/// Virtual-key codes of the arrow keys.
pub const VK_LEFT: u16 = 0x25;
pub const VK_UP: u16 = 0x26;
pub const VK_RIGHT: u16 = 0x27;
pub const VK_DOWN: u16 = 0x28;

/// Where a window is snapped.
#[derive(Debug, Clone, Copy, PartialEq, Eq, Structural)]
pub enum SnapState {
    Normal,
    Maximized,
    Left,
    Right,
    TopLeft,
    BottomLeft,
    TopRight,
    BottomRight,
}

/// The arrow key pressed together with Win.
#[derive(Debug, Clone, Copy, PartialEq, Eq, Structural)]
pub enum SnapKey {
    Left,
    Right,
    Up,
    Down,
}

pub open spec fn key_of_vk(vk: u16) -> Option<SnapKey> {
    if vk == VK_LEFT {
        Some(SnapKey::Left)
    } else if vk == VK_RIGHT {
        Some(SnapKey::Right)
    } else if vk == VK_UP {
        Some(SnapKey::Up)
    } else if vk == VK_DOWN {
        Some(SnapKey::Down)
    } else {
        None
    }
}

/// The arrow key for a virtual-key code; `None` for any other key.
pub fn snap_key_from_vk(vk: u16) -> (k: Option<SnapKey>)
    ensures
        k == key_of_vk(vk),
{
    if vk == VK_LEFT {
        Some(SnapKey::Left)
    } else if vk == VK_RIGHT {
        Some(SnapKey::Right)
    } else if vk == VK_UP {
        Some(SnapKey::Up)
    } else if vk == VK_DOWN {
        Some(SnapKey::Down)
    } else {
        None
    }
}

/// With the main area flipped, Left and Right trade places so that Win+Left
/// still goes to the visually left side.
pub open spec fn effective_key(key: SnapKey, flip_main: bool) -> SnapKey {
    if flip_main {
        match key {
            SnapKey::Left => SnapKey::Right,
            SnapKey::Right => SnapKey::Left,
            _ => key,
        }
    } else {
        key
    }
}

/// One step of the snap state machine.
#[derive(Debug, Clone, Copy, PartialEq, Eq, Structural)]
pub struct SnapStep {
    /// The state after the key press.
    pub next: SnapState,
    /// The window's current bounds are remembered as its normal bounds.
    pub save_bounds: bool,
    /// The window is minimized instead of moved.
    pub minimize: bool,
}

pub open spec fn step_of(next: SnapState, save_bounds: bool, minimize: bool) -> SnapStep {
    SnapStep { next, save_bounds, minimize }
}

/// The snap transition table. Left/Right move between the halves and the
/// quarters; from Normal or Maximized they snap to that half (remembering the
/// normal bounds when leaving Normal). Up goes to the top quarter or maximizes;
/// Down goes to the bottom quarter, restores, or minimizes a Normal window.
pub open spec fn snap_transition(current: SnapState, key: SnapKey) -> SnapStep {
    match key {
        SnapKey::Left => match current {
            SnapState::Right => step_of(SnapState::Normal, false, false),
            SnapState::TopRight => step_of(SnapState::TopLeft, false, false),
            SnapState::BottomRight => step_of(SnapState::BottomLeft, false, false),
            SnapState::Left | SnapState::TopLeft | SnapState::BottomLeft => step_of(current, false, false),
            SnapState::Normal => step_of(SnapState::Left, true, false),
            SnapState::Maximized => step_of(SnapState::Left, false, false),
        },
        SnapKey::Right => match current {
            SnapState::Left => step_of(SnapState::Normal, false, false),
            SnapState::TopLeft => step_of(SnapState::TopRight, false, false),
            SnapState::BottomLeft => step_of(SnapState::BottomRight, false, false),
            SnapState::Right | SnapState::TopRight | SnapState::BottomRight => step_of(current, false, false),
            SnapState::Normal => step_of(SnapState::Right, true, false),
            SnapState::Maximized => step_of(SnapState::Right, false, false),
        },
        SnapKey::Up => match current {
            SnapState::Left => step_of(SnapState::TopLeft, false, false),
            SnapState::Right => step_of(SnapState::TopRight, false, false),
            SnapState::BottomLeft => step_of(SnapState::Normal, false, false),
            SnapState::BottomRight => step_of(SnapState::Normal, false, false),
            SnapState::Normal => step_of(SnapState::Maximized, true, false),
            SnapState::Maximized | SnapState::TopLeft | SnapState::TopRight => step_of(current, false, false),
        },
        SnapKey::Down => match current {
            SnapState::Maximized => step_of(SnapState::Normal, false, false),
            SnapState::Left => step_of(SnapState::BottomLeft, false, false),
            SnapState::Right => step_of(SnapState::BottomRight, false, false),
            SnapState::TopLeft => step_of(SnapState::Normal, false, false),
            SnapState::TopRight => step_of(SnapState::Normal, false, false),
            SnapState::Normal => step_of(SnapState::Normal, false, true),
            SnapState::BottomLeft | SnapState::BottomRight => step_of(current, false, false),
        },
    }
}

/// Decide the next snap state for a key press, taking `flip_main` into account.
pub fn snap_step(current: SnapState, key: SnapKey, flip_main: bool) -> (s: SnapStep)
    ensures
        s == snap_transition(current, effective_key(key, flip_main)),
{
    let k = if flip_main {
        match key {
            SnapKey::Left => SnapKey::Right,
            SnapKey::Right => SnapKey::Left,
            _ => key,
        }
    } else {
        key
    };
    match k {
        SnapKey::Left => match current {
            SnapState::Right => SnapStep { next: SnapState::Normal, save_bounds: false, minimize: false },
            SnapState::TopRight => SnapStep { next: SnapState::TopLeft, save_bounds: false, minimize: false },
            SnapState::BottomRight => SnapStep { next: SnapState::BottomLeft, save_bounds: false, minimize: false },
            SnapState::Left | SnapState::TopLeft | SnapState::BottomLeft => SnapStep {
                next: current,
                save_bounds: false,
                minimize: false,
            },
            SnapState::Normal => SnapStep { next: SnapState::Left, save_bounds: true, minimize: false },
            SnapState::Maximized => SnapStep { next: SnapState::Left, save_bounds: false, minimize: false },
        },
        SnapKey::Right => match current {
            SnapState::Left => SnapStep { next: SnapState::Normal, save_bounds: false, minimize: false },
            SnapState::TopLeft => SnapStep { next: SnapState::TopRight, save_bounds: false, minimize: false },
            SnapState::BottomLeft => SnapStep { next: SnapState::BottomRight, save_bounds: false, minimize: false },
            SnapState::Right | SnapState::TopRight | SnapState::BottomRight => SnapStep {
                next: current,
                save_bounds: false,
                minimize: false,
            },
            SnapState::Normal => SnapStep { next: SnapState::Right, save_bounds: true, minimize: false },
            SnapState::Maximized => SnapStep { next: SnapState::Right, save_bounds: false, minimize: false },
        },
        SnapKey::Up => match current {
            SnapState::Left => SnapStep { next: SnapState::TopLeft, save_bounds: false, minimize: false },
            SnapState::Right => SnapStep { next: SnapState::TopRight, save_bounds: false, minimize: false },
            SnapState::BottomLeft => SnapStep { next: SnapState::Normal, save_bounds: false, minimize: false },
            SnapState::BottomRight => SnapStep { next: SnapState::Normal, save_bounds: false, minimize: false },
            SnapState::Normal => SnapStep { next: SnapState::Maximized, save_bounds: true, minimize: false },
            SnapState::Maximized | SnapState::TopLeft | SnapState::TopRight => SnapStep {
                next: current,
                save_bounds: false,
                minimize: false,
            },
        },
        SnapKey::Down => match current {
            SnapState::Maximized => SnapStep { next: SnapState::Normal, save_bounds: false, minimize: false },
            SnapState::Left => SnapStep { next: SnapState::BottomLeft, save_bounds: false, minimize: false },
            SnapState::Right => SnapStep { next: SnapState::BottomRight, save_bounds: false, minimize: false },
            SnapState::TopLeft => SnapStep { next: SnapState::Normal, save_bounds: false, minimize: false },
            SnapState::TopRight => SnapStep { next: SnapState::Normal, save_bounds: false, minimize: false },
            SnapState::Normal => SnapStep { next: SnapState::Normal, save_bounds: false, minimize: true },
            SnapState::BottomLeft | SnapState::BottomRight => SnapStep {
                next: current,
                save_bounds: false,
                minimize: false,
            },
        },
    }
}

/// Margins kept free when snapping.
#[derive(Debug, Clone, Copy, PartialEq, Eq, Structural)]
pub struct Spacing {
    pub top: i32,
    pub bottom: i32,
    pub left: i32,
    pub right: i32,
    pub inner: i32,
}

/// The snapping area: the monitor work area minus the margins. `avail_w` and
/// `avail_h` are its size minus the inner spacing; the split ratios divide them.
#[derive(Debug, Clone, Copy, PartialEq, Eq, Structural)]
pub struct SnapArea {
    pub x: i32,
    pub y: i32,
    pub w: i32,
    pub h: i32,
    pub avail_w: i32,
    pub avail_h: i32,
}

pub open spec fn snap_area_fits(work: Rect, sp: Spacing) -> bool {
    &&& fits_i32(work.left + sp.left)
    &&& fits_i32(work.top + sp.top)
    &&& fits_i32(work.right - work.left)
    &&& fits_i32(work.right - work.left - sp.left)
    &&& fits_i32(work.right - work.left - sp.left - sp.right)
    &&& fits_i32(work.bottom - work.top)
    &&& fits_i32(work.bottom - work.top - sp.top)
    &&& fits_i32(work.bottom - work.top - sp.top - sp.bottom)
    &&& fits_i32(work.right - work.left - sp.left - sp.right - sp.inner)
    &&& fits_i32(work.bottom - work.top - sp.top - sp.bottom - sp.inner)
}

/// The snapping area inside the monitor work area `work`.
pub fn snap_area(work: Rect, sp: Spacing) -> (a: SnapArea)
    requires
        snap_area_fits(work, sp),
    ensures
        a.x == work.left + sp.left,
        a.y == work.top + sp.top,
        a.w == work.right - work.left - sp.left - sp.right,
        a.h == work.bottom - work.top - sp.top - sp.bottom,
        a.avail_w == a.w - sp.inner,
        a.avail_h == a.h - sp.inner,
{
    let x = work.left + sp.left;
    let y = work.top + sp.top;
    let w = (work.right - work.left) - sp.left - sp.right;
    let h = (work.bottom - work.top) - sp.top - sp.bottom;
    SnapArea { x, y, w, h, avail_w: w - sp.inner, avail_h: h - sp.inner }
}

/// The region (x, y, width, height) of a snap state, before mirroring.
/// `half_w` and `half_h` are the sizes of the left column and the top row.
pub open spec fn snap_region(
    state: SnapState,
    a: SnapArea,
    inner: int,
    half_w: int,
    half_h: int,
    normal: Option<Rect>,
) -> (int, int, int, int) {
    let other_w = a.w - half_w - inner;
    let other_h = a.h - half_h - inner;
    match state {
        SnapState::Normal => match normal {
            Some(r) => (r.left as int, r.top as int, r.right - r.left, r.bottom - r.top),
            None => (a.x + quarter(a.w as int), a.y + quarter(a.h as int), halve(a.w as int), halve(a.h as int)),
        },
        SnapState::Maximized => (a.x as int, a.y as int, a.w as int, a.h as int),
        SnapState::Left => (a.x as int, a.y as int, half_w, a.h as int),
        SnapState::Right => (a.x + half_w + inner, a.y as int, other_w, a.h as int),
        SnapState::TopLeft => (a.x as int, a.y as int, half_w, half_h),
        SnapState::BottomLeft => (a.x as int, a.y + half_h + inner, half_w, other_h),
        SnapState::TopRight => (a.x + half_w + inner, a.y as int, other_w, half_h),
        SnapState::BottomRight => (a.x + half_w + inner, a.y + half_h + inner, other_w, other_h),
    }
}

/// Integer division by four rounding toward zero, as Rust's `/` does.
pub open spec fn quarter(v: int) -> int {
    if v >= 0 { v / 4 } else { -((-v) / 4) }
}

pub open spec fn placement_of(p: Placement) -> (int, int, int, int) {
    (p.x as int, p.y as int, p.width as int, p.height as int)
}

/// No step of computing the region of `state` leaves the 32-bit range.
pub open spec fn snap_region_fits(
    state: SnapState,
    a: SnapArea,
    inner: int,
    half_w: int,
    half_h: int,
    normal: Option<Rect>,
) -> bool {
    &&& fits_i32(a.w - half_w)
    &&& fits_i32(a.w - half_w - inner)
    &&& fits_i32(a.h - half_h)
    &&& fits_i32(a.h - half_h - inner)
    &&& match state {
        SnapState::Normal => match normal {
            Some(r) => fits_i32(r.right - r.left) && fits_i32(r.bottom - r.top),
            None => fits_i32(a.x + quarter(a.w as int)) && fits_i32(a.y + quarter(a.h as int)),
        },
        SnapState::Right | SnapState::TopRight => fits_i32(a.x + half_w) && fits_i32(a.x + half_w + inner),
        SnapState::BottomLeft => fits_i32(a.y + half_h) && fits_i32(a.y + half_h + inner),
        SnapState::BottomRight => fits_i32(a.x + half_w) && fits_i32(a.x + half_w + inner)
            && fits_i32(a.y + half_h) && fits_i32(a.y + half_h + inner),
        _ => true,
    }
}

/// The region of a snap state inside the snapping area. A Normal window goes
/// back to its remembered bounds, or to the centre half of the area when none
/// were remembered.
pub fn snap_region_of(
    state: SnapState,
    a: SnapArea,
    inner: i32,
    half_w: i32,
    half_h: i32,
    normal: Option<Rect>,
) -> (p: Placement)
    requires
        snap_region_fits(state, a, inner as int, half_w as int, half_h as int, normal),
    ensures
        placement_of(p) == snap_region(state, a, inner as int, half_w as int, half_h as int, normal),
{
    let other_w = a.w - half_w - inner;
    let other_h = a.h - half_h - inner;
    match state {
        SnapState::Normal => match normal {
            Some(r) => Placement { x: r.left, y: r.top, width: r.right - r.left, height: r.bottom - r.top },
            None => Placement { x: a.x + a.w / 4, y: a.y + a.h / 4, width: a.w / 2, height: a.h / 2 },
        },
        SnapState::Maximized => Placement { x: a.x, y: a.y, width: a.w, height: a.h },
        SnapState::Left => Placement { x: a.x, y: a.y, width: half_w, height: a.h },
        SnapState::Right => Placement { x: a.x + half_w + inner, y: a.y, width: other_w, height: a.h },
        SnapState::TopLeft => Placement { x: a.x, y: a.y, width: half_w, height: half_h },
        SnapState::BottomLeft => Placement { x: a.x, y: a.y + half_h + inner, width: half_w, height: other_h },
        SnapState::TopRight => Placement { x: a.x + half_w + inner, y: a.y, width: other_w, height: half_h },
        SnapState::BottomRight => Placement {
            x: a.x + half_w + inner,
            y: a.y + half_h + inner,
            width: other_w,
            height: other_h,
        },
    }
}

fn in_range(v: i64) -> (b: bool)
    ensures
        b == fits_i32(v as int),
{
    i32::MIN as i64 <= v && v <= i32::MAX as i64
}

/// Whether `snap_area` stays within 32-bit integers.
pub fn snap_area_fits_check(work: Rect, sp: Spacing) -> (b: bool)
    ensures
        b == snap_area_fits(work, sp),
{
    let w = work.right as i64 - work.left as i64;
    let h = work.bottom as i64 - work.top as i64;
    in_range(work.left as i64 + sp.left as i64) && in_range(work.top as i64 + sp.top as i64) && in_range(w)
        && in_range(w - sp.left as i64) && in_range(w - sp.left as i64 - sp.right as i64) && in_range(h)
        && in_range(h - sp.top as i64) && in_range(h - sp.top as i64 - sp.bottom as i64) && in_range(
        w - sp.left as i64 - sp.right as i64 - sp.inner as i64,
    ) && in_range(h - sp.top as i64 - sp.bottom as i64 - sp.inner as i64)
}

fn quarter_toward_zero(v: i32) -> (q: i64)
    ensures
        q == quarter(v as int),
{
    let w = v as i64;
    if w >= 0 {
        w / 4
    } else {
        -((-w) / 4)
    }
}

/// Whether `snap_region_of` stays within 32-bit integers.
pub fn snap_region_fits_check(
    state: SnapState,
    a: SnapArea,
    inner: i32,
    half_w: i32,
    half_h: i32,
    normal: Option<Rect>,
) -> (b: bool)
    ensures
        b == snap_region_fits(state, a, inner as int, half_w as int, half_h as int, normal),
{
    let (w, h, hw, hh, i) = (a.w as i64, a.h as i64, half_w as i64, half_h as i64, inner as i64);
    let (x, y) = (a.x as i64, a.y as i64);
    if !(in_range(w - hw) && in_range(w - hw - i) && in_range(h - hh) && in_range(h - hh - i)) {
        return false;
    }
    match state {
        SnapState::Normal => match normal {
            Some(r) => in_range(r.right as i64 - r.left as i64) && in_range(r.bottom as i64 - r.top as i64),
            None => in_range(x + quarter_toward_zero(a.w)) && in_range(y + quarter_toward_zero(a.h)),
        },
        SnapState::Right | SnapState::TopRight => in_range(x + hw) && in_range(x + hw + i),
        SnapState::BottomLeft => in_range(y + hh) && in_range(y + hh + i),
        SnapState::BottomRight => in_range(x + hw) && in_range(x + hw + i) && in_range(y + hh) && in_range(
            y + hh + i,
        ),
        _ => true,
    }
}

/// The left and right halves sit side by side, separated by the inner
/// spacing, and together span the snapping area exactly; likewise the top and
/// bottom quarters span its height.
pub proof fn lemma_halves_span_area(a: SnapArea, inner: int, half_w: int, half_h: int, normal: Option<Rect>)
    ensures
        ({
            let l = snap_region(SnapState::Left, a, inner, half_w, half_h, normal);
            let r = snap_region(SnapState::Right, a, inner, half_w, half_h, normal);
            &&& l.0 == a.x
            &&& l.0 + l.2 + inner == r.0
            &&& r.0 + r.2 == a.x + a.w
            &&& l.1 == r.1 && l.3 == r.3
        }),
        ({
            let t = snap_region(SnapState::TopLeft, a, inner, half_w, half_h, normal);
            let b = snap_region(SnapState::BottomLeft, a, inner, half_w, half_h, normal);
            &&& t.1 == a.y
            &&& t.1 + t.3 + inner == b.1
            &&& b.1 + b.3 == a.y + a.h
            &&& t.0 == b.0 && t.2 == b.2
        }),
{
}

/// Left and Right undo each other: from any state other than Maximized that a
/// Win+Left press changes, a Win+Right press returns to it, and vice versa.
pub proof fn lemma_left_right_undo(s: SnapState)
    ensures
        s != SnapState::Maximized && snap_transition(s, SnapKey::Left).next != s
            ==> snap_transition(snap_transition(s, SnapKey::Left).next, SnapKey::Right).next == s,
        s != SnapState::Maximized && snap_transition(s, SnapKey::Right).next != s
            ==> snap_transition(snap_transition(s, SnapKey::Right).next, SnapKey::Left).next == s,
{
}

/// Maximizing a Normal window with Win+Up is undone by Win+Down; Win+Down on a
/// Normal window minimizes it without changing its state.
pub proof fn lemma_up_down_round_trip()
    ensures
        snap_transition(SnapState::Normal, SnapKey::Up).next == SnapState::Maximized,
        snap_transition(SnapState::Maximized, SnapKey::Down).next == SnapState::Normal,
        snap_transition(SnapState::Normal, SnapKey::Down) == step_of(SnapState::Normal, false, true),
{
}

/// Only a key press that leaves the Normal state remembers the bounds, and only
/// Win+Down on a Normal window minimizes.
pub proof fn lemma_bounds_saved_only_when_leaving_normal(s: SnapState, k: SnapKey)
    ensures
        snap_transition(s, k).save_bounds <==> (s == SnapState::Normal && snap_transition(s, k).next != SnapState::Normal),
        snap_transition(s, k).minimize <==> (s == SnapState::Normal && k == SnapKey::Down),
{
}

/// With `flip_main`, Win+Left behaves as Win+Right does without it and vice
/// versa; Up and Down are unaffected.
pub proof fn lemma_flip_swaps_left_and_right(s: SnapState)
    ensures
        snap_transition(s, effective_key(SnapKey::Left, true)) == snap_transition(s, SnapKey::Right),
        snap_transition(s, effective_key(SnapKey::Right, true)) == snap_transition(s, SnapKey::Left),
        snap_transition(s, effective_key(SnapKey::Up, true)) == snap_transition(s, SnapKey::Up),
        snap_transition(s, effective_key(SnapKey::Down, true)) == snap_transition(s, SnapKey::Down),
{
}

/// Win+Up and Win+Down never move a snapped window to the other side: unless
/// the window goes to or comes from its normal bounds, the new region has the
/// same left edge and width as the old one, whatever the snapping geometry.
pub proof fn lemma_vertical_keys_keep_column(
    s: SnapState,
    k: SnapKey,
    a: SnapArea,
    inner: int,
    half_w: int,
    half_h: int,
    normal: Option<Rect>,
)
    requires
        k == SnapKey::Up || k == SnapKey::Down,
    ensures
        ({
            let n = snap_transition(s, k).next;
            let before = snap_region(s, a, inner, half_w, half_h, normal);
            let after = snap_region(n, a, inner, half_w, half_h, normal);
            s != SnapState::Normal && n != SnapState::Normal ==> after.0 == before.0 && after.2 == before.2
        }),
{
}

/// Win+Left and Win+Right never move a snapped window to another row: unless
/// the window goes to or comes from its normal bounds, the new region has the
/// same top edge and height as the old one, whatever the snapping geometry.
pub proof fn lemma_horizontal_keys_keep_row(
    s: SnapState,
    k: SnapKey,
    a: SnapArea,
    inner: int,
    half_w: int,
    half_h: int,
    normal: Option<Rect>,
)
    requires
        k == SnapKey::Left || k == SnapKey::Right,
    ensures
        ({
            let n = snap_transition(s, k).next;
            let before = snap_region(s, a, inner, half_w, half_h, normal);
            let after = snap_region(n, a, inner, half_w, half_h, normal);
            s != SnapState::Normal && n != SnapState::Normal ==> after.1 == before.1 && after.3 == before.3
        }),
{
}

/// Each arrow moves a snapped window its way and never the other: Win+Left
/// never moves its left edge right, Win+Right never moves it left, Win+Up
/// never moves its top edge down and Win+Down never moves it up. A window that
/// is not yet against the side of the area an arrow points to always changes
/// state.
pub proof fn lemma_arrows_move_their_way(
    s: SnapState,
    k: SnapKey,
    a: SnapArea,
    inner: int,
    half_w: int,
    half_h: int,
    normal: Option<Rect>,
)
    requires
        0 <= inner,
        0 < half_w,
        0 < half_h,
    ensures
        ({
            let n = snap_transition(s, k).next;
            let before = snap_region(s, a, inner, half_w, half_h, normal);
            let after = snap_region(n, a, inner, half_w, half_h, normal);
            &&& s != SnapState::Normal && n != SnapState::Normal ==> {
                &&& k == SnapKey::Left ==> after.0 <= before.0
                &&& k == SnapKey::Right ==> after.0 >= before.0
                &&& k == SnapKey::Up ==> after.1 <= before.1
                &&& k == SnapKey::Down ==> after.1 >= before.1
            }
            &&& s != SnapState::Normal ==> {
                &&& k == SnapKey::Left && before.0 != a.x ==> n != s
                &&& k == SnapKey::Right && before.0 + before.2 != a.x + a.w ==> n != s
                &&& k == SnapKey::Up && before.1 != a.y ==> n != s
                &&& k == SnapKey::Down && before.1 + before.3 != a.y + a.h ==> n != s
            }
        }),
{
}

} // verus!
