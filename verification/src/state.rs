//! The application state: per-desktop tiling modes, layout cycles, snap states
//! and remembered window bounds.
use vstd::prelude::*;
use std::collections::HashMap;
use crate::config::Config;
use crate::geometry::{Placement, Rect};
use crate::snap::{
    effective_key, placement_of, snap_region, snap_region_fits, snap_region_fits_check, snap_region_of,
    snap_step, snap_transition, SnapArea, SnapKey, SnapState,
};
use crate::tiling::{mirrored_x, TilingConfig, TilingMode};
use crate::windows::{lemma_plan_wraps, tiled_count, tiling_plan, WindowInfo};
use crate::geometry::fits_i32;

verus! {

broadcast use vstd::std_specs::hash::group_hash_axioms;

/// The state shared by the commands and the background threads.
pub struct AppState {
    pub config: Config,
    pub current_desktop: i32,
    pub tiling_modes: HashMap<i32, TilingMode>,
    pub tiling_cycles: HashMap<i32, i32>,
    pub float_window_pos: (i32, i32),
    pub snap_states: HashMap<isize, SnapState>,
    pub normal_bounds: HashMap<isize, Rect>,
    /// Set while the menu is intentionally shown.
    pub menu_shown: bool,
    /// Incremented each time the menu is shown, so that stale monitor threads
    /// can notice and exit.
    pub menu_generation: u64,
}

/// The tiling mode of desktop `d`; desktops never set are in Free mode.
pub open spec fn mode_on(modes: Map<i32, TilingMode>, d: i32) -> TilingMode {
    if modes.contains_key(d) {
        modes[d]
    } else {
        TilingMode::Free
    }
}

/// The layout cycle of desktop `d`; 0 when never set.
pub open spec fn cycle_on(cycles: Map<i32, i32>, d: i32) -> i32 {
    if cycles.contains_key(d) {
        cycles[d]
    } else {
        0
    }
}

/// The snap state of window `h`; Normal when never snapped.
pub open spec fn snap_state_of(states: Map<isize, SnapState>, h: isize) -> SnapState {
    if states.contains_key(h) {
        states[h]
    } else {
        SnapState::Normal
    }
}

/// Follows the current desktop number as the registry reports it.
pub struct DesktopWatch {
    pub last: i32,
}

impl DesktopWatch {
    /// Report whether the desktop number `current` differs from the last one
    /// seen, and remember it.
    pub fn observe(&mut self, current: i32) -> (changed: bool)
        ensures
            changed == (current != old(self).last),
            final(self).last == current,
    {
        let changed = current != self.last;
        self.last = current;
        changed
    }

    /// Take one reading of the current desktop number (`None` when it could
    /// not be read): a number that differs from the last one seen is
    /// remembered and reported as a desktop change.
    pub fn poll(&mut self, reading: Option<i32>) -> (event: Option<i32>)
        ensures
            (final(self).last, event) == watch_tick(old(self).last, reading),
    {
        match reading {
            None => None,
            Some(n) => {
                if self.observe(n) {
                    Some(n)
                } else {
                    None
                }
            },
        }
    }
}

/// One reading of the desktop watcher: the last number seen afterwards, and
/// the change reported, if any.
pub open spec fn watch_tick(last: i32, reading: Option<i32>) -> (i32, Option<i32>) {
    match reading {
        None => (last, None),
        Some(n) => if n != last { (n, Some(n)) } else { (last, None) },
    }
}

/// The last number the watcher has seen after `reads`, starting from `last`.
pub open spec fn watch_after(last: i32, reads: Seq<Option<i32>>) -> i32
    decreases reads.len(),
{
    if reads.len() == 0 {
        last
    } else {
        watch_tick(watch_after(last, reads.drop_last()), reads.last()).0
    }
}

/// The last number among `reads`, or `initial` when there is none.
pub open spec fn last_number(initial: i32, reads: Seq<Option<i32>>) -> i32
    decreases reads.len(),
{
    if reads.len() == 0 {
        initial
    } else {
        match reads.last() {
            Some(n) => n,
            None => last_number(initial, reads.drop_last()),
        }
    }
}

/// A desktop change is reported at reading `k` exactly when that reading is a
/// number that differs from the last number read before it (or from the
/// starting desktop); failed readings and repeated numbers report nothing.
pub proof fn lemma_changes_reported_once(initial: i32, reads: Seq<Option<i32>>, k: int)
    requires
        0 <= k < reads.len(),
    ensures
        watch_after(initial, reads.take(k)) == last_number(initial, reads.take(k)),
        watch_tick(watch_after(initial, reads.take(k)), reads[k]).1 == (match reads[k] {
            Some(n) => if n != last_number(initial, reads.take(k)) { Some(n) } else { None },
            None => None,
        }),
    decreases k,
{
    if k > 0 {
        lemma_changes_reported_once(initial, reads, k - 1);
        assert(reads.take(k).drop_last() =~= reads.take(k - 1));
        assert(reads.take(k).last() == reads[k - 1]);
    } else {
        assert(reads.take(0) =~= Seq::<Option<i32>>::empty());
    }
}

fn fits64(v: i64) -> (b: bool)
    ensures
        b == fits_i32(v as int),
{
    i32::MIN as i64 <= v && v <= i32::MAX as i64
}

/// What to do with a window after a Win+Arrow press.
#[derive(Debug, Clone, Copy, PartialEq, Eq, Structural)]
pub enum SnapAction {
    Minimize,
    MoveTo(Placement),
}

/// The geometry a snap needs besides the state: the snapping area, the sizes
/// of the left column and the top row, the window's current rectangle, and
/// the monitor's horizontal extent (for mirroring).
#[derive(Debug, Clone, Copy, PartialEq, Eq, Structural)]
pub struct SnapGeometry {
    pub area: SnapArea,
    pub half_w: i32,
    pub half_h: i32,
    pub window_rect: Rect,
    pub monitor_x: i32,
    pub monitor_w: i32,
}

/// The bounds remembered for `h` after a step that may save `current`.
pub open spec fn bounds_after(bounds: Map<isize, Rect>, h: isize, save: bool, current: Rect) -> Map<isize, Rect> {
    if save {
        bounds.insert(h, current)
    } else {
        bounds
    }
}

pub open spec fn bounds_of(bounds: Map<isize, Rect>, h: isize) -> Option<Rect> {
    if bounds.contains_key(h) {
        Some(bounds[h])
    } else {
        None
    }
}

/// The region of `next` for window `h`, mirrored when `flip` is set.
pub open spec fn snap_target(
    next: SnapState,
    g: SnapGeometry,
    inner: int,
    normal: Option<Rect>,
    flip: bool,
) -> (int, int, int, int) {
    let r = snap_region(next, g.area, inner, g.half_w as int, g.half_h as int, normal);
    if flip {
        (mirrored_x(r.0, r.2, g.monitor_x as int, g.monitor_w as int), r.1, r.2, r.3)
    } else {
        r
    }
}

/// No step of a snap leaves the 32-bit range.
pub open spec fn snap_fits(
    states: Map<isize, SnapState>,
    bounds: Map<isize, Rect>,
    h: isize,
    key: SnapKey,
    flip: bool,
    inner: int,
    g: SnapGeometry,
) -> bool {
    let step = snap_transition(snap_state_of(states, h), effective_key(key, flip));
    let normal = bounds_of(bounds_after(bounds, h, step.save_bounds, g.window_rect), h);
    let r = snap_region(step.next, g.area, inner, g.half_w as int, g.half_h as int, normal);
    &&& snap_region_fits(step.next, g.area, inner, g.half_w as int, g.half_h as int, normal)
    &&& (flip && !step.minimize) ==> {
        &&& fits_i32(r.0 + r.2)
        &&& fits_i32((r.0 + r.2) - g.monitor_x)
        &&& fits_i32(g.monitor_w - ((r.0 + r.2) - g.monitor_x))
        &&& fits_i32(mirrored_x(r.0, r.2, g.monitor_x as int, g.monitor_w as int))
    }
}

/// The action a snap takes.
pub open spec fn snap_outcome(
    states: Map<isize, SnapState>,
    bounds: Map<isize, Rect>,
    h: isize,
    key: SnapKey,
    flip: bool,
    inner: int,
    g: SnapGeometry,
) -> Option<(int, int, int, int)> {
    let step = snap_transition(snap_state_of(states, h), effective_key(key, flip));
    let normal = bounds_of(bounds_after(bounds, h, step.save_bounds, g.window_rect), h);
    if step.minimize {
        None
    } else {
        Some(snap_target(step.next, g, inner, normal, flip))
    }
}

pub open spec fn action_view(a: SnapAction) -> Option<(int, int, int, int)> {
    match a {
        SnapAction::Minimize => None,
        SnapAction::MoveTo(p) => Some(placement_of(p)),
    }
}

impl AppState {
    /// The state at start-up: the loaded configuration, the current desktop,
    /// and the floating position from the configuration.
    pub fn new(config: Config, initial_desktop: i32) -> (s: AppState)
        ensures
            s.current_desktop == initial_desktop,
            s.float_window_pos == (config.window_x, config.window_y),
            s.tiling_modes@ == Map::<i32, TilingMode>::empty(),
            s.tiling_cycles@ == Map::<i32, i32>::empty(),
            s.snap_states@ == Map::<isize, SnapState>::empty(),
            s.normal_bounds@ == Map::<isize, Rect>::empty(),
            !s.menu_shown,
            s.menu_generation == 0,
            s.config == config,
    {
        let float_window_pos = (config.window_x, config.window_y);
        AppState {
            config,
            current_desktop: initial_desktop,
            tiling_modes: HashMap::new(),
            tiling_cycles: HashMap::new(),
            float_window_pos,
            snap_states: HashMap::new(),
            normal_bounds: HashMap::new(),
            menu_shown: false,
            menu_generation: 0,
        }
    }

    /// The tiling mode of the current desktop.
    pub fn tiling_mode(&self) -> (m: TilingMode)
        ensures
            m == mode_on(self.tiling_modes@, self.current_desktop),
    {
        match self.tiling_modes.get(&self.current_desktop) {
            Some(m) => *m,
            None => TilingMode::Free,
        }
    }

    /// The tiling mode of desktop `desktop`.
    pub fn tiling_mode_of(&self, desktop: i32) -> (m: TilingMode)
        ensures
            m == mode_on(self.tiling_modes@, desktop),
    {
        match self.tiling_modes.get(&desktop) {
            Some(m) => *m,
            None => TilingMode::Free,
        }
    }

    /// Set the tiling mode of the current desktop; its layout cycle starts over.
    pub fn set_tiling_mode(&mut self, mode: TilingMode)
        ensures
            final(self).tiling_modes@ == old(self).tiling_modes@.insert(old(self).current_desktop, mode),
            final(self).tiling_cycles@ == old(self).tiling_cycles@.insert(old(self).current_desktop, 0),
            final(self).current_desktop == old(self).current_desktop,
            final(self).config == old(self).config,
            final(self).snap_states@ == old(self).snap_states@,
            final(self).normal_bounds@ == old(self).normal_bounds@,
            final(self).float_window_pos == old(self).float_window_pos,
            final(self).menu_shown == old(self).menu_shown,
            final(self).menu_generation == old(self).menu_generation,
    {
        let d = self.current_desktop;
        self.tiling_modes.insert(d, mode);
        self.tiling_cycles.insert(d, 0);
    }

    /// The layout cycle of the current desktop.
    pub fn tiling_cycle(&self) -> (c: i32)
        ensures
            c == cycle_on(self.tiling_cycles@, self.current_desktop),
    {
        match self.tiling_cycles.get(&self.current_desktop) {
            Some(c) => *c,
            None => 0,
        }
    }

    /// Rotate which window gets the main region on the current desktop.
    pub fn cycle_tiling_layout(&mut self)
        requires
            cycle_on(old(self).tiling_cycles@, old(self).current_desktop) < i32::MAX,
        ensures
            final(self).tiling_cycles@ == old(self).tiling_cycles@.insert(
                old(self).current_desktop,
                (cycle_on(old(self).tiling_cycles@, old(self).current_desktop) + 1) as i32,
            ),
            final(self).tiling_modes@ == old(self).tiling_modes@,
            final(self).current_desktop == old(self).current_desktop,
            final(self).config == old(self).config,
            final(self).snap_states@ == old(self).snap_states@,
            final(self).normal_bounds@ == old(self).normal_bounds@,
            final(self).float_window_pos == old(self).float_window_pos,
            final(self).menu_shown == old(self).menu_shown,
            final(self).menu_generation == old(self).menu_generation,
    {
        let c = self.tiling_cycle();
        let d = self.current_desktop;
        self.tiling_cycles.insert(d, c + 1);
    }

    /// Toggle `flip_main`, which mirrors the main area on every desktop; all
    /// layout cycles start over so that the flip swaps main and sub directly.
    /// Returns the new setting.
    pub fn toggle_flip_main(&mut self) -> (flipped: bool)
        ensures
            flipped == !old(self).config.flip_main,
            final(self).config == (Config { flip_main: flipped, ..old(self).config }),
            final(self).tiling_cycles@ == Map::<i32, i32>::empty(),
            final(self).tiling_modes@ == old(self).tiling_modes@,
            final(self).current_desktop == old(self).current_desktop,
            final(self).float_window_pos == old(self).float_window_pos,
            final(self).snap_states@ == old(self).snap_states@,
            final(self).normal_bounds@ == old(self).normal_bounds@,
            final(self).menu_shown == old(self).menu_shown,
            final(self).menu_generation == old(self).menu_generation,
    {
        self.config.flip_main = !self.config.flip_main;
        self.tiling_cycles.clear();
        self.config.flip_main
    }

    /// Record the floating position of the taskbar, also in the configuration.
    pub fn set_float_pos(&mut self, x: i32, y: i32)
        ensures
            *final(self) == (AppState {
                float_window_pos: (x, y),
                config: Config { window_x: x, window_y: y, ..old(self).config },
                ..*old(self)
            }),
    {
        self.float_window_pos = (x, y);
        self.config.window_x = x;
        self.config.window_y = y;
    }

    /// Record that the menu is shown: the menu flag is set and the generation
    /// counter advances (wrapping), so that monitors started for an earlier
    /// showing can tell they are stale.
    pub fn menu_opened(&mut self)
        ensures
            *final(self) == (AppState {
                menu_shown: true,
                menu_generation: if old(self).menu_generation == u64::MAX {
                    0
                } else {
                    (old(self).menu_generation + 1) as u64
                },
                ..*old(self)
            }),
    {
        self.menu_shown = true;
        self.menu_generation = if self.menu_generation == u64::MAX {
            0
        } else {
            self.menu_generation + 1
        };
    }

    /// Record that the menu is hidden.
    pub fn menu_closed(&mut self)
        ensures
            *final(self) == (AppState { menu_shown: false, ..*old(self) }),
    {
        self.menu_shown = false;
    }

    /// The snap state of window `hwnd`.
    pub fn snap_state(&self, hwnd: isize) -> (s: SnapState)
        ensures
            s == snap_state_of(self.snap_states@, hwnd),
    {
        match self.snap_states.get(&hwnd) {
            Some(s) => *s,
            None => SnapState::Normal,
        }
    }

    /// Whether `snap_window` can compute the target within 32-bit integers.
    pub fn snap_fits_check(&self, hwnd: isize, key: SnapKey, g: SnapGeometry) -> (b: bool)
        ensures
            b == snap_fits(
                self.snap_states@,
                self.normal_bounds@,
                hwnd,
                key,
                self.config.flip_main,
                self.config.inner_spacing as int,
                g,
            ),
    {
        let current = self.snap_state(hwnd);
        let flip = self.config.flip_main;
        let step = snap_step(current, key, flip);
        let normal = if step.save_bounds {
            Some(g.window_rect)
        } else {
            match self.normal_bounds.get(&hwnd) {
                Some(r) => Some(*r),
                None => None,
            }
        };
        let inner = self.config.inner_spacing;
        if !snap_region_fits_check(step.next, g.area, inner, g.half_w, g.half_h, normal) {
            return false;
        }
        if flip && !step.minimize {
            let p = snap_region_of(step.next, g.area, inner, g.half_w, g.half_h, normal);
            let right = p.x as i64 + p.width as i64;
            let mx = g.monitor_x as i64;
            let mw = g.monitor_w as i64;
            return fits64(right) && fits64(right - mx) && fits64(mw - (right - mx)) && fits64(mx + (mw - (right - mx)));
        }
        true
    }

    /// Handle Win+`key` for window `hwnd`: advance its snap state, remember
    /// its bounds when it leaves the Normal state, and say where it goes (or
    /// that it is minimized). With `flip_main` the target is mirrored.
    pub fn snap_window(&mut self, hwnd: isize, key: SnapKey, g: SnapGeometry) -> (a: SnapAction)
        requires
            snap_fits(
                old(self).snap_states@,
                old(self).normal_bounds@,
                hwnd,
                key,
                old(self).config.flip_main,
                old(self).config.inner_spacing as int,
                g,
            ),
        ensures
            ({
                let step = snap_transition(
                    snap_state_of(old(self).snap_states@, hwnd),
                    effective_key(key, old(self).config.flip_main),
                );
                &&& final(self).snap_states@ == old(self).snap_states@.insert(hwnd, step.next)
                &&& final(self).normal_bounds@ == bounds_after(
                    old(self).normal_bounds@,
                    hwnd,
                    step.save_bounds,
                    g.window_rect,
                )
            }),
            action_view(a) == snap_outcome(
                old(self).snap_states@,
                old(self).normal_bounds@,
                hwnd,
                key,
                old(self).config.flip_main,
                old(self).config.inner_spacing as int,
                g,
            ),
            final(self).config == old(self).config,
            final(self).tiling_modes@ == old(self).tiling_modes@,
            final(self).tiling_cycles@ == old(self).tiling_cycles@,
            final(self).current_desktop == old(self).current_desktop,
    {
        let current = self.snap_state(hwnd);
        let flip = self.config.flip_main;
        let step = snap_step(current, key, flip);
        if step.save_bounds {
            self.normal_bounds.insert(hwnd, g.window_rect);
        }
        let normal = match self.normal_bounds.get(&hwnd) {
            Some(r) => Some(*r),
            None => None,
        };
        let inner = self.config.inner_spacing;
        let p = snap_region_of(step.next, g.area, inner, g.half_w, g.half_h, normal);
        self.snap_states.insert(hwnd, step.next);
        if step.minimize {
            SnapAction::Minimize
        } else if flip {
            let right = p.x + p.width;
            let x = g.monitor_x + (g.monitor_w - (right - g.monitor_x));
            SnapAction::MoveTo(Placement { x, y: p.y, width: p.width, height: p.height })
        } else {
            SnapAction::MoveTo(p)
        }
    }
}

/// No desktop's layout cycle is negative.
pub open spec fn cycles_nonnegative(cycles: Map<i32, i32>) -> bool {
    forall|d: i32| #[trigger] cycles.contains_key(d) ==> cycles[d] >= 0
}

/// Layout cycles are never negative: they start empty, are reset to 0, or
/// are increased by one from a value that is not negative.
pub proof fn lemma_cycles_stay_nonnegative(cycles: Map<i32, i32>, d: i32)
    requires
        cycles_nonnegative(cycles),
    ensures
        cycles_nonnegative(Map::<i32, i32>::empty()),
        cycle_on(cycles, d) >= 0,
        cycles_nonnegative(cycles.insert(d, 0)),
        cycle_on(cycles, d) < i32::MAX ==> cycles_nonnegative(
            cycles.insert(d, (cycle_on(cycles, d) + 1) as i32),
        ),
{
}

/// The layout cycles after `k` calls of `cycle_tiling_layout` on desktop `d`.
pub open spec fn cycles_after(cycles: Map<i32, i32>, d: i32, k: nat) -> Map<i32, i32>
    decreases k,
{
    if k == 0 {
        cycles
    } else {
        let before = cycles_after(cycles, d, (k - 1) as nat);
        before.insert(d, (cycle_on(before, d) + 1) as i32)
    }
}

/// Each call of `cycle_tiling_layout` advances the desktop's cycle by one and
/// leaves the other desktops alone; after as many calls as there are tiled
/// windows the tiling plan is back where it started.
pub proof fn lemma_cycle_wraps_after_window_count(
    cycles: Map<i32, i32>,
    d: i32,
    k: nat,
    ws: Seq<WindowInfo>,
    c: Config,
    mode: TilingMode,
    tc: TilingConfig,
    left_w: int,
    top_h: int,
)
    requires
        cycle_on(cycles, d) >= 0,
        cycle_on(cycles, d) + k <= i32::MAX,
    ensures
        cycle_on(cycles_after(cycles, d, k), d) == cycle_on(cycles, d) + k,
        forall|e: i32| e != d ==> cycle_on(cycles_after(cycles, d, k), e) == cycle_on(cycles, e),
        k == tiled_count(ws, c) ==> tiling_plan(ws, c, mode, tc, cycle_on(cycles_after(cycles, d, k), d) as int, left_w, top_h)
            == tiling_plan(ws, c, mode, tc, cycle_on(cycles, d) as int, left_w, top_h),
    decreases k,
{
    if k > 0 {
        lemma_cycle_wraps_after_window_count(cycles, d, (k - 1) as nat, ws, c, mode, tc, left_w, top_h);
    }
    if k == tiled_count(ws, c) {
        lemma_plan_wraps(ws, c, mode, tc, cycle_on(cycles, d) as int, left_w, top_h);
    }
}

/// Each virtual desktop keeps its own tiling mode: setting the mode of one
/// desktop is seen on that desktop and on no other.
pub proof fn lemma_mode_read_after_write(modes: Map<i32, TilingMode>, d: i32, m: TilingMode, e: i32)
    ensures
        mode_on(modes.insert(d, m), e) == if e == d { m } else { mode_on(modes, e) },
{
}

/// Setting a mode resets the layout cycle of that desktop only.
pub proof fn lemma_cycle_reset_is_local(cycles: Map<i32, i32>, d: i32, e: i32)
    ensures
        cycle_on(cycles.insert(d, 0), e) == if e == d { 0 } else { cycle_on(cycles, e) },
        cycle_on(Map::<i32, i32>::empty(), e) == 0,
{
}

/// A window snapped away from Normal with Win+Up (maximized) comes back to
/// exactly the bounds it had before when Win+Down restores it.
pub proof fn lemma_maximize_then_restore(
    states: Map<isize, SnapState>,
    bounds: Map<isize, Rect>,
    h: isize,
    inner: int,
    g1: SnapGeometry,
    g2: SnapGeometry,
)
    requires
        snap_state_of(states, h) == SnapState::Normal,
    ensures
        ({
            let s1 = snap_transition(snap_state_of(states, h), effective_key(SnapKey::Up, false));
            let states1 = states.insert(h, s1.next);
            let bounds1 = bounds_after(bounds, h, s1.save_bounds, g1.window_rect);
            let r = g1.window_rect;
            &&& s1.next == SnapState::Maximized
            &&& snap_transition(snap_state_of(states1, h), effective_key(SnapKey::Down, false)).next
                == SnapState::Normal
            &&& snap_outcome(states1, bounds1, h, SnapKey::Down, false, inner, g2) == Some(
                (r.left as int, r.top as int, r.right - r.left, r.bottom - r.top),
            )
        }),
{
}

/// A window snapped to one side from Normal comes back to its earlier bounds
/// when the opposite arrow returns it to Normal.
pub proof fn lemma_side_snap_then_restore(
    states: Map<isize, SnapState>,
    bounds: Map<isize, Rect>,
    h: isize,
    flip: bool,
    inner: int,
    g1: SnapGeometry,
    g2: SnapGeometry,
)
    requires
        snap_state_of(states, h) == SnapState::Normal,
    ensures
        ({
            let s1 = snap_transition(snap_state_of(states, h), effective_key(SnapKey::Left, flip));
            let states1 = states.insert(h, s1.next);
            let bounds1 = bounds_after(bounds, h, s1.save_bounds, g1.window_rect);
            let r = g1.window_rect;
            let back = snap_outcome(states1, bounds1, h, SnapKey::Right, flip, inner, g2);
            &&& snap_transition(snap_state_of(states1, h), effective_key(SnapKey::Right, flip)).next
                == SnapState::Normal
            &&& !flip ==> back == Some((r.left as int, r.top as int, r.right - r.left, r.bottom - r.top))
            &&& flip ==> back == Some((
                mirrored_x(r.left as int, r.right - r.left, g2.monitor_x as int, g2.monitor_w as int),
                r.top as int,
                r.right - r.left,
                r.bottom - r.top,
            ))
        }),
{
}

} // verus!
