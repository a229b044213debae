//! Which windows are tiled, in which order, and which tile each one gets; and
//! which applications each virtual desktop shows on the taskbar.
use vstd::prelude::*;
use crate::config::{popup_host, strings_view, with_popup_host, Config};
use crate::text::{contains_seq, str_contains};
use crate::tiling::{calculate_tiles, layout, layout_fits, rects_of, tiles_fit, TileRegion, TilingConfig, TilingMode};

verus! {

broadcast use vstd::string::group_string_axioms;

/// A top-level window as listed by the window enumeration.
#[derive(Debug)]
pub struct WindowInfo {
    pub hwnd: isize,
    pub title: String,
    pub process_name: String,
    pub rect: (i32, i32, i32, i32),
    pub is_visible: bool,
    pub is_minimized: bool,
    pub is_cloaked: bool,
}

impl WindowInfo {
    /// A copy of the window information.
    pub fn duplicate(&self) -> (w: WindowInfo)
        ensures
            w == *self,
    {
        WindowInfo {
            hwnd: self.hwnd,
            title: self.title.clone(),
            process_name: self.process_name.clone(),
            rect: self.rect,
            is_visible: self.is_visible,
            is_minimized: self.is_minimized,
            is_cloaked: self.is_cloaked,
        }
    }
}

/// Some pattern of `patterns` occurs in `text`.
pub open spec fn matches_any(text: Seq<char>, patterns: Seq<String>) -> bool {
    exists|i: int| 0 <= i < patterns.len() && contains_seq(text, #[trigger] patterns[i]@)
}

/// The window's process name contains an excluded process name, or its title
/// contains an excluded title.
pub open spec fn excluded(process: Seq<char>, title: Seq<char>, processes: Seq<String>, titles: Seq<String>) -> bool {
    matches_any(process, processes) || matches_any(title, titles)
}

fn contains_any(text: &str, patterns: &Vec<String>) -> (b: bool)
    ensures
        b == matches_any(text@, patterns@),
{
    let mut i: usize = 0;
    while i < patterns.len()
        invariant
            0 <= i <= patterns.len(),
            forall|j: int| 0 <= j < i ==> !contains_seq(text@, #[trigger] patterns@[j]@),
        decreases patterns.len() - i,
    {
        if str_contains(text, patterns[i].as_str()) {
            return true;
        }
        i = i + 1;
    }
    false
}

/// Whether a window with this process name and title is excluded by the
/// exclusion lists.
pub fn is_excluded(process_name: &str, title: &str, processes: &Vec<String>, titles: &Vec<String>) -> (b: bool)
    ensures
        b == excluded(process_name@, title@, processes@, titles@),
{
    contains_any(process_name, processes) || contains_any(title, titles)
}

/// A window is listed when it is not cloaked and not excluded by the
/// configured lists.
pub open spec fn is_target(w: WindowInfo, c: Config) -> bool {
    !w.is_cloaked && !excluded(w.process_name@, w.title@, c.exclude_processes@, c.exclude_titles@)
}

/// Whether the window is listed: not cloaked and not excluded by the
/// configured lists.
pub fn is_tiling_target(w: &WindowInfo, c: &Config) -> (b: bool)
    ensures
        b == is_target(*w, *c),
{
    !w.is_cloaked && !is_excluded(w.process_name.as_str(), w.title.as_str(), &c.exclude_processes, &c.exclude_titles)
}

/// A window is tiled when it is listed and its title does not contain
/// "PopupHost": the exclusion list in effect always holds "PopupHost", whether
/// or not the configuration lists it.
pub open spec fn is_tiled(w: WindowInfo, c: Config) -> bool {
    is_target(w, c) && !contains_seq(w.title@, popup_host())
}

/// Some title of `titles` occurs in `text`.
pub open spec fn matches_any_view(text: Seq<char>, titles: Seq<Seq<char>>) -> bool {
    exists|i: int| 0 <= i < titles.len() && contains_seq(text, #[trigger] titles[i])
}

/// Tiling excludes exactly what the exclusion lists in effect exclude: the
/// configured processes, and the configured titles with "PopupHost" added
/// (`Config::effective_exclude_titles`).
pub proof fn lemma_tiled_uses_effective_titles(w: WindowInfo, c: Config)
    ensures
        is_tiled(w, c) == (!w.is_cloaked && !matches_any(w.process_name@, c.exclude_processes@)
            && !matches_any_view(w.title@, with_popup_host(strings_view(c.exclude_titles@)))),
{
    let v = strings_view(c.exclude_titles@);
    let eff = with_popup_host(v);
    if matches_any(w.title@, c.exclude_titles@) {
        let i = choose|i: int| 0 <= i < c.exclude_titles@.len() && contains_seq(w.title@, #[trigger] c.exclude_titles@[i]@);
        assert(v[i] == c.exclude_titles@[i]@);
        if !v.contains(popup_host()) {
            assert(eff[i] == v[i]);
        }
        assert(contains_seq(w.title@, eff[i]));
    }
    if contains_seq(w.title@, popup_host()) {
        if v.contains(popup_host()) {
            let j = choose|j: int| 0 <= j < v.len() && v[j] == popup_host();
            assert(contains_seq(w.title@, eff[j]));
        } else {
            assert(eff[v.len() as int] == popup_host());
        }
    }
    if matches_any_view(w.title@, eff) {
        let i = choose|i: int| 0 <= i < eff.len() && contains_seq(w.title@, #[trigger] eff[i]);
        if i < v.len() {
            if !v.contains(popup_host()) {
                assert(eff[i] == v[i]);
            }
            assert(v[i] == c.exclude_titles@[i]@);
            assert(contains_seq(w.title@, c.exclude_titles@[i]@));
        }
    }
}

/// Whether the window is tiled: listed, and its title does not contain
/// "PopupHost".
pub fn is_tiled_window(w: &WindowInfo, c: &Config) -> (b: bool)
    ensures
        b == is_tiled(*w, *c),
{
    let popup = "PopupHost";
    proof {
        reveal_strlit("PopupHost");
        assert(popup@ =~= popup_host());
    }
    is_tiling_target(w, c) && !str_contains(w.title.as_str(), popup)
}

/// The windows of `ws` that are listed, in order.
pub open spec fn targets_of(ws: Seq<WindowInfo>, c: Config) -> Seq<WindowInfo> {
    ws.filter(|w: WindowInfo| is_target(w, c))
}

/// The windows shown in the window list: those not cloaked and not excluded.
pub fn window_list(windows: &Vec<WindowInfo>, config: &Config) -> (r: Vec<WindowInfo>)
    ensures
        r@ == targets_of(windows@, *config),
{
    let mut r: Vec<WindowInfo> = Vec::new();
    let mut i: usize = 0;
    while i < windows.len()
        invariant
            0 <= i <= windows.len(),
            r@ == targets_of(windows@.take(i as int), *config),
        decreases windows.len() - i,
    {
        proof {
            assert(windows@.take(i + 1).drop_last() =~= windows@.take(i as int));
            reveal_with_fuel(Seq::filter, 1);
        }
        if is_tiling_target(&windows[i], config) {
            r.push(windows[i].duplicate());
        }
        i = i + 1;
    }
    assert(windows@.take(windows.len() as int) =~= windows@);
    r
}

/// The indices into `ws` of the tiled windows, in order.
pub open spec fn target_indices(ws: Seq<WindowInfo>, c: Config, k: int) -> Seq<usize>
    decreases k,
{
    if k <= 0 {
        seq![]
    } else {
        let before = target_indices(ws, c, k - 1);
        if is_tiled(ws[k - 1], c) {
            before.push((k - 1) as usize)
        } else {
            before
        }
    }
}

/// Number of leading entries of `s` whose window handle is at most `key`.
pub open spec fn leading_at_most(s: Seq<usize>, key: isize, ws: Seq<WindowInfo>) -> nat
    decreases s.len(),
{
    if s.len() > 0 && ws[s[0] as int].hwnd <= key {
        1 + leading_at_most(s.drop_first(), key, ws)
    } else {
        0
    }
}

/// Insert `x` after every entry whose handle is at most that of `x`.
pub open spec fn insert_by_hwnd(s: Seq<usize>, x: usize, ws: Seq<WindowInfo>) -> Seq<usize> {
    let p = leading_at_most(s, ws[x as int].hwnd, ws) as int;
    s.take(p).push(x) + s.skip(p)
}

/// Stable sort by window handle (insertion sort): equal handles keep their
/// relative order.
pub open spec fn sort_by_hwnd(s: Seq<usize>, ws: Seq<WindowInfo>) -> Seq<usize>
    decreases s.len(),
{
    if s.len() == 0 {
        seq![]
    } else {
        insert_by_hwnd(sort_by_hwnd(s.drop_last(), ws), s.last(), ws)
    }
}

pub open spec fn indices_valid(s: Seq<usize>, n: int) -> bool {
    forall|i: int| 0 <= i < s.len() ==> #[trigger] s[i] < n
}

proof fn lemma_leading_bound(s: Seq<usize>, key: isize, ws: Seq<WindowInfo>)
    ensures
        leading_at_most(s, key, ws) <= s.len(),
    decreases s.len(),
{
    if s.len() > 0 {
        lemma_leading_bound(s.drop_first(), key, ws);
    }
}

fn leading_at_most_exec(s: &Vec<usize>, key: isize, ws: &Vec<WindowInfo>) -> (p: usize)
    requires
        indices_valid(s@, ws@.len() as int),
    ensures
        p == leading_at_most(s@, key, ws@),
{
    let mut i: usize = 0;
    assert(s@.skip(0) =~= s@);
    while i < s.len() && ws[s[i]].hwnd <= key
        invariant
            0 <= i <= s.len(),
            indices_valid(s@, ws@.len() as int),
            leading_at_most(s@, key, ws@) == i + leading_at_most(s@.skip(i as int), key, ws@),
        decreases s.len() - i,
    {
        proof {
            assert(s@[i as int] < ws@.len());
            assert(s@.skip(i as int).drop_first() =~= s@.skip(i + 1));
            assert(s@.skip(i as int)[0] == s@[i as int]);
        }
        i = i + 1;
    }
    proof {
        if i < s.len() {
            assert(s@.skip(i as int)[0] == s@[i as int]);
        } else {
            assert(s@.skip(i as int).len() == 0);
        }
    }
    i
}

fn insert_index(s: &Vec<usize>, x: usize, ws: &Vec<WindowInfo>) -> (r: Vec<usize>)
    requires
        indices_valid(s@, ws@.len() as int),
        x < ws@.len(),
    ensures
        r@ == insert_by_hwnd(s@, x, ws@),
        indices_valid(r@, ws@.len() as int),
{
    let p = leading_at_most_exec(s, ws[x].hwnd, ws);
    proof {
        lemma_leading_bound(s@, ws@[x as int].hwnd, ws@);
    }
    let mut r: Vec<usize> = Vec::new();
    let mut i: usize = 0;
    while i < p
        invariant
            p <= s.len(),
            0 <= i <= p,
            r@ == s@.take(i as int),
        decreases p - i,
    {
        r.push(s[i]);
        i = i + 1;
        assert(r@ =~= s@.take(i as int));
    }
    r.push(x);
    let mut j: usize = p;
    while j < s.len()
        invariant
            p <= j <= s.len(),
            r@ == s@.take(p as int).push(x) + s@.subrange(p as int, j as int),
        decreases s.len() - j,
    {
        r.push(s[j]);
        j = j + 1;
        assert(r@ =~= s@.take(p as int).push(x) + s@.subrange(p as int, j as int));
    }
    assert(r@ =~= insert_by_hwnd(s@, x, ws@));
    proof {
        assert forall|i: int| 0 <= i < r@.len() implies #[trigger] r@[i] < ws@.len() by {
            if i < p {
                assert(r@[i] == s@[i]);
            } else if i > p {
                assert(r@[i] == s@[i - 1]);
            }
        }
    }
    r
}

/// The tiled windows' indices sorted by window handle.
fn sorted_targets(windows: &Vec<WindowInfo>, config: &Config) -> (r: Vec<usize>)
    ensures
        r@ == sort_by_hwnd(target_indices(windows@, *config, windows@.len() as int), windows@),
        indices_valid(r@, windows@.len() as int),
{
    let mut r: Vec<usize> = Vec::new();
    let ghost targets = Seq::<usize>::empty();
    let mut i: usize = 0;
    while i < windows.len()
        invariant
            0 <= i <= windows.len(),
            targets == target_indices(windows@, *config, i as int),
            indices_valid(targets, windows@.len() as int),
            r@ == sort_by_hwnd(targets, windows@),
            indices_valid(r@, windows@.len() as int),
        decreases windows.len() - i,
    {
        if is_tiled_window(&windows[i], config) {
            r = insert_index(&r, i, windows);
            proof {
                let t2 = targets.push(i);
                assert(t2.drop_last() =~= targets);
                targets = t2;
            }
        }
        i = i + 1;
    }
    r
}

pub open spec fn hwnd_sorted(s: Seq<usize>, ws: Seq<WindowInfo>) -> bool {
    forall|i: int, j: int| 0 <= i < j < s.len() ==> ws[#[trigger] s[i] as int].hwnd <= ws[#[trigger] s[j] as int].hwnd
}

proof fn lemma_leading_prefix(s: Seq<usize>, key: isize, ws: Seq<WindowInfo>)
    ensures
        forall|i: int| 0 <= i < leading_at_most(s, key, ws) ==> ws[#[trigger] s[i] as int].hwnd <= key,
        leading_at_most(s, key, ws) < s.len() ==> ws[s[leading_at_most(s, key, ws) as int] as int].hwnd > key,
    decreases s.len(),
{
    lemma_leading_bound(s, key, ws);
    if s.len() > 0 && ws[s[0] as int].hwnd <= key {
        lemma_leading_prefix(s.drop_first(), key, ws);
        assert forall|i: int| 0 <= i < leading_at_most(s, key, ws) implies ws[#[trigger] s[i] as int].hwnd <= key by {
            if i > 0 {
                assert(s[i] == s.drop_first()[i - 1]);
            }
        }
        if leading_at_most(s, key, ws) < s.len() {
            let p = leading_at_most(s, key, ws) as int;
            assert(s[p] == s.drop_first()[p - 1]);
        }
    }
}

/// The tiling order is sorted by window handle, and has as many entries as
/// there are tiled windows.
pub proof fn lemma_order_is_sorted(s: Seq<usize>, ws: Seq<WindowInfo>)
    ensures
        hwnd_sorted(sort_by_hwnd(s, ws), ws),
        sort_by_hwnd(s, ws).len() == s.len(),
    decreases s.len(),
{
    lemma_sorted_len(s, ws);
    if s.len() > 0 {
        let t = sort_by_hwnd(s.drop_last(), ws);
        lemma_order_is_sorted(s.drop_last(), ws);
        let x = s.last();
        let k = ws[x as int].hwnd;
        lemma_leading_prefix(t, k, ws);
        lemma_leading_bound(t, k, ws);
        let p = leading_at_most(t, k, ws) as int;
        let r = insert_by_hwnd(t, x, ws);
        assert forall|i: int, j: int| 0 <= i < j < r.len() implies ws[#[trigger] r[i] as int].hwnd <= ws[#[trigger] r[j] as int].hwnd by {
            if j < p {
                assert(r[i] == t[i] && r[j] == t[j]);
            } else if j == p {
                assert(r[i] == t[i] && r[j] == x);
            } else if i < p {
                assert(r[i] == t[i] && r[j] == t[j - 1]);
                assert(ws[t[i] as int].hwnd <= k);
                assert(ws[t[p] as int].hwnd > k);
                if j - 1 > p {
                    assert(ws[t[p] as int].hwnd <= ws[t[j - 1] as int].hwnd);
                }
            } else if i == p {
                assert(r[i] == x && r[j] == t[j - 1]);
                if j - 1 > p {
                    assert(ws[t[p] as int].hwnd <= ws[t[j - 1] as int].hwnd);
                }
            } else {
                assert(r[i] == t[i - 1] && r[j] == t[j - 1]);
            }
        }
    }
}

/// Where one window goes.
#[derive(Debug, Clone, Copy, PartialEq, Eq, Structural)]
pub struct TileAssignment {
    pub hwnd: isize,
    /// The window is minimized and is restored before it is moved.
    pub restore: bool,
    pub region: TileRegion,
}

/// The tiling plan: the tiled windows sorted by handle; tile `i` goes to the
/// window `(i + cycle) mod count` of that order, for as many tiles as there
/// are both tiles and windows. `None` when there is no window to tile.
pub open spec fn tiling_plan(
    ws: Seq<WindowInfo>,
    c: Config,
    mode: TilingMode,
    tc: TilingConfig,
    cycle: int,
    left_w: int,
    top_h: int,
) -> Option<Seq<(isize, bool, int, int, int, int)>> {
    let order = sort_by_hwnd(target_indices(ws, c, ws.len() as int), ws);
    if order.len() == 0 {
        None
    } else {
        let tiles = layout(mode, tc, order.len(), left_w, top_h);
        let n = if tiles.len() < order.len() { tiles.len() } else { order.len() };
        Some(
            Seq::new(
                n,
                |i: int|
                    {
                        let w = ws[order[(i + cycle) % (order.len() as int)] as int];
                        (w.hwnd, w.is_minimized, tiles[i].x, tiles[i].y, tiles[i].w, tiles[i].h)
                    },
            ),
        )
    }
}

pub open spec fn assignment_view(a: TileAssignment) -> (isize, bool, int, int, int, int) {
    (a.hwnd, a.restore, a.region.x as int, a.region.y as int, a.region.width as int, a.region.height as int)
}

pub open spec fn plan_fits(ws: Seq<WindowInfo>, c: Config, mode: TilingMode, tc: TilingConfig, left_w: int, top_h: int) -> bool {
    let order = sort_by_hwnd(target_indices(ws, c, ws.len() as int), ws);
    order.len() > 0 ==> layout_fits(mode, tc, order.len(), left_w, top_h)
}

proof fn lemma_sorted_len(s: Seq<usize>, ws: Seq<WindowInfo>)
    ensures
        sort_by_hwnd(s, ws).len() == s.len(),
    decreases s.len(),
{
    if s.len() > 0 {
        lemma_sorted_len(s.drop_last(), ws);
        lemma_leading_bound(sort_by_hwnd(s.drop_last(), ws), ws[s.last() as int].hwnd, ws);
    }
}

proof fn lemma_target_indices_len(ws: Seq<WindowInfo>, c: Config, k: int)
    requires
        0 <= k,
    ensures
        target_indices(ws, c, k).len() <= k,
    decreases k,
{
    if k > 0 {
        lemma_target_indices_len(ws, c, k - 1);
    }
}

/// Plan where each tiled window goes: the windows that are neither cloaked
/// nor excluded, sorted by handle for an order that does not depend on the
/// enumeration, are given the tiles of the current layout, rotated by the
/// layout cycle so that the main region goes to a different window each
/// cycle. `None` when there is nothing to tile.
pub fn plan_tiling(
    windows: &Vec<WindowInfo>,
    config: &Config,
    mode: TilingMode,
    tiling: TilingConfig,
    cycle: i32,
    left_w: i32,
    top_h: i32,
) -> (r: Option<Vec<TileAssignment>>)
    requires
        cycle >= 0,
        plan_fits(windows@, *config, mode, tiling, left_w as int, top_h as int),
    ensures
        r is Some <==> tiling_plan(windows@, *config, mode, tiling, cycle as int, left_w as int, top_h as int) is Some,
        r is Some ==> r->0@.map_values(|a: TileAssignment| assignment_view(a))
            == tiling_plan(windows@, *config, mode, tiling, cycle as int, left_w as int, top_h as int)->0,
{
    let order = sorted_targets(windows, config);
    proof {
        lemma_sorted_len(target_indices(windows@, *config, windows@.len() as int), windows@);
        lemma_target_indices_len(windows@, *config, windows@.len() as int);
    }
    let count = order.len();
    if count == 0 {
        return None;
    }
    let tiles = calculate_tiles(mode, tiling, count, left_w, top_h);
    let ghost lay = layout(mode, tiling, count as nat, left_w as int, top_h as int);
    let n = if tiles.len() < count { tiles.len() } else { count };
    let cyc = cycle as usize;
    let mut plan: Vec<TileAssignment> = Vec::new();
    let mut i: usize = 0;
    while i < n
        invariant
            n <= tiles.len(),
            n <= count,
            count == order.len(),
            count > 0,
            count <= windows.len(),
            cyc == cycle as int,
            cycle >= 0,
            rects_of(tiles@) == lay,
            indices_valid(order@, windows@.len() as int),
            0 <= i <= n,
            plan@.len() == i,
            forall|j: int| 0 <= j < i ==> #[trigger] assignment_view(plan@[j]) == ({
                let w = windows@[order@[(j + cycle) % (count as int)] as int];
                (w.hwnd, w.is_minimized, lay[j].x, lay[j].y, lay[j].w, lay[j].h)
            }),
        decreases n - i,
    {
        let a = i % count;
        let b = cyc % count;
        let src = if a >= count - b { a - (count - b) } else { a + b };
        proof {
            vstd::arithmetic::div_mod::lemma_add_mod_noop(i as int, cycle as int, count as int);
            if a >= count - b {
                vstd::arithmetic::div_mod::lemma_fundamental_div_mod_converse(
                    a + b,
                    count as int,
                    1,
                    a + b - count,
                );
            } else {
                vstd::arithmetic::div_mod::lemma_small_mod((a + b) as nat, count as nat);
            }
        }
        let w = &windows[order[src]];
        let t = tiles[i];
        assert(t.rect() == lay[i as int]);
        plan.push(TileAssignment { hwnd: w.hwnd, restore: w.is_minimized, region: t });
        i = i + 1;
    }
    proof {
        let expected = tiling_plan(windows@, *config, mode, tiling, cycle as int, left_w as int, top_h as int)->0;
        assert(lay.len() == tiles@.len());
        assert(plan@.map_values(|a: TileAssignment| assignment_view(a)) =~= expected);
    }
    Some(plan)
}

/// The number of windows the tiling plan rotates among.
pub open spec fn tiled_count(ws: Seq<WindowInfo>, c: Config) -> int {
    sort_by_hwnd(target_indices(ws, c, ws.len() as int), ws).len() as int
}

/// Advancing the layout cycle by the number of tiled windows gives the same
/// plan again: the rotation wraps around with the window count.
pub proof fn lemma_plan_wraps(
    ws: Seq<WindowInfo>,
    c: Config,
    mode: TilingMode,
    tc: TilingConfig,
    cycle: int,
    left_w: int,
    top_h: int,
)
    requires
        cycle >= 0,
    ensures
        tiling_plan(ws, c, mode, tc, cycle + tiled_count(ws, c), left_w, top_h) == tiling_plan(
            ws,
            c,
            mode,
            tc,
            cycle,
            left_w,
            top_h,
        ),
{
    let order = sort_by_hwnd(target_indices(ws, c, ws.len() as int), ws);
    let n = order.len() as int;
    if n > 0 {
        let a = tiling_plan(ws, c, mode, tc, cycle + n, left_w, top_h)->0;
        let b = tiling_plan(ws, c, mode, tc, cycle, left_w, top_h)->0;
        assert forall|i: int| 0 <= i < a.len() implies #[trigger] a[i] == b[i] by {
            vstd::arithmetic::div_mod::lemma_mod_add_multiples_vanish(i + cycle, n);
            assert(i + (cycle + n) == (i + cycle) + n);
        }
        assert(a =~= b);
    }
}

proof fn lemma_target_indices_props(ws: Seq<WindowInfo>, c: Config, k: int)
    requires
        0 <= k <= ws.len(),
        ws.len() <= usize::MAX,
    ensures
        forall|j: int| 0 <= j < target_indices(ws, c, k).len() ==> {
            &&& 0 <= #[trigger] target_indices(ws, c, k)[j] < k
            &&& is_tiled(ws[target_indices(ws, c, k)[j] as int], c)
        },
        forall|i: int, j: int| 0 <= i < j < target_indices(ws, c, k).len() ==> #[trigger] target_indices(ws, c, k)[i]
            < #[trigger] target_indices(ws, c, k)[j],
        forall|m: int| 0 <= m < k && is_tiled(#[trigger] ws[m], c) ==> target_indices(ws, c, k).contains(m as usize),
    decreases k,
{
    if k > 0 {
        lemma_target_indices_props(ws, c, k - 1);
        let before = target_indices(ws, c, k - 1);
        let t = target_indices(ws, c, k);
        if is_tiled(ws[k - 1], c) {
            assert(t == before.push((k - 1) as usize));
            assert forall|j: int| 0 <= j < t.len() implies {
                &&& 0 <= #[trigger] t[j] < k
                &&& is_tiled(ws[t[j] as int], c)
            } by {
                if j < before.len() {
                    assert(t[j] == before[j]);
                    assert(0 <= before[j] < k - 1);
                    assert(is_tiled(ws[before[j] as int], c));
                } else {
                    assert(j == before.len());
                    assert(t[j] == (k - 1) as usize);
                }
            }
            assert forall|i: int, j: int| 0 <= i < j < t.len() implies #[trigger] t[i] < #[trigger] t[j] by {
                assert(t[i] == before[i]);
                assert(0 <= before[i] < k - 1);
                if j < before.len() {
                    assert(t[j] == before[j]);
                    assert(before[i] < before[j]);
                } else {
                    assert(t[j] == (k - 1) as usize);
                }
            }
            assert forall|m: int| 0 <= m < k && is_tiled(#[trigger] ws[m], c) implies t.contains(m as usize) by {
                if m < k - 1 {
                    let q = choose|q: int| 0 <= q < before.len() && before[q] == m as usize;
                    assert(t[q] == m as usize);
                } else {
                    assert(t[t.len() - 1] == m as usize);
                }
            }
        } else {
            assert forall|m: int| 0 <= m < k && is_tiled(#[trigger] ws[m], c) implies t.contains(m as usize) by {
                assert(m != k - 1);
            }
        }
    }
}

/// Sorting by handle keeps exactly the entries it is given, each as often.
proof fn lemma_sort_keeps_entries(s: Seq<usize>, ws: Seq<WindowInfo>)
    ensures
        forall|x: usize| #[trigger] sort_by_hwnd(s, ws).contains(x) <==> s.contains(x),
        (forall|i: int, j: int| 0 <= i < j < s.len() ==> s[i] != s[j]) ==> (forall|i: int, j: int|
            0 <= i < j < sort_by_hwnd(s, ws).len() ==> #[trigger] sort_by_hwnd(s, ws)[i] != #[trigger] sort_by_hwnd(
                s,
                ws,
            )[j]),
    decreases s.len(),
{
    lemma_sorted_len(s, ws);
    if s.len() > 0 {
        let d = s.drop_last();
        let t = sort_by_hwnd(d, ws);
        lemma_sort_keeps_entries(d, ws);
        let x = s.last();
        lemma_leading_bound(t, ws[x as int].hwnd, ws);
        let p = leading_at_most(t, ws[x as int].hwnd, ws) as int;
        let r = sort_by_hwnd(s, ws);
        assert(r == t.take(p).push(x) + t.skip(p));
        assert forall|y: usize| #[trigger] r.contains(y) <==> s.contains(y) by {
            if r.contains(y) {
                let q = choose|q: int| 0 <= q < r.len() && r[q] == y;
                if q < p {
                    assert(t[q] == y);
                    assert(t.contains(y));
                    assert(d.contains(y));
                    let e = choose|e: int| 0 <= e < d.len() && d[e] == y;
                    assert(s[e] == y);
                } else if q == p {
                    assert(s[s.len() - 1] == y);
                } else {
                    assert(t[q - 1] == y);
                    assert(t.contains(y));
                    let e = choose|e: int| 0 <= e < d.len() && d[e] == y;
                    assert(s[e] == y);
                }
            }
            if s.contains(y) {
                let e = choose|e: int| 0 <= e < s.len() && s[e] == y;
                if e == s.len() - 1 {
                    assert(r[p] == y);
                } else {
                    assert(d[e] == y);
                    assert(t.contains(y));
                    let q = choose|q: int| 0 <= q < t.len() && t[q] == y;
                    if q < p {
                        assert(r[q] == y);
                    } else {
                        assert(r[q + 1] == y);
                    }
                }
            }
        }
        if forall|i: int, j: int| 0 <= i < j < s.len() ==> s[i] != s[j] {
            assert forall|i: int, j: int| 0 <= i < j < d.len() implies d[i] != d[j] by {
                assert(s[i] == d[i] && s[j] == d[j]);
            }
            assert(!t.contains(x)) by {
                if t.contains(x) {
                    let e = choose|e: int| 0 <= e < d.len() && d[e] == x;
                    assert(s[e] == x && s[s.len() - 1] == x);
                }
            }
            assert forall|i: int, j: int| 0 <= i < j < r.len() implies #[trigger] r[i] != #[trigger] r[j] by {
                if j < p {
                    assert(r[i] == t[i] && r[j] == t[j]);
                } else if j == p {
                    assert(r[i] == t[i] && r[j] == x);
                } else if i < p {
                    assert(r[i] == t[i] && r[j] == t[j - 1]);
                } else if i == p {
                    assert(r[i] == x && r[j] == t[j - 1]);
                } else {
                    assert(r[i] == t[i - 1] && r[j] == t[j - 1]);
                }
            }
        }
    }
}

/// What the tiling plan does with the windows:
/// - there is a plan exactly when some window is to be tiled;
/// - each entry names a different tiled window of the input, carries that
///   window's handle, and asks to restore it exactly when that window is
///   minimized;
/// - entry `i` gets tile `i` of the layout for the number of tiled windows;
/// - when there are at least as many tiles as tiled windows, every tiled
///   window gets a tile;
/// - without a layout cycle, the windows come in increasing handle order.
pub proof fn lemma_plan_assigns_tiled_windows(
    ws: Seq<WindowInfo>,
    c: Config,
    mode: TilingMode,
    tc: TilingConfig,
    cycle: int,
    left_w: int,
    top_h: int,
)
    requires
        cycle >= 0,
        ws.len() <= usize::MAX,
    ensures
        tiling_plan(ws, c, mode, tc, cycle, left_w, top_h) is None <==> forall|k: int|
            0 <= k < ws.len() ==> !is_tiled(#[trigger] ws[k], c),
        tiling_plan(ws, c, mode, tc, cycle, left_w, top_h) matches Some(p) ==> {
            let lay = layout(mode, tc, tiled_count(ws, c) as nat, left_w, top_h);
            &&& p.len() <= lay.len()
            &&& p.len() <= tiled_count(ws, c)
            &&& (p.len() == lay.len() || p.len() == tiled_count(ws, c))
            &&& forall|i: int| 0 <= i < p.len() ==> (#[trigger] p[i]).2 == lay[i].x && p[i].3 == lay[i].y && p[i].4
                == lay[i].w && p[i].5 == lay[i].h
            &&& exists|idx: Seq<int>|
                {
                    &&& idx.len() == p.len()
                    &&& forall|i: int| 0 <= i < p.len() ==> {
                        &&& 0 <= #[trigger] idx[i] < ws.len()
                        &&& is_tiled(ws[idx[i]], c)
                        &&& p[i].0 == ws[idx[i]].hwnd
                        &&& p[i].1 == ws[idx[i]].is_minimized
                    }
                    &&& forall|i: int, j: int| 0 <= i < j < p.len() ==> #[trigger] idx[i] != #[trigger] idx[j]
                    &&& p.len() == tiled_count(ws, c) ==> forall|k: int|
                        0 <= k < ws.len() && is_tiled(#[trigger] ws[k], c) ==> idx.contains(k)
                }
            &&& cycle == 0 ==> forall|i: int, j: int| 0 <= i < j < p.len() ==> (#[trigger] p[i]).0 <= (#[trigger] p[j]).0
        },
{
    let n = ws.len() as int;
    let t = target_indices(ws, c, n);
    let order = sort_by_hwnd(t, ws);
    lemma_target_indices_props(ws, c, n);
    lemma_sort_keeps_entries(t, ws);
    lemma_order_is_sorted(t, ws);
    assert forall|i: int, j: int| 0 <= i < j < t.len() implies t[i] != t[j] by {
        assert(t[i] < t[j]);
    }
    let count = order.len() as int;
    if count == 0 {
        assert forall|k: int| 0 <= k < ws.len() implies !is_tiled(#[trigger] ws[k], c) by {
            if is_tiled(ws[k], c) {
                assert(t.contains(k as usize));
                assert(order.contains(k as usize));
            }
        }
    } else {
        let e = order[0];
        assert(order.contains(e));
        assert(t.contains(e));
        let q = choose|q: int| 0 <= q < t.len() && t[q] == e;
        assert(is_tiled(ws[e as int], c));
        let p = tiling_plan(ws, c, mode, tc, cycle, left_w, top_h)->0;
        let idx = Seq::new(p.len(), |i: int| order[(i + cycle) % count] as int);
        assert forall|i: int| 0 <= i < p.len() implies {
            &&& 0 <= #[trigger] idx[i] < ws.len()
            &&& is_tiled(ws[idx[i]], c)
            &&& p[i].0 == ws[idx[i]].hwnd
            &&& p[i].1 == ws[idx[i]].is_minimized
        } by {
            let m = (i + cycle) % count;
            vstd::arithmetic::div_mod::lemma_mod_bound(i + cycle, count);
            assert(order.contains(order[m]));
            assert(t.contains(order[m]));
            let q = choose|q: int| 0 <= q < t.len() && t[q] == order[m];
        }
        assert forall|i: int, j: int| 0 <= i < j < p.len() implies #[trigger] idx[i] != #[trigger] idx[j] by {
            lemma_rotation_is_a_permutation(count, cycle, i, j);
            vstd::arithmetic::div_mod::lemma_mod_bound(i + cycle, count);
            vstd::arithmetic::div_mod::lemma_mod_bound(j + cycle, count);
        }
        if p.len() == count {
            assert forall|k: int| 0 <= k < ws.len() && is_tiled(#[trigger] ws[k], c) implies idx.contains(k) by {
                assert(t.contains(k as usize));
                assert(order.contains(k as usize));
                let m = choose|m: int| 0 <= m < order.len() && order[m] == k as usize;
                let i = (m - cycle % count + count) % count;
                vstd::arithmetic::div_mod::lemma_mod_bound(cycle, count);
                vstd::arithmetic::div_mod::lemma_mod_bound(m - cycle % count + count, count);
                vstd::arithmetic::div_mod::lemma_add_mod_noop(i, cycle, count);
                vstd::arithmetic::div_mod::lemma_mod_twice(m - cycle % count + count, count);
                vstd::arithmetic::div_mod::lemma_add_mod_noop(m - cycle % count + count, cycle % count, count);
                vstd::arithmetic::div_mod::lemma_mod_twice(cycle, count);
                assert((m - cycle % count + count) + cycle % count == m + count);
                vstd::arithmetic::div_mod::lemma_mod_add_multiples_vanish(m, count);
                vstd::arithmetic::div_mod::lemma_small_mod(m as nat, count as nat);
                assert((i + cycle) % count == m);
                assert(0 <= i < idx.len());
                assert(order[m] == k as usize);
                assert(order[m] as int == k);
                assert(idx[i] == k);
            }
        }
        assert({
            &&& idx.len() == p.len()
            &&& forall|i: int| 0 <= i < p.len() ==> {
                &&& 0 <= #[trigger] idx[i] < ws.len()
                &&& is_tiled(ws[idx[i]], c)
                &&& p[i].0 == ws[idx[i]].hwnd
                &&& p[i].1 == ws[idx[i]].is_minimized
            }
            &&& forall|i: int, j: int| 0 <= i < j < p.len() ==> #[trigger] idx[i] != #[trigger] idx[j]
            &&& p.len() == tiled_count(ws, c) ==> forall|k: int|
                0 <= k < ws.len() && is_tiled(#[trigger] ws[k], c) ==> idx.contains(k)
        });
        if cycle == 0 {
            assert forall|i: int, j: int| 0 <= i < j < p.len() implies (#[trigger] p[i]).0 <= (#[trigger] p[j]).0 by {
                vstd::arithmetic::div_mod::lemma_small_mod(i as nat, count as nat);
                vstd::arithmetic::div_mod::lemma_small_mod(j as nat, count as nat);
            }
        }
    }
}

/// Whether `plan_tiling` can compute its layout within 32-bit integers.
pub fn plan_fits_check(
    windows: &Vec<WindowInfo>,
    config: &Config,
    mode: TilingMode,
    tiling: TilingConfig,
    left_w: i32,
    top_h: i32,
) -> (b: bool)
    ensures
        b == plan_fits(windows@, *config, mode, tiling, left_w as int, top_h as int),
{
    let order = sorted_targets(windows, config);
    if order.len() == 0 {
        return true;
    }
    tiles_fit(mode, &tiling, order.len(), left_w, top_h)
}

/// Tiles are handed to distinct windows: the rotation by the layout cycle
/// never gives two tiles the same window, and a cycle that has gone round all
/// `count` windows gives the same assignment as no cycle.
pub proof fn lemma_rotation_is_a_permutation(count: int, cycle: int, i: int, j: int)
    requires
        count > 0,
        cycle >= 0,
        0 <= i < count,
        0 <= j < count,
        i != j,
    ensures
        (i + cycle) % count != (j + cycle) % count,
        (i + cycle + count) % count == (i + cycle) % count,
        0 <= (i + cycle) % count < count,
{
    vstd::arithmetic::div_mod::lemma_mod_bound(i + cycle, count);
    vstd::arithmetic::div_mod::lemma_mod_add_multiples_vanish(i + cycle, count);
    if (i + cycle) % count == (j + cycle) % count {
        vstd::arithmetic::div_mod::lemma_fundamental_div_mod(i + cycle, count);
        vstd::arithmetic::div_mod::lemma_fundamental_div_mod(j + cycle, count);
        let qi = (i + cycle) / count;
        let qj = (j + cycle) / count;
        assert(i - j == (qi - qj) * count) by (nonlinear_arith)
            requires
                i + cycle == count * qi + (i + cycle) % count,
                j + cycle == count * qj + (j + cycle) % count,
                (i + cycle) % count == (j + cycle) % count,
        ;
        if qi - qj >= 1 {
            assert((qi - qj) * count >= count) by (nonlinear_arith)
                requires
                    qi - qj >= 1,
                    count > 0,
            ;
        } else if qi - qj <= -1 {
            assert((qi - qj) * count <= -count) by (nonlinear_arith)
                requires
                    qi - qj <= -1,
                    count > 0,
            ;
        }
    }
}

/// A window as the desktop-apps enumeration lists it.
#[derive(Debug)]
pub struct AppWindow {
    pub hwnd: isize,
    pub title: String,
    pub process_name: String,
    pub process_path: String,
}

/// Whether `k` is already in `chosen` under the same process name.
pub open spec fn name_taken(ws: Seq<AppWindow>, chosen: Seq<usize>, k: int) -> bool {
    exists|j: int| 0 <= j < chosen.len() && #[trigger] ws[chosen[j] as int].process_name@ == ws[k].process_name@
}

/// The windows (by index) that desktop `d` shows, among the first `k`
/// windows: each window that is not excluded and is on desktop `d`, unless a
/// window of the same process was already taken for that desktop.
pub open spec fn apps_on_desktop(
    ws: Seq<AppWindow>,
    on: Seq<Seq<bool>>,
    processes: Seq<String>,
    titles: Seq<String>,
    d: int,
    k: int,
) -> Seq<usize>
    decreases k,
{
    if k <= 0 {
        seq![]
    } else {
        let before = apps_on_desktop(ws, on, processes, titles, d, k - 1);
        let w = ws[k - 1];
        if !excluded(w.process_name@, w.title@, processes, titles) && on[k - 1][d]
            && !name_taken(ws, before, k - 1) {
            before.push((k - 1) as usize)
        } else {
            before
        }
    }
}

fn name_already_taken(ws: &Vec<AppWindow>, chosen: &Vec<usize>, k: usize) -> (b: bool)
    requires
        k < ws.len(),
        indices_valid_apps(chosen@, ws@.len() as int),
    ensures
        b == name_taken(ws@, chosen@, k as int),
{
    let mut j: usize = 0;
    while j < chosen.len()
        invariant
            k < ws.len(),
            indices_valid_apps(chosen@, ws@.len() as int),
            0 <= j <= chosen.len(),
            forall|m: int| 0 <= m < j ==> ws@[chosen@[m] as int].process_name@ != ws@[k as int].process_name@,
        decreases chosen.len() - j,
    {
        assert(chosen@[j as int] < ws@.len());
        if ws[chosen[j]].process_name == ws[k].process_name {
            return true;
        }
        j = j + 1;
    }
    false
}

pub open spec fn indices_valid_apps(s: Seq<usize>, n: int) -> bool {
    forall|i: int| 0 <= i < s.len() ==> #[trigger] s[i] < n
}

/// `on[w][d]` holds when window `w` is on desktop `d` (0-based).
pub open spec fn membership_ok(on: Seq<Vec<bool>>, windows: int, desktops: int) -> bool {
    on.len() == windows && forall|w: int| 0 <= w < windows ==> #[trigger] on[w]@.len() == desktops
}

pub open spec fn rows_of(on: Seq<Vec<bool>>) -> Seq<Seq<bool>> {
    on.map_values(|r: Vec<bool>| r@)
}

/// For each desktop (0-based), the windows (indices into `windows`) whose
/// applications its taskbar section shows: windows that are not excluded and
/// are on that desktop, one per process name, in enumeration order.
/// `on[w][d]` tells whether window `w` is on desktop `d`.
pub fn apps_per_desktop(
    windows: &Vec<AppWindow>,
    on: &Vec<Vec<bool>>,
    desktop_count: usize,
    exclude_processes: &Vec<String>,
    exclude_titles: &Vec<String>,
) -> (r: Vec<Vec<usize>>)
    requires
        membership_ok(on@, windows@.len() as int, desktop_count as int),
    ensures
        r@.len() == desktop_count,
        forall|d: int| 0 <= d < desktop_count ==> #[trigger] r@[d]@ == apps_on_desktop(
            windows@,
            rows_of(on@),
            exclude_processes@,
            exclude_titles@,
            d,
            windows@.len() as int,
        ),
{
    let ghost rows = rows_of(on@);
    let mut r: Vec<Vec<usize>> = Vec::new();
    let mut d: usize = 0;
    while d < desktop_count
        invariant
            membership_ok(on@, windows@.len() as int, desktop_count as int),
            rows == rows_of(on@),
            0 <= d <= desktop_count,
            r@.len() == d,
            forall|e: int| 0 <= e < d ==> #[trigger] r@[e]@ == apps_on_desktop(
                windows@,
                rows,
                exclude_processes@,
                exclude_titles@,
                e,
                windows@.len() as int,
            ),
        decreases desktop_count - d,
    {
        let mut chosen: Vec<usize> = Vec::new();
        let mut k: usize = 0;
        while k < windows.len()
            invariant
                membership_ok(on@, windows@.len() as int, desktop_count as int),
                rows == rows_of(on@),
                d < desktop_count,
                0 <= k <= windows.len(),
                chosen@ == apps_on_desktop(windows@, rows, exclude_processes@, exclude_titles@, d as int, k as int),
                indices_valid_apps(chosen@, windows@.len() as int),
            decreases windows.len() - k,
        {
            let w = &windows[k];
            let ex = is_excluded(w.process_name.as_str(), w.title.as_str(), exclude_processes, exclude_titles);
            assert(on@[k as int]@.len() == desktop_count);
            assert(rows[k as int] == on@[k as int]@);
            let present = on[k][d];
            if !ex && present && !name_already_taken(windows, &chosen, k) {
                chosen.push(k);
            }
            k = k + 1;
        }
        r.push(chosen);
        d = d + 1;
    }
    r
}

/// A desktop's taskbar section shows each application (process name) at
/// most once.
pub proof fn lemma_one_entry_per_process(
    ws: Seq<AppWindow>,
    on: Seq<Seq<bool>>,
    processes: Seq<String>,
    titles: Seq<String>,
    d: int,
    k: int,
)
    requires
        0 <= k <= ws.len(),
        ws.len() <= usize::MAX,
    ensures
        ({
            let a = apps_on_desktop(ws, on, processes, titles, d, k);
            &&& forall|i: int| 0 <= i < a.len() ==> #[trigger] a[i] < k
            &&& forall|i: int, j: int| 0 <= i < j < a.len() ==> ws[#[trigger] a[i] as int].process_name@
                != ws[#[trigger] a[j] as int].process_name@
        }),
    decreases k,
{
    if k > 0 {
        lemma_one_entry_per_process(ws, on, processes, titles, d, k - 1);
        let before = apps_on_desktop(ws, on, processes, titles, d, k - 1);
        let a = apps_on_desktop(ws, on, processes, titles, d, k);
        if a.len() > before.len() {
            assert(!name_taken(ws, before, k - 1));
            assert(a == before.push((k - 1) as usize));
            assert(a[before.len() as int] as int == k - 1);
            assert forall|i: int, j: int| 0 <= i < j < a.len() implies ws[#[trigger] a[i] as int].process_name@
                != ws[#[trigger] a[j] as int].process_name@ by {
                if j == before.len() {
                    assert(a[i] == before[i]);
                    if ws[before[i] as int].process_name@ == ws[k - 1].process_name@ {
                        assert(name_taken(ws, before, k - 1));
                    }
                } else {
                    assert(a[i] == before[i] && a[j] == before[j]);
                }
            }
        }
    }
}

/// What a desktop's taskbar section shows: only windows that are on that
/// desktop and not excluded (by process or by title), in enumeration order;
/// and every window that is on the desktop and not excluded is shown, or
/// another window of the same process is.
pub proof fn lemma_apps_shown_are_the_right_ones(
    ws: Seq<AppWindow>,
    on: Seq<Seq<bool>>,
    processes: Seq<String>,
    titles: Seq<String>,
    d: int,
    k: int,
)
    requires
        0 <= k <= ws.len(),
        ws.len() <= usize::MAX,
    ensures
        ({
            let a = apps_on_desktop(ws, on, processes, titles, d, k);
            &&& forall|i: int| 0 <= i < a.len() ==> {
                &&& 0 <= #[trigger] a[i] < k
                &&& on[a[i] as int][d]
                &&& !matches_any(ws[a[i] as int].process_name@, processes)
                &&& !matches_any(ws[a[i] as int].title@, titles)
            }
            &&& forall|i: int, j: int| 0 <= i < j < a.len() ==> #[trigger] a[i] < #[trigger] a[j]
            &&& forall|m: int|
                0 <= m < k && on[m][d] && !matches_any((#[trigger] ws[m]).process_name@, processes) && !matches_any(
                    ws[m].title@,
                    titles,
                ) ==> exists|j: int| 0 <= j < a.len() && ws[#[trigger] a[j] as int].process_name@ == ws[m].process_name@
        }),
    decreases k,
{
    if k > 0 {
        lemma_apps_shown_are_the_right_ones(ws, on, processes, titles, d, k - 1);
        let before = apps_on_desktop(ws, on, processes, titles, d, k - 1);
        let a = apps_on_desktop(ws, on, processes, titles, d, k);
        let w = ws[k - 1];
        let pushed = !excluded(w.process_name@, w.title@, processes, titles) && on[k - 1][d] && !name_taken(
            ws,
            before,
            k - 1,
        );
        if pushed {
            assert(a == before.push((k - 1) as usize));
            assert forall|i: int| 0 <= i < a.len() implies {
                &&& 0 <= #[trigger] a[i] < k
                &&& on[a[i] as int][d]
                &&& !excluded(ws[a[i] as int].process_name@, ws[a[i] as int].title@, processes, titles)
            } by {
                if i < before.len() {
                    assert(a[i] == before[i]);
                }
            }
            assert forall|i: int, j: int| 0 <= i < j < a.len() implies #[trigger] a[i] < #[trigger] a[j] by {
                assert(a[i] == before[i]);
                assert(before[i] < k - 1);
                if j < before.len() {
                    assert(a[j] == before[j]);
                }
            }
        } else {
            assert(a == before);
        }
        assert forall|m: int|
            0 <= m < k && on[m][d] && !excluded((#[trigger] ws[m]).process_name@, ws[m].title@, processes, titles)
            implies exists|j: int| 0 <= j < a.len() && ws[#[trigger] a[j] as int].process_name@ == ws[m].process_name@ by {
            if m < k - 1 {
                let j = choose|j: int| 0 <= j < before.len() && ws[#[trigger] before[j] as int].process_name@
                    == ws[m].process_name@;
                assert(a[j] == before[j]);
            } else if pushed {
                assert(a[before.len() as int] == (k - 1) as usize);
            } else {
                assert(name_taken(ws, before, k - 1));
                let j = choose|j: int| 0 <= j < before.len() && #[trigger] ws[before[j] as int].process_name@
                    == ws[k - 1].process_name@;
                assert(a[j] == before[j]);
            }
        }
    }
}

} // verus!
