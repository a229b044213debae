//! The background monitors: re-tiling when windows come and go, keeping the
//! taskbar below maximized windows, and which windows the enumerations list.
use vstd::prelude::*;
use crate::text::{string_from_chars, trim, trim_chars};
use crate::utf16::{decode_lossy, decode_units};
use crate::windows::WindowInfo;
use std::collections::HashSet;

verus! {

broadcast use vstd::std_specs::hash::group_hash_axioms;

/// How long the window set must stay unchanged before tiling is re-applied.
pub const SETTLE_MS: u64 = 600;

/// The handles of the windows that take part in tiling: those not cloaked.
pub open spec fn snapshot_of(ws: Seq<WindowInfo>) -> Seq<isize> {
    ws.filter(|w: WindowInfo| !w.is_cloaked).map_values(|w: WindowInfo| w.hwnd)
}

/// The handles of the non-cloaked windows, in enumeration order.
pub fn snapshot_hwnds(windows: &Vec<WindowInfo>) -> (v: Vec<isize>)
    ensures
        v@ == snapshot_of(windows@),
{
    let mut v: Vec<isize> = Vec::new();
    let mut i: usize = 0;
    while i < windows.len()
        invariant
            0 <= i <= windows.len(),
            v@ == snapshot_of(windows@.take(i as int)),
        decreases windows.len() - i,
    {
        proof {
            assert(windows@.take(i + 1).drop_last() =~= windows@.take(i as int));
            reveal_with_fuel(Seq::filter, 1);
        }
        if !windows[i].is_cloaked {
            v.push(windows[i].hwnd);
        }
        i = i + 1;
    }
    assert(windows@.take(windows.len() as int) =~= windows@);
    v
}

/// The set of windows a snapshot holds.
pub fn hwnd_set(v: &Vec<isize>) -> (s: HashSet<isize>)
    ensures
        s@ == v@.to_set(),
{
    let mut s: HashSet<isize> = HashSet::new();
    let mut i: usize = 0;
    while i < v.len()
        invariant
            0 <= i <= v.len(),
            s@ == v@.take(i as int).to_set(),
        decreases v.len() - i,
    {
        s.insert(v[i]);
        proof {
            assert(v@.take(i + 1) =~= v@.take(i as int).push(v@[i as int]));
            let a = v@.take(i as int);
            let b = v@.take(i + 1);
            assert forall|x: isize| b.to_set().contains(x) <==> a.to_set().insert(v@[i as int]).contains(x) by {
                if b.contains(x) {
                    let j = choose|j: int| 0 <= j < b.len() && b[j] == x;
                    if j < i {
                        assert(a[j] == x);
                    }
                }
                if a.contains(x) {
                    let j = choose|j: int| 0 <= j < a.len() && a[j] == x;
                    assert(b[j] == x);
                }
                if x == v@[i as int] {
                    assert(b[i as int] == x);
                }
            }
            assert(b.to_set() =~= a.to_set().insert(v@[i as int]));
        }
        i = i + 1;
    }
    assert(v@.take(v.len() as int) =~= v@);
    s
}

/// Whether the snapshot `v` holds exactly the windows of `known`.
fn same_windows(v: &Vec<isize>, known: &HashSet<isize>) -> (r: bool)
    requires
        known@.finite(),
    ensures
        r == (v@.to_set() == known@),
{
    let snap = hwnd_set(v);
    let mut i: usize = 0;
    while i < v.len()
        invariant
            0 <= i <= v.len(),
            forall|j: int| 0 <= j < i ==> known@.contains(#[trigger] v@[j]),
        decreases v.len() - i,
    {
        if !known.contains(&v[i]) {
            assert(v@.to_set().contains(v@[i as int]));
            return false;
        }
        i = i + 1;
    }
    proof {
        vstd::seq_lib::seq_to_set_is_finite(v@);
        assert(v@.to_set().subset_of(known@)) by {
            assert forall|x: isize| v@.to_set().contains(x) implies known@.contains(x) by {
                let j = choose|j: int| 0 <= j < v@.len() && v@[j] == x;
            }
        }
    }
    if snap.len() != known.len() {
        return false;
    }
    proof {
        vstd::set_lib::lemma_subset_equality(v@.to_set(), known@);
    }
    true
}

/// One poll: the known window set, the time of the pending change, and
/// whether tiling is re-applied, after a tick that finds the tiling mode
/// active or not, the window set `snap` and the time `now`. The known set
/// always becomes the set just seen.
pub open spec fn poll_next(
    known: Set<isize>,
    pending: Option<u64>,
    active: bool,
    snap: Seq<isize>,
    now: u64,
) -> (Set<isize>, Option<u64>, bool) {
    if !active {
        (snap.to_set(), None, false)
    } else {
        let changed = snap.to_set() != known;
        let p = if changed { Some(now) } else { pending };
        let apply = p is Some && elapsed(now, p->0) >= SETTLE_MS;
        (snap.to_set(), if apply { None } else { p }, apply)
    }
}

/// A tick of the poll loop: whether a tiling mode is active, the window set
/// found, and the time in milliseconds.
pub type PollTick = (bool, Seq<isize>, u64);

/// The known set and pending change after the ticks `ticks`.
pub open spec fn poll_after(known: Set<isize>, pending: Option<u64>, ticks: Seq<PollTick>) -> (Set<isize>, Option<u64>)
    decreases ticks.len(),
{
    if ticks.len() == 0 {
        (known, pending)
    } else {
        let before = poll_after(known, pending, ticks.drop_last());
        let t = ticks.last();
        let r = poll_next(before.0, before.1, t.0, t.1, t.2);
        (r.0, r.1)
    }
}

/// Whether tick `i` of `ticks` re-applies tiling.
pub open spec fn applied_at(known: Set<isize>, pending: Option<u64>, ticks: Seq<PollTick>, i: int) -> bool {
    let before = poll_after(known, pending, ticks.take(i));
    poll_next(before.0, before.1, ticks[i].0, ticks[i].1, ticks[i].2).2
}

/// Tick `i` finds a tiling mode and a window set that differs from the known one.
pub open spec fn changed_at(known: Set<isize>, pending: Option<u64>, ticks: Seq<PollTick>, i: int) -> bool {
    ticks[i].0 && ticks[i].1.to_set() != poll_after(known, pending, ticks.take(i)).0
}

/// Every tick strictly between `j` and `i` finds a tiling mode and no change,
/// and does not re-apply tiling.
pub open spec fn quiet_between(known: Set<isize>, pending: Option<u64>, ticks: Seq<PollTick>, j: int, i: int) -> bool {
    forall|k: int|
        j < k < i ==> #[trigger] ticks[k].0 && !changed_at(known, pending, ticks, k) && !applied_at(
            known,
            pending,
            ticks,
            k,
        )
}

proof fn lemma_poll_after_step(known: Set<isize>, pending: Option<u64>, ticks: Seq<PollTick>, i: int)
    requires
        0 <= i < ticks.len(),
    ensures
        poll_after(known, pending, ticks.take(i + 1)) == ({
            let b = poll_after(known, pending, ticks.take(i));
            let r = poll_next(b.0, b.1, ticks[i].0, ticks[i].1, ticks[i].2);
            (r.0, r.1)
        }),
{
    assert(ticks.take(i + 1).drop_last() =~= ticks.take(i));
    assert(ticks.take(i + 1).last() == ticks[i]);
}

/// Starting from a fresh poll state, a pending change was seen at some
/// earlier tick `j` at its time, and every tick since has been quiet.
proof fn lemma_pending_has_a_cause(known: Set<isize>, ticks: Seq<PollTick>, i: int)
    requires
        0 <= i <= ticks.len(),
    ensures
        poll_after(known, None, ticks.take(i)).1 matches Some(t) ==> exists|j: int|
            0 <= j < i && #[trigger] changed_at(known, None, ticks, j) && ticks[j].2 == t && !applied_at(
                known,
                None,
                ticks,
                j,
            ) && quiet_between(known, None, ticks, j, i),
    decreases i,
{
    if i == 0 {
        assert(ticks.take(0) =~= Seq::<PollTick>::empty());
    } else {
        let k = i - 1;
        lemma_pending_has_a_cause(known, ticks, k);
        lemma_poll_after_step(known, None, ticks, k);
        let b = poll_after(known, None, ticks.take(k));
        if changed_at(known, None, ticks, k) {
            assert(elapsed(ticks[k].2, ticks[k].2) == 0);
            assert(!applied_at(known, None, ticks, k));
            assert(quiet_between(known, None, ticks, k, i));
        } else if ticks[k].0 {
            if let Some(t) = b.1 {
                if !applied_at(known, None, ticks, k) {
                    let j = choose|j: int|
                        0 <= j < k && #[trigger] changed_at(known, None, ticks, j) && ticks[j].2 == t && !applied_at(
                            known,
                            None,
                            ticks,
                            j,
                        ) && quiet_between(known, None, ticks, j, k);
                    assert(quiet_between(known, None, ticks, j, i)) by {
                        assert forall|m: int| j < m < i implies #[trigger] ticks[m].0 && !changed_at(
                            known,
                            None,
                            ticks,
                            m,
                        ) && !applied_at(known, None, ticks, m) by {
                            if m < k {
                                assert(j < m < k);
                            }
                        }
                    }
                    assert(changed_at(known, None, ticks, j));
                }
            }
        }
    }
}

/// Tiling is re-applied at tick `i` only in a tiling mode, and only when the
/// latest change of the window set came at an earlier tick `j`, at least
/// `SETTLE_MS` before, with every tick since in a tiling mode, without
/// another change and without tiling, starting from a fresh poll state.
pub proof fn lemma_tiling_only_after_settling(known: Set<isize>, ticks: Seq<PollTick>, i: int)
    requires
        0 <= i < ticks.len(),
        applied_at(known, None, ticks, i),
    ensures
        ticks[i].0,
        !changed_at(known, None, ticks, i),
        exists|j: int|
            0 <= j < i && #[trigger] changed_at(known, None, ticks, j) && elapsed(ticks[i].2, ticks[j].2)
                >= SETTLE_MS && !applied_at(known, None, ticks, j) && quiet_between(known, None, ticks, j, i),
{
    lemma_pending_has_a_cause(known, ticks, i);
    let b = poll_after(known, None, ticks.take(i));
    if changed_at(known, None, ticks, i) {
        assert(elapsed(ticks[i].2, ticks[i].2) == 0);
    }
    let t = b.1->0;
    let j = choose|j: int|
        0 <= j < i && #[trigger] changed_at(known, None, ticks, j) && ticks[j].2 == t && !applied_at(known, None, ticks, j)
            && quiet_between(known, None, ticks, j, i);
    assert(changed_at(known, None, ticks, j));
}

/// Tiling is never re-applied at a tick in Free mode.
pub proof fn lemma_no_tiling_in_free_mode(known: Set<isize>, pending: Option<u64>, ticks: Seq<PollTick>, i: int)
    requires
        0 <= i < ticks.len(),
        !ticks[i].0,
    ensures
        !applied_at(known, pending, ticks, i),
{
}

/// Without a change of the window set nothing is re-applied: the windows
/// present when polling starts never cause tiling.
pub proof fn lemma_no_tiling_without_change(known: Set<isize>, ticks: Seq<PollTick>, i: int)
    requires
        0 <= i < ticks.len(),
        forall|j: int| 0 <= j < ticks.len() ==> #[trigger] ticks[j].1.to_set() == known,
    ensures
        !applied_at(known, None, ticks, i),
{
    if applied_at(known, None, ticks, i) {
        lemma_tiling_only_after_settling(known, ticks, i);
        let j = choose|j: int|
            0 <= j < i && #[trigger] changed_at(known, None, ticks, j) && elapsed(ticks[i].2, ticks[j].2) >= SETTLE_MS
                && !applied_at(known, None, ticks, j) && quiet_between(known, None, ticks, j, i);
        lemma_known_is_last_seen(known, ticks, j);
        assert(ticks[j].1.to_set() == known);
    }
}

proof fn lemma_known_is_last_seen(known: Set<isize>, ticks: Seq<PollTick>, i: int)
    requires
        0 <= i <= ticks.len(),
        forall|j: int| 0 <= j < ticks.len() ==> #[trigger] ticks[j].1.to_set() == known,
    ensures
        poll_after(known, None, ticks.take(i)).0 == known,
    decreases i,
{
    if i == 0 {
        assert(ticks.take(0) =~= Seq::<PollTick>::empty());
    } else {
        lemma_known_is_last_seen(known, ticks, i - 1);
        lemma_poll_after_step(known, None, ticks, i - 1);
        assert(ticks[i - 1].1.to_set() == known);
    }
}

/// A change of the window set at the first tick, followed by ticks in a
/// tiling mode that see the same set, re-applies tiling exactly once: at the
/// first tick at least `SETTLE_MS` after the change.
pub proof fn lemma_tiling_settles_once(known: Set<isize>, pending: Option<u64>, ticks: Seq<PollTick>, i: int)
    requires
        0 <= i < ticks.len(),
        ticks[0].1.to_set() != known,
        forall|j: int| 0 <= j < ticks.len() ==> #[trigger] ticks[j].0,
        forall|j: int| 0 <= j < ticks.len() ==> #[trigger] ticks[j].1.to_set() == ticks[0].1.to_set(),
    ensures
        applied_at(known, pending, ticks, i) == (elapsed(ticks[i].2, ticks[0].2) >= SETTLE_MS && forall|j: int|
            0 <= j < i ==> elapsed(#[trigger] ticks[j].2, ticks[0].2) < SETTLE_MS),
{
    lemma_settle_state(known, pending, ticks, i);
    assert(ticks[i].0);
    assert(ticks[i].1.to_set() == ticks[0].1.to_set());
    if i == 0 {
        assert(ticks.take(0) =~= Seq::<PollTick>::empty());
    }
}

/// The state during the settling: after tick 0 the known set is the new one,
/// and the change stays pending until a tick at least `SETTLE_MS` later.
proof fn lemma_settle_state(known: Set<isize>, pending: Option<u64>, ticks: Seq<PollTick>, i: int)
    requires
        0 <= i <= ticks.len(),
        ticks.len() > 0,
        ticks[0].1.to_set() != known,
        forall|j: int| 0 <= j < ticks.len() ==> #[trigger] ticks[j].0,
        forall|j: int| 0 <= j < ticks.len() ==> #[trigger] ticks[j].1.to_set() == ticks[0].1.to_set(),
    ensures
        i == 0 ==> poll_after(known, pending, ticks.take(i)) == (known, pending),
        i > 0 ==> poll_after(known, pending, ticks.take(i)) == (
            ticks[0].1.to_set(),
            if exists|j: int| 0 <= j < i && elapsed(#[trigger] ticks[j].2, ticks[0].2) >= SETTLE_MS {
                None::<u64>
            } else {
                Some(ticks[0].2)
            },
        ),
    decreases i,
{
    if i == 0 {
        assert(ticks.take(0) =~= Seq::<PollTick>::empty());
    } else {
        lemma_settle_state(known, pending, ticks, i - 1);
        lemma_poll_after_step(known, pending, ticks, i - 1);
        assert(ticks[i - 1].0);
        assert(ticks[i - 1].1.to_set() == ticks[0].1.to_set());
        if i - 1 == 0 {
            assert(elapsed(ticks[0].2, ticks[0].2) == 0);
            assert(!exists|j: int| 0 <= j < i && elapsed(#[trigger] ticks[j].2, ticks[0].2) >= SETTLE_MS);
        } else {
            if exists|j: int| 0 <= j < i - 1 && elapsed(#[trigger] ticks[j].2, ticks[0].2) >= SETTLE_MS {
                let j = choose|j: int| 0 <= j < i - 1 && elapsed(#[trigger] ticks[j].2, ticks[0].2) >= SETTLE_MS;
                assert(0 <= j < i && elapsed(ticks[j].2, ticks[0].2) >= SETTLE_MS);
            } else if elapsed(ticks[i - 1].2, ticks[0].2) >= SETTLE_MS {
                assert(0 <= i - 1 < i && elapsed(ticks[i - 1].2, ticks[0].2) >= SETTLE_MS);
            } else {
                assert forall|j: int| 0 <= j < i implies elapsed(#[trigger] ticks[j].2, ticks[0].2) < SETTLE_MS by {
                    if j < i - 1 {
                    }
                }
            }
        }
    }
}

/// The re-tiling monitor's memory: the set of windows last seen, and the time
/// of a change still waiting to settle.
pub struct PollState {
    pub known: HashSet<isize>,
    pub last_change_ms: Option<u64>,
}

pub open spec fn elapsed(now: u64, since: u64) -> int {
    if now >= since { now - since } else { 0 }
}

impl PollState {
    /// The known set is a finite set of windows.
    pub open spec fn wf(&self) -> bool {
        self.known@.finite()
    }

    /// Start from the windows present at start-up, which are not re-tiled.
    pub fn new(initial: Vec<isize>) -> (s: PollState)
        ensures
            s.wf(),
            s.known@ == initial@.to_set(),
            s.last_change_ms is None,
    {
        proof {
            vstd::seq_lib::seq_to_set_is_finite(initial@);
        }
        PollState { known: hwnd_set(&initial), last_change_ms: None }
    }

    /// One poll: `tiling_active` says whether the current desktop is in a
    /// tiling mode, `snapshot` lists the current windows, `now_ms` reads a
    /// monotonic clock. In Free mode the snapshot is just kept up to date.
    /// Otherwise a change in the window set is remembered with its time, and
    /// once no change has been seen for `SETTLE_MS` the step returns `true`:
    /// tiling is to be re-applied.
    pub fn step(&mut self, tiling_active: bool, snapshot: Vec<isize>, now_ms: u64) -> (apply: bool)
        requires
            old(self).wf(),
        ensures
            final(self).wf(),
            (final(self).known@, final(self).last_change_ms, apply) == poll_next(
                old(self).known@,
                old(self).last_change_ms,
                tiling_active,
                snapshot@,
                now_ms,
            ),
    {
        proof {
            vstd::seq_lib::seq_to_set_is_finite(snapshot@);
        }
        if !tiling_active {
            self.known = hwnd_set(&snapshot);
            self.last_change_ms = None;
            return false;
        }
        if !same_windows(&snapshot, &self.known) {
            self.known = hwnd_set(&snapshot);
            self.last_change_ms = Some(now_ms);
        }
        match self.last_change_ms {
            Some(t) => {
                let waited = if now_ms >= t { now_ms - t } else { 0 };
                if waited >= SETTLE_MS {
                    self.last_change_ms = None;
                    true
                } else {
                    false
                }
            },
            None => false,
        }
    }
}

/// What the maximize monitor remembers: whether the taskbar is lowered, and
/// behind which window.
pub struct RaiseState {
    pub was_lowered: bool,
    pub maximized: Option<isize>,
}

/// What the maximize monitor does after looking at the foreground window.
#[derive(Debug, Clone, Copy, PartialEq, Eq, Structural)]
pub enum RaiseDecision {
    Nothing,
    /// Drop topmost and place the taskbar behind this window.
    LowerBehind(isize),
    /// Look for any maximized or fullscreen window; restore topmost if none.
    CheckOthers,
}

/// SW_SHOWMAXIMIZED, the placement of a maximized window.
pub const SW_SHOWMAXIMIZED: u32 = 3;

/// A window counts as maximized when its placement says so or it covers its
/// monitor.
pub fn maximized_or_fullscreen(placement_known: bool, show_cmd: u32, fullscreen: bool) -> (b: bool)
    ensures
        b == ((placement_known && show_cmd == SW_SHOWMAXIMIZED) || fullscreen),
{
    if placement_known {
        show_cmd == SW_SHOWMAXIMIZED || fullscreen
    } else {
        fullscreen
    }
}

/// The taskbar's raise state: whether it is lowered, and behind which window.
pub type RaiseView = (bool, Option<isize>);

/// `RaiseState::observe` as a function of the state and the foreground window.
pub open spec fn observe_next(
    s: RaiseView,
    fg: Option<isize>,
    own: isize,
    menu: Option<isize>,
    fg_max: bool,
) -> (RaiseView, RaiseDecision) {
    match fg {
        None => (s, if s.0 { RaiseDecision::CheckOthers } else { RaiseDecision::Nothing }),
        Some(f) => if f == own || menu == Some(f) {
            (s, RaiseDecision::Nothing)
        } else if fg_max {
            if !s.0 || s.1 != Some(f) {
                ((true, Some(f)), RaiseDecision::LowerBehind(f))
            } else {
                (s, RaiseDecision::Nothing)
            }
        } else {
            (s, if s.0 { RaiseDecision::CheckOthers } else { RaiseDecision::Nothing })
        },
    }
}

/// One tick of the raise monitor: observe the foreground window and, when
/// asked to, check the other windows (`others_max`: some other window is
/// maximized or fullscreen). The result is the new state, the window the
/// taskbar is lowered behind at this tick, if any, and whether it is put back
/// on top.
pub open spec fn raise_tick(
    s: RaiseView,
    fg: Option<isize>,
    own: isize,
    menu: Option<isize>,
    fg_max: bool,
    others_max: bool,
) -> (RaiseView, Option<isize>, bool) {
    let o = observe_next(s, fg, own, menu, fg_max);
    match o.1 {
        RaiseDecision::Nothing => (o.0, None, false),
        RaiseDecision::LowerBehind(f) => (o.0, Some(f), false),
        RaiseDecision::CheckOthers => if others_max {
            (o.0, None, false)
        } else {
            ((false, None), None, true)
        },
    }
}

/// A foreground window other than the taskbar's own that is maximized or
/// fullscreen has the taskbar lowered behind it, unless it already is.
pub proof fn lemma_lowered_behind_maximized(
    s: RaiseView,
    f: isize,
    own: isize,
    menu: Option<isize>,
    others_max: bool,
)
    requires
        f != own,
        menu != Some(f),
    ensures
        raise_tick(s, Some(f), own, menu, true, others_max).0 == (true, Some(f)),
        raise_tick(s, Some(f), own, menu, true, others_max).1 == (if s.0 && s.1 == Some(f) {
            None
        } else {
            Some(f)
        }),
        !raise_tick(s, Some(f), own, menu, true, others_max).2,
{
}

/// The taskbar is put back on top exactly when it was lowered, the
/// foreground is not a maximized or fullscreen window of someone else, and no
/// other window is maximized or fullscreen; it is then no longer lowered.
pub proof fn lemma_raised_only_when_none_maximized(
    s: RaiseView,
    fg: Option<isize>,
    own: isize,
    menu: Option<isize>,
    fg_max: bool,
    others_max: bool,
)
    ensures
        raise_tick(s, fg, own, menu, fg_max, others_max).2 == (s.0 && !others_max && match fg {
            None => true,
            Some(f) => f != own && menu != Some(f) && !fg_max,
        }),
        raise_tick(s, fg, own, menu, fg_max, others_max).2 ==> raise_tick(s, fg, own, menu, fg_max, others_max).0
            == (false, None::<isize>),
        !raise_tick(s, fg, own, menu, fg_max, others_max).2 && raise_tick(s, fg, own, menu, fg_max, others_max).1
            is None ==> raise_tick(s, fg, own, menu, fg_max, others_max).0 == s,
{
}

/// A tick of the raise monitor: foreground window, whether it is maximized or
/// fullscreen, and whether another window is.
pub type RaiseTick = (Option<isize>, bool, bool);

/// The raise state after the ticks `ticks`.
pub open spec fn raise_after(s: RaiseView, own: isize, menu: Option<isize>, ticks: Seq<RaiseTick>) -> RaiseView
    decreases ticks.len(),
{
    if ticks.len() == 0 {
        s
    } else {
        let t = ticks.last();
        raise_tick(raise_after(s, own, menu, ticks.drop_last()), t.0, own, menu, t.1, t.2).0
    }
}

/// While the same maximized window stays in the foreground, the taskbar is
/// lowered behind it at most once: at the first of those ticks.
pub proof fn lemma_lowered_once(s: RaiseView, own: isize, menu: Option<isize>, f: isize, ticks: Seq<RaiseTick>, i: int)
    requires
        f != own,
        menu != Some(f),
        0 < i < ticks.len(),
        forall|j: int| 0 <= j < ticks.len() ==> #[trigger] ticks[j].0 == Some(f) && ticks[j].1,
    ensures
        raise_after(s, own, menu, ticks.take(i)) == (true, Some(f)),
        raise_tick(raise_after(s, own, menu, ticks.take(i)), ticks[i].0, own, menu, ticks[i].1, ticks[i].2).1 is None,
    decreases i,
{
    assert(ticks.take(i).drop_last() =~= ticks.take(i - 1));
    assert(ticks.take(i).last() == ticks[i - 1]);
    assert(ticks[i - 1].0 == Some(f) && ticks[i - 1].1);
    assert(ticks[i].0 == Some(f) && ticks[i].1);
    if i > 1 {
        lemma_lowered_once(s, own, menu, f, ticks, i - 1);
    }
}

impl RaiseState {
    /// The taskbar starts on top, lowered behind no window.
    pub fn new() -> (s: RaiseState)
        ensures
            !s.was_lowered,
            s.maximized is None,
    {
        RaiseState { was_lowered: false, maximized: None }
    }

    /// Look at the foreground window (`None` when the desktop has focus).
    /// The taskbar's own windows are ignored. A maximized or fullscreen
    /// foreground window gets the taskbar lowered behind it (once per window);
    /// otherwise, if the taskbar is lowered, the other windows are checked.
    pub fn observe(
        &mut self,
        foreground: Option<isize>,
        own_main: isize,
        own_menu: Option<isize>,
        foreground_maximized: bool,
    ) -> (d: RaiseDecision)
        ensures
            ((final(self).was_lowered, final(self).maximized), d) == observe_next(
                (old(self).was_lowered, old(self).maximized),
                foreground,
                own_main,
                own_menu,
                foreground_maximized,
            ),
            foreground is None ==> d == (if old(self).was_lowered { RaiseDecision::CheckOthers } else { RaiseDecision::Nothing })
                && final(self).was_lowered == old(self).was_lowered && final(self).maximized == old(self).maximized,
            (foreground matches Some(f) && (f == own_main || own_menu == Some(f))) ==> d == RaiseDecision::Nothing
                && final(self).was_lowered == old(self).was_lowered && final(self).maximized == old(self).maximized,
            (foreground matches Some(f) && f != own_main && own_menu != Some(f)) ==> {
                let f = foreground->0;
                if foreground_maximized {
                    if !old(self).was_lowered || old(self).maximized != Some(f) {
                        &&& d == RaiseDecision::LowerBehind(f)
                        &&& final(self).was_lowered
                        &&& final(self).maximized == Some(f)
                    } else {
                        d == RaiseDecision::Nothing && final(self).was_lowered == old(self).was_lowered
                            && final(self).maximized == old(self).maximized
                    }
                } else {
                    d == (if old(self).was_lowered { RaiseDecision::CheckOthers } else { RaiseDecision::Nothing })
                        && final(self).was_lowered == old(self).was_lowered && final(self).maximized
                        == old(self).maximized
                }
            },
    {
        match foreground {
            None => {
                if self.was_lowered {
                    RaiseDecision::CheckOthers
                } else {
                    RaiseDecision::Nothing
                }
            },
            Some(f) => {
                let is_menu = match own_menu {
                    Some(m) => m == f,
                    None => false,
                };
                if f == own_main || is_menu {
                    return RaiseDecision::Nothing;
                }
                if foreground_maximized {
                    let same = match self.maximized {
                        Some(m) => m == f,
                        None => false,
                    };
                    if !self.was_lowered || !same {
                        self.was_lowered = true;
                        self.maximized = Some(f);
                        RaiseDecision::LowerBehind(f)
                    } else {
                        RaiseDecision::Nothing
                    }
                } else if self.was_lowered {
                    RaiseDecision::CheckOthers
                } else {
                    RaiseDecision::Nothing
                }
            },
        }
    }

    /// After checking the other windows: when none is maximized or
    /// fullscreen, the taskbar goes back to topmost (returns `true`).
    pub fn after_check(&mut self, any_maximized: bool) -> (restore: bool)
        ensures
            restore == !any_maximized,
            restore ==> !final(self).was_lowered && final(self).maximized is None,
            !restore ==> final(self).was_lowered == old(self).was_lowered && final(self).maximized == old(
                self,
            ).maximized,
    {
        if !any_maximized {
            self.was_lowered = false;
            self.maximized = None;
            true
        } else {
            false
        }
    }
}

/// The extended window style of tool windows.
pub const WS_EX_TOOLWINDOW: i32 = 0x80;

pub open spec fn tool_window(ex_style: i32) -> bool {
    ex_style & WS_EX_TOOLWINDOW != 0
}

/// Tool windows (floating toolbars and the like) are never listed.
pub fn is_tool_window(ex_style: i32) -> (b: bool)
    ensures
        b == tool_window(ex_style),
{
    ex_style & WS_EX_TOOLWINDOW != 0
}

/// Whether a window found by the scan for maximized windows counts: not one
/// of the taskbar's own windows, visible, not a tool window, not cloaked, and
/// maximized or fullscreen.
pub fn counts_as_maximized(
    hwnd: isize,
    own_main: isize,
    own_menu: Option<isize>,
    visible: bool,
    ex_style: i32,
    cloaked: bool,
    maximized: bool,
) -> (b: bool)
    ensures
        b == (hwnd != own_main && own_menu != Some(hwnd) && visible && !tool_window(ex_style) && !cloaked
            && maximized),
{
    if hwnd == own_main {
        return false;
    }
    match own_menu {
        Some(m) => {
            if m == hwnd {
                return false;
            }
        },
        None => {},
    }
    visible && !is_tool_window(ex_style) && !cloaked && maximized
}

/// The title under which a window is enumerated: visible, not a tool window,
/// and with a title that is not empty once white space is trimmed.
pub open spec fn listed_title(visible: bool, ex_style: i32, raw_title: Seq<char>) -> Option<Seq<char>> {
    if !visible || tool_window(ex_style) || trim(raw_title).len() == 0 {
        None
    } else {
        Some(trim(raw_title))
    }
}

/// The trimmed title of a window that the window enumeration reports, `None`
/// for a window it skips. `raw_title` holds the UTF-16 code units of the window
/// text, decoded with U+FFFD for unpaired surrogates.
pub fn window_title_if_listed(visible: bool, ex_style: i32, raw_title: &Vec<u16>) -> (t: Option<String>)
    ensures
        t is Some <==> listed_title(visible, ex_style, decode_lossy(raw_title@)) is Some,
        t is Some ==> t->0@ == listed_title(visible, ex_style, decode_lossy(raw_title@))->0,
{
    if !visible || is_tool_window(ex_style) {
        return None;
    }
    let chars = decode_units(raw_title);
    let trimmed = trim_chars(&chars);
    if trimmed.len() == 0 {
        return None;
    }
    Some(string_from_chars(&trimmed))
}

} // verus!
