//! Tiling layout engine: where each tiled window goes on the monitor.
use vstd::prelude::*;
use crate::geometry::{fits_i32, halve};

verus! {

/// Height reserved for the taskbar at the top of the monitor.
pub const BAR_HEIGHT: i32 = 40;

/// The tiling layouts a virtual desktop can be in.
#[derive(Debug, Clone, Copy, PartialEq, Eq, Structural)]
pub enum TilingMode {
    Free,
    TwoWindows,
    ThreeWindows,
    FourWindows,
}

impl TilingMode {
    /// The mode that follows `self` in the cycle Free -> 2 -> 3 -> 4 -> Free.
    pub open spec fn successor(self) -> TilingMode {
        match self {
            TilingMode::Free => TilingMode::TwoWindows,
            TilingMode::TwoWindows => TilingMode::ThreeWindows,
            TilingMode::ThreeWindows => TilingMode::FourWindows,
            TilingMode::FourWindows => TilingMode::Free,
        }
    }

    /// The next mode in the cycle Free -> 2 -> 3 -> 4 -> Free.
    pub fn next(&self) -> (r: Self)
        ensures
            r == self.successor(),
    {
        match self {
            TilingMode::Free => TilingMode::TwoWindows,
            TilingMode::TwoWindows => TilingMode::ThreeWindows,
            TilingMode::ThreeWindows => TilingMode::FourWindows,
            TilingMode::FourWindows => TilingMode::Free,
        }
    }
}

/// Stepping through the modes comes back to the start after four steps,
/// and visits four different modes on the way.
pub proof fn lemma_next_cycles(m: TilingMode)
    ensures
        m.successor().successor().successor().successor() == m,
        m.successor() != m,
        m.successor().successor() != m,
        m.successor().successor().successor() != m,
{
}

/// A tiled window region.
#[derive(Debug, Clone, Copy, PartialEq, Eq, Structural)]
pub struct TileRegion {
    pub x: i32,
    pub y: i32,
    pub width: i32,
    pub height: i32,
}

/// Monitor geometry and split settings used to compute a layout.
#[derive(Debug, Clone, Copy, PartialEq, Eq, Structural)]
pub struct TilingConfig {
    pub monitor_x: i32,
    pub monitor_y: i32,
    pub monitor_w: i32,
    pub monitor_h: i32,
    pub split_ratio_x: i32,
    pub split_ratio_y: i32,
    pub flip_main: bool,
}

/// A region given by mathematical integers.
pub struct Rect4 {
    pub x: int,
    pub y: int,
    pub w: int,
    pub h: int,
}

pub open spec fn rect4(x: int, y: int, w: int, h: int) -> Rect4 {
    Rect4 { x, y, w, h }
}


impl TileRegion {
    pub open spec fn rect(self) -> Rect4 {
        rect4(self.x as int, self.y as int, self.width as int, self.height as int)
    }
}

pub open spec fn rects_of(tiles: Seq<TileRegion>) -> Seq<Rect4> {
    tiles.map_values(|t: TileRegion| t.rect())
}

/// Top of the tiling area (below the taskbar).
pub open spec fn work_top(c: TilingConfig) -> int {
    c.monitor_y + BAR_HEIGHT
}

/// Height of the tiling area (below the taskbar).
pub open spec fn work_height_of(c: TilingConfig) -> int {
    c.monitor_h - BAR_HEIGHT
}

/// Main region on the left, one region filling the rest on the right.
pub open spec fn split_pair(c: TilingConfig, left_w: int) -> Seq<Rect4> {
    seq![
        rect4(c.monitor_x as int, work_top(c), left_w, work_height_of(c)),
        rect4(c.monitor_x + left_w, work_top(c), c.monitor_w - left_w, work_height_of(c)),
    ]
}

/// Main region on the left, right side stacked in two halves.
pub open spec fn main_and_stack(c: TilingConfig, left_w: int) -> Seq<Rect4> {
    let right_h = halve(work_height_of(c));
    seq![
        rect4(c.monitor_x as int, work_top(c), left_w, work_height_of(c)),
        rect4(c.monitor_x + left_w, work_top(c), c.monitor_w - left_w, right_h),
        rect4(c.monitor_x + left_w, work_top(c) + right_h, c.monitor_w - left_w, work_height_of(c) - right_h),
    ]
}

/// A 2x2 grid split at `left_w` and `top_h`.
pub open spec fn grid(c: TilingConfig, left_w: int, top_h: int) -> Seq<Rect4> {
    seq![
        rect4(c.monitor_x as int, work_top(c), left_w, top_h),
        rect4(c.monitor_x + left_w, work_top(c), c.monitor_w - left_w, top_h),
        rect4(c.monitor_x as int, work_top(c) + top_h, left_w, work_height_of(c) - top_h),
        rect4(c.monitor_x + left_w, work_top(c) + top_h, c.monitor_w - left_w, work_height_of(c) - top_h),
    ]
}

/// The layout before the optional horizontal flip. `left_w` is the width of the
/// main column and `top_h` the height of the top row (the latter is used by the
/// four-window mode only).
pub open spec fn base_layout(mode: TilingMode, c: TilingConfig, n: nat, left_w: int, top_h: int) -> Seq<Rect4> {
    let single = seq![rect4(c.monitor_x as int, work_top(c), left_w, work_height_of(c))];
    match mode {
        TilingMode::Free => seq![],
        TilingMode::TwoWindows => if n <= 1 { single } else { split_pair(c, left_w) },
        TilingMode::ThreeWindows => if n <= 1 {
            single
        } else if n == 2 {
            split_pair(c, left_w)
        } else {
            main_and_stack(c, left_w)
        },
        TilingMode::FourWindows => if n <= 1 {
            seq![rect4(c.monitor_x as int, work_top(c), left_w, top_h)]
        } else if n == 2 {
            split_pair(c, left_w)
        } else if n == 3 {
            main_and_stack(c, left_w)
        } else {
            grid(c, left_w, top_h)
        },
    }
}

/// The x position of a region mirrored across the centre of the monitor.
pub open spec fn mirrored_x(x: int, w: int, monitor_x: int, monitor_w: int) -> int {
    monitor_x + (monitor_w - ((x + w) - monitor_x))
}

pub open spec fn mirror(r: Rect4, c: TilingConfig) -> Rect4 {
    rect4(mirrored_x(r.x, r.w, c.monitor_x as int, c.monitor_w as int), r.y, r.w, r.h)
}

/// The layout `calculate_tiles` returns.
pub open spec fn layout(mode: TilingMode, c: TilingConfig, n: nat, left_w: int, top_h: int) -> Seq<Rect4> {
    let base = base_layout(mode, c, n, left_w, top_h);
    if c.flip_main {
        base.map_values(|r: Rect4| mirror(r, c))
    } else {
        base
    }
}

/// Every value `r` stores is a 32-bit integer.
pub open spec fn rect_fits(r: Rect4) -> bool {
    fits_i32(r.x) && fits_i32(r.y) && fits_i32(r.w) && fits_i32(r.h)
}

/// The intermediate values of a mirror step are 32-bit integers.
pub open spec fn mirror_fits(r: Rect4, c: TilingConfig) -> bool {
    &&& fits_i32(r.x + r.w)
    &&& fits_i32((r.x + r.w) - c.monitor_x)
    &&& fits_i32(c.monitor_w - ((r.x + r.w) - c.monitor_x))
    &&& fits_i32(mirrored_x(r.x, r.w, c.monitor_x as int, c.monitor_w as int))
}

/// No step of the layout computation leaves the 32-bit range.
pub open spec fn layout_fits(mode: TilingMode, c: TilingConfig, n: nat, left_w: int, top_h: int) -> bool {
    let base = base_layout(mode, c, n, left_w, top_h);
    &&& fits_i32(work_top(c))
    &&& fits_i32(work_height_of(c))
    &&& forall|i: int| 0 <= i < base.len() ==> #[trigger] rect_fits(base[i])
    &&& c.flip_main ==> forall|i: int| 0 <= i < base.len() ==> #[trigger] mirror_fits(base[i], c)
}

impl TilingConfig {
    /// Height of the tiling area below the taskbar; the four-window mode splits
    /// it by `split_ratio_y`.
    pub fn work_height(&self) -> (h: i32)
        requires
            fits_i32(work_height_of(*self)),
        ensures
            h == work_height_of(*self),
    {
        self.monitor_h - BAR_HEIGHT
    }
}

fn region(x: i32, y: i32, width: i32, height: i32) -> (t: TileRegion)
    ensures
        t.rect() == rect4(x as int, y as int, width as int, height as int),
{
    TileRegion { x, y, width, height }
}

fn pair_tiles(c: &TilingConfig, work_y: i32, work_h: i32, left_w: i32) -> (v: Vec<TileRegion>)
    requires
        work_y == work_top(*c),
        work_h == work_height_of(*c),
        forall|i: int| 0 <= i < split_pair(*c, left_w as int).len() ==> #[trigger] rect_fits(split_pair(*c, left_w as int)[i]),
    ensures
        rects_of(v@) == split_pair(*c, left_w as int),
{
    let ghost s = split_pair(*c, left_w as int);
    assert(rect_fits(s[1]));
    let mut v: Vec<TileRegion> = Vec::new();
    v.push(region(c.monitor_x, work_y, left_w, work_h));
    v.push(region(c.monitor_x + left_w, work_y, c.monitor_w - left_w, work_h));
    assert(rects_of(v@) =~= s);
    v
}

fn stack_tiles(c: &TilingConfig, work_y: i32, work_h: i32, left_w: i32) -> (v: Vec<TileRegion>)
    requires
        work_y == work_top(*c),
        work_h == work_height_of(*c),
        forall|i: int| 0 <= i < main_and_stack(*c, left_w as int).len() ==> #[trigger] rect_fits(main_and_stack(*c, left_w as int)[i]),
    ensures
        rects_of(v@) == main_and_stack(*c, left_w as int),
{
    let ghost s = main_and_stack(*c, left_w as int);
    assert(rect_fits(s[1]));
    assert(rect_fits(s[2]));
    let right_w = c.monitor_w - left_w;
    let right_h = work_h / 2;
    let mut v: Vec<TileRegion> = Vec::new();
    v.push(region(c.monitor_x, work_y, left_w, work_h));
    v.push(region(c.monitor_x + left_w, work_y, right_w, right_h));
    v.push(region(c.monitor_x + left_w, work_y + right_h, right_w, work_h - right_h));
    assert(rects_of(v@)[1] == s[1]);
    assert(rects_of(v@)[2] == s[2]);
    assert(rects_of(v@) =~= s);
    v
}

fn grid_tiles(c: &TilingConfig, work_y: i32, work_h: i32, left_w: i32, top_h: i32) -> (v: Vec<TileRegion>)
    requires
        work_y == work_top(*c),
        work_h == work_height_of(*c),
        forall|i: int| 0 <= i < grid(*c, left_w as int, top_h as int).len() ==> #[trigger] rect_fits(grid(*c, left_w as int, top_h as int)[i]),
    ensures
        rects_of(v@) == grid(*c, left_w as int, top_h as int),
{
    let ghost s = grid(*c, left_w as int, top_h as int);
    assert(rect_fits(s[1]));
    assert(rect_fits(s[2]));
    assert(rect_fits(s[3]));
    let right_w = c.monitor_w - left_w;
    let mut v: Vec<TileRegion> = Vec::new();
    v.push(region(c.monitor_x, work_y, left_w, top_h));
    v.push(region(c.monitor_x + left_w, work_y, right_w, top_h));
    v.push(region(c.monitor_x, work_y + top_h, left_w, work_h - top_h));
    v.push(region(c.monitor_x + left_w, work_y + top_h, right_w, work_h - top_h));
    assert(rects_of(v@)[0] == s[0]);
    assert(rects_of(v@)[1] == s[1]);
    assert(rects_of(v@)[2] == s[2]);
    assert(rects_of(v@)[3] == s[3]);
    assert(rects_of(v@) =~= s);
    v
}

/// Calculate the tile regions for a monitor area and tiling mode.
///
/// `left_w` is the width of the main column (the monitor width scaled by
/// `split_ratio_x` percent) and `top_h` the height of the top row (the work
/// height scaled by `split_ratio_y` percent); both are computed by the caller.
/// Tiles start below the taskbar. With `flip_main` every tile is mirrored
/// across the centre of the monitor.
pub fn calculate_tiles(
    mode: TilingMode,
    config: TilingConfig,
    window_count: usize,
    left_w: i32,
    top_h: i32,
) -> (tiles: Vec<TileRegion>)
    requires
        layout_fits(mode, config, window_count as nat, left_w as int, top_h as int),
    ensures
        rects_of(tiles@) == layout(mode, config, window_count as nat, left_w as int, top_h as int),
{
    let ghost base = base_layout(mode, config, window_count as nat, left_w as int, top_h as int);
    let work_y = config.monitor_y + BAR_HEIGHT;
    let work_h = config.monitor_h - BAR_HEIGHT;
    let mut tiles: Vec<TileRegion> = match mode {
        TilingMode::Free => Vec::new(),
        TilingMode::TwoWindows => {
            if window_count <= 1 {
                assert(rect_fits(base[0]));
                let mut v = Vec::new();
                v.push(region(config.monitor_x, work_y, left_w, work_h));
                v
            } else {
                pair_tiles(&config, work_y, work_h, left_w)
            }
        },
        TilingMode::ThreeWindows => {
            if window_count <= 1 {
                assert(rect_fits(base[0]));
                let mut v = Vec::new();
                v.push(region(config.monitor_x, work_y, left_w, work_h));
                v
            } else if window_count == 2 {
                pair_tiles(&config, work_y, work_h, left_w)
            } else {
                stack_tiles(&config, work_y, work_h, left_w)
            }
        },
        TilingMode::FourWindows => {
            if window_count <= 1 {
                assert(rect_fits(base[0]));
                let mut v = Vec::new();
                v.push(region(config.monitor_x, work_y, left_w, top_h));
                v
            } else if window_count == 2 {
                pair_tiles(&config, work_y, work_h, left_w)
            } else if window_count == 3 {
                stack_tiles(&config, work_y, work_h, left_w)
            } else {
                grid_tiles(&config, work_y, work_h, left_w, top_h)
            }
        },
    };
    assert(rects_of(tiles@) =~= base);
    if config.flip_main {
        let n = tiles.len();
        let mut i: usize = 0;
        while i < n
            invariant
                n == tiles.len(),
                n == base.len(),
                0 <= i <= n,
                config.flip_main,
                forall|j: int| 0 <= j < base.len() ==> #[trigger] mirror_fits(base[j], config),
                forall|j: int| 0 <= j < i ==> #[trigger] tiles@[j].rect() == mirror(base[j], config),
                forall|j: int| i <= j < n ==> #[trigger] tiles@[j].rect() == base[j],
            decreases n - i,
        {
            assert(mirror_fits(base[i as int], config));
            assert(tiles@[i as int].rect() == base[i as int]);
            let t = tiles[i];
            let right = t.x + t.width;
            let nx = config.monitor_x + (config.monitor_w - (right - config.monitor_x));
            tiles.set(i, TileRegion { x: nx, y: t.y, width: t.width, height: t.height });
            i = i + 1;
        }
        assert(rects_of(tiles@) =~= base.map_values(|r: Rect4| mirror(r, config)));
    }
    tiles
}

/// `r` lies inside the tiling area of the monitor and has no negative size.
pub open spec fn inside_work_area(r: Rect4, c: TilingConfig) -> bool {
    &&& r.w >= 0
    &&& r.h >= 0
    &&& c.monitor_x <= r.x
    &&& r.x + r.w <= c.monitor_x + c.monitor_w
    &&& work_top(c) <= r.y
    &&& r.y + r.h <= work_top(c) + work_height_of(c)
}

/// The two regions share no interior point.
pub open spec fn disjoint(a: Rect4, b: Rect4) -> bool {
    ||| a.x + a.w <= b.x
    ||| b.x + b.w <= a.x
    ||| a.y + a.h <= b.y
    ||| b.y + b.h <= a.y
}

proof fn lemma_base_layout_tiles(mode: TilingMode, c: TilingConfig, n: nat, left_w: int, top_h: int)
    requires
        0 <= left_w <= c.monitor_w,
        0 <= top_h <= work_height_of(c),
    ensures
        forall|i: int| 0 <= i < base_layout(mode, c, n, left_w, top_h).len()
            ==> inside_work_area(#[trigger] base_layout(mode, c, n, left_w, top_h)[i], c),
        forall|i: int, j: int|
            0 <= i < base_layout(mode, c, n, left_w, top_h).len()
            && 0 <= j < base_layout(mode, c, n, left_w, top_h).len() && i != j
            ==> disjoint(#[trigger] base_layout(mode, c, n, left_w, top_h)[i], #[trigger] base_layout(mode, c, n, left_w, top_h)[j]),
{
    let wh = work_height_of(c);
    assert(0 <= halve(wh) <= wh);
}

/// Mirroring keeps a region inside the tiling area.
proof fn lemma_mirror_inside(r: Rect4, c: TilingConfig)
    requires
        inside_work_area(r, c),
    ensures
        inside_work_area(mirror(r, c), c),
{
}

/// Mirroring keeps two regions apart.
proof fn lemma_mirror_disjoint(a: Rect4, b: Rect4, c: TilingConfig)
    requires
        disjoint(a, b),
    ensures
        disjoint(mirror(a, c), mirror(b, c)),
{
}

/// Whatever the mode, window count and flip setting, every tile lies inside the
/// tiling area below the taskbar and no two tiles overlap, provided the main
/// column fits in the monitor width and the top row in the work height.
pub proof fn lemma_tiles_stay_inside_and_apart(mode: TilingMode, c: TilingConfig, n: nat, left_w: int, top_h: int)
    requires
        0 <= left_w <= c.monitor_w,
        0 <= top_h <= work_height_of(c),
    ensures
        forall|i: int| 0 <= i < layout(mode, c, n, left_w, top_h).len()
            ==> inside_work_area(#[trigger] layout(mode, c, n, left_w, top_h)[i], c),
        forall|i: int, j: int|
            0 <= i < layout(mode, c, n, left_w, top_h).len()
            && 0 <= j < layout(mode, c, n, left_w, top_h).len() && i != j
            ==> disjoint(#[trigger] layout(mode, c, n, left_w, top_h)[i], #[trigger] layout(mode, c, n, left_w, top_h)[j]),
{
    let base = base_layout(mode, c, n, left_w, top_h);
    let l = layout(mode, c, n, left_w, top_h);
    lemma_base_layout_tiles(mode, c, n, left_w, top_h);
    if c.flip_main {
        assert forall|i: int| 0 <= i < l.len() implies inside_work_area(#[trigger] l[i], c) by {
            lemma_mirror_inside(base[i], c);
        }
        assert forall|i: int, j: int| 0 <= i < l.len() && 0 <= j < l.len() && i != j
            implies disjoint(#[trigger] l[i], #[trigger] l[j]) by {
            lemma_mirror_disjoint(base[i], base[j], c);
        }
    }
}

/// The total area of the regions `rs`.
pub open spec fn area_sum(rs: Seq<Rect4>) -> int
    decreases rs.len(),
{
    if rs.len() == 0 {
        0
    } else {
        area_sum(rs.drop_last()) + rs.last().w * rs.last().h
    }
}

/// How many windows a mode places side by side at most.
pub open spec fn capacity(mode: TilingMode) -> int {
    match mode {
        TilingMode::Free => 0,
        TilingMode::TwoWindows => 2,
        TilingMode::ThreeWindows => 3,
        TilingMode::FourWindows => 4,
    }
}

proof fn lemma_area_mirror(s: Seq<Rect4>, c: TilingConfig)
    ensures
        area_sum(s.map_values(|r: Rect4| mirror(r, c))) == area_sum(s),
    decreases s.len(),
{
    if s.len() > 0 {
        let m = s.map_values(|r: Rect4| mirror(r, c));
        assert(m.drop_last() =~= s.drop_last().map_values(|r: Rect4| mirror(r, c)));
        lemma_area_mirror(s.drop_last(), c);
    }
}

/// Free mode has no tiles; any other mode has one tile per window, at least
/// one and at most as many as the mode holds. With two or more windows the
/// tiles fill the whole tiling area: their areas add up to the monitor width
/// times the work height, so (as they lie inside it and never overlap) every
/// point of the tiling area belongs to exactly one tile.
pub proof fn lemma_tiles_cover_work_area(mode: TilingMode, c: TilingConfig, n: nat, left_w: int, top_h: int)
    requires
        0 <= left_w <= c.monitor_w,
        0 <= top_h <= work_height_of(c),
    ensures
        layout(mode, c, n, left_w, top_h).len() == (if mode == TilingMode::Free {
            0
        } else if n <= 1 {
            1
        } else if n < capacity(mode) {
            n as int
        } else {
            capacity(mode)
        }),
        mode != TilingMode::Free && n >= 2 ==> area_sum(layout(mode, c, n, left_w, top_h)) == c.monitor_w
            * work_height_of(c),
{
    let base = base_layout(mode, c, n, left_w, top_h);
    if c.flip_main {
        lemma_area_mirror(base, c);
    }
    let w = c.monitor_w as int;
    let h = work_height_of(c);
    let r = halve(h);
    if mode != TilingMode::Free && n >= 2 {
        reveal_with_fuel(area_sum, 5);
        assert(base.drop_last().drop_last().drop_last().drop_last().len() == 0 ==> area_sum(
            base.drop_last().drop_last().drop_last().drop_last(),
        ) == 0);
        assert(left_w * h + (w - left_w) * h == w * h) by (nonlinear_arith);
        assert(left_w * h + (w - left_w) * r + (w - left_w) * (h - r) == w * h) by (nonlinear_arith);
        assert(left_w * top_h + (w - left_w) * top_h + left_w * (h - top_h) + (w - left_w) * (h - top_h) == w * h)
            by (nonlinear_arith);
    }
}

/// The first tile is the main region: in every mode but Free it is the main
/// column's width and starts at the top of the tiling area, against the left
/// edge of the monitor, or against the right edge with `flip_main`. With two or
/// more windows in the two- and three-window modes, and with two or three in
/// the four-window mode, it spans the whole work height.
pub proof fn lemma_first_tile_is_main(mode: TilingMode, c: TilingConfig, n: nat, left_w: int, top_h: int)
    requires
        mode != TilingMode::Free,
    ensures
        ({
            let t = layout(mode, c, n, left_w, top_h)[0];
            &&& t.w == left_w
            &&& t.y == c.monitor_y + BAR_HEIGHT
            &&& !c.flip_main ==> t.x == c.monitor_x
            &&& c.flip_main ==> t.x + t.w == c.monitor_x + c.monitor_w
            &&& (n >= 2 && mode != TilingMode::FourWindows) || (mode == TilingMode::FourWindows && (n == 2 || n == 3))
                ==> t.h == c.monitor_h - BAR_HEIGHT
        }),
{
}

/// Mirroring is its own inverse: flipping a flipped region restores it, and the
/// gap between a mirrored region and the right edge of the monitor equals the
/// gap between the unmirrored region and the left edge.
pub proof fn lemma_mirror_is_reflection(r: Rect4, c: TilingConfig)
    ensures
        mirror(mirror(r, c), c) == r,
        (c.monitor_x + c.monitor_w) - (mirror(r, c).x + r.w) == r.x - c.monitor_x,
{
}

fn wide_rect(x: i64, y: i64, w: i64, h: i64) -> (r: (i64, i64, i64, i64))
    ensures
        r == (x, y, w, h),
{
    (x, y, w, h)
}

pub open spec fn wide_view(v: Seq<(i64, i64, i64, i64)>) -> Seq<Rect4> {
    v.map_values(|t: (i64, i64, i64, i64)| rect4(t.0 as int, t.1 as int, t.2 as int, t.3 as int))
}

fn half_toward_zero(v: i64) -> (h: i64)
    requires
        v > i64::MIN,
    ensures
        h == halve(v as int),
{
    if v >= 0 {
        v / 2
    } else {
        -((-v) / 2)
    }
}

/// The layout before the flip, computed without overflow in 64 bits.
fn wide_base_layout(mode: TilingMode, c: &TilingConfig, n: usize, left_w: i32, top_h: i32) -> (v: Vec<(i64, i64, i64, i64)>)
    ensures
        wide_view(v@) == base_layout(mode, *c, n as nat, left_w as int, top_h as int),
{
    let mx = c.monitor_x as i64;
    let mw = c.monitor_w as i64;
    let wy = c.monitor_y as i64 + 40;
    let wh = c.monitor_h as i64 - 40;
    let lw = left_w as i64;
    let th = top_h as i64;
    let rh = half_toward_zero(wh);
    let mut v: Vec<(i64, i64, i64, i64)> = Vec::new();
    let single = wide_rect(mx, wy, lw, wh);
    let left_col = wide_rect(mx, wy, lw, wh);
    let right_col = wide_rect(mx + lw, wy, mw - lw, wh);
    let right_top = wide_rect(mx + lw, wy, mw - lw, rh);
    let right_bottom = wide_rect(mx + lw, wy + rh, mw - lw, wh - rh);
    match mode {
        TilingMode::Free => {},
        TilingMode::TwoWindows => {
            if n <= 1 {
                v.push(single);
            } else {
                v.push(left_col);
                v.push(right_col);
            }
        },
        TilingMode::ThreeWindows => {
            if n <= 1 {
                v.push(single);
            } else if n == 2 {
                v.push(left_col);
                v.push(right_col);
            } else {
                v.push(left_col);
                v.push(right_top);
                v.push(right_bottom);
            }
        },
        TilingMode::FourWindows => {
            if n <= 1 {
                v.push(wide_rect(mx, wy, lw, th));
            } else if n == 2 {
                v.push(left_col);
                v.push(right_col);
            } else if n == 3 {
                v.push(left_col);
                v.push(right_top);
                v.push(right_bottom);
            } else {
                v.push(wide_rect(mx, wy, lw, th));
                v.push(wide_rect(mx + lw, wy, mw - lw, th));
                v.push(wide_rect(mx, wy + th, lw, wh - th));
                v.push(wide_rect(mx + lw, wy + th, mw - lw, wh - th));
            }
        },
    }
    assert(wide_view(v@) =~= base_layout(mode, *c, n as nat, left_w as int, top_h as int));
    v
}

fn in_range(v: i64) -> (b: bool)
    ensures
        b == fits_i32(v as int),
{
    i32::MIN as i64 <= v && v <= i32::MAX as i64
}

/// Whether `calculate_tiles` can compute this layout within 32-bit integers;
/// when it cannot, the computation would overflow.
pub fn tiles_fit(mode: TilingMode, config: &TilingConfig, window_count: usize, left_w: i32, top_h: i32) -> (b: bool)
    ensures
        b == layout_fits(mode, *config, window_count as nat, left_w as int, top_h as int),
{
    let ghost base = base_layout(mode, *config, window_count as nat, left_w as int, top_h as int);
    let wy = config.monitor_y as i64 + 40;
    let wh = config.monitor_h as i64 - 40;
    if !in_range(wy) || !in_range(wh) {
        return false;
    }
    let v = wide_base_layout(mode, config, window_count, left_w, top_h);
    let mx = config.monitor_x as i64;
    let mw = config.monitor_w as i64;
    let mut i: usize = 0;
    while i < v.len()
        invariant
            0 <= i <= v.len(),
            wide_view(v@) == base,
            base == base_layout(mode, *config, window_count as nat, left_w as int, top_h as int),
            fits_i32(work_top(*config)),
            fits_i32(work_height_of(*config)),
            mx == config.monitor_x,
            mw == config.monitor_w,
            forall|j: int| 0 <= j < i ==> #[trigger] rect_fits(base[j]),
            config.flip_main ==> forall|j: int| 0 <= j < i ==> #[trigger] mirror_fits(base[j], *config),
        decreases v.len() - i,
    {
        let (x, y, w, h) = v[i];
        assert(base[i as int] == rect4(x as int, y as int, w as int, h as int));
        if !in_range(x) || !in_range(y) || !in_range(w) || !in_range(h) {
            assert(!rect_fits(base[i as int]));
            return false;
        }
        if config.flip_main {
            let right = x + w;
            if !in_range(right) || !in_range(right - mx) || !in_range(mw - (right - mx)) || !in_range(
                mx + (mw - (right - mx)),
            ) {
                assert(!mirror_fits(base[i as int], *config));
                return false;
            }
        }
        i = i + 1;
    }
    true
}

} // verus!
