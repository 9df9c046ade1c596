//! What every tick and every brush stroke keeps: ticks only ever swap
//! particles, so they conserve every material, never move stone and never
//! lift sand, and keep speeds and flow directions in range; a brush stroke
//! only touches cells under the brush, and only the eraser overwrites an
//! occupied cell.

use vstd::prelude::*;
use vstd::multiset::Multiset;
use crate::rng::xorshift;
use crate::sand::{
    SandState, state_wf, EMPTY, SAND, WATER, STONE, MAX_FALL, DISPERSION, in_bounds, idx,
    cell_at, is_open, swap_at, swapped, advanced, fall, fall_speed, accelerated, mark_moved,
    with_dir, with_vel, dir_of, sand_settle, update_sand_spec, slide_reach, water_slide,
    water_settle, update_water_spec, tick_cell, scan_x, scan_row, scan_rows, tick_start, tick_spec,
    is_granular, paint_cell, paint_row, paint_rows, paint_spec, render_spec, touches_water,
    stone_speck,
};

verus! {

broadcast use {vstd::multiset::group_multiset_axioms, vstd::seq_lib::group_to_multiset_ensures};

/// The same cells are stone in `a` and `b`.
pub open spec fn same_stone(a: Seq<u8>, b: Seq<u8>) -> bool {
    &&& a.len() == b.len()
    &&& forall|i: int| 0 <= i < a.len() ==> (#[trigger] a[i] == STONE) == (b[i] == STONE)
}

/// How many of the cells `lo..hi` hold sand.
pub open spec fn count_sand(c: Seq<u8>, lo: int, hi: int) -> nat
    decreases hi - lo,
{
    if lo >= hi {
        0
    } else {
        count_sand(c, lo, hi - 1) + (if c[hi - 1] == SAND {
            1nat
        } else {
            0nat
        })
    }
}

/// The sand at or below row `k` of a box `w` cells wide.
pub open spec fn sand_from_row(c: Seq<u8>, w: int, k: int) -> nat {
    count_sand(c, k * w, c.len() as int)
}

/// Sand never moved up from `a` to `b`: from any cell on, the cells at and
/// after it hold at least as much sand as before.
pub open spec fn sank(a: Seq<u8>, b: Seq<u8>) -> bool {
    &&& a.len() == b.len()
    &&& forall|k: int|
        0 <= k <= a.len() ==> #[trigger] count_sand(b, k, b.len() as int) >= count_sand(
            a,
            k,
            a.len() as int,
        )
}

/// Every flow direction is 0 (left) or 1 (right).
pub open spec fn dirs_ok(d: Seq<u8>) -> bool {
    forall|i: int| 0 <= i < d.len() ==> #[trigger] d[i] <= 1
}

/// `t` is `s` after moves that only rearrange particles: same box, same
/// multiset of materials, same stone cells, no sand moved up, and flow
/// directions stay 0 or 1.
pub open spec fn rearranged(s: SandState, t: SandState) -> bool {
    &&& state_wf(t)
    &&& t.w == s.w
    &&& t.h == s.h
    &&& t.cells.to_multiset() =~= s.cells.to_multiset()
    &&& same_stone(s.cells, t.cells)
    &&& sank(s.cells, t.cells)
    &&& dirs_ok(s.dir) ==> dirs_ok(t.dir)
}

proof fn lemma_rearranged_trans(a: SandState, b: SandState, c: SandState)
    requires
        rearranged(a, b),
        rearranged(b, c),
    ensures
        rearranged(a, c),
{
    assert forall|k: int| 0 <= k <= a.cells.len() implies #[trigger] count_sand(
        c.cells,
        k,
        c.cells.len() as int,
    ) >= count_sand(a.cells, k, a.cells.len() as int) by {
        assert(count_sand(b.cells, k, b.cells.len() as int) >= count_sand(
            a.cells,
            k,
            a.cells.len() as int,
        ));
    }
}

/// Writing `v` at `i` changes the sand count of `lo..hi` only if `i` is in
/// that range, by what left and what arrived.
proof fn lemma_count_update(c: Seq<u8>, i: int, v: u8, lo: int, hi: int)
    requires
        0 <= i < c.len(),
        0 <= lo,
        hi <= c.len(),
    ensures
        count_sand(c.update(i, v), lo, hi) + (if lo <= i < hi && c[i] == SAND {
            1int
        } else {
            0int
        }) == count_sand(c, lo, hi) + (if lo <= i < hi && v == SAND {
            1int
        } else {
            0int
        }),
    decreases hi - lo,
{
    if lo < hi {
        lemma_count_update(c, i, v, lo, hi - 1);
    }
}

/// A swap that moves sand, if any, to a later cell, over a non-sand cell,
/// lets no sand rise.
proof fn lemma_swap_sinks(c: Seq<u8>, a: int, b: int)
    requires
        0 <= a < c.len(),
        0 <= b < c.len(),
        c[b] != SAND,
        c[a] == SAND ==> a < b,
    ensures
        sank(c, swap_at(c, a, b)),
{
    let c1 = c.update(a, c[b]);
    let c2 = c1.update(b, c[a]);
    assert forall|k: int| 0 <= k <= c.len() implies #[trigger] count_sand(
        c2,
        k,
        c2.len() as int,
    ) >= count_sand(c, k, c.len() as int) by {
        lemma_count_update(c, a, c[b], k, c.len() as int);
        lemma_count_update(c1, b, c[a], k, c.len() as int);
    }
}

proof fn lemma_swap_dirs(d: Seq<u8>, a: int, b: int)
    requires
        0 <= a < d.len(),
        0 <= b < d.len(),
    ensures
        dirs_ok(d) ==> dirs_ok(swap_at(d, a, b)),
{
    if dirs_ok(d) {
        let e = swap_at(d, a, b);
        assert forall|i: int| 0 <= i < e.len() implies #[trigger] e[i] <= 1 by {
            assert(d[a] <= 1 && d[b] <= 1 && d[i] <= 1);
        }
    }
}

proof fn lemma_flip_dir(v: u8)
    requires
        v <= 1,
    ensures
        v ^ 1 <= 1,
{
    assert(v <= 1 ==> v ^ 1u8 <= 1) by (bit_vector);
}

proof fn lemma_swap_multiset(q: Seq<u8>, a: int, b: int)
    requires
        0 <= a < q.len(),
        0 <= b < q.len(),
    ensures
        swap_at(q, a, b).to_multiset() =~= q.to_multiset(),
{
    let q1 = q.update(a, q[b]);
    vstd::seq_lib::to_multiset_update(q, a, q[b]);
    vstd::seq_lib::to_multiset_update(q1, b, q[a]);
    assert(q1[b] == q[b]);
    assert(q.to_multiset().count(q[a]) > 0) by {
        assert(q.contains(q[a]));
    }
    let m = q.to_multiset();
    assert(m.insert(q[b]).remove(q[a]).insert(q[a]).remove(q[b]) =~= m);
}

/// Swapping two non-stone cells, sand only ever moving to a later cell over
/// a non-sand one, only rearranges particles.
proof fn lemma_swap(s: SandState, a: int, b: int)
    requires
        state_wf(s),
        0 <= a < s.cells.len(),
        0 <= b < s.cells.len(),
        s.cells[a] != STONE,
        s.cells[b] != STONE,
        s.cells[b] != SAND,
        s.cells[a] == SAND ==> a < b,
    ensures
        rearranged(s, swapped(s, a, b)),
        swapped(s, a, b).cells[b] == s.cells[a],
{
    lemma_swap_multiset(s.cells, a, b);
    lemma_swap_sinks(s.cells, a, b);
    lemma_swap_dirs(s.dir, a, b);
    let t = swapped(s, a, b);
    assert forall|i: int| 0 <= i < s.w * s.h implies #[trigger] t.vel[i] <= MAX_FALL by {
        assert(s.vel[a] <= MAX_FALL && s.vel[b] <= MAX_FALL && s.vel[i] <= MAX_FALL);
    }
}

/// Changes to speed (within terminal velocity), flags, directions and the
/// generator leave the particles where they are.
proof fn lemma_bookkeeping(s: SandState, t: SandState)
    requires
        state_wf(s),
        t.w == s.w,
        t.h == s.h,
        t.cells == s.cells,
        t.shade.len() == s.shade.len(),
        t.vel.len() == s.vel.len(),
        t.dir.len() == s.dir.len(),
        t.moved.len() == s.moved.len(),
        t.pixels.len() == s.pixels.len(),
        t.sky.len() == s.sky.len(),
        forall|i: int| 0 <= i < s.w * s.h ==> #[trigger] t.vel[i] <= MAX_FALL,
        dirs_ok(s.dir) ==> dirs_ok(t.dir),
    ensures
        rearranged(s, t),
{
    assert(sank(s.cells, t.cells));
}

proof fn lemma_in_bounds_index(s: SandState, x: int, y: int)
    requires
        state_wf(s),
        in_bounds(s, x, y),
    ensures
        0 <= idx(s, x, y) < s.cells.len(),
{
    assert(0 <= y * s.w + x < s.w * s.h) by (nonlinear_arith)
        requires 0 <= x < s.w, 0 <= y < s.h;
}

/// A free fall only swaps the falling particle with empty cells below it.
proof fn lemma_fall(s: SandState, x: int, cy: int, k: nat)
    requires
        state_wf(s),
        in_bounds(s, x, cy),
        s.cells[idx(s, x, cy)] != STONE,
    ensures
        rearranged(s, fall(s, x, cy, k).0),
        cy <= fall(s, x, cy, k).1 < s.h,
    decreases k,
{
    lemma_in_bounds_index(s, x, cy);
    if k == 0 {
    } else if is_open(s, x, cy + 1) {
        lemma_in_bounds_index(s, x, cy + 1);
        assert(idx(s, x, cy + 1) == idx(s, x, cy) + s.w) by (nonlinear_arith);
        let t = swapped(s, idx(s, x, cy), idx(s, x, cy + 1));
        lemma_swap(s, idx(s, x, cy), idx(s, x, cy + 1));
        lemma_fall(t, x, cy + 1, (k - 1) as nat);
        lemma_rearranged_trans(s, t, fall(t, x, cy + 1, (k - 1) as nat).0);
    } else {
    }
}

proof fn lemma_accelerated(s: SandState, i: int)
    requires
        state_wf(s),
        0 <= i < s.cells.len(),
    ensures
        rearranged(s, accelerated(s, i)),
{
    lemma_bookkeeping(s, accelerated(s, i));
}

/// Moving to an open cell at `(x2, y2)`, lower down if the mover is sand,
/// only rearranges particles.
proof fn lemma_move_to_open(s: SandState, x: int, y: int, x2: int, y2: int)
    requires
        state_wf(s),
        in_bounds(s, x, y),
        s.cells[idx(s, x, y)] != STONE,
        s.cells[idx(s, x, y)] == SAND ==> y < y2,
        is_open(s, x2, y2),
    ensures
        rearranged(s, swapped(s, idx(s, x, y), idx(s, x2, y2))),
        0 <= idx(s, x2, y2) < s.cells.len(),
{
    lemma_in_bounds_index(s, x, y);
    lemma_in_bounds_index(s, x2, y2);
    if y < y2 {
        assert(idx(s, x, y) < idx(s, x2, y2)) by (nonlinear_arith)
            requires
                y < y2,
                0 <= x < s.w,
                0 <= x2,
                idx(s, x, y) == y * s.w + x,
                idx(s, x2, y2) == y2 * s.w + x2,
        ;
    }
    lemma_swap(s, idx(s, x, y), idx(s, x2, y2));
}

proof fn lemma_sand_settle(s: SandState, x: int, y: int)
    requires
        state_wf(s),
        in_bounds(s, x, y),
        s.cells[idx(s, x, y)] == SAND,
    ensures
        rearranged(s, sand_settle(s, x, y)),
{
    let i = idx(s, x, y);
    lemma_in_bounds_index(s, x, y);
    let water_below = cell_at(s, x, y + 1) == WATER;
    if water_below && xorshift(s.rng) % 4 != 0 {
        let below = idx(s, x, y + 1);
        lemma_in_bounds_index(s, x, y + 1);
        assert(below == i + s.w) by (nonlinear_arith)
            requires
                below == (y + 1) * s.w + x,
                i == y * s.w + x,
        ;
        let a = advanced(s);
        lemma_bookkeeping(s, a);
        lemma_swap(a, i, below);
        let t = swapped(a, i, below);
        let u = SandState {
            vel: t.vel.update(below, 1),
            moved: t.moved.update(below, true).update(i, true),
            ..t
        };
        lemma_bookkeeping(t, u);
        lemma_rearranged_trans(s, a, t);
        lemma_rearranged_trans(s, t, u);
    } else {
        let s1 = if water_below {
            advanced(s)
        } else {
            s
        };
        let s2 = advanced(s1);
        lemma_bookkeeping(s, s2);
        let side: int = if s2.rng & 1 == 0 {
            1
        } else {
            -1
        };
        if is_open(s2, x + side, y + 1) {
            let to = idx(s2, x + side, y + 1);
            lemma_move_to_open(s2, x, y, x + side, y + 1);
            let t = swapped(s2, i, to);
            lemma_bookkeeping(t, mark_moved(t, to));
            lemma_rearranged_trans(s, s2, t);
            lemma_rearranged_trans(s, t, mark_moved(t, to));
        } else if is_open(s2, x - side, y + 1) {
            let to = idx(s2, x - side, y + 1);
            lemma_move_to_open(s2, x, y, x - side, y + 1);
            let t = swapped(s2, i, to);
            lemma_bookkeeping(t, mark_moved(t, to));
            lemma_rearranged_trans(s, s2, t);
            lemma_rearranged_trans(s, t, mark_moved(t, to));
        } else {
            lemma_bookkeeping(s2, with_vel(s2, i, 0));
            lemma_rearranged_trans(s, s2, with_vel(s2, i, 0));
        }
    }
}

proof fn lemma_update_sand(s: SandState, x: int, y: int)
    requires
        state_wf(s),
        in_bounds(s, x, y),
        s.cells[idx(s, x, y)] == SAND,
    ensures
        rearranged(s, update_sand_spec(s, x, y)),
{
    let i = idx(s, x, y);
    lemma_in_bounds_index(s, x, y);
    let s1 = accelerated(s, i);
    lemma_accelerated(s, i);
    let (s2, cy) = fall(s1, x, y, fall_speed(s, i) as nat);
    lemma_fall(s1, x, y, fall_speed(s, i) as nat);
    lemma_rearranged_trans(s, s1, s2);
    if cy > y {
        lemma_in_bounds_index(s2, x, cy);
        lemma_bookkeeping(s2, mark_moved(s2, idx(s2, x, cy)));
        lemma_rearranged_trans(s, s2, mark_moved(s2, idx(s2, x, cy)));
    } else {
        lemma_sand_settle(s1, x, y);
        lemma_rearranged_trans(s, s1, sand_settle(s1, x, y));
    }
}

/// Water can slide past `k` cells in direction `sd` only through open cells.
proof fn lemma_slide_reach(s: SandState, x: int, y: int, sd: int, j: nat)
    requires
        j <= DISPERSION,
    ensures
        j <= slide_reach(s, x, y, sd, j) <= DISPERSION,
        slide_reach(s, x, y, sd, j) > j ==> is_open(
            s,
            x + slide_reach(s, x, y, sd, j) * sd,
            y,
        ),
    decreases DISPERSION - j,
{
    if j < DISPERSION && is_open(s, x + (j + 1) * sd, y) {
        lemma_slide_reach(s, x, y, sd, j + 1);
    }
}

proof fn lemma_water_slide(s: SandState, x: int, y: int, sd: int)
    requires
        state_wf(s),
        in_bounds(s, x, y),
        s.cells[idx(s, x, y)] == WATER,
        slide_reach(s, x, y, sd, 0) != 0,
    ensures
        rearranged(s, water_slide(s, x, y, sd)),
{
    lemma_slide_reach(s, x, y, sd, 0);
    let k = slide_reach(s, x, y, sd, 0);
    let from = idx(s, x, y);
    let to = idx(s, x + k * sd, y);
    lemma_move_to_open(s, x, y, x + k * sd, y);
    lemma_in_bounds_index(s, x, y);
    let t = swapped(s, from, to);
    let u = SandState {
        dir: t.dir.update(to, dir_of(sd)),
        moved: t.moved.update(to, true).update(from, true),
        ..t
    };
    assert(dirs_ok(t.dir) ==> dirs_ok(u.dir)) by {
        if dirs_ok(t.dir) {
            assert forall|i: int| 0 <= i < u.dir.len() implies #[trigger] u.dir[i] <= 1 by {
                assert(t.dir[i] <= 1);
            }
        }
    }
    lemma_bookkeeping(t, u);
    lemma_rearranged_trans(s, t, u);
}

proof fn lemma_water_diag(s: SandState, x: int, y: int, side: int)
    requires
        state_wf(s),
        in_bounds(s, x, y),
        s.cells[idx(s, x, y)] == WATER,
        is_open(s, x + side, y + 1),
    ensures
        rearranged(
            s,
            mark_moved(
                with_dir(
                    swapped(s, idx(s, x, y), idx(s, x + side, y + 1)),
                    idx(s, x + side, y + 1),
                    dir_of(side),
                ),
                idx(s, x + side, y + 1),
            ),
        ),
{
    let to = idx(s, x + side, y + 1);
    lemma_move_to_open(s, x, y, x + side, y + 1);
    let t = swapped(s, idx(s, x, y), to);
    let u = mark_moved(with_dir(t, to, dir_of(side)), to);
    assert(dirs_ok(t.dir) ==> dirs_ok(u.dir)) by {
        if dirs_ok(t.dir) {
            assert forall|i: int| 0 <= i < u.dir.len() implies #[trigger] u.dir[i] <= 1 by {
                assert(t.dir[i] <= 1);
            }
        }
    }
    lemma_bookkeeping(t, u);
    lemma_rearranged_trans(s, t, u);
}

proof fn lemma_water_settle(s: SandState, x: int, y: int)
    requires
        state_wf(s),
        in_bounds(s, x, y),
        s.cells[idx(s, x, y)] == WATER,
    ensures
        rearranged(s, water_settle(s, x, y)),
{
    let i = idx(s, x, y);
    lemma_in_bounds_index(s, x, y);
    let side: int = if s.dir[i] == 1 {
        1
    } else {
        -1
    };
    if is_open(s, x + side, y + 1) {
        lemma_water_diag(s, x, y, side);
    } else if is_open(s, x - side, y + 1) {
        lemma_water_diag(s, x, y, -side);
        assert(x + (-side) == x - side);
    } else {
        let s3 = with_vel(s, i, 0);
        lemma_bookkeeping(s, s3);
        if slide_reach(s3, x, y, side, 0) != 0 {
            lemma_water_slide(s3, x, y, side);
            lemma_rearranged_trans(s, s3, water_slide(s3, x, y, side));
        } else if slide_reach(s3, x, y, -side, 0) != 0 {
            lemma_water_slide(s3, x, y, -side);
            lemma_rearranged_trans(s, s3, water_slide(s3, x, y, -side));
        } else {
            let u = with_dir(s3, i, s3.dir[i] ^ 1);
            assert(dirs_ok(s3.dir) ==> dirs_ok(u.dir)) by {
                if dirs_ok(s3.dir) {
                    lemma_flip_dir(s3.dir[i]);
                    assert forall|j: int| 0 <= j < u.dir.len() implies #[trigger] u.dir[j] <= 1 by {
                        assert(s3.dir[j] <= 1);
                    }
                }
            }
            lemma_bookkeeping(s3, u);
            lemma_rearranged_trans(s, s3, with_dir(s3, i, s3.dir[i] ^ 1));
        }
    }
}

proof fn lemma_update_water(s: SandState, x: int, y: int)
    requires
        state_wf(s),
        in_bounds(s, x, y),
        s.cells[idx(s, x, y)] == WATER,
    ensures
        rearranged(s, update_water_spec(s, x, y)),
{
    let i = idx(s, x, y);
    lemma_in_bounds_index(s, x, y);
    let s1 = accelerated(s, i);
    lemma_accelerated(s, i);
    let (s2, cy) = fall(s1, x, y, fall_speed(s, i) as nat);
    lemma_fall(s1, x, y, fall_speed(s, i) as nat);
    lemma_rearranged_trans(s, s1, s2);
    if cy > y {
        lemma_in_bounds_index(s2, x, cy);
        lemma_bookkeeping(s2, mark_moved(s2, idx(s2, x, cy)));
        lemma_rearranged_trans(s, s2, mark_moved(s2, idx(s2, x, cy)));
    } else {
        lemma_water_settle(s1, x, y);
        lemma_rearranged_trans(s, s1, water_settle(s1, x, y));
    }
}

proof fn lemma_tick_cell(s: SandState, x: int, y: int)
    requires
        state_wf(s),
        in_bounds(s, x, y),
    ensures
        rearranged(s, tick_cell(s, x, y)),
{
    lemma_in_bounds_index(s, x, y);
    let i = idx(s, x, y);
    if s.moved[i] {
    } else if s.cells[i] == SAND {
        lemma_update_sand(s, x, y);
    } else if s.cells[i] == WATER {
        lemma_update_water(s, x, y);
    } else {
    }
}

proof fn lemma_scan_row(s: SandState, w: int, flip: bool, y: int, n: nat)
    requires
        state_wf(s),
        w == s.w,
        0 <= y < s.h,
        n <= w,
    ensures
        rearranged(s, scan_row(s, w, flip, y, n)),
    decreases n,
{
    if n > 0 {
        lemma_scan_row(s, w, flip, y, (n - 1) as nat);
        let prev = scan_row(s, w, flip, y, (n - 1) as nat);
        lemma_tick_cell(prev, scan_x(w, flip, n - 1), y);
        lemma_rearranged_trans(s, prev, tick_cell(prev, scan_x(w, flip, n - 1), y));
    }
}

proof fn lemma_scan_rows(s: SandState, r: nat)
    requires
        state_wf(s),
        r <= s.h,
    ensures
        rearranged(s, scan_rows(s, r)),
    decreases r,
{
    if r > 0 {
        lemma_scan_rows(s, (r - 1) as nat);
        let prev = scan_rows(s, (r - 1) as nat);
        lemma_scan_row(prev, s.w, s.flip, s.h - r, s.w as nat);
        lemma_rearranged_trans(s, prev, scan_row(prev, s.w, s.flip, s.h - r, s.w as nat));
    }
}

/// A tick only moves particles around: every material keeps its count, the
/// box keeps its size, and exactly the cells that were stone are stone.
/// Every fall speed stays within terminal velocity, flow directions stay 0
/// or 1, and sand never rises: for every row, the sand at or below it never
/// shrinks.
pub proof fn lemma_tick_rearranges(s: SandState)
    requires
        state_wf(s),
    ensures
        state_wf(tick_spec(s)),
        tick_spec(s).w == s.w,
        tick_spec(s).h == s.h,
        tick_spec(s).cells.to_multiset() == s.cells.to_multiset(),
        forall|i: int|
            0 <= i < s.cells.len() ==> (#[trigger] tick_spec(s).cells[i] == STONE) == (s.cells[i]
                == STONE),
        forall|i: int| 0 <= i < s.cells.len() ==> #[trigger] tick_spec(s).vel[i] <= MAX_FALL,
        dirs_ok(s.dir) ==> dirs_ok(tick_spec(s).dir),
        forall|k: int|
            0 <= k <= s.h ==> #[trigger] sand_from_row(tick_spec(s).cells, s.w, k) >= sand_from_row(
                s.cells,
                s.w,
                k,
            ),
{
    let p = tick_start(s);
    lemma_bookkeeping(s, p);
    lemma_scan_rows(p, s.h as nat);
    lemma_rearranged_trans(s, p, tick_spec(s));
    let t = tick_spec(s);
    assert forall|k: int| 0 <= k <= s.h implies #[trigger] sand_from_row(t.cells, s.w, k)
        >= sand_from_row(s.cells, s.w, k) by {
        assert(0 <= k * s.w <= s.h * s.w) by (nonlinear_arith)
            requires
                0 <= k <= s.h,
                0 <= s.w,
        ;
        assert(count_sand(t.cells, k * s.w, t.cells.len() as int) >= count_sand(
            s.cells,
            k * s.w,
            s.cells.len() as int,
        ));
    }
}

/// Swapping the same two cells twice puts every particle, with its shade,
/// speed and direction, back where it was.
pub proof fn lemma_swap_twice(s: SandState, a: int, b: int)
    requires
        state_wf(s),
        0 <= a < s.cells.len(),
        0 <= b < s.cells.len(),
    ensures
        swapped(swapped(s, a, b), a, b) == s,
        swapped(s, a, b).cells[a] == s.cells[b],
        swapped(s, a, b).cells[b] == s.cells[a],
        swapped(s, a, b).moved == s.moved,
        swapped(s, a, b).pixels == s.pixels,
{
    let t = swapped(swapped(s, a, b), a, b);
    assert(t.cells =~= s.cells);
    assert(t.shade =~= s.shade);
    assert(t.vel =~= s.vel);
    assert(t.dir =~= s.dir);
}

/// Cell `i` lies under a brush of radius `r` centred on `(x, y)`.
pub open spec fn in_brush(s: SandState, x: int, y: int, r: int, i: int) -> bool {
    let dx = i % s.w - x;
    let dy = i / s.w - y;
    0 <= r && dx * dx + dy * dy <= r * r
}

/// Every cell of `t` is as in `s`, or lies under the brush, was empty in `s`
/// unless `m` is the eraser, and now holds `m`; flow directions stay 0 or 1.
pub open spec fn painted_within(s: SandState, t: SandState, x: int, y: int, m: u8, r: int) -> bool {
    &&& state_wf(t)
    &&& t.w == s.w
    &&& t.h == s.h
    &&& dirs_ok(s.dir) ==> dirs_ok(t.dir)
    &&& forall|i: int|
        0 <= i < s.cells.len() ==> #[trigger] t.cells[i] == s.cells[i] || (in_brush(s, x, y, r, i)
            && (m == EMPTY || s.cells[i] == EMPTY) && t.cells[i] == m)
}

/// Index bookkeeping for the cell at `(px, py)`.
proof fn lemma_cell_index(s: SandState, px: int, py: int)
    requires
        state_wf(s),
        in_bounds(s, px, py),
    ensures
        0 <= idx(s, px, py) < s.cells.len(),
        idx(s, px, py) % s.w == px,
        idx(s, px, py) / s.w == py,
{
    lemma_in_bounds_index(s, px, py);
    vstd::arithmetic::div_mod::lemma_fundamental_div_mod_converse(idx(s, px, py), s.w, py, px);
}

proof fn lemma_paint_cell_within(
    s: SandState,
    t: SandState,
    x: int,
    y: int,
    m: u8,
    r: int,
    dx: int,
    dy: int,
)
    requires
        state_wf(s),
        0 <= r,
        painted_within(s, t, x, y, m, r),
    ensures
        painted_within(s, paint_cell(t, x, y, m, r, dx, dy), x, y, m, r),
{
    let px = x + dx;
    let py = y + dy;
    if dx * dx + dy * dy > r * r || !in_bounds(t, px, py) {
    } else if is_granular(m) && xorshift(t.rng) % 4 != 0 {
    } else {
        let t1 = if is_granular(m) {
            advanced(t)
        } else {
            t
        };
        let j = idx(t1, px, py);
        lemma_cell_index(t1, px, py);
        if m == EMPTY || t1.cells[j] == EMPTY {
            let u = paint_cell(t, x, y, m, r, dx, dy);
            assert(in_brush(s, x, y, r, j));
            let r2 = xorshift(xorshift(t1.rng));
            assert((r2 & 1u32) as u8 <= 1) by (bit_vector);
            assert(dirs_ok(s.dir) ==> dirs_ok(u.dir)) by {
                if dirs_ok(s.dir) {
                    assert forall|i: int| 0 <= i < u.dir.len() implies #[trigger] u.dir[i] <= 1 by {
                        assert(t1.dir[i] <= 1);
                    }
                }
            }
            assert forall|i: int| 0 <= i < u.w * u.h implies #[trigger] u.vel[i] <= MAX_FALL by {
                assert(t1.vel[i] <= MAX_FALL);
            }
            assert forall|i: int| 0 <= i < s.cells.len() implies #[trigger] u.cells[i]
                == s.cells[i] || (in_brush(s, x, y, r, i) && (m == EMPTY || s.cells[i] == EMPTY)
                && u.cells[i] == m) by {
                if i != j {
                    assert(u.cells[i] == t.cells[i]);
                }
            }
            assert(state_wf(u));
        }
    }
}

proof fn lemma_paint_row_within(
    s: SandState,
    t: SandState,
    x: int,
    y: int,
    m: u8,
    r: int,
    dy: int,
    n: nat,
)
    requires
        state_wf(s),
        0 <= r,
        painted_within(s, t, x, y, m, r),
    ensures
        painted_within(s, paint_row(t, x, y, m, r, dy, n), x, y, m, r),
    decreases n,
{
    if n > 0 {
        lemma_paint_row_within(s, t, x, y, m, r, dy, (n - 1) as nat);
        lemma_paint_cell_within(
            s,
            paint_row(t, x, y, m, r, dy, (n - 1) as nat),
            x,
            y,
            m,
            r,
            -r + (n - 1),
            dy,
        );
    }
}

proof fn lemma_paint_rows_within(s: SandState, t: SandState, x: int, y: int, m: u8, r: int, k: nat)
    requires
        state_wf(s),
        0 <= r,
        painted_within(s, t, x, y, m, r),
    ensures
        painted_within(s, paint_rows(t, x, y, m, r, k), x, y, m, r),
    decreases k,
{
    if k > 0 {
        lemma_paint_rows_within(s, t, x, y, m, r, (k - 1) as nat);
        lemma_paint_row_within(
            s,
            paint_rows(t, x, y, m, r, (k - 1) as nat),
            x,
            y,
            m,
            r,
            -r + (k - 1),
            (2 * r + 1) as nat,
        );
    }
}

/// A brush stroke keeps the box well formed and changes only cells under the
/// brush; a cell it changes now holds the brush's material, and unless the
/// brush is the eraser, that cell was empty before.
pub proof fn lemma_paint_within_brush(s: SandState, x: int, y: int, m: u8, r: int)
    requires
        state_wf(s),
    ensures
        painted_within(s, paint_spec(s, x, y, m, r), x, y, m, r),
{
    if r >= 0 {
        lemma_paint_rows_within(s, s, x, y, m, r, (2 * r + 1) as nat);
    }
}

/// The brush offset of cell `i` comes before offset `(-r + n, -r + k)` in
/// the stroke's row-by-row order.
pub open spec fn visited(s: SandState, x: int, y: int, r: int, k: int, n: int, i: int) -> bool {
    let dx = i % s.w - x;
    let dy = i / s.w - y;
    &&& -r <= dx <= r
    &&& -r <= dy
    &&& (dy < -r + k || (dy == -r + k && dx < -r + n))
}

/// What a solid brush (eraser or stone) has done once it has visited the
/// offsets before `(-r + n, -r + k)`.
pub open spec fn solid_painted(
    s: SandState,
    t: SandState,
    x: int,
    y: int,
    m: u8,
    r: int,
    k: int,
    n: int,
) -> bool {
    &&& state_wf(t)
    &&& t.w == s.w
    &&& t.h == s.h
    &&& forall|i: int|
        0 <= i < s.cells.len() ==> #[trigger] t.cells[i] == (if in_brush(s, x, y, r, i) && visited(
            s,
            x,
            y,
            r,
            k,
            n,
            i,
        ) && (m == EMPTY || s.cells[i] == EMPTY) {
            m
        } else {
            s.cells[i]
        })
}

proof fn lemma_solid_step(
    s: SandState,
    t: SandState,
    x: int,
    y: int,
    m: u8,
    r: int,
    k: int,
    n: int,
)
    requires
        state_wf(s),
        !is_granular(m),
        0 <= k <= 2 * r,
        0 <= n <= 2 * r,
        solid_painted(s, t, x, y, m, r, k, n),
    ensures
        solid_painted(s, paint_cell(t, x, y, m, r, -r + n, -r + k), x, y, m, r, k, n + 1),
{
    let dx = -r + n;
    let dy = -r + k;
    let px = x + dx;
    let py = y + dy;
    let u = paint_cell(t, x, y, m, r, dx, dy);
    if dx * dx + dy * dy > r * r || !in_bounds(t, px, py) {
        assert forall|i: int| 0 <= i < s.cells.len() implies #[trigger] u.cells[i] == (if in_brush(
            s,
            x,
            y,
            r,
            i,
        ) && visited(s, x, y, r, k, n + 1, i) && (m == EMPTY || s.cells[i] == EMPTY) {
            m
        } else {
            s.cells[i]
        }) by {
            crate::sand::lemma_cell_of_public(s.w, s.h, i);
        }
    } else {
        let j = idx(t, px, py);
        lemma_cell_index(t, px, py);
        assert forall|i: int| 0 <= i < s.cells.len() implies #[trigger] u.cells[i] == (if in_brush(
            s,
            x,
            y,
            r,
            i,
        ) && visited(s, x, y, r, k, n + 1, i) && (m == EMPTY || s.cells[i] == EMPTY) {
            m
        } else {
            s.cells[i]
        }) by {
            crate::sand::lemma_cell_of_public(s.w, s.h, i);
            if i != j {
                if i % s.w == px && i / s.w == py {
                    assert(i == py * s.w + px);
                }
            }
        }
        assert forall|i: int| 0 <= i < u.w * u.h implies #[trigger] u.vel[i] <= MAX_FALL by {
            assert(t.vel[i] <= MAX_FALL);
        }
    }
}

proof fn lemma_solid_row(s: SandState, t: SandState, x: int, y: int, m: u8, r: int, k: int, n: nat)
    requires
        state_wf(s),
        !is_granular(m),
        0 <= k <= 2 * r,
        n <= 2 * r + 1,
        solid_painted(s, t, x, y, m, r, k, 0),
    ensures
        solid_painted(s, paint_row(t, x, y, m, r, -r + k, n), x, y, m, r, k, n as int),
    decreases n,
{
    if n > 0 {
        lemma_solid_row(s, t, x, y, m, r, k, (n - 1) as nat);
        lemma_solid_step(s, paint_row(t, x, y, m, r, -r + k, (n - 1) as nat), x, y, m, r, k, n - 1);
    }
}

proof fn lemma_solid_rows(s: SandState, x: int, y: int, m: u8, r: int, k: nat)
    requires
        state_wf(s),
        !is_granular(m),
        0 <= r,
        k <= 2 * r + 1,
    ensures
        solid_painted(s, paint_rows(s, x, y, m, r, k), x, y, m, r, k as int, 0),
    decreases k,
{
    if k == 0 {
        assert forall|i: int| 0 <= i < s.cells.len() implies #[trigger] s.cells[i] == (if in_brush(
            s,
            x,
            y,
            r,
            i,
        ) && visited(s, x, y, r, 0, 0, i) && (m == EMPTY || s.cells[i] == EMPTY) {
            m
        } else {
            s.cells[i]
        }) by {
        }
    } else {
        lemma_solid_rows(s, x, y, m, r, (k - 1) as nat);
        let prev = paint_rows(s, x, y, m, r, (k - 1) as nat);
        lemma_solid_row(s, prev, x, y, m, r, k - 1, (2 * r + 1) as nat);
        let t = paint_rows(s, x, y, m, r, k);
        assert forall|i: int| 0 <= i < s.cells.len() implies #[trigger] t.cells[i] == (if in_brush(
            s,
            x,
            y,
            r,
            i,
        ) && visited(s, x, y, r, k as int, 0, i) && (m == EMPTY || s.cells[i] == EMPTY) {
            m
        } else {
            s.cells[i]
        }) by {
            assert(visited(s, x, y, r, k - 1, 2 * r + 1, i) == visited(s, x, y, r, k as int, 0, i));
        }
    }
}

/// The eraser empties every cell under the brush and stone fills every
/// empty cell under it; nothing else changes.
pub proof fn lemma_solid_brush(s: SandState, x: int, y: int, m: u8, r: int)
    requires
        state_wf(s),
        m == EMPTY || m == STONE,
    ensures
        forall|i: int|
            0 <= i < s.cells.len() ==> #[trigger] paint_spec(s, x, y, m, r).cells[i] == (if in_brush(
                s,
                x,
                y,
                r,
                i,
            ) && (m == EMPTY || s.cells[i] == EMPTY) {
                m
            } else {
                s.cells[i]
            }),
{
    if r >= 0 {
        lemma_solid_rows(s, x, y, m, r, (2 * r + 1) as nat);
        let t = paint_spec(s, x, y, m, r);
        assert forall|i: int| 0 <= i < s.cells.len() implies #[trigger] t.cells[i] == (if in_brush(
            s,
            x,
            y,
            r,
            i,
        ) && (m == EMPTY || s.cells[i] == EMPTY) {
            m
        } else {
            s.cells[i]
        }) by {
            let a = i % s.w - x;
            let b = i / s.w - y;
            if in_brush(s, x, y, r, i) {
                assert(-r <= a <= r && -r <= b <= r) by (nonlinear_arith)
                    requires a * a + b * b <= r * r, r >= 0;
            }
        }
    } else {
        assert forall|i: int| 0 <= i < s.cells.len() implies !in_brush(s, x, y, r, i) by {}
    }
}

/// A sand grain that cannot fall straight down and is not over water, but
/// has an open cell diagonally below on either side, slides into one of
/// those cells: its own cell is left empty and the grain lands diagonally
/// below. This is how sand forms piles instead of columns.
pub proof fn lemma_sand_slides_off(s: SandState, x: int, y: int)
    requires
        state_wf(s),
        in_bounds(s, x, y),
        s.cells[idx(s, x, y)] == SAND,
        !is_open(s, x, y + 1),
        cell_at(s, x, y + 1) != WATER,
        is_open(s, x - 1, y + 1) || is_open(s, x + 1, y + 1),
    ensures
        cell_at(update_sand_spec(s, x, y), x, y) == EMPTY,
        cell_at(update_sand_spec(s, x, y), x - 1, y + 1) == SAND || cell_at(
            update_sand_spec(s, x, y),
            x + 1,
            y + 1,
        ) == SAND,
{
    let i = idx(s, x, y);
    lemma_in_bounds_index(s, x, y);
    let s1 = accelerated(s, i);
    assert(fall_speed(s, i) >= 1);
    assert(fall(s1, x, y, fall_speed(s, i) as nat) == (s1, y));
    let u = update_sand_spec(s, x, y);
    assert(u == sand_settle(s1, x, y));
    let s2 = advanced(s1);
    let side: int = if s2.rng & 1 == 0 {
        1
    } else {
        -1
    };
    if is_open(s2, x + side, y + 1) {
        lemma_in_bounds_index(s2, x + side, y + 1);
        let to = idx(s2, x + side, y + 1);
        assert(to != i) by (nonlinear_arith)
            requires
                to == (y + 1) * s.w + x + side,
                i == y * s.w + x,
                0 <= x < s.w,
                0 <= x + side < s.w,
        ;
        assert(u.cells == swap_at(s2.cells, i, to));
    } else {
        assert(is_open(s2, x - side, y + 1));
        lemma_in_bounds_index(s2, x - side, y + 1);
        let to = idx(s2, x - side, y + 1);
        assert(to != i) by (nonlinear_arith)
            requires
                to == (y + 1) * s.w + x - side,
                i == y * s.w + x,
                0 <= x < s.w,
                0 <= x - side < s.w,
        ;
        assert(u.cells == swap_at(s2.cells, i, to));
    }
}

/// A free fall from `(x, cy)` leaves every earlier cell alone, empties the
/// start cell if the particle moved, and ends with the particle at the row
/// it reports, at most `k` rows lower.
proof fn lemma_fall_frame(s: SandState, x: int, cy: int, k: nat)
    requires
        state_wf(s),
        in_bounds(s, x, cy),
    ensures
        forall|j: int|
            0 <= j < idx(s, x, cy) ==> #[trigger] fall(s, x, cy, k).0.cells[j] == s.cells[j],
        fall(s, x, cy, k).0.w == s.w,
        cy <= fall(s, x, cy, k).1 <= cy + k,
        fall(s, x, cy, k).1 < s.h,
        fall(s, x, cy, k).0.cells.len() == s.cells.len(),
        fall(s, x, cy, k).0.cells[idx(s, x, fall(s, x, cy, k).1)] == s.cells[idx(s, x, cy)],
        fall(s, x, cy, k).1 > cy ==> fall(s, x, cy, k).0.cells[idx(s, x, cy)] == EMPTY,
        fall(s, x, cy, k).0.h == s.h,
        k > 0 && is_open(s, x, cy + 1) ==> fall(s, x, cy, k).1 > cy,
    decreases k,
{
    lemma_in_bounds_index(s, x, cy);
    if k > 0 && is_open(s, x, cy + 1) {
        lemma_in_bounds_index(s, x, cy + 1);
        let a = idx(s, x, cy);
        let b = idx(s, x, cy + 1);
        assert(b == a + s.w) by (nonlinear_arith)
            requires
                a == cy * s.w + x,
                b == (cy + 1) * s.w + x,
        ;
        let t = swapped(s, a, b);
        assert(state_wf(t)) by {
            assert forall|i: int| 0 <= i < t.w * t.h implies #[trigger] t.vel[i] <= MAX_FALL by {
                assert(s.vel[a] <= MAX_FALL && s.vel[b] <= MAX_FALL && s.vel[i] <= MAX_FALL);
            }
        }
        lemma_fall_frame(t, x, cy + 1, (k - 1) as nat);
        let r = fall(t, x, cy + 1, (k - 1) as nat);
        assert(fall(s, x, cy, k) == r);
        assert(r.0.cells[a] == t.cells[a]);
        assert forall|j: int| 0 <= j < a implies #[trigger] r.0.cells[j] == s.cells[j] by {
            assert(r.0.cells[j] == t.cells[j]);
        }
    }
}

/// A particle of sand or water with an open cell right below it falls: its
/// cell is left empty and it lands lower down in the same column, at most
/// its new fall speed (and so at most terminal velocity) rows below.
pub proof fn lemma_grain_falls(s: SandState, x: int, y: int)
    requires
        state_wf(s),
        in_bounds(s, x, y),
        s.cells[idx(s, x, y)] == SAND || s.cells[idx(s, x, y)] == WATER,
        is_open(s, x, y + 1),
    ensures
        s.cells[idx(s, x, y)] == SAND ==> cell_at(update_sand_spec(s, x, y), x, y) == EMPTY
            && exists|cy: int|
            y < cy <= y + MAX_FALL && #[trigger] cell_at(update_sand_spec(s, x, y), x, cy)
                == SAND,
        s.cells[idx(s, x, y)] == WATER ==> cell_at(update_water_spec(s, x, y), x, y) == EMPTY
            && exists|cy: int|
            y < cy <= y + MAX_FALL && #[trigger] cell_at(update_water_spec(s, x, y), x, cy)
                == WATER,
{
    let i = idx(s, x, y);
    lemma_in_bounds_index(s, x, y);
    let s1 = accelerated(s, i);
    assert(state_wf(s1)) by {
        assert forall|j: int| 0 <= j < s1.w * s1.h implies #[trigger] s1.vel[j] <= MAX_FALL by {
            assert(s.vel[j] <= MAX_FALL);
        }
    }
    let k = fall_speed(s, i) as nat;
    assert(k >= 1 && k <= MAX_FALL);
    lemma_fall_frame(s1, x, y, k);
    let (s2, cy) = fall(s1, x, y, k);
    assert(cy > y);
    lemma_in_bounds_index(s1, x, cy);
    let u = mark_moved(s2, idx(s2, x, cy));
    assert(u.cells == s2.cells);
    assert(in_bounds(u, x, cy));
    assert(cell_at(u, x, cy) == s.cells[i]);
    assert(cell_at(u, x, y) == EMPTY);
    if s.cells[i] == SAND {
        assert(update_sand_spec(s, x, y) == u);
    } else {
        assert(update_water_spec(s, x, y) == u);
    }
}

/// What a frame shows for cell `i`: every pixel is opaque; an empty cell
/// shows its row of the backdrop; stone is a grey-blue whose green is 4 and
/// blue 18 above its red; dry sand is a warm tan; water is bluer than it is
/// red or green. Shades are those the brush deals out (below 8). Rendering
/// moves nothing.
pub proof fn lemma_render_colours(s: SandState, i: int)
    requires
        state_wf(s),
        0 <= i < s.cells.len(),
        s.shade[i] < 8,
    ensures
        render_spec(s).pixels[4 * i + 3] == 255,
        s.cells[i] == EMPTY ==> render_spec(s).pixels[4 * i] == s.sky[i / s.w].0
            && render_spec(s).pixels[4 * i + 1] == s.sky[i / s.w].1
            && render_spec(s).pixels[4 * i + 2] == s.sky[i / s.w].2,
        s.cells[i] == STONE ==> render_spec(s).pixels[4 * i + 1] == render_spec(s).pixels[4 * i]
            + 4 && render_spec(s).pixels[4 * i + 2] == render_spec(s).pixels[4 * i] + 18
            && render_spec(s).pixels[4 * i] == 82 + 5 * s.shade[i] + (if stone_speck(i) {
            -14int
        } else {
            0
        }),
        s.cells[i] == SAND && !touches_water(s, i % s.w, i / s.w) ==> render_spec(s).pixels[4
            * i] == 188 + 6 * s.shade[i] && render_spec(s).pixels[4 * i + 1] == 152 + 5
            * s.shade[i] && render_spec(s).pixels[4 * i + 2] == 92 + 4 * s.shade[i],
        s.cells[i] == WATER ==> render_spec(s).pixels[4 * i + 2] > render_spec(s).pixels[4 * i]
            && render_spec(s).pixels[4 * i + 2] > render_spec(s).pixels[4 * i + 1],
        render_spec(s).cells == s.cells,
        render_spec(s).shade == s.shade,
        render_spec(s).sky == s.sky,
{
    crate::sand::lemma_cell_of_public(s.w, s.h, i);
    assert forall|c: int| 0 <= c < 4 implies (#[trigger] (4 * i + c)) / 4 == i && (4 * i + c)
        % 4 == c by {
        vstd::arithmetic::div_mod::lemma_fundamental_div_mod_converse(4 * i + c, 4, i, c);
    }
    assert(4 * i + 3 < s.pixels.len());
    assert((4 * i + 0) / 4 == i);
    assert((4 * i + 1) / 4 == i);
    assert((4 * i + 2) / 4 == i);
    assert((4 * i + 3) / 4 == i);
}

} // verus!
