//! Falling-sand cellular automaton: sand piles up and sinks through water,
//! water falls, flows and pools, stone stays put. One byte of material per
//! cell, plus per-particle shade, fall speed and flow direction.

use vstd::prelude::*;
use vstd::arithmetic::div_mod::lemma_fundamental_div_mod_converse;
use crate::fb::{Color, channel};
use crate::rng::{xorshift, next_rand};

verus! {

pub const EMPTY: u8 = 0;
pub const SAND: u8 = 1;
pub const WATER: u8 = 2;
pub const STONE: u8 = 3;

/// Terminal velocity in cells per tick.
pub const MAX_FALL: u8 = 5;

/// How far water can slide sideways in one tick when it can't fall.
pub const DISPERSION: i32 = 5;

/// The state of a sand box as the contracts see it.
#[verifier::ext_equal]
pub struct SandState {
    pub w: int,
    pub h: int,
    pub cells: Seq<u8>,
    pub shade: Seq<u8>,
    pub vel: Seq<u8>,
    pub dir: Seq<u8>,
    pub moved: Seq<bool>,
    pub pixels: Seq<u8>,
    /// The backdrop behind empty cells, one colour per row.
    pub sky: Seq<Color>,
    pub rng: u32,
    pub flip: bool,
}

/// Lengths agree with the dimensions and every fall speed is at most terminal.
pub open spec fn state_wf(s: SandState) -> bool {
    &&& 0 <= s.w
    &&& 0 <= s.h
    &&& s.w * s.h <= i32::MAX
    &&& s.w * s.h * 4 <= usize::MAX
    &&& s.cells.len() == s.w * s.h
    &&& s.shade.len() == s.w * s.h
    &&& s.vel.len() == s.w * s.h
    &&& s.dir.len() == s.w * s.h
    &&& s.moved.len() == s.w * s.h
    &&& s.pixels.len() == s.w * s.h * 4
    &&& s.sky.len() == s.h
    &&& forall|i: int| 0 <= i < s.w * s.h ==> #[trigger] s.vel[i] <= MAX_FALL
}

pub open spec fn in_bounds(s: SandState, x: int, y: int) -> bool {
    0 <= x < s.w && 0 <= y < s.h
}

/// Row-major index of cell `(x, y)`.
pub open spec fn idx(s: SandState, x: int, y: int) -> int {
    y * s.w + x
}

/// The material at `(x, y)`; the walls outside the box behave like stone.
pub open spec fn cell_at(s: SandState, x: int, y: int) -> u8 {
    if in_bounds(s, x, y) {
        s.cells[idx(s, x, y)]
    } else {
        STONE
    }
}

/// `(x, y)` lies inside the box and holds nothing.
pub open spec fn is_open(s: SandState, x: int, y: int) -> bool {
    in_bounds(s, x, y) && s.cells[idx(s, x, y)] == EMPTY
}

/// One of the four neighbours of `(x, y)` holds water.
pub open spec fn touches_water(s: SandState, x: int, y: int) -> bool {
    cell_at(s, x, y - 1) == WATER || cell_at(s, x, y + 1) == WATER || cell_at(s, x - 1, y)
        == WATER || cell_at(s, x + 1, y) == WATER
}

pub open spec fn swap_at<A>(q: Seq<A>, a: int, b: int) -> Seq<A> {
    q.update(a, q[b]).update(b, q[a])
}

/// Cells `a` and `b` trade places, each particle carrying its state along.
pub open spec fn swapped(s: SandState, a: int, b: int) -> SandState {
    SandState {
        cells: swap_at(s.cells, a, b),
        shade: swap_at(s.shade, a, b),
        vel: swap_at(s.vel, a, b),
        dir: swap_at(s.dir, a, b),
        ..s
    }
}

/// The state after one draw from the generator.
pub open spec fn advanced(s: SandState) -> SandState {
    SandState { rng: xorshift(s.rng), ..s }
}


/// The first `k` steps of a free fall from `(x, cy)`: the particle swaps one
/// row down for as long as the cell below is open. Gives the state and the
/// row where the particle ends.
pub open spec fn fall(s: SandState, x: int, cy: int, k: nat) -> (SandState, int)
    decreases k,
{
    if k == 0 {
        (s, cy)
    } else if is_open(s, x, cy + 1) {
        fall(swapped(s, idx(s, x, cy), idx(s, x, cy + 1)), x, cy + 1, (k - 1) as nat)
    } else {
        (s, cy)
    }
}

/// Gravity: one more cell per tick than last tick, up to terminal velocity.
pub open spec fn fall_speed(s: SandState, i: int) -> u8 {
    if s.vel[i] + 1 < MAX_FALL {
        (s.vel[i] + 1) as u8
    } else {
        MAX_FALL
    }
}

pub open spec fn accelerated(s: SandState, i: int) -> SandState {
    SandState { vel: s.vel.update(i, fall_speed(s, i)), ..s }
}

pub open spec fn mark_moved(s: SandState, i: int) -> SandState {
    SandState { moved: s.moved.update(i, true), ..s }
}

pub open spec fn with_dir(s: SandState, i: int, d: u8) -> SandState {
    SandState { dir: s.dir.update(i, d), ..s }
}

pub open spec fn with_vel(s: SandState, i: int, v: u8) -> SandState {
    SandState { vel: s.vel.update(i, v), ..s }
}

/// The flow direction byte for a step towards `side`.
pub open spec fn dir_of(side: int) -> u8 {
    if side > 0 {
        1
    } else {
        0
    }
}

/// Sand at `(x, y)` that could not fall: it sinks into water below three
/// times in four (with drag), otherwise slides to a random open diagonal,
/// otherwise settles.
pub open spec fn sand_settle(s: SandState, x: int, y: int) -> SandState {
    let i = idx(s, x, y);
    let below = idx(s, x, y + 1);
    let water_below = cell_at(s, x, y + 1) == WATER;
    if water_below && xorshift(s.rng) % 4 != 0 {
        let t = swapped(advanced(s), i, below);
        SandState {
            vel: t.vel.update(below, 1),
            moved: t.moved.update(below, true).update(i, true),
            ..t
        }
    } else {
        let s1 = if water_below {
            advanced(s)
        } else {
            s
        };
        let s2 = advanced(s1);
        let side: int = if s2.rng & 1 == 0 {
            1
        } else {
            -1
        };
        if is_open(s2, x + side, y + 1) {
            let to = idx(s2, x + side, y + 1);
            mark_moved(swapped(s2, i, to), to)
        } else if is_open(s2, x - side, y + 1) {
            let to = idx(s2, x - side, y + 1);
            mark_moved(swapped(s2, i, to), to)
        } else {
            with_vel(s2, i, 0)
        }
    }
}

/// One update of the sand grain at `(x, y)`.
pub open spec fn update_sand_spec(s: SandState, x: int, y: int) -> SandState {
    let i = idx(s, x, y);
    let s1 = accelerated(s, i);
    let (s2, cy) = fall(s1, x, y, fall_speed(s, i) as nat);
    if cy > y {
        mark_moved(s2, idx(s2, x, cy))
    } else {
        sand_settle(s1, x, y)
    }
}

/// How many open cells, at most `DISPERSION`, water at `(x, y)` can slide
/// past in direction `sd`, counting from `k` already crossed.
pub open spec fn slide_reach(s: SandState, x: int, y: int, sd: int, k: nat) -> nat
    decreases DISPERSION - k,
{
    if k < DISPERSION && is_open(s, x + (k + 1) * sd, y) {
        slide_reach(s, x, y, sd, k + 1)
    } else {
        k
    }
}

/// Water at `(x, y)` that can reach a cell sideways in direction `sd` jumps
/// there, remembering the direction.
pub open spec fn water_slide(s: SandState, x: int, y: int, sd: int) -> SandState {
    let k = slide_reach(s, x, y, sd, 0);
    let from = idx(s, x, y);
    let to = idx(s, x + k * sd, y);
    let t = swapped(s, from, to);
    SandState {
        dir: t.dir.update(to, dir_of(sd)),
        moved: t.moved.update(to, true).update(from, true),
        ..t
    }
}

/// Water at `(x, y)` that could not fall: it tries the diagonals (its
/// preferred side first), then flows sideways, then turns around.
pub open spec fn water_settle(s: SandState, x: int, y: int) -> SandState {
    let i = idx(s, x, y);
    let side: int = if s.dir[i] == 1 {
        1
    } else {
        -1
    };
    if is_open(s, x + side, y + 1) {
        let to = idx(s, x + side, y + 1);
        mark_moved(with_dir(swapped(s, i, to), to, dir_of(side)), to)
    } else if is_open(s, x - side, y + 1) {
        let to = idx(s, x - side, y + 1);
        mark_moved(with_dir(swapped(s, i, to), to, dir_of(-side)), to)
    } else {
        let s3 = with_vel(s, i, 0);
        if slide_reach(s3, x, y, side, 0) != 0 {
            water_slide(s3, x, y, side)
        } else if slide_reach(s3, x, y, -side, 0) != 0 {
            water_slide(s3, x, y, -side)
        } else {
            with_dir(s3, i, s3.dir[i] ^ 1)
        }
    }
}

/// One update of the water cell at `(x, y)`.
pub open spec fn update_water_spec(s: SandState, x: int, y: int) -> SandState {
    let i = idx(s, x, y);
    let s1 = accelerated(s, i);
    let (s2, cy) = fall(s1, x, y, fall_speed(s, i) as nat);
    if cy > y {
        mark_moved(s2, idx(s2, x, cy))
    } else {
        water_settle(s1, x, y)
    }
}

/// The visit of cell `(x, y)` during a tick.
pub open spec fn tick_cell(s: SandState, x: int, y: int) -> SandState {
    let i = idx(s, x, y);
    if s.moved[i] {
        s
    } else if s.cells[i] == SAND {
        update_sand_spec(s, x, y)
    } else if s.cells[i] == WATER {
        update_water_spec(s, x, y)
    } else {
        s
    }
}

/// The column visited `sx`-th in a row: left to right, or right to left on
/// flipped ticks.
pub open spec fn scan_x(w: int, flip: bool, sx: int) -> int {
    if flip {
        w - 1 - sx
    } else {
        sx
    }
}

/// The first `n` visits of row `y`.
pub open spec fn scan_row(s: SandState, w: int, flip: bool, y: int, n: nat) -> SandState
    decreases n,
{
    if n == 0 {
        s
    } else {
        tick_cell(scan_row(s, w, flip, y, (n - 1) as nat), scan_x(w, flip, n - 1), y)
    }
}

/// The first `r` rows of a tick, bottom row first.
pub open spec fn scan_rows(s: SandState, r: nat) -> SandState
    decreases r,
{
    if r == 0 {
        s
    } else {
        scan_row(scan_rows(s, (r - 1) as nat), s.w, s.flip, s.h - r, s.w as nat)
    }
}

/// A tick starts with every cell unmoved and the scan direction flipped.
pub open spec fn tick_start(s: SandState) -> SandState {
    SandState { moved: Seq::new(s.moved.len(), |_i: int| false), flip: !s.flip, ..s }
}

/// One simulation tick: every particle that has not yet moved this tick
/// gets one update, rows bottom-up, columns in alternating directions.
pub open spec fn tick_spec(s: SandState) -> SandState {
    scan_rows(tick_start(s), s.h as nat)
}

/// Sand and water are sprinkled loosely; stone and the eraser are solid.
pub open spec fn is_granular(m: u8) -> bool {
    m == SAND || m == WATER
}

/// The brush of radius `r` at `(x, y)` acting on offset `(dx, dy)`: outside
/// the disc or the box nothing happens; granular materials skip three cells
/// in four; the eraser overwrites anything, other materials only fill empty
/// cells, giving the particle a fresh shade, no speed and a random direction.
pub open spec fn paint_cell(s: SandState, x: int, y: int, m: u8, r: int, dx: int, dy: int) -> SandState {
    let px = x + dx;
    let py = y + dy;
    if dx * dx + dy * dy > r * r || !in_bounds(s, px, py) {
        s
    } else if is_granular(m) && xorshift(s.rng) % 4 != 0 {
        advanced(s)
    } else {
        let s1 = if is_granular(m) {
            advanced(s)
        } else {
            s
        };
        let i = idx(s1, px, py);
        if m == EMPTY || s1.cells[i] == EMPTY {
            let r1 = xorshift(s1.rng);
            let r2 = xorshift(r1);
            SandState {
                cells: s1.cells.update(i, m),
                shade: s1.shade.update(i, (r1 % 8) as u8),
                vel: s1.vel.update(i, 0),
                dir: s1.dir.update(i, (r2 & 1) as u8),
                rng: r2,
                ..s1
            }
        } else {
            s1
        }
    }
}

/// The first `n` offsets of brush row `dy`, left to right.
pub open spec fn paint_row(s: SandState, x: int, y: int, m: u8, r: int, dy: int, n: nat) -> SandState
    decreases n,
{
    if n == 0 {
        s
    } else {
        paint_cell(paint_row(s, x, y, m, r, dy, (n - 1) as nat), x, y, m, r, -r + (n - 1), dy)
    }
}

/// The first `k` brush rows, top to bottom.
pub open spec fn paint_rows(s: SandState, x: int, y: int, m: u8, r: int, k: nat) -> SandState
    decreases k,
{
    if k == 0 {
        s
    } else {
        paint_row(
            paint_rows(s, x, y, m, r, (k - 1) as nat),
            x,
            y,
            m,
            r,
            -r + (k - 1),
            (2 * r + 1) as nat,
        )
    }
}

/// A stroke of the brush with material `m` and radius `r` at `(x, y)`.
pub open spec fn paint_spec(s: SandState, x: int, y: int, m: u8, r: int) -> SandState {
    if r < 0 {
        s
    } else {
        paint_rows(s, x, y, m, r, (2 * r + 1) as nat)
    }
}

/// Depth of the water column at `(x, y)` of a `w`-wide grid: 1 at the
/// surface, growing downwards (saturating), 0 outside water.
pub open spec fn water_depth(cells: Seq<u8>, w: int, x: int, y: nat) -> u8
    decreases y,
{
    if cells[y * w + x] != WATER {
        0
    } else if y == 0 {
        1
    } else {
        let d = water_depth(cells, w, x, (y - 1) as nat);
        if d == 255 {
            255
        } else {
            (d + 1) as u8
        }
    }
}

/// Cell `i` is water on the surface of its pool.
pub open spec fn is_surface(s: SandState, i: int) -> bool {
    s.cells[i] == WATER && water_depth(s.cells, s.w, i % s.w, (i / s.w) as nat) == 1
}

/// The generator state after colouring the first `k` cells: each surface
/// water cell draws once for its glint.
pub open spec fn render_rng(s: SandState, k: nat) -> u32
    decreases k,
{
    if k == 0 {
        s.rng
    } else {
        let r = render_rng(s, (k - 1) as nat);
        if is_surface(s, k - 1) {
            xorshift(r)
        } else {
            r
        }
    }
}

/// The stable per-cell hash that darkens some stone cells.
pub open spec fn stone_speck(i: int) -> bool {
    ((i as u32).wrapping_mul(2654435761u32) >> 29u32) == 0
}

/// The unclamped colour of cell `i`, given the generator state `r` before it.
pub open spec fn cell_rgb(s: SandState, i: int, r: u32) -> (int, int, int) {
    let x = i % s.w;
    let y = i / s.w;
    let sh = s.shade[i] as int;
    let c = s.cells[i];
    if c == SAND {
        let (r0, g0, b0) = (188 + sh * 6, 152 + sh * 5, 92 + sh * 4);
        if touches_water(s, x, y) {
            // Wet sand is darker and slightly redder.
            (r0 * 168 / 256, g0 * 152 / 256, b0 * 140 / 256)
        } else {
            (r0, g0, b0)
        }
    } else if c == WATER {
        // Shallow to deep blue by depth, a lighter surface line and an
        // occasional glint.
        let dd = water_depth(s.cells, s.w, x, y as nat);
        let d: int = if dd < 24 {
            dd as int
        } else {
            24
        };
        let (r0, g0, b0) = (64 - d * 2 + sh, 134 - d * 3 + sh * 2, 238 - d * 4 + sh * 2);
        if dd == 1 {
            if xorshift(r) % 24 == 0 {
                (r0 + 26 + 70, g0 + 30 + 60, b0 + 17 + 17)
            } else {
                (r0 + 26, g0 + 30, b0 + 17)
            }
        } else {
            (r0, g0, b0)
        }
    } else if c == STONE {
        // Speckled granite.
        let k: int = if stone_speck(i) {
            -14
        } else {
            0
        };
        (82 + sh * 5 + k, 86 + sh * 5 + k, 100 + sh * 5 + k)
    } else {
        let sk = s.sky[y];
        (sk.0 as int, sk.1 as int, sk.2 as int)
    }
}

pub open spec fn clamp_byte(v: int) -> u8 {
    if v < 0 {
        0
    } else if v > 255 {
        255
    } else {
        v as u8
    }
}

pub open spec fn rgb_channel(c: (int, int, int), k: int) -> int {
    if k == 0 {
        c.0
    } else if k == 1 {
        c.1
    } else {
        c.2
    }
}

/// Byte `p` of the rendered RGBA image.
pub open spec fn render_byte(s: SandState, p: int) -> u8 {
    let i = p / 4;
    if p % 4 == 3 {
        255
    } else {
        clamp_byte(rgb_channel(cell_rgb(s, i, render_rng(s, i as nat)), p % 4))
    }
}

/// Rendering fills the image and consumes the glint draws.
pub open spec fn render_spec(s: SandState) -> SandState {
    SandState {
        pixels: Seq::new(s.pixels.len(), |p: int| render_byte(s, p)),
        rng: render_rng(s, s.cells.len()),
        ..s
    }
}

pub struct Sand {
    w: i32,
    h: i32,
    cells: Vec<u8>,
    shade: Vec<u8>,
    /// Current fall speed per cell; accelerates under gravity, resets on landing.
    vel: Vec<u8>,
    /// Water's preferred flow direction (0 = left, 1 = right) — gives streams
    /// momentum instead of dithering in place.
    dir: Vec<u8>,
    moved: Vec<bool>,
    /// Water depth below the surface, rebuilt each render for color grading.
    depth: Vec<u8>,
    pixels: Vec<u8>,
    /// Precomputed background gradient, one RGB per row.
    sky: Vec<Color>,
    rng: u32,
    flip: bool,
}

impl View for Sand {
    type V = SandState;

    closed spec fn view(&self) -> SandState {
        SandState {
            w: self.w as int,
            h: self.h as int,
            cells: self.cells@,
            shade: self.shade@,
            vel: self.vel@,
            dir: self.dir@,
            moved: self.moved@,
            pixels: self.pixels@,
            sky: self.sky@,
            rng: self.rng,
            flip: self.flip,
        }
    }
}

/// Cell `(x, y)` of a `w`-wide grid of `w * h` cells lies at `y * w + x`,
/// inside the grid, and nowhere else.
proof fn lemma_index(w: int, h: int, x: int, y: int)
    requires
        0 <= x < w,
        0 <= y < h,
    ensures
        0 <= y * w + x < w * h,
        (y * w + x) % w == x,
        (y * w + x) / w == y,
{
    assert(0 <= y * w + x < w * h) by (nonlinear_arith)
        requires 0 <= x < w, 0 <= y < h;
    lemma_fundamental_div_mod_converse(y * w + x, w, y, x);
}

/// Every index of a `w`-wide grid of `w * h` cells names the cell at
/// column `i % w`, row `i / w`.
proof fn lemma_cell_of(w: int, h: int, i: int)
    requires
        0 <= w,
        0 <= h,
        0 <= i < w * h,
    ensures
        w > 0,
        0 <= i % w < w,
        0 <= i / w < h,
        i == w * (i / w) + i % w,
        i == (i / w) * w + i % w,
{
    assert(w > 0) by (nonlinear_arith)
        requires 0 <= i < w * h, w >= 0, h >= 0;
    vstd::arithmetic::div_mod::lemma_fundamental_div_mod(i, w);
    assert(i / w < h) by (nonlinear_arith)
        requires 0 <= i < w * h, w > 0, i == w * (i / w) + i % w, 0 <= i % w < w;
    assert(0 <= i / w) by (nonlinear_arith)
        requires 0 <= i, w > 0, i == w * (i / w) + i % w, 0 <= i % w < w;
    assert(i == (i / w) * w + i % w) by (nonlinear_arith)
        requires i == w * (i / w) + i % w;
}

/// Where cell `i` of a `w`×`h` grid sits: column `i % w`, row `i / w`.
pub proof fn lemma_cell_of_public(w: int, h: int, i: int)
    requires
        0 <= w,
        0 <= h,
        0 <= i < w * h,
    ensures
        w > 0,
        0 <= i % w < w,
        0 <= i / w < h,
        i == (i / w) * w + i % w,
{
    lemma_cell_of(w, h, i);
}

fn filled_u8(n: usize, v: u8) -> (out: Vec<u8>)
    ensures
        out@ == Seq::new(n as nat, |_i: int| v),
{
    let mut out: Vec<u8> = Vec::new();
    let mut i: usize = 0;
    while i < n
        invariant
            i <= n,
            out@ == Seq::new(i as nat, |_i: int| v),
        decreases n - i,
    {
        out.push(v);
        i = i + 1;
        assert(out@ == Seq::new(i as nat, |_i: int| v));
    }
    out
}

fn filled_bool(n: usize, v: bool) -> (out: Vec<bool>)
    ensures
        out@ == Seq::new(n as nat, |_i: int| v),
{
    let mut out: Vec<bool> = Vec::new();
    let mut i: usize = 0;
    while i < n
        invariant
            i <= n,
            out@ == Seq::new(i as nat, |_i: int| v),
        decreases n - i,
    {
        out.push(v);
        i = i + 1;
        assert(out@ == Seq::new(i as nat, |_i: int| v));
    }
    out
}

fn to_byte(v: i32) -> (b: u8)
    ensures
        b == clamp_byte(v as int),
{
    if v < 0 {
        0
    } else if v > 255 {
        255
    } else {
        v as u8
    }
}

impl Sand {
    /// Internal consistency: the state is well formed and the depth scratch
    /// buffer has one byte per cell.
    pub closed spec fn wf(&self) -> bool {
        &&& state_wf(self@)
        &&& self.depth@.len() == self.w * self.h
    }

    /// A well-formed `Sand` has a well-formed state, so the laws about
    /// `SandState` apply to it.
    pub proof fn lemma_wf(&self)
        requires
            self.wf(),
        ensures
            state_wf(self@),
    {
    }

    /// An empty `w`×`h` box in front of the backdrop `sky`, one colour per
    /// row (the caller computes the gradient). `seed` is any raw draw; its
    /// low bit is forced so the generator never starts in the stuck all-zero
    /// state.
    pub fn new(w: i32, h: i32, seed: u32, sky: Vec<Color>) -> (sand: Sand)
        requires
            0 <= w,
            0 <= h,
            w * h <= i32::MAX,
            w * h * 4 <= usize::MAX,
            sky@.len() == h,
        ensures
            sand@.sky == sky@,
            sand.wf(),
            sand@.w == w,
            sand@.h == h,
            sand@.cells == Seq::new((w * h) as nat, |_i: int| EMPTY),
            sand@.shade == Seq::new((w * h) as nat, |_i: int| 0u8),
            sand@.vel == Seq::new((w * h) as nat, |_i: int| 0u8),
            sand@.dir == Seq::new((w * h) as nat, |_i: int| 0u8),
            sand@.moved == Seq::new((w * h) as nat, |_i: int| false),
            sand@.pixels == Seq::new((w * h * 4) as nat, |_i: int| 0u8),
            sand@.rng == seed | 1,
            !sand@.flip,
    {
        let n = (w * h) as usize;
        let sand = Sand {
            w,
            h,
            cells: filled_u8(n, EMPTY),
            shade: filled_u8(n, 0),
            vel: filled_u8(n, 0),
            dir: filled_u8(n, 0),
            moved: filled_bool(n, false),
            depth: filled_u8(n, 0),
            pixels: filled_u8(n * 4, 0),
            sky,
            rng: seed | 1,
            flip: false,
        };
        sand
    }

    /// Width of the box in cells.
    pub fn width(&self) -> (r: i32)
        ensures
            r == self@.w,
    {
        self.w
    }

    /// Height of the box in cells.
    pub fn height(&self) -> (r: i32)
        ensures
            r == self@.h,
    {
        self.h
    }

    /// The RGBA image that the last `render` produced.
    pub fn pixels(&self) -> (r: &Vec<u8>)
        ensures
            r@ == self@.pixels,
    {
        &self.pixels
    }

    /// Empty the whole box and stop every particle; shades and flow
    /// directions are left as they were.
    pub fn clear(&mut self)
        requires
            old(self).wf(),
        ensures
            final(self).wf(),
            final(self)@ == (SandState {
                cells: Seq::new(old(self)@.cells.len(), |_i: int| EMPTY),
                vel: Seq::new(old(self)@.vel.len(), |_i: int| 0u8),
                ..old(self)@
            }),
    {
        let n = self.cells.len();
        let mut i: usize = 0;
        while i < n
            invariant
                self.wf(),
                n == self.cells@.len(),
                i <= n,
                self.w == old(self).w,
                self.h == old(self).h,
                self.shade@ == old(self).shade@,
                self.dir@ == old(self).dir@,
                self.moved@ == old(self).moved@,
                self.pixels@ == old(self).pixels@,
                self.rng == old(self).rng,
                self.flip == old(self).flip,
                self.depth@ == old(self).depth@,
                self.sky@ == old(self).sky@,
                forall|j: int| 0 <= j < i ==> #[trigger] self.cells@[j] == EMPTY,
                forall|j: int| 0 <= j < i ==> #[trigger] self.vel@[j] == 0,
                forall|j: int| i <= j < n ==> #[trigger] self.cells@[j] == old(self).cells@[j],
                forall|j: int| i <= j < n ==> #[trigger] self.vel@[j] == old(self).vel@[j],
            decreases n - i,
        {
            self.cells.set(i, EMPTY);
            self.vel.set(i, 0);
            i = i + 1;
        }
        assert(self.cells@ =~= Seq::new(n as nat, |_i: int| EMPTY));
        assert(self.vel@ =~= Seq::new(n as nat, |_i: int| 0u8));
    }

    fn rand(&mut self) -> (r: u32)
        requires
            old(self).wf(),
        ensures
            final(self).wf(),
            r == xorshift(old(self)@.rng),
            final(self)@ == advanced(old(self)@),
            final(self).depth@ == old(self).depth@,
    {
        next_rand(&mut self.rng)
    }

    fn idx(&self, x: i32, y: i32) -> (r: usize)
        requires
            self.wf(),
            in_bounds(self@, x as int, y as int),
        ensures
            r == idx(self@, x as int, y as int),
            r < self@.cells.len(),
    {
        proof {
            lemma_index(self.w as int, self.h as int, x as int, y as int);
        }
        (y * self.w + x) as usize
    }

    fn in_bounds(&self, x: i32, y: i32) -> (r: bool)
        ensures
            r == in_bounds(self@, x as int, y as int),
    {
        x >= 0 && x < self.w && y >= 0 && y < self.h
    }

    fn cell_at(&self, x: i32, y: i32) -> (r: u8)
        requires
            self.wf(),
        ensures
            r == cell_at(self@, x as int, y as int),
    {
        if self.in_bounds(x, y) {
            self.cells[self.idx(x, y)]
        } else {
            STONE  // walls behave like stone
        }
    }

    fn is_open(&self, x: i32, y: i32) -> (r: bool)
        requires
            self.wf(),
        ensures
            r == is_open(self@, x as int, y as int),
    {
        self.in_bounds(x, y) && self.cells[self.idx(x, y)] == EMPTY
    }

    /// Swap two cells, carrying all per-particle state along.
    fn swap(&mut self, x1: i32, y1: i32, x2: i32, y2: i32)
        requires
            old(self).wf(),
            in_bounds(old(self)@, x1 as int, y1 as int),
            in_bounds(old(self)@, x2 as int, y2 as int),
        ensures
            final(self).wf(),
            final(self)@ == swapped(
                old(self)@,
                idx(old(self)@, x1 as int, y1 as int),
                idx(old(self)@, x2 as int, y2 as int),
            ),
            final(self).depth@ == old(self).depth@,
    {
        let (a, b) = (self.idx(x1, y1), self.idx(x2, y2));
        let t = self.cells[a];
        let u = self.cells[b];
        self.cells.set(a, u);
        self.cells.set(b, t);
        let t = self.shade[a];
        let u = self.shade[b];
        self.shade.set(a, u);
        self.shade.set(b, t);
        let t = self.vel[a];
        let u = self.vel[b];
        self.vel.set(a, u);
        self.vel.set(b, t);
        let t = self.dir[a];
        let u = self.dir[b];
        self.dir.set(a, u);
        self.dir.set(b, t);
        assert(forall|i: int| 0 <= i < self.w * self.h ==> #[trigger] self.vel@[i] <= MAX_FALL);
    }

    /// Let the particle at `(x, y)` fall up to `v` cells; gives the row it ends in.
    fn fall_from(&mut self, x: i32, y: i32, v: u8) -> (cy: i32)
        requires
            old(self).wf(),
            in_bounds(old(self)@, x as int, y as int),
        ensures
            final(self).wf(),
            (final(self)@, cy as int) == fall(old(self)@, x as int, y as int, v as nat),
            y <= cy < old(self)@.h,
            final(self)@.w == old(self)@.w,
            final(self)@.h == old(self)@.h,
            final(self)@.flip == old(self)@.flip,
            cy == y ==> final(self)@ == old(self)@,
            final(self).depth@ == old(self).depth@,
    {
        let ghost s0 = self@;
        let mut cy = y;
        let mut k: u8 = 0;
        while k < v
            invariant
                self.wf(),
                self@.w == s0.w,
                self@.h == s0.h,
                self@.flip == s0.flip,
                0 <= y <= cy < s0.h,
                0 <= x < s0.w,
                k <= v,
                fall(s0, x as int, y as int, v as nat) == fall(
                    self@,
                    x as int,
                    cy as int,
                    (v - k) as nat,
                ),
                cy == y ==> self@ == s0,
                self.depth@ == old(self).depth@,
            ensures
                self.wf(),
                y <= cy < s0.h,
                self@.w == s0.w,
                self@.h == s0.h,
                self@.flip == s0.flip,
                fall(s0, x as int, y as int, v as nat) == (self@, cy as int),
                cy == y ==> self@ == s0,
                self.depth@ == old(self).depth@,
            decreases v - k,
        {
            if self.is_open(x, cy + 1) {
                self.swap(x, cy, x, cy + 1);
                cy = cy + 1;
                k = k + 1;
            } else {
                break;
            }
        }
        cy
    }

    /// Sand tries the diagonal below towards `side`.
    fn sand_try_diag(&mut self, x: i32, y: i32, side: i32) -> (r: bool)
        requires
            old(self).wf(),
            in_bounds(old(self)@, x as int, y as int),
            side == 1 || side == -1,
        ensures
            final(self).wf(),
            r == is_open(old(self)@, x + side, y + 1),
            r ==> final(self)@ == mark_moved(
                swapped(
                    old(self)@,
                    idx(old(self)@, x as int, y as int),
                    idx(old(self)@, x + side, y + 1),
                ),
                idx(old(self)@, x + side, y + 1),
            ),
            !r ==> final(self)@ == old(self)@,
            final(self).depth@ == old(self).depth@,
    {
        if self.is_open(x + side, y + 1) {
            self.swap(x, y, x + side, y + 1);
            let to = self.idx(x + side, y + 1);
            self.moved.set(to, true);
            true
        } else {
            false
        }
    }

    fn update_sand(&mut self, x: i32, y: i32)
        requires
            old(self).wf(),
            in_bounds(old(self)@, x as int, y as int),
        ensures
            final(self).wf(),
            final(self)@ == update_sand_spec(old(self)@, x as int, y as int),
            final(self)@.w == old(self)@.w,
            final(self)@.h == old(self)@.h,
            final(self)@.flip == old(self)@.flip,
            final(self).depth@ == old(self).depth@,
    {
        let ghost s0 = self@;
        let i = self.idx(x, y);
        let v0 = self.vel[i] + 1;
        let v = if v0 < MAX_FALL {
            v0
        } else {
            MAX_FALL
        };
        self.vel.set(i, v);
        assert(self@ == accelerated(s0, i as int));
        let ghost s1 = self@;

        // Accelerating free fall: cover up to `v` cells this tick.
        let cy = self.fall_from(x, y, v);
        if cy > y {
            let to = self.idx(x, cy);
            self.moved.set(to, true);
            return;
        }
        // Blocked: sink through water (slowly — drag), else slide diagonally.

        if self.cell_at(x, y + 1) == WATER {
            let r = self.rand();
            if r % 4 != 0 {
                self.swap(x, y, x, y + 1);
                let below = self.idx(x, y + 1);
                let from = self.idx(x, y);
                self.vel.set(below, 1);  // water drag kills momentum
                self.moved.set(below, true);
                self.moved.set(from, true);  // displaced water already moved
                return;
            }
        }
        let side: i32 = if self.rand() & 1 == 0 {
            1
        } else {
            -1
        };
        if self.sand_try_diag(x, y, side) {
            return;
        }
        if self.sand_try_diag(x, y, -side) {
            return;
        }
        self.vel.set(i, 0);  // settled
    }

    /// Water tries the diagonal below towards `side`, remembering the direction.
    fn water_try_diag(&mut self, x: i32, y: i32, side: i32) -> (r: bool)
        requires
            old(self).wf(),
            in_bounds(old(self)@, x as int, y as int),
            side == 1 || side == -1,
        ensures
            final(self).wf(),
            r == is_open(old(self)@, x + side, y + 1),
            r ==> final(self)@ == mark_moved(
                with_dir(
                    swapped(
                        old(self)@,
                        idx(old(self)@, x as int, y as int),
                        idx(old(self)@, x + side, y + 1),
                    ),
                    idx(old(self)@, x + side, y + 1),
                    dir_of(side as int),
                ),
                idx(old(self)@, x + side, y + 1),
            ),
            !r ==> final(self)@ == old(self)@,
            final(self).depth@ == old(self).depth@,
    {
        if self.is_open(x + side, y + 1) {
            self.swap(x, y, x + side, y + 1);
            let to = self.idx(x + side, y + 1);
            self.dir.set(
                to,
                if side > 0 {
                    1
                } else {
                    0
                },
            );
            self.moved.set(to, true);
            true
        } else {
            false
        }
    }

    /// Water flows sideways towards `side`, up to `DISPERSION` cells at once.
    fn water_try_flow(&mut self, x: i32, y: i32, side: i32) -> (r: bool)
        requires
            old(self).wf(),
            in_bounds(old(self)@, x as int, y as int),
            side == 1 || side == -1,
        ensures
            final(self).wf(),
            r == (slide_reach(old(self)@, x as int, y as int, side as int, 0) != 0),
            r ==> final(self)@ == water_slide(old(self)@, x as int, y as int, side as int),
            !r ==> final(self)@ == old(self)@,
            final(self).depth@ == old(self).depth@,
    {
        let ghost s0 = self@;
        let mut tx = x;
        let ghost mut k: nat = 0;
        loop
            invariant
                self@ == s0,
                self.wf(),
                0 <= x < s0.w,
                0 <= y < s0.h,
                side == 1 || side == -1,
                k <= DISPERSION,
                tx == x + k * side,
                slide_reach(s0, x as int, y as int, side as int, 0) == slide_reach(
                    s0,
                    x as int,
                    y as int,
                    side as int,
                    k,
                ),
                k > 0 ==> in_bounds(s0, tx as int, y as int),
            ensures
                tx == x + k * side,
                slide_reach(s0, x as int, y as int, side as int, 0) == k,
                k > 0 ==> in_bounds(s0, tx as int, y as int),
            decreases DISPERSION - k,
        {
            let d = tx - x;
            let ad = if d < 0 {
                -d
            } else {
                d
            };
            assert(ad == k) by (nonlinear_arith)
                requires
                    d == k * side,
                    side == 1 || side == -1,
                    d < 0 ==> ad == -d,
                    d >= 0 ==> ad == d,
                    k >= 0,
            ;
            if ad < DISPERSION && self.is_open(tx + side, y) {
                assert(tx + side == x + (k + 1) * side) by (nonlinear_arith)
                    requires tx == x + k * side;
                tx = tx + side;
                proof {
                    k = k + 1;
                }
            } else {
                assert(tx + side == x + (k + 1) * side) by (nonlinear_arith)
                    requires tx == x + k * side;
                break;
            }
        }
        if tx != x {
            self.swap(x, y, tx, y);
            let to = self.idx(tx, y);
            let from = self.idx(x, y);
            self.dir.set(
                to,
                if side > 0 {
                    1
                } else {
                    0
                },
            );
            self.moved.set(to, true);
            self.moved.set(from, true);
            true
        } else {
            false
        }
    }

    fn update_water(&mut self, x: i32, y: i32)
        requires
            old(self).wf(),
            in_bounds(old(self)@, x as int, y as int),
        ensures
            final(self).wf(),
            final(self)@ == update_water_spec(old(self)@, x as int, y as int),
            final(self)@.w == old(self)@.w,
            final(self)@.h == old(self)@.h,
            final(self)@.flip == old(self)@.flip,
            final(self).depth@ == old(self).depth@,
    {
        let ghost s0 = self@;
        let i = self.idx(x, y);
        let v0 = self.vel[i] + 1;
        let v = if v0 < MAX_FALL {
            v0
        } else {
            MAX_FALL
        };
        self.vel.set(i, v);
        assert(self@ == accelerated(s0, i as int));

        let cy = self.fall_from(x, y, v);
        if cy > y {
            let to = self.idx(x, cy);
            self.moved.set(to, true);
            return;
        }

        let side: i32 = if self.dir[i] == 1 {
            1
        } else {
            -1
        };
        if self.water_try_diag(x, y, side) {
            return;
        }
        if self.water_try_diag(x, y, -side) {
            return;
        }

        // Can't fall: flow sideways, keeping momentum in the preferred
        // direction and sliding up to DISPERSION cells at once.
        self.vel.set(i, 0);
        if self.water_try_flow(x, y, side) {
            return;
        }
        if self.water_try_flow(x, y, -side) {
            return;
        }
        // Boxed in: flip preference so pooled water keeps probing both ways.
        let d = self.dir[i] ^ 1;
        self.dir.set(i, d);
    }

    /// Advance the simulation by one tick.
    pub fn tick(&mut self)
        requires
            old(self).wf(),
        ensures
            final(self).wf(),
            final(self)@ == tick_spec(old(self)@),
    {
        let ghost s0 = self@;
        let n = self.moved.len();
        let mut j: usize = 0;
        while j < n
            invariant
                self.wf(),
                n == self.moved@.len(),
                j <= n,
                self@ == (SandState { moved: self@.moved, ..s0 }),
                forall|k: int| 0 <= k < j ==> #[trigger] self.moved@[k] == false,
            decreases n - j,
        {
            self.moved.set(j, false);
            j = j + 1;
        }
        self.flip = !self.flip;
        assert(self@ == tick_start(s0));
        let ghost p = self@;
        let mut y = self.h;
        while y > 0
            invariant
                self.wf(),
                0 <= y <= p.h,
                self@.w == p.w,
                self@.h == p.h,
                self.flip == p.flip,
                self@ == scan_rows(p, (p.h - y) as nat),
            decreases y,
        {
            y = y - 1;
            let ghost base = self@;
            assert(scan_rows(p, (p.h - y) as nat) == scan_row(base, p.w, p.flip, y as int, p.w as nat));
            let mut sx: i32 = 0;
            while sx < self.w
                invariant
                    self.wf(),
                    0 <= y < p.h,
                    0 <= sx <= p.w,
                    self@.w == p.w,
                    self@.h == p.h,
                    self.flip == p.flip,
                    self@ == scan_row(base, p.w, p.flip, y as int, sx as nat),
                decreases p.w - sx,
            {
                let x = if self.flip {
                    self.w - 1 - sx
                } else {
                    sx
                };
                let i = self.idx(x, y);
                if !self.moved[i] {
                    match self.cells[i] {
                        SAND => self.update_sand(x, y),
                        WATER => self.update_water(x, y),
                        _ => {},
                    }
                }
                sx = sx + 1;
            }
        }
    }

    /// Drop `material` with a round brush of `radius` at `(x, y)`.
    pub fn paint(&mut self, x: i32, y: i32, material: u8, radius: i32)
        requires
            old(self).wf(),
            radius > i32::MIN,
            radius >= 0 ==> {
                &&& 2 * radius * radius <= i32::MAX
                &&& i32::MIN <= x - radius
                &&& x + radius <= i32::MAX
                &&& i32::MIN <= y - radius
                &&& y + radius <= i32::MAX
            },
        ensures
            final(self).wf(),
            final(self)@ == paint_spec(old(self)@, x as int, y as int, material, radius as int),
    {
        let ghost s0 = self@;
        if radius >= 0 {
            assert(radius < 46341) by (nonlinear_arith)
                requires 2 * radius * radius <= i32::MAX, radius >= 0;
        }
        let mut dy = -radius;
        while dy <= radius
            invariant
                self.wf(),
                radius > i32::MIN,
                radius >= 0 ==> radius < 46341,
                radius >= 0 ==> {
                    &&& 2 * radius * radius <= i32::MAX
                    &&& i32::MIN <= x - radius
                    &&& x + radius <= i32::MAX
                    &&& i32::MIN <= y - radius
                    &&& y + radius <= i32::MAX
                },
                -radius <= dy,
                radius >= 0 ==> dy <= radius + 1,
                radius < 0 ==> dy == -radius,
                self@ == (if radius < 0 {
                    s0
                } else {
                    paint_rows(s0, x as int, y as int, material, radius as int, (dy + radius) as nat)
                }),
            decreases radius + 1 - dy,
        {
            let ghost row0 = self@;
            let mut dx = -radius;
            while dx <= radius
                invariant
                    self.wf(),
                    0 <= radius < 46341,
                    2 * radius * radius <= i32::MAX,
                    i32::MIN <= x - radius,
                    x + radius <= i32::MAX,
                    i32::MIN <= y - radius,
                    y + radius <= i32::MAX,
                    -radius <= dy <= radius,
                    -radius <= dx <= radius + 1,
                    self@ == paint_row(
                        row0,
                        x as int,
                        y as int,
                        material,
                        radius as int,
                        dy as int,
                        (dx + radius) as nat,
                    ),
                decreases radius + 1 - dx,
            {
                self.paint_at(x, y, material, radius, dx, dy);
                dx = dx + 1;
            }
            dy = dy + 1;
        }
    }

    /// One offset of a brush stroke.
    fn paint_at(&mut self, x: i32, y: i32, material: u8, radius: i32, dx: i32, dy: i32)
        requires
            old(self).wf(),
            0 <= radius,
            2 * radius * radius <= i32::MAX,
            -radius <= dx <= radius,
            -radius <= dy <= radius,
            i32::MIN <= x + dx <= i32::MAX,
            i32::MIN <= y + dy <= i32::MAX,
        ensures
            final(self).wf(),
            final(self)@ == paint_cell(
                old(self)@,
                x as int,
                y as int,
                material,
                radius as int,
                dx as int,
                dy as int,
            ),
    {
        proof {
            let (r, a, b) = (radius as int, dx as int, dy as int);
            assert(0 <= a * a <= r * r && 0 <= b * b <= r * r && 0 <= r * r) by (nonlinear_arith)
                requires -r <= a <= r, -r <= b <= r;
            assert(r * r + r * r <= i32::MAX) by (nonlinear_arith)
                requires 2 * r * r <= i32::MAX;
        }
        if dx * dx + dy * dy > radius * radius {
            return;
        }
        let (px, py) = (x + dx, y + dy);
        if px < 0 || px >= self.w || py < 0 || py >= self.h {
            return;
        }
        // Sprinkle granular materials loosely; stone and eraser are solid.
        if material == SAND || material == WATER {
            let r = self.rand();
            if r % 4 != 0 {
                return;
            }
        }
        let i = self.idx(px, py);
        if material == EMPTY || self.cells[i] == EMPTY {
            self.cells.set(i, material);
            let r1 = self.rand();
            self.shade.set(i, (r1 % 8) as u8);
            self.vel.set(i, 0);
            let r2 = self.rand();
            assert(r2 & 1 <= 1) by (bit_vector);
            self.dir.set(i, (r2 & 1) as u8);
        }
    }

    /// Colour the whole box into the RGBA image: sand (darker when wet),
    /// water graded by depth with a glinting surface, speckled stone, and
    /// the backdrop's row colour behind empty cells.
    pub fn render(&mut self)
        requires
            old(self).wf(),
        ensures
            final(self).wf(),
            final(self)@ == render_spec(old(self)@),
    {
        let ghost s0 = self@;
        let ghost n = s0.cells.len();
        assert(n == s0.w * s0.h);
        assert forall|k: int| 0 <= k < n implies !(#[trigger] (k % s0.w) < 0) by {
            lemma_cell_of(s0.w, s0.h, k);
        }
        // Column scan: depth of each water cell below the surface.
        let mut x: i32 = 0;
        while x < self.w
            invariant
                self.wf(),
                self@ == s0,
                0 <= x <= s0.w,
                n == s0.w * s0.h,
                forall|i: int|
                    0 <= i < n && i % s0.w < x ==> #[trigger] self.depth@[i] == water_depth(
                        s0.cells,
                        s0.w,
                        i % s0.w,
                        (i / s0.w) as nat,
                    ),
            decreases s0.w - x,
        {
            let mut d: u8 = 0;
            let mut y: i32 = 0;
            while y < self.h
                invariant
                    self.wf(),
                    self@ == s0,
                    0 <= x < s0.w,
                    0 <= y <= s0.h,
                    n == s0.w * s0.h,
                    y == 0 ==> d == 0,
                    y > 0 ==> d == water_depth(s0.cells, s0.w, x as int, (y - 1) as nat),
                    forall|i: int|
                        0 <= i < n && (i % s0.w < x || (i % s0.w == x && i / s0.w < y))
                            ==> #[trigger] self.depth@[i] == water_depth(
                            s0.cells,
                            s0.w,
                            i % s0.w,
                            (i / s0.w) as nat,
                        ),
                decreases s0.h - y,
            {
                let i = self.idx(x, y);
                proof {
                    lemma_index(s0.w, s0.h, x as int, y as int);
                }
                d = if self.cells[i] == WATER {
                    d.saturating_add(1)
                } else {
                    0
                };
                self.depth.set(i, d);
                proof {
                    assert forall|k: int|
                        0 <= k < n && (k % s0.w < x || (k % s0.w == x && k / s0.w < y + 1))
                            implies #[trigger] self.depth@[k] == water_depth(
                            s0.cells,
                            s0.w,
                            k % s0.w,
                            (k / s0.w) as nat,
                        ) by {
                        lemma_cell_of(s0.w, s0.h, k);
                    }
                }
                y = y + 1;
            }
            proof {
                assert forall|k: int|
                    0 <= k < n && k % s0.w < x + 1 implies #[trigger] self.depth@[k] == water_depth(
                        s0.cells,
                        s0.w,
                        k % s0.w,
                        (k / s0.w) as nat,
                    ) by {
                    lemma_cell_of(s0.w, s0.h, k);
                }
            }
            x = x + 1;
        }
        proof {
            assert forall|k: int| 0 <= k < n implies #[trigger] self.depth@[k] == water_depth(
                s0.cells,
                s0.w,
                k % s0.w,
                (k / s0.w) as nat,
            ) by {
                lemma_cell_of(s0.w, s0.h, k);
            }
        }

        let mut y: i32 = 0;
        while y < self.h
            invariant
                self.wf(),
                self@ == (SandState { pixels: self@.pixels, rng: self@.rng, ..s0 }),
                0 <= y <= s0.h,
                n == s0.w * s0.h,
                self@.rng == render_rng(s0, (y * s0.w) as nat),
                0 <= y * s0.w <= n,
                forall|i: int|
                    0 <= i < n ==> #[trigger] self.depth@[i] == water_depth(
                        s0.cells,
                        s0.w,
                        i % s0.w,
                        (i / s0.w) as nat,
                    ),
                forall|p: int|
                    0 <= p < y * s0.w * 4 ==> #[trigger] self.pixels@[p] == render_byte(s0, p),
            decreases s0.h - y,
        {
            let mut x: i32 = 0;
            assert((y + 1) * s0.w <= n) by (nonlinear_arith)
                requires y < s0.h, n == s0.w * s0.h, s0.w >= 0;
            while x < self.w
                invariant
                    self.wf(),
                    self@ == (SandState { pixels: self@.pixels, rng: self@.rng, ..s0 }),
                    0 <= y < s0.h,
                    0 <= x <= s0.w,
                    n == s0.w * s0.h,
                    (y + 1) * s0.w <= n,
                    self@.rng == render_rng(s0, (y * s0.w + x) as nat),
                    forall|i: int|
                        0 <= i < n ==> #[trigger] self.depth@[i] == water_depth(
                            s0.cells,
                            s0.w,
                            i % s0.w,
                            (i / s0.w) as nat,
                        ),
                    forall|p: int|
                        0 <= p < (y * s0.w + x) * 4 ==> #[trigger] self.pixels@[p] == render_byte(
                            s0,
                            p,
                        ),
                decreases s0.w - x,
            {
                let i = self.idx(x, y);
                proof {
                    lemma_index(s0.w, s0.h, x as int, y as int);
                }
                let (r, g, b) = self.cell_color(x, y, i);
                let p = i * 4;
                proof {
                    lemma_fundamental_div_mod_converse(i * 4 + 0, 4, i as int, 0);
                    lemma_fundamental_div_mod_converse(i * 4 + 1, 4, i as int, 1);
                    lemma_fundamental_div_mod_converse(i * 4 + 2, 4, i as int, 2);
                    lemma_fundamental_div_mod_converse(i * 4 + 3, 4, i as int, 3);
                }
                self.pixels.set(p, to_byte(r));
                self.pixels.set(p + 1, to_byte(g));
                self.pixels.set(p + 2, to_byte(b));
                self.pixels.set(p + 3, 255);
                x = x + 1;
            }
            y = y + 1;
            assert((y - 1) * s0.w + s0.w == y * s0.w) by (nonlinear_arith);
        }
        assert(y * s0.w == n) by (nonlinear_arith)
            requires y == s0.h, n == s0.w * s0.h;
        assert(self@.pixels =~= Seq::new(s0.pixels.len(), |p: int| render_byte(s0, p)));
    }

    /// The unclamped colour of cell `i` at `(x, y)`; surface water draws once
    /// for its glint.
    fn cell_color(&mut self, x: i32, y: i32, i: usize) -> (c: (i32, i32, i32))
        requires
            old(self).wf(),
            in_bounds(old(self)@, x as int, y as int),
            i == idx(old(self)@, x as int, y as int),
            old(self).depth@[i as int] == water_depth(old(self)@.cells, old(self)@.w, x as int, y as nat),
        ensures
            final(self).wf(),
            (c.0 as int, c.1 as int, c.2 as int) == cell_rgb(old(self)@, i as int, old(self)@.rng),
            final(self)@ == (if is_surface(old(self)@, i as int) {
                advanced(old(self)@)
            } else {
                old(self)@
            }),
            final(self).depth@ == old(self).depth@,
    {
        proof {
            lemma_index(self.w as int, self.h as int, x as int, y as int);
        }
        let s = self.shade[i] as i32;
        match self.cells[i] {
            SAND => {
                let (mut r, mut g, mut b) = (188 + s * 6, 152 + s * 5, 92 + s * 4);
                if self.touches_water(x, y) {
                    // Wet sand is darker and slightly redder.
                    r = r * 168 / 256;
                    g = g * 152 / 256;
                    b = b * 140 / 256;
                }
                (r, g, b)
            },
            WATER => {
                // Lerp from shallow to deep blue by depth, with a
                // lighter, sparkling surface line.
                let dd = self.depth[i];
                let d = (if dd < 24 {
                    dd
                } else {
                    24
                }) as i32;
                let mut r = 64 - d * 2 + s;
                let mut g = 134 - d * 3 + s * 2;
                let mut b = 238 - d * 4 + s * 2;
                if dd == 1 {
                    r += 26;
                    g += 30;
                    b += 17;
                    if self.rand() % 24 == 0 {
                        // Occasional glint where light hits the surface.
                        r += 70;
                        g += 60;
                        b += 17;
                    }
                }
                (r, g, b)
            },
            STONE => {
                // Speckled granite: a stable per-cell hash dims some cells.
                let speck = (i as u32).wrapping_mul(2654435761) >> 29;
                let k = if speck == 0 {
                    -14
                } else {
                    0
                };
                (82 + s * 5 + k, 86 + s * 5 + k, 100 + s * 5 + k)
            },
            _ => {
                let (skr, skg, skb) = self.sky[y as usize];
                (skr as i32, skg as i32, skb as i32)
            },
        }
    }

    fn touches_water(&self, x: i32, y: i32) -> (r: bool)
        requires
            self.wf(),
            in_bounds(self@, x as int, y as int),
        ensures
            r == touches_water(self@, x as int, y as int),
    {
        self.cell_at(x, y - 1) == WATER || self.cell_at(x, y + 1) == WATER || self.cell_at(x - 1, y)
            == WATER || self.cell_at(x + 1, y) == WATER
    }
}

} // verus!
