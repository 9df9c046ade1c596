//! Software framebuffer: an RGBA pixel buffer plus a backdrop, one colour
//! per row, that `clear` paints into it.

use vstd::prelude::*;
use vstd::arithmetic::div_mod::lemma_fundamental_div_mod_converse;

verus! {

/// An RGB colour.
pub type Color = (u8, u8, u8);

/// Channel `k` (0 red, 1 green, 2 blue) of a colour.
pub open spec fn channel(c: Color, k: int) -> u8 {
    if k == 0 {
        c.0
    } else if k == 1 {
        c.1
    } else {
        c.2
    }
}

/// How many backdrop rows a framebuffer `h` rows tall has.
pub open spec fn row_count(h: int) -> nat {
    if h > 0 {
        h as nat
    } else {
        0
    }
}

/// Byte `p` of a freshly cleared `w`-pixel-wide buffer over backdrop `bg`:
/// the row's colour channel, or full opacity for the alpha byte.
pub open spec fn cleared_byte(w: int, bg: Seq<Color>, p: int) -> u8 {
    if p % 4 == 3 {
        255
    } else {
        channel(bg[p / (4 * w)], p % 4)
    }
}

pub struct Fb {
    pub w: i32,
    pub h: i32,
    pub px: Vec<u8>,
    /// Precomputed background gradient, one RGB per row.
    bg: Vec<Color>,
}

/// Byte `c` of pixel `(x, y)` in a `w`-pixel-wide RGBA buffer lies in row `y`
/// and is channel `c`.
proof fn lemma_byte_position(w: int, y: int, x: int, c: int)
    requires
        w > 0,
        0 <= x < w,
        0 <= c < 4,
    ensures
        (y * w * 4 + x * 4 + c) / (4 * w) == y,
        (y * w * 4 + x * 4 + c) % 4 == c,
{
    assert(y * w * 4 + x * 4 + c == y * (4 * w) + (x * 4 + c)) by (nonlinear_arith);
    lemma_fundamental_div_mod_converse(y * w * 4 + x * 4 + c, 4 * w, y, x * 4 + c);
    assert(y * w * 4 + x * 4 + c == (y * w + x) * 4 + c) by (nonlinear_arith);
    lemma_fundamental_div_mod_converse(y * w * 4 + x * 4 + c, 4, y * w + x, c);
}

impl Fb {
    /// The backdrop gradient, one colour per row.
    pub closed spec fn background(&self) -> Seq<Color> {
        self.bg@
    }

    /// Width in pixels.
    pub closed spec fn width(&self) -> int {
        self.w as int
    }

    /// Height in pixels.
    pub closed spec fn height(&self) -> int {
        self.h as int
    }

    /// The RGBA bytes, row by row.
    pub closed spec fn bytes(&self) -> Seq<u8> {
        self.px@
    }

    /// The buffer holds four bytes per pixel and one backdrop colour per row.
    pub closed spec fn wf(&self) -> bool {
        &&& 0 <= self.w * self.h * 4 <= i32::MAX
        &&& self.px@.len() == self.w * self.h * 4
        &&& self.background().len() == row_count(self.h as int)
    }

    /// What a well-formed framebuffer holds: four bytes per pixel and one
    /// backdrop colour per row.
    pub proof fn lemma_wf(&self)
        requires
            self.wf(),
        ensures
            0 <= self.width() * self.height() * 4 <= i32::MAX,
            self.bytes().len() == self.width() * self.height() * 4,
            self.background().len() == row_count(self.height()),
    {
    }

    /// A `w`×`h` buffer of zero bytes over the backdrop `bg`, one colour per
    /// row (the caller computes the gradient).
    pub fn new(w: i32, h: i32, bg: Vec<Color>) -> (fb: Fb)
        requires
            0 <= w * h * 4 <= i32::MAX,
            bg@.len() == row_count(h as int),
        ensures
            fb.wf(),
            fb.width() == w,
            fb.height() == h,
            fb.bytes() == Seq::new((w * h * 4) as nat, |_p: int| 0u8),
            fb.background() == bg@,
    {
        let n = (w * h * 4) as usize;
        let mut px: Vec<u8> = Vec::new();
        let mut i: usize = 0;
        while i < n
            invariant
                i <= n,
                px@ == Seq::new(i as nat, |_p: int| 0u8),
            decreases n - i,
        {
            px.push(0u8);
            i = i + 1;
            assert(px@ == Seq::new(i as nat, |_p: int| 0u8));
        }
        Fb { w, h, px, bg }
    }

    /// Paint the backdrop gradient over the whole buffer, fully opaque.
    pub fn clear(&mut self)
        requires
            old(self).wf(),
        ensures
            final(self).wf(),
            final(self).width() == old(self).width(),
            final(self).height() == old(self).height(),
            final(self).background() == old(self).background(),
            old(self).height() > 0 ==> final(self).bytes() == Seq::new(
                old(self).bytes().len(),
                |p: int| cleared_byte(old(self).width(), old(self).background(), p),
            ),
            old(self).height() <= 0 ==> final(self).bytes() == old(self).bytes(),
    {
        let ghost w0 = self.w as int;
        let ghost h0 = self.h as int;
        let ghost total = self.px@.len();
        let ghost bg0 = self.bg@;
        if self.h <= 0 {
            return;
        }
        if self.w <= 0 {
            assert(total == 0) by (nonlinear_arith)
                requires total == w0 * h0 * 4, 0 <= w0 * h0 * 4, w0 <= 0, h0 > 0;
            assert(self.px@ =~= Seq::new(total, |p: int| cleared_byte(w0, self.background(), p)));
            return;
        }
        let mut y: i32 = 0;
        while y < self.h
            invariant
                self.w == w0,
                self.h == h0,
                self.bg@ == bg0,
                w0 > 0,
                h0 > 0,
                0 <= y <= h0,
                self.wf(),
                self.px@.len() == total,
                total == w0 * h0 * 4,
                forall|p: int|
                    0 <= p < y * w0 * 4 ==> #[trigger] self.px@[p] == cleared_byte(
                        w0,
                        self.background(),
                        p,
                    ),
            decreases h0 - y,
        {
            let (r, g, b) = self.bg[y as usize];
            assert(y * w0 * 4 + w0 * 4 <= h0 * w0 * 4) by (nonlinear_arith)
                requires y < h0, w0 > 0;
            assert(h0 * w0 * 4 == w0 * h0 * 4) by (nonlinear_arith);
            let row = (y * self.w * 4) as usize;
            let wu = self.w as usize;
            let mut x: usize = 0;
            while x < wu
                invariant
                    self.w == w0,
                    self.h == h0,
                    self.bg@ == bg0,
                    w0 > 0,
                    0 <= y < h0,
                    wu == w0,
                    row == y * w0 * 4,
                    row + w0 * 4 <= total,
                    0 <= x <= wu,
                    self.wf(),
                    self.px@.len() == total,
                    (r, g, b) == self.background()[y as int],
                    forall|p: int|
                        0 <= p < row + x * 4 ==> #[trigger] self.px@[p] == cleared_byte(
                            w0,
                            self.background(),
                            p,
                        ),
                decreases wu - x,
            {
                let p = row + x * 4;
                proof {
                    lemma_byte_position(w0, y as int, x as int, 0);
                    lemma_byte_position(w0, y as int, x as int, 1);
                    lemma_byte_position(w0, y as int, x as int, 2);
                    lemma_byte_position(w0, y as int, x as int, 3);
                }
                self.px.set(p, r);
                self.px.set(p + 1, g);
                self.px.set(p + 2, b);
                self.px.set(p + 3, 255);
                x = x + 1;
            }
            y = y + 1;
            assert(row + wu * 4 == y * w0 * 4) by (nonlinear_arith)
                requires row == (y - 1) * w0 * 4, wu == w0;
        }
        assert(y * w0 * 4 == total) by (nonlinear_arith)
            requires y == h0, total == w0 * h0 * 4;
        assert(self.px@ =~= Seq::new(total, |p: int| cleared_byte(w0, self.background(), p)));
    }
}

} // verus!
