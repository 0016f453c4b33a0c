use vstd::prelude::*;
use vstd::arithmetic::div_mod::{
    lemma_fundamental_div_mod, lemma_fundamental_div_mod_converse, lemma_mod_bound,
    lemma_div_pos_is_pos,
};
use vstd::arithmetic::mul::{lemma_mul_inequality, lemma_mul_is_commutative, lemma_mul_is_distributive_add, lemma_mul_nonnegative};

use crate::font::{glyph_bits, glyph_lookup, glyph_on};

verus! {


/// The page background colour.
pub const WHITE: u8 = 255;

/// The ink colour.
pub const BLACK: u8 = 0;

/// The bar colour of the diagnostic page.
pub const LIGHT_GREY: u8 = 204;

/// Mathematical value of a drawing surface: a `width` x `height`
/// greyscale raster, one byte per pixel, rows stored top to bottom in a
/// single row-major sequence.
#[verifier::ext_equal]
pub struct Raster {
    pub width: int,
    pub height: int,
    pub pixels: Seq<u8>,
}

impl Raster {
    /// Dimensions positive, within the accepted range, and the pixel
    /// sequence exactly fills the rectangle.
    pub open spec fn wf(self) -> bool {
        &&& 0 < self.width <= crate::MAX_DIM
        &&& 0 < self.height <= crate::MAX_DIM
        &&& self.pixels.len() == self.height * self.width
    }

    pub open spec fn in_bounds(self, x: int, y: int) -> bool {
        0 <= x < self.width && 0 <= y < self.height
    }

    /// The pixel at column `x`, row `y`.
    pub open spec fn pix(self, x: int, y: int) -> u8 {
        self.pixels[y * self.width + x]
    }
}

/// Row-major position of an in-bounds coordinate pair, with its bounds.
pub proof fn lemma_grid(w: int, h: int, x: int, y: int)
    requires
        0 < w,
        0 < h,
        0 <= x < w,
        0 <= y < h,
    ensures
        0 <= y * w + x < h * w,
        (y * w + x) / w == y,
        (y * w + x) % w == x,
{
    lemma_mul_inequality(y + 1, h, w);
    lemma_mul_is_distributive_add(w, y, 1);
    lemma_fundamental_div_mod_converse(y * w + x, w, y, x);
}

/// Every row-major index decomposes into a unique in-bounds coordinate pair.
pub proof fn lemma_grid_inv(w: int, h: int, i: int)
    requires
        0 < w,
        0 < h,
        0 <= i < h * w,
    ensures
        0 <= i % w < w,
        0 <= i / w < h,
        i == (i / w) * w + (i % w),
{
    lemma_mod_bound(i, w);
    lemma_fundamental_div_mod(i, w);
    lemma_div_pos_is_pos(i, w);
    lemma_mul_is_commutative(w, i / w);
    assert(i == (i / w) * w + i % w);
    if i / w >= h {
        lemma_mul_inequality(h, i / w, w);
        assert(h * w <= (i / w) * w);
        assert(w * (i / w) == (i / w) * w) by (nonlinear_arith);
        assert(false);
    }
}

/// Two well-formed rasters of the same dimensions that agree on every
/// in-bounds pixel are equal.
pub proof fn lemma_raster_ext(a: Raster, b: Raster)
    requires
        a.wf(),
        b.wf(),
        a.width == b.width,
        a.height == b.height,
        forall|x: int, y: int| a.in_bounds(x, y) ==> a.pix(x, y) == b.pix(x, y),
    ensures
        a == b,
{
    assert forall|i: int| 0 <= i < a.pixels.len() implies a.pixels[i] == b.pixels[i] by {
        lemma_grid_inv(a.width, a.height, i);
        let x = i % a.width;
        let y = i / a.width;
        assert(a.in_bounds(x, y));
        assert(a.pix(x, y) == b.pix(x, y));
    }
    assert(a.pixels =~= b.pixels);
    assert(a =~= b);
}


/// A well-formed raster holds at most `MAX_DIM`^2 pixels.
pub proof fn lemma_area_bound(s: Raster)
    requires
        s.wf(),
    ensures
        s.height * s.width <= 100000000,
{
    lemma_mul_inequality(s.height, crate::MAX_DIM as int, s.width);
}

/// A raster of the given dimensions with every pixel set to `v`.
pub open spec fn sp_const(w: int, h: int, v: u8) -> Raster {
    Raster { width: w, height: h, pixels: Seq::new((h * w) as nat, |i: int| v) }
}

/// `s` with the pixel at (`px`, `py`) set to `v`; out-of-bounds
/// coordinates leave the raster unchanged.
pub open spec fn sp_set(s: Raster, px: int, py: int, v: u8) -> Raster {
    if s.in_bounds(px, py) {
        Raster { pixels: s.pixels.update(py * s.width + px, v), ..s }
    } else {
        s
    }
}

pub proof fn lemma_set_pix(s: Raster, px: int, py: int, v: u8, x: int, y: int)
    requires
        s.wf(),
        s.in_bounds(x, y),
    ensures
        sp_set(s, px, py, v).pix(x, y) == if x == px && y == py {
            v
        } else {
            s.pix(x, y)
        },
        sp_set(s, px, py, v).wf(),
        sp_set(s, px, py, v).width == s.width,
        sp_set(s, px, py, v).height == s.height,
{
    lemma_grid(s.width, s.height, x, y);
    if s.in_bounds(px, py) {
        lemma_grid(s.width, s.height, px, py);
    }
}

/// Whether (`px`, `py`) lies in the half-open rectangle
/// [`x0`, `x1`) x [`y0`, `y1`).
pub open spec fn rect_covers(x0: int, y0: int, x1: int, y1: int, px: int, py: int) -> bool {
    x0 <= px < x1 && y0 <= py < y1
}

/// `s` with every in-bounds pixel of the rectangle set to `v`.
pub open spec fn sp_fill_rect(s: Raster, x0: int, y0: int, x1: int, y1: int, v: u8) -> Raster {
    Raster {
        pixels: Seq::new(
            s.pixels.len(),
            |i: int| if rect_covers(x0, y0, x1, y1, i % s.width, i / s.width) {
                v
            } else {
                s.pixels[i]
            },
        ),
        ..s
    }
}

pub proof fn lemma_fill_rect_pix(s: Raster, x0: int, y0: int, x1: int, y1: int, v: u8, x: int, y: int)
    requires
        s.wf(),
        s.in_bounds(x, y),
    ensures
        sp_fill_rect(s, x0, y0, x1, y1, v).pix(x, y) == if rect_covers(x0, y0, x1, y1, x, y) {
            v
        } else {
            s.pix(x, y)
        },
        sp_fill_rect(s, x0, y0, x1, y1, v).wf(),
{
    lemma_grid(s.width, s.height, x, y);
}


/// Truncated division of a bounded non-negative number stays below the
/// quotient bound.
pub proof fn lemma_div_bound(a: int, s: int, m: int)
    requires
        0 <= a,
        0 < s,
        a < m * s,
    ensures
        0 <= a / s < m,
{
    lemma_div_pos_is_pos(a, s);
    lemma_fundamental_div_mod(a, s);
    lemma_mod_bound(a, s);
    if a / s >= m {
        lemma_mul_inequality(m, a / s, s);
        lemma_mul_is_commutative(s, a / s);
        assert(false);
    }
}

/// Whether (`px`, `py`) lies on a set bit of the glyph of `c` drawn with
/// its top-left corner at (`x`, `y`), scaled by `scale`.
pub open spec fn char_covers(x: int, y: int, c: char, scale: int, px: int, py: int) -> bool {
    &&& x <= px < x + 8 * scale
    &&& y <= py < y + 8 * scale
    &&& glyph_on(c, (px - x) / scale, (py - y) / scale)
}

/// `s` with the glyph of `c` drawn at (`x`, `y`): pixels on set glyph
/// bits take the colour `v`, all others are unchanged.
pub open spec fn sp_draw_char(s: Raster, x: int, y: int, c: char, scale: int, v: u8) -> Raster {
    Raster {
        pixels: Seq::new(
            s.pixels.len(),
            |i: int| if char_covers(x, y, c, scale, i % s.width, i / s.width) {
                v
            } else {
                s.pixels[i]
            },
        ),
        ..s
    }
}

pub proof fn lemma_draw_char_pix(s: Raster, x: int, y: int, c: char, scale: int, v: u8, px: int, py: int)
    requires
        s.wf(),
        s.in_bounds(px, py),
    ensures
        sp_draw_char(s, x, y, c, scale, v).pix(px, py) == if char_covers(x, y, c, scale, px, py) {
            v
        } else {
            s.pix(px, py)
        },
        sp_draw_char(s, x, y, c, scale, v).wf(),
{
    lemma_grid(s.width, s.height, px, py);
}

/// Drawing a glyph entirely outside the surface leaves it unchanged.
pub proof fn lemma_draw_char_offscreen(s: Raster, x: int, y: int, c: char, scale: int, v: u8)
    requires
        s.wf(),
        x >= s.width || x + 8 * scale <= 0 || y >= s.height || y + 8 * scale <= 0,
    ensures
        sp_draw_char(s, x, y, c, scale, v) == s,
{
    let d = sp_draw_char(s, x, y, c, scale, v);
    assert(d.wf());
    assert forall|px: int, py: int| d.in_bounds(px, py) implies d.pix(px, py) == s.pix(px, py) by {
        lemma_draw_char_pix(s, x, y, c, scale, v, px, py);
    }
    lemma_raster_ext(d, s);
}

/// `s` with `text` drawn left to right in the monospace font, the first
/// character cell at (`x`, `y`), each cell 8*`scale` pixels square.
pub open spec fn sp_draw_text(s: Raster, x: int, y: int, text: Seq<char>, scale: int, v: u8) -> Raster
    decreases text.len(),
{
    if text.len() == 0 {
        s
    } else {
        sp_draw_char(
            sp_draw_text(s, x, y, text.drop_last(), scale, v),
            x + 8 * scale * (text.len() - 1),
            y,
            text.last(),
            scale,
            v,
        )
    }
}

pub proof fn lemma_draw_text_wf(s: Raster, x: int, y: int, text: Seq<char>, scale: int, v: u8)
    requires
        s.wf(),
    ensures
        sp_draw_text(s, x, y, text, scale, v).wf(),
        sp_draw_text(s, x, y, text, scale, v).width == s.width,
        sp_draw_text(s, x, y, text, scale, v).height == s.height,
    decreases text.len(),
{
    if text.len() > 0 {
        lemma_draw_text_wf(s, x, y, text.drop_last(), scale, v);
    }
}

/// Characters at or past the right edge of the surface draw nothing: the
/// text's effect is that of its first `ci` characters alone.
pub proof fn lemma_draw_text_clip_right(s: Raster, x: int, y: int, text: Seq<char>, scale: int, v: u8, ci: int)
    requires
        s.wf(),
        1 <= scale,
        0 <= ci <= text.len(),
        x + 8 * scale * ci >= s.width,
    ensures
        sp_draw_text(s, x, y, text, scale, v) == sp_draw_text(s, x, y, text.take(ci), scale, v),
    decreases text.len() - ci,
{
    if text.len() > ci {
        let prev = text.drop_last();
        lemma_draw_text_clip_right(s, x, y, prev, scale, v, ci);
        lemma_draw_text_wf(s, x, y, prev, scale, v);
        let n1 = text.len() - 1;
        lemma_mul_inequality(ci, n1 as int, 8 * scale);
        lemma_mul_is_commutative(8 * scale, ci);
        lemma_mul_is_commutative(8 * scale, n1 as int);
        assert(x + 8 * scale * n1 >= s.width);
        lemma_draw_char_offscreen(
            sp_draw_text(s, x, y, prev, scale, v),
            x + 8 * scale * n1,
            y,
            text.last(),
            scale,
            v,
        );
        assert(prev.take(ci) =~= text.take(ci));
    } else {
        assert(text.take(ci) =~= text);
    }
}

/// Text whose top edge is at or past the bottom of the surface draws
/// nothing.
pub proof fn lemma_draw_text_below(s: Raster, x: int, y: int, text: Seq<char>, scale: int, v: u8)
    requires
        s.wf(),
        y >= s.height,
    ensures
        sp_draw_text(s, x, y, text, scale, v) == s,
    decreases text.len(),
{
    if text.len() > 0 {
        let prev = text.drop_last();
        lemma_draw_text_below(s, x, y, prev, scale, v);
        lemma_draw_char_offscreen(s, x + 8 * scale * (text.len() - 1), y, text.last(), scale, v);
    }
}


/// Text drawn at `y` leaves every pixel above `y` unchanged.
pub proof fn lemma_draw_text_frame_above(s: Raster, x: int, y: int, text: Seq<char>, scale: int, v: u8, px: int, py: int)
    requires
        s.wf(),
        s.in_bounds(px, py),
        py < y,
    ensures
        sp_draw_text(s, x, y, text, scale, v).pix(px, py) == s.pix(px, py),
    decreases text.len(),
{
    if text.len() > 0 {
        let prev = sp_draw_text(s, x, y, text.drop_last(), scale, v);
        lemma_draw_text_frame_above(s, x, y, text.drop_last(), scale, v, px, py);
        lemma_draw_text_wf(s, x, y, text.drop_last(), scale, v);
        lemma_draw_char_pix(
            prev,
            x + 8 * scale * (text.len() - 1),
            y,
            text.last(),
            scale,
            v,
            px,
            py,
        );
    }
}

/// Text drawn at `x` leaves every pixel left of `x` unchanged.
pub proof fn lemma_draw_text_frame_left(s: Raster, x: int, y: int, text: Seq<char>, scale: int, v: u8, px: int, py: int)
    requires
        s.wf(),
        s.in_bounds(px, py),
        px < x,
        scale >= 1,
    ensures
        sp_draw_text(s, x, y, text, scale, v).pix(px, py) == s.pix(px, py),
    decreases text.len(),
{
    if text.len() > 0 {
        let prev = sp_draw_text(s, x, y, text.drop_last(), scale, v);
        lemma_draw_text_frame_left(s, x, y, text.drop_last(), scale, v, px, py);
        lemma_draw_text_wf(s, x, y, text.drop_last(), scale, v);
        lemma_mul_nonnegative(8 * scale, text.len() - 1);
        lemma_draw_char_pix(
            prev,
            x + 8 * scale * (text.len() - 1),
            y,
            text.last(),
            scale,
            v,
            px,
            py,
        );
    }
}

/// Inside the first character's cell, drawn text shows exactly that
/// character's glyph: later characters lie entirely to the right.
pub proof fn lemma_draw_text_first_char(s: Raster, x: int, y: int, text: Seq<char>, scale: int, v: u8, px: int, py: int)
    requires
        s.wf(),
        s.in_bounds(px, py),
        text.len() >= 1,
        scale >= 1,
        x <= px < x + 8 * scale,
        y <= py < y + 8 * scale,
    ensures
        sp_draw_text(s, x, y, text, scale, v).pix(px, py) == if glyph_on(
            text[0],
            (px - x) / scale,
            (py - y) / scale,
        ) {
            v
        } else {
            s.pix(px, py)
        },
    decreases text.len(),
{
    let n1 = text.len() - 1;
    let prev = sp_draw_text(s, x, y, text.drop_last(), scale, v);
    lemma_draw_text_wf(s, x, y, text.drop_last(), scale, v);
    vstd::arithmetic::mul::lemma_mul_basics(8 * scale);
    if text.len() == 1 {
        assert(text.drop_last() =~= Seq::<char>::empty());
        assert(prev == s);
        lemma_draw_char_pix(s, x, y, text.last(), scale, v, px, py);
        assert(text.last() == text[0]);
    } else {
        lemma_draw_text_first_char(s, x, y, text.drop_last(), scale, v, px, py);
        lemma_mul_inequality(1, n1 as int, 8 * scale);
        lemma_mul_is_commutative(8 * scale, 1);
        lemma_mul_is_commutative(8 * scale, n1 as int);
        assert(x + 8 * scale * n1 >= x + 8 * scale);
        lemma_draw_char_pix(prev, x + 8 * scale * n1, y, text.last(), scale, v, px, py);
        assert(text.drop_last()[0] == text[0]);
    }
}


/// An in-memory drawing surface: a greyscale pixel buffer with a simple
/// 2D drawing interface (fills, monospace text). Always allocated fresh
/// per rendered page.
pub struct Surface {
    width: i32,
    height: i32,
    pixels: Vec<u8>,
}

impl View for Surface {
    type V = Raster;

    closed spec fn view(&self) -> Raster {
        Raster { width: self.width as int, height: self.height as int, pixels: self.pixels@ }
    }
}

impl Surface {
    /// Allocate a fresh surface with every pixel set to `background`.
    pub fn new(width: i32, height: i32, background: u8) -> (r: Surface)
        requires
            0 < width <= crate::MAX_DIM,
            0 < height <= crate::MAX_DIM,
        ensures
            r@ == sp_const(width as int, height as int, background),
            r@.wf(),
    {
        proof {
            lemma_mul_inequality(height as int, crate::MAX_DIM as int, width as int);
        }
        let n: usize = (height as usize) * (width as usize);
        let mut pixels: Vec<u8> = Vec::new();
        let mut i: usize = 0;
        while i < n
            invariant
                i <= n,
                n == height * width,
                pixels@.len() == i,
                forall|k: int| 0 <= k < i ==> pixels@[k] == background,
            decreases n - i,
        {
            pixels.push(background);
            i = i + 1;
        }
        let r = Surface { width, height, pixels };
        proof {
            assert(r@.pixels =~= sp_const(width as int, height as int, background).pixels);
            assert(r@ =~= sp_const(width as int, height as int, background));
        }
        r
    }

    pub fn width(&self) -> (r: i32)
        ensures
            r == self@.width,
    {
        self.width
    }

    pub fn height(&self) -> (r: i32)
        ensures
            r == self@.height,
    {
        self.height
    }

    /// Read the pixel at (`x`, `y`).
    pub fn pixel(&self, x: i32, y: i32) -> (r: u8)
        requires
            self@.wf(),
            self@.in_bounds(x as int, y as int),
        ensures
            r == self@.pix(x as int, y as int),
    {
        proof {
            lemma_grid(self@.width, self@.height, x as int, y as int);
            lemma_area_bound(self@);
        }
        let idx: usize = (y as usize) * (self.width as usize) + (x as usize);
        self.pixels[idx]
    }

    /// Set the pixel at (`x`, `y`); coordinates outside the surface are
    /// ignored.
    pub fn set_pixel(&mut self, x: i32, y: i32, v: u8)
        requires
            old(self)@.wf(),
        ensures
            final(self)@ == sp_set(old(self)@, x as int, y as int, v),
            final(self)@.wf(),
    {
        if x >= 0 && y >= 0 && x < self.width && y < self.height {
            proof {
                lemma_grid(self@.width, self@.height, x as int, y as int);
                lemma_area_bound(self@);
            }
            let idx: usize = (y as usize) * (self.width as usize) + (x as usize);
            self.pixels[idx] = v;
        }
    }

    /// Fill the rectangle [`x0`, `x1`) x [`y0`, `y1`) with `v`, clipped
    /// to the surface.
    pub fn fill_rect(&mut self, x0: i32, y0: i32, x1: i32, y1: i32, v: u8)
        requires
            old(self)@.wf(),
        ensures
            final(self)@ == sp_fill_rect(old(self)@, x0 as int, y0 as int, x1 as int, y1 as int, v),
            final(self)@.wf(),
    {
        let ghost orig: Raster = self@;
        let xs: i32 = if x0 < 0 { 0 } else { x0 };
        let xe: i32 = if x1 > self.width { self.width } else { x1 };
        let ys: i32 = if y0 < 0 { 0 } else { y0 };
        let ye: i32 = if y1 > self.height { self.height } else { y1 };
        let mut y: i32 = ys;
        while y < ye
            invariant
                self@.wf(),
                self@.width == orig.width,
                self@.height == orig.height,
                orig.wf(),
                ys <= y,
                ye <= orig.height,
                ys == if y0 < 0 { 0 } else { y0 as int },
                xs == if x0 < 0 { 0 } else { x0 as int },
                xe == if x1 > orig.width { orig.width } else { x1 as int },
                ye == if y1 > orig.height { orig.height } else { y1 as int },
                y <= ye || y == ys,
                forall|px: int, py: int|
                    orig.in_bounds(px, py) ==> #[trigger] self@.pix(px, py)
                        == if rect_covers(x0 as int, y0 as int, x1 as int, y1 as int, px, py)
                            && py < y {
                        v
                    } else {
                        orig.pix(px, py)
                    },
            decreases ye - y,
        {
            let mut x: i32 = xs;
            while x < xe
                invariant
                    self@.wf(),
                    self@.width == orig.width,
                    self@.height == orig.height,
                    orig.wf(),
                    xs <= x,
                    xe <= orig.width,
                    x <= xe || x == xs,
                    ys <= y < ye,
                    ys == if y0 < 0 { 0 } else { y0 as int },
                    xs == if x0 < 0 { 0 } else { x0 as int },
                    xe == if x1 > orig.width { orig.width } else { x1 as int },
                    ye == if y1 > orig.height { orig.height } else { y1 as int },
                    forall|px: int, py: int|
                        orig.in_bounds(px, py) ==> #[trigger] self@.pix(px, py)
                            == if rect_covers(x0 as int, y0 as int, x1 as int, y1 as int, px, py)
                                && (py < y || (py == y && px < x)) {
                            v
                        } else {
                            orig.pix(px, py)
                        },
                decreases xe - x,
            {
                let ghost before: Raster = self@;
                self.set_pixel(x, y, v);
                proof {
                    assert forall|px: int, py: int| orig.in_bounds(px, py) implies
                        #[trigger] self@.pix(px, py)
                            == if rect_covers(x0 as int, y0 as int, x1 as int, y1 as int, px, py)
                                && (py < y || (py == y && px < x + 1)) {
                            v
                        } else {
                            orig.pix(px, py)
                        } by {
                        lemma_set_pix(before, x as int, y as int, v, px, py);
                    }
                }
                x = x + 1;
            }
            y = y + 1;
        }
        proof {
            let sr = sp_fill_rect(orig, x0 as int, y0 as int, x1 as int, y1 as int, v);
            assert forall|px: int, py: int| self@.in_bounds(px, py) implies #[trigger] self@.pix(
                px,
                py,
            ) == sr.pix(px, py) by {
                lemma_fill_rect_pix(orig, x0 as int, y0 as int, x1 as int, y1 as int, v, px, py);
            }
            lemma_fill_rect_pix(orig, x0 as int, y0 as int, x1 as int, y1 as int, v, 0, 0);
            lemma_raster_ext(self@, sr);
        }
    }

    /// Set every pixel of the surface to `v`.
    pub fn clear(&mut self, v: u8)
        requires
            old(self)@.wf(),
        ensures
            final(self)@ == sp_const(old(self)@.width, old(self)@.height, v),
            final(self)@.wf(),
    {
        let ghost orig: Raster = self@;
        let w = self.width;
        let h = self.height;
        self.fill_rect(0, 0, w, h, v);
        proof {
            let sc = sp_const(orig.width, orig.height, v);
            assert(sc.wf());
            assert forall|px: int, py: int| self@.in_bounds(px, py) implies #[trigger] self@.pix(
                px,
                py,
            ) == sc.pix(px, py) by {
                lemma_fill_rect_pix(orig, 0, 0, orig.width, orig.height, v, px, py);
                lemma_grid(orig.width, orig.height, px, py);
            }
            lemma_raster_ext(self@, sc);
        }
    }

    /// Draw one glyph cell of the monospace font, top-left at
    /// (`x`, `y`), scaled by `scale`; clipped to the surface.
    fn draw_char(&mut self, x: i32, y: i32, c: char, scale: i32, v: u8)
        requires
            old(self)@.wf(),
            1 <= scale <= 100,
            x <= crate::MAX_DIM,
            y <= crate::MAX_DIM,
        ensures
            final(self)@ == sp_draw_char(old(self)@, x as int, y as int, c, scale as int, v),
            final(self)@.wf(),
    {
        let ghost orig: Raster = self@;
        let g: u64 = glyph_lookup(c);
        let size: i32 = 8 * scale;
        let mut dy: i32 = 0;
        while dy < size
            invariant
                self@.wf(),
                self@.width == orig.width,
                self@.height == orig.height,
                orig.wf(),
                1 <= scale <= 100,
                size == 8 * scale,
                0 <= dy <= size,
                x <= crate::MAX_DIM,
                y <= crate::MAX_DIM,
                g == glyph_bits(c),
                forall|px: int, py: int|
                    orig.in_bounds(px, py) ==> #[trigger] self@.pix(px, py)
                        == if char_covers(x as int, y as int, c, scale as int, px, py)
                            && py - y < dy {
                        v
                    } else {
                        orig.pix(px, py)
                    },
            decreases size - dy,
        {
            let gy: i32 = dy / scale;
            proof {
                lemma_div_bound(dy as int, scale as int, 8);
            }
            let mut dx: i32 = 0;
            while dx < size
                invariant
                    self@.wf(),
                    self@.width == orig.width,
                    self@.height == orig.height,
                    orig.wf(),
                    1 <= scale <= 100,
                    size == 8 * scale,
                    0 <= dy < size,
                    0 <= dx <= size,
                    x <= crate::MAX_DIM,
                    y <= crate::MAX_DIM,
                    g == glyph_bits(c),
                    gy == dy / scale,
                    0 <= gy < 8,
                    forall|px: int, py: int|
                        orig.in_bounds(px, py) ==> #[trigger] self@.pix(px, py)
                            == if char_covers(x as int, y as int, c, scale as int, px, py)
                                && (py - y < dy || (py - y == dy && px - x < dx)) {
                            v
                        } else {
                            orig.pix(px, py)
                        },
                decreases size - dx,
            {
                let gx: i32 = dx / scale;
                proof {
                    lemma_div_bound(dx as int, scale as int, 8);
                }
                let sh: u64 = (63 - 8 * gy - gx) as u64;
                let on: bool = ((g >> sh) & 1) == 1;
                let ghost before: Raster = self@;
                if on {
                    self.set_pixel(x + dx, y + dy, v);
                }
                proof {
                    assert(on == glyph_on(c, gx as int, gy as int));
                    assert forall|px: int, py: int| orig.in_bounds(px, py) implies
                        #[trigger] self@.pix(px, py)
                            == if char_covers(x as int, y as int, c, scale as int, px, py)
                                && (py - y < dy || (py - y == dy && px - x < dx + 1)) {
                            v
                        } else {
                            orig.pix(px, py)
                        } by {
                        if on {
                            lemma_set_pix(before, (x + dx) as int, (y + dy) as int, v, px, py);
                        }
                        if px == x + dx && py == y + dy {
                            assert((px - x) / (scale as int) == gx);
                            assert((py - y) / (scale as int) == gy);
                        }
                    }
                }
                dx = dx + 1;
            }
            proof {
                assert forall|px: int, py: int| orig.in_bounds(px, py) implies
                    #[trigger] self@.pix(px, py)
                        == if char_covers(x as int, y as int, c, scale as int, px, py)
                            && py - y < dy + 1 {
                        v
                    } else {
                        orig.pix(px, py)
                    } by {
                    assert(char_covers(x as int, y as int, c, scale as int, px, py)
                        ==> px - x < 8 * scale);
                }
            }
            dy = dy + 1;
        }
        proof {
            let d = sp_draw_char(orig, x as int, y as int, c, scale as int, v);
            assert forall|px: int, py: int| self@.in_bounds(px, py) implies #[trigger] self@.pix(
                px,
                py,
            ) == d.pix(px, py) by {
                lemma_draw_char_pix(orig, x as int, y as int, c, scale as int, v, px, py);
                assert(char_covers(x as int, y as int, c, scale as int, px, py)
                    ==> py - y < 8 * scale);
            }
            lemma_draw_char_pix(orig, x as int, y as int, c, scale as int, v, 0, 0);
            lemma_raster_ext(self@, d);
        }
    }

    /// Draw `text` left to right in the monospace font, the first
    /// character cell with its top-left corner at (`x`, `y`); each cell
    /// is 8*`scale` pixels square. Clipped to the surface.
    pub fn draw_text(&mut self, x: i32, y: i32, text: &str, scale: i32, v: u8)
        requires
            old(self)@.wf(),
            1 <= scale <= 100,
        ensures
            final(self)@ == sp_draw_text(old(self)@, x as int, y as int, text@, scale as int, v),
            final(self)@.wf(),
            final(self)@.width == old(self)@.width,
            final(self)@.height == old(self)@.height,
    {
        let ghost orig: Raster = self@;
        proof {
            lemma_draw_text_wf(orig, x as int, y as int, text@, scale as int, v);
        }
        if y > crate::MAX_DIM {
            proof {
                lemma_draw_text_below(orig, x as int, y as int, text@, scale as int, v);
            }
            return;
        }
        let len: usize = text.unicode_len();
        let step: i64 = 8 * (scale as i64);
        let mut cursor: i64 = x as i64;
        let mut ci: usize = 0;
        loop
            invariant_except_break
                self@.wf(),
                self@.width == orig.width,
                self@.height == orig.height,
                orig.wf(),
                1 <= scale <= 100,
                step == 8 * scale,
                y <= crate::MAX_DIM,
                ci <= len,
                len == text@.len(),
                cursor == x + 8 * (scale as int) * (ci as int),
                self@ == sp_draw_text(orig, x as int, y as int, text@.take(ci as int), scale as int, v),
            ensures
                self@.wf(),
                self@ == sp_draw_text(orig, x as int, y as int, text@, scale as int, v),
            decreases len - ci,
        {
            if ci >= len {
                proof {
                    assert(text@.take(ci as int) =~= text@);
                }
                break;
            }
            if cursor >= self.width as i64 {
                proof {
                    lemma_draw_text_clip_right(
                        orig,
                        x as int,
                        y as int,
                        text@,
                        scale as int,
                        v,
                        ci as int,
                    );
                }
                break;
            }
            let c = text.get_char(ci);
            let ghost cur: Raster = self@;
            proof {
                assert(text@.take(ci as int + 1).drop_last() =~= text@.take(ci as int));
                assert(text@.take(ci as int + 1).last() == text@[ci as int]);
            }
            if cursor + step > 0 {
                self.draw_char(cursor as i32, y, c, scale, v);
            } else {
                proof {
                    lemma_draw_char_offscreen(cur, cursor as int, y as int, c, scale as int, v);
                }
            }
            ci = ci + 1;
            proof {
                lemma_mul_is_distributive_add(8 * (scale as int), ci as int - 1, 1);
            }
            cursor = cursor + step;
        }
    }
}

} // verus!
