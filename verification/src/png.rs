use vstd::prelude::*;

pub mod encode;
use vstd::arithmetic::mul::lemma_mul_is_commutative;

use crate::handler::{DrawError, Handler, Orientation};
use crate::png::encode::{encode_png, png_bytes};
use crate::surface::{lemma_grid, lemma_raster_ext, sp_const, Raster, Surface, WHITE};
use crate::ImageParams;

verus! {

/// The class of physical display consuming the image: a generic browser,
/// or an e-reader device whose screen is physically portrait.
#[derive(Clone, Copy, Debug, PartialEq, Eq, Structural)]
pub enum RenderTarget {
    Kindle,
    Browser,
}

/// The raster rotated a quarter turn clockwise: dimensions transposed,
/// and the pixel at (`x`, `y`) of the result is the source pixel at
/// (`y`, `height - 1 - x`).
pub open spec fn sp_rotate(s: Raster) -> Raster {
    Raster {
        width: s.height,
        height: s.width,
        pixels: Seq::new(
            s.pixels.len(),
            |i: int| s.pix(i / s.height, s.height - 1 - i % s.height),
        ),
    }
}

pub proof fn lemma_rotate_pix(s: Raster, x: int, y: int)
    requires
        s.wf(),
        0 <= x < s.height,
        0 <= y < s.width,
    ensures
        sp_rotate(s).wf(),
        sp_rotate(s).pix(x, y) == s.pix(y, s.height - 1 - x),
{
    lemma_mul_is_commutative(s.height, s.width);
    lemma_grid(s.height, s.width, x, y);
}

/// Rotate the finished raster a quarter turn into a fresh surface whose
/// physical dimensions are the transposed logical ones, so that a page
/// composed in landscape lands upright on a portrait device.
pub fn rotate_image(src: &Surface) -> (r: Surface)
    requires
        src@.wf(),
    ensures
        r@ == sp_rotate(src@),
        r@.wf(),
{
    let w: i32 = src.width();
    let h: i32 = src.height();
    let mut dst = Surface::new(h, w, 0);
    proof {
        assert forall|px: int, py: int| dst@.in_bounds(px, py) implies #[trigger] dst@.pix(px, py)
            == 0 by {
            lemma_grid(dst@.width, dst@.height, px, py);
        }
    }
    let mut y: i32 = 0;
    while y < w
        invariant
            src@.wf(),
            dst@.wf(),
            dst@.width == src@.height,
            dst@.height == src@.width,
            w == src@.width,
            h == src@.height,
            0 <= y <= w,
            forall|px: int, py: int|
                dst@.in_bounds(px, py) ==> #[trigger] dst@.pix(px, py) == if py < y {
                    src@.pix(py, src@.height - 1 - px)
                } else {
                    0
                },
        decreases w - y,
    {
        let mut x: i32 = 0;
        while x < h
            invariant
                src@.wf(),
                dst@.wf(),
                dst@.width == src@.height,
                dst@.height == src@.width,
                w == src@.width,
                h == src@.height,
                0 <= y < w,
                0 <= x <= h,
                forall|px: int, py: int|
                    dst@.in_bounds(px, py) ==> #[trigger] dst@.pix(px, py) == if py < y || (py
                        == y && px < x) {
                        src@.pix(py, src@.height - 1 - px)
                    } else {
                        0
                    },
            decreases h - x,
        {
            let p: u8 = src.pixel(y, h - 1 - x);
            let ghost before: Raster = dst@;
            dst.set_pixel(x, y, p);
            proof {
                assert forall|px: int, py: int| dst@.in_bounds(px, py) implies #[trigger] dst@.pix(
                    px,
                    py,
                ) == if py < y || (py == y && px < x + 1) {
                    src@.pix(py, src@.height - 1 - px)
                } else {
                    0
                } by {
                    crate::surface::lemma_set_pix(before, x as int, y as int, p, px, py);
                }
            }
            x = x + 1;
        }
        y = y + 1;
    }
    proof {
        let rr = sp_rotate(src@);
        lemma_rotate_pix(src@, 0, 0);
        assert forall|px: int, py: int| dst@.in_bounds(px, py) implies #[trigger] dst@.pix(px, py)
            == rr.pix(px, py) by {
            lemma_rotate_pix(src@, px, py);
        }
        lemma_raster_ext(dst@, rr);
    }
    dst
}


/// Whether the finished raster is rotated for the device: only a
/// landscape-composed page on a Kindle target needs the quarter turn.
pub open spec fn rotate_applies(target: RenderTarget, o: Orientation) -> bool {
    target == RenderTarget::Kindle && o == Orientation::Landscape
}

/// The raster the pipeline produces: the handler's drawing on a fresh
/// white page of the logical dimensions, rotated afterwards if the
/// target calls for it; or the drawing failure's message.
pub open spec fn rendered_raster<H: Handler>(h: H, params: ImageParams, data: H::Data) -> Result<
    Raster,
    Seq<char>,
> {
    match h.draw_spec(sp_const(params.width as int, params.height as int, WHITE), data) {
        Ok(s) => Ok(
            if rotate_applies(params.target, H::orientation_spec()) {
                sp_rotate(s)
            } else {
                s
            },
        ),
        Err(m) => Err(m),
    }
}

/// The bytes the pipeline produces for `params` and loaded `data`.
pub open spec fn render_result<H: Handler>(h: H, params: ImageParams, data: H::Data) -> Result<
    Seq<u8>,
    Seq<char>,
> {
    match rendered_raster(h, params, data) {
        Ok(s) => Ok(png_bytes(s)),
        Err(m) => Err(m),
    }
}

/// The synchronous render pipeline: allocate a surface of exactly the
/// logical dimensions, clear it to white, run the handler's drawing
/// phase, rotate the finished raster when the target and the handler's
/// orientation call for it, and encode the result as a PNG.
///
/// Succeeds if and only if the handler's drawing phase does; the
/// produced bytes are exactly `render_result`.
pub fn png_handler<H: Handler>(params: ImageParams, handler: &H, data: H::Data) -> (r: Result<
    Vec<u8>,
    DrawError,
>)
    requires
        params.valid(),
    ensures
        match r {
            Ok(bytes) => render_result(*handler, params, data) == Ok::<Seq<u8>, Seq<char>>(bytes@),
            Err(e) => render_result(*handler, params, data) == Err::<Seq<u8>, Seq<char>>(
                e.message@,
            ),
        },
{
    let mut surface = Surface::new(params.width, params.height, WHITE);
    match handler.draw(&mut surface, data) {
        Err(e) => Err(e),
        Ok(()) => {
            let rotate: bool = match (params.target, H::orientation()) {
                (RenderTarget::Kindle, Orientation::Landscape) => true,
                _ => false,
            };
            if rotate {
                let rotated = rotate_image(&surface);
                Ok(encode_png(&rotated))
            } else {
                Ok(encode_png(&surface))
            }
        },
    }
}

} // verus!
