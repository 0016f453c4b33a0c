use vstd::prelude::*;

use crate::handler::error::{
    center_x, error_image, lemma_draw_causes_frame_above, lemma_error_image_dims, line_cap,
};
use crate::handler::{Handler, Orientation};
use crate::png::encode::{lemma_png_bytes_dims, png_height_of, png_width_of};
use crate::png::{lemma_rotate_pix, render_result, sp_rotate, RenderTarget};
use crate::font::glyph_on;
use crate::png::encode::png_bytes;
use crate::surface::{
    lemma_draw_text_first_char, lemma_draw_text_wf, sp_const, sp_draw_text, sp_fill_rect, Raster,
    BLACK, LIGHT_GREY, WHITE,
};
use crate::{error_png, ImageParams};

verus! {

/// For a Browser-target request, a successful render is a PNG declaring
/// exactly the requested width and height.
pub proof fn lemma_browser_dimensions<H: Handler>(
    h: H,
    params: ImageParams,
    data: H::Data,
    bytes: Seq<u8>,
)
    requires
        params.valid(),
        params.target == RenderTarget::Browser,
        render_result(h, params, data) == Ok::<Seq<u8>, Seq<char>>(bytes),
    ensures
        png_width_of(bytes) == params.width,
        png_height_of(bytes) == params.height,
{
    let base = sp_const(params.width as int, params.height as int, crate::surface::WHITE);
    h.draw_spec_preserves_dims(base, data);
    match h.draw_spec(base, data) {
        Ok(t) => {
            lemma_png_bytes_dims(t);
        },
        Err(m) => {
            assert(false);
        },
    }
}

/// For a Kindle-target request to a landscape-composed handler, a
/// successful render is rotated: the PNG declares the transposed
/// dimensions.
pub proof fn lemma_kindle_landscape_dimensions<H: Handler>(
    h: H,
    params: ImageParams,
    data: H::Data,
    bytes: Seq<u8>,
)
    requires
        params.valid(),
        params.target == RenderTarget::Kindle,
        H::orientation_spec() == Orientation::Landscape,
        render_result(h, params, data) == Ok::<Seq<u8>, Seq<char>>(bytes),
    ensures
        png_width_of(bytes) == params.height,
        png_height_of(bytes) == params.width,
{
    let base = sp_const(params.width as int, params.height as int, crate::surface::WHITE);
    h.draw_spec_preserves_dims(base, data);
    match h.draw_spec(base, data) {
        Ok(t) => {
            lemma_rotate_pix(t, 0, 0);
            lemma_png_bytes_dims(sp_rotate(t));
        },
        Err(m) => {
            assert(false);
        },
    }
}

/// For a Kindle-target request to a portrait-composed handler no
/// rotation is applied: the PNG declares the requested dimensions
/// unswapped.
pub proof fn lemma_kindle_portrait_dimensions<H: Handler>(
    h: H,
    params: ImageParams,
    data: H::Data,
    bytes: Seq<u8>,
)
    requires
        params.valid(),
        params.target == RenderTarget::Kindle,
        H::orientation_spec() == Orientation::Portrait,
        render_result(h, params, data) == Ok::<Seq<u8>, Seq<char>>(bytes),
    ensures
        png_width_of(bytes) == params.width,
        png_height_of(bytes) == params.height,
{
    let base = sp_const(params.width as int, params.height as int, crate::surface::WHITE);
    h.draw_spec_preserves_dims(base, data);
    match h.draw_spec(base, data) {
        Ok(t) => {
            lemma_png_bytes_dims(t);
        },
        Err(m) => {
            assert(false);
        },
    }
}

/// Rendering is deterministic: two pipeline runs for the same handler,
/// parameters and loaded data yield byte-identical PNG output, because
/// `png_handler` pins its output to the function `render_result` of its
/// inputs alone.
pub proof fn lemma_render_idempotent<H: Handler>(
    h: H,
    params: ImageParams,
    data1: H::Data,
    data2: H::Data,
    out1: Seq<u8>,
    out2: Seq<u8>,
)
    requires
        data1 == data2,
        render_result(h, params, data1) == Ok::<Seq<u8>, Seq<char>>(out1),
        render_result(h, params, data2) == Ok::<Seq<u8>, Seq<char>>(out2),
    ensures
        out1 == out2,
{
}

/// A rendered diagnostic page is a structurally complete PNG of the
/// request's dimensions (transposed for the Kindle target, since the
/// diagnostic page is composed in landscape).
pub proof fn lemma_error_png_dimensions(params: ImageParams, chain: Seq<Seq<char>>, ts: Seq<char>)
    requires
        params.valid(),
    ensures
        params.target == RenderTarget::Kindle ==> png_width_of(error_png(params, chain, ts))
            == params.height && png_height_of(error_png(params, chain, ts)) == params.width,
        params.target == RenderTarget::Browser ==> png_width_of(error_png(params, chain, ts))
            == params.width && png_height_of(error_png(params, chain, ts)) == params.height,
{
    let base = sp_const(params.width as int, params.height as int, crate::surface::WHITE);
    lemma_error_image_dims(base, chain, ts);
    let page = crate::handler::error::error_image(base, chain, ts);
    if params.target == RenderTarget::Kindle {
        lemma_rotate_pix(page, 0, 0);
        lemma_png_bytes_dims(sp_rotate(page));
    } else {
        lemma_png_bytes_dims(page);
    }
}


/// The diagnostic page is legible: on any page at least as wide as the
/// title, the centred "ERROR" heading leaves its first glyph's known
/// ink pixel black, and no later drawing (footer, causes) disturbs it.
pub proof fn lemma_error_page_shows_error_text(s: crate::surface::Raster, chain: Seq<Seq<char>>, ts: Seq<char>)
    requires
        s.wf(),
        s.width >= 160,
        s.height >= 12,
    ensures
        error_image(s, chain, ts).pix(center_x(s.width, 5, 4) + 4, 11) == BLACK,
{
    let w = s.width;
    let h = s.height;
    let fx = center_x(w, 15 + ts.len() as int, 2);
    let s1 = sp_fill_rect(sp_fill_rect(s, 0, h - 30, w, h, LIGHT_GREY), 0, h - 30, w, h - 29, BLACK);
    lemma_draw_text_wf(s1, fx, h - 23, "Kindling built "@, 2, BLACK);
    let s2 = sp_draw_text(s1, fx, h - 23, "Kindling built "@, 2, BLACK);
    lemma_draw_text_wf(s2, fx + 240, h - 23, ts, 2, BLACK);
    let footer = sp_draw_text(s2, fx + 240, h - 23, ts, 2, BLACK);
    let s3 = sp_fill_rect(sp_fill_rect(footer, 0, 0, w, 55, LIGHT_GREY), 0, 55, w, 56, BLACK);
    let cx = center_x(w, 5, 4);
    let px = cx + 4;
    if w > 160 {
        vstd::arithmetic::div_mod::lemma_fundamental_div_mod(w - 160, 2);
        vstd::arithmetic::div_mod::lemma_mod_bound(w - 160, 2);
        vstd::arithmetic::div_mod::lemma_div_pos_is_pos(w - 160, 2);
    }
    assert(0 <= cx && px < w);
    reveal_strlit("ERROR");
    assert("ERROR"@.len() == 5);
    assert("ERROR"@[0] == 'E');
    lemma_draw_text_first_char(s3, cx, 11, "ERROR"@, 4, BLACK, px, 11);
    assert(((0x7E40407C40407E00u64 >> 62u64) & 1u64) == 1u64) by (bit_vector);
    assert(glyph_on('E', 1, 0));
    let title = sp_draw_text(s3, cx, 11, "ERROR"@, 4, BLACK);
    assert(title.pix(px, 11) == BLACK);
    lemma_draw_text_wf(s3, cx, 11, "ERROR"@, 4, BLACK);
    lemma_draw_causes_frame_above(title, chain, 0, 90, line_cap(w), px, 11);
}


/// Every failure cause is introduced as a bulleted block at the left
/// margin: whenever there is at least one cause, the first bullet's
/// known ink pixel, two pixels into the dash, is black on the rendered
/// page.
pub proof fn lemma_error_page_shows_first_bullet(s: crate::surface::Raster, chain: Seq<Seq<char>>, ts: Seq<char>)
    requires
        s.wf(),
        s.width >= 160,
        s.height >= 97,
        chain.len() >= 1,
    ensures
        error_image(s, chain, ts).pix(22, 96) == BLACK,
{
    let w = s.width;
    let h = s.height;
    let fx = center_x(w, 15 + ts.len() as int, 2);
    let s1 = sp_fill_rect(sp_fill_rect(s, 0, h - 30, w, h, LIGHT_GREY), 0, h - 30, w, h - 29, BLACK);
    lemma_draw_text_wf(s1, fx, h - 23, "Kindling built "@, 2, BLACK);
    let s2 = sp_draw_text(s1, fx, h - 23, "Kindling built "@, 2, BLACK);
    lemma_draw_text_wf(s2, fx + 240, h - 23, ts, 2, BLACK);
    let footer = sp_draw_text(s2, fx + 240, h - 23, ts, 2, BLACK);
    let s3 = sp_fill_rect(sp_fill_rect(footer, 0, 0, w, 55, LIGHT_GREY), 0, 55, w, 56, BLACK);
    lemma_draw_text_wf(s3, center_x(w, 5, 4), 11, "ERROR"@, 4, BLACK);
    let title = sp_draw_text(s3, center_x(w, 5, 4), 11, "ERROR"@, 4, BLACK);

    let cap = line_cap(w);
    reveal_strlit("- ");
    assert("- "@.len() == 2);
    assert("- "@[0] == '-');
    lemma_draw_text_first_char(title, 20, 90, "- "@, 2, BLACK, 22, 96);
    assert(((0x0000007E00000000u64 >> 38u64) & 1u64) == 1u64) by (bit_vector);
    assert(glyph_on('-', 1, 3));
    let with_bullet = sp_draw_text(title, 20, 90, "- "@, 2, BLACK);
    assert(with_bullet.pix(22, 96) == BLACK);
    lemma_draw_text_wf(title, 20, 90, "- "@, 2, BLACK);
    let lines = crate::handler::error::wrapped_lines(chain[0], cap);
    let done = crate::handler::error::draw_lines(with_bullet, chain[0], lines, 0, 90);
    crate::handler::error::lemma_draw_lines_frame_left(with_bullet, chain[0], lines, 0, 90, 22, 96);
    crate::handler::error::lemma_draw_lines_dims(with_bullet, chain[0], lines, 0, 90);
    crate::handler::error::lemma_cause_advance_min(chain[0], cap);
    lemma_draw_causes_frame_above(
        done,
        chain,
        1,
        90 + crate::handler::error::cause_advance(chain[0], cap),
        cap,
        22,
        96,
    );
}


/// Cause lines are word-wrapped within the margins: every wrapped line
/// fits the line capacity, except a line made of one word too long to
/// fit any line, which stands alone.
pub proof fn lemma_wrapped_lines_fit(s: Seq<char>, cap: int)
    ensures
        forall|j: int| 0 <= j < crate::handler::error::wrapped_lines(s, cap).len() ==> {
            let p = #[trigger] crate::handler::error::wrapped_lines(s, cap)[j];
            p.1 - p.0 <= cap || p.1 == crate::handler::error::next_space(s, p.0)
        },
{
    lemma_wrap_fit_from(s, 0, cap);
}

proof fn lemma_wrap_fit_from(s: Seq<char>, i: int, cap: int)
    requires
        0 <= i,
    ensures
        forall|j: int| 0 <= j < crate::handler::error::wrap_from(s, i, cap).len() ==> {
            let p = #[trigger] crate::handler::error::wrap_from(s, i, cap)[j];
            p.1 - p.0 <= cap || p.1 == crate::handler::error::next_space(s, p.0)
        },
    decreases s.len() - i,
{
    if i > s.len() {
        return ;
    }
    let start = crate::handler::error::next_non_space(s, i);
    crate::handler::error::lemma_next_non_space_bounds(s, i);
    if start < s.len() {
        let first = crate::handler::error::next_space(s, start);
        assert(s[start] != ' ');
        assert(crate::handler::error::next_space(s, start) == crate::handler::error::next_space(
            s,
            start + 1,
        ));
        crate::handler::error::lemma_next_space_bounds(s, start + 1);
        let e = crate::handler::error::line_end(s, start, cap);
        crate::handler::error::lemma_extend_line_fit(s, start, first, cap);
        crate::handler::error::lemma_extend_line_bounds(s, start, first, cap);
        lemma_wrap_fit_from(s, e, cap);
        assert forall|j: int| 0 <= j < crate::handler::error::wrap_from(s, i, cap).len() implies {
            let p = #[trigger] crate::handler::error::wrap_from(s, i, cap)[j];
            p.1 - p.0 <= cap || p.1 == crate::handler::error::next_space(s, p.0)
        } by {
            if j > 0 {
                assert(crate::handler::error::wrap_from(s, i, cap)[j]
                    == crate::handler::error::wrap_from(s, e, cap)[j - 1]);
            }
        }
    }
}


/// A Kindle-target render of a landscape handler is the quarter-turn
/// rotation of what the Browser-target render of the same request
/// produces: both encode the same drawn raster, once as it stands and
/// once rotated.
pub proof fn lemma_kindle_render_is_rotated_browser_render<H: Handler>(
    h: H,
    params: ImageParams,
    data: H::Data,
    t: Raster,
)
    requires
        params.valid(),
        params.target == RenderTarget::Kindle,
        H::orientation_spec() == Orientation::Landscape,
        h.draw_spec(sp_const(params.width as int, params.height as int, WHITE), data)
            == Ok::<Raster, Seq<char>>(t),
    ensures
        render_result(h, params, data) == Ok::<Seq<u8>, Seq<char>>(png_bytes(sp_rotate(t))),
        render_result(h, ImageParams { target: RenderTarget::Browser, ..params }, data)
            == Ok::<Seq<u8>, Seq<char>>(png_bytes(t)),
{
}

} // verus!
