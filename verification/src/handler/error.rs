use vstd::prelude::*;

use crate::handler::{DrawError, Handler, Orientation};
use crate::surface::{sp_draw_text, sp_fill_rect, Raster, Surface, BLACK, LIGHT_GREY};

verus! {

/// Index of the first non-space character of `s` at or after `i`
/// (`s.len()` if there is none).
pub open spec fn next_non_space(s: Seq<char>, i: int) -> int
    decreases s.len() - i,
{
    if i < 0 || i >= s.len() {
        s.len() as int
    } else if s[i] != ' ' {
        i
    } else {
        next_non_space(s, i + 1)
    }
}

/// Index of the first space at or after `i` (`s.len()` if there is
/// none): the end of the word starting at `i`.
pub open spec fn next_space(s: Seq<char>, i: int) -> int
    decreases s.len() - i,
{
    if i < 0 || i >= s.len() {
        s.len() as int
    } else if s[i] == ' ' {
        i
    } else {
        next_space(s, i + 1)
    }
}

pub proof fn lemma_next_non_space_bounds(s: Seq<char>, i: int)
    requires
        0 <= i <= s.len(),
    ensures
        i <= next_non_space(s, i) <= s.len(),
        next_non_space(s, i) < s.len() ==> s[next_non_space(s, i)] != ' ',
    decreases s.len() - i,
{
    if i < s.len() && s[i] == ' ' {
        lemma_next_non_space_bounds(s, i + 1);
    }
}

pub proof fn lemma_next_space_bounds(s: Seq<char>, i: int)
    requires
        0 <= i <= s.len(),
    ensures
        i <= next_space(s, i) <= s.len(),
    decreases s.len() - i,
{
    if i < s.len() && s[i] != ' ' {
        lemma_next_space_bounds(s, i + 1);
    }
}

/// Greedy extension of a line: starting from the word ending at `e`,
/// keep appending the next word while the line from `start` still fits
/// in `cap` characters.
pub open spec fn extend_line(s: Seq<char>, start: int, e: int, cap: int) -> int
    decreases s.len() - e,
    via extend_line_decreases
{
    if e < 0 || e >= s.len() {
        e
    } else {
        let ns = next_non_space(s, e);
        if ns >= s.len() {
            e
        } else {
            let ne = next_space(s, ns);
            if ne - start <= cap {
                extend_line(s, start, ne, cap)
            } else {
                e
            }
        }
    }
}

#[via_fn]
proof fn extend_line_decreases(s: Seq<char>, start: int, e: int, cap: int) {
    if 0 <= e < s.len() {
        let ns = next_non_space(s, e);
        lemma_next_non_space_bounds(s, e);
        if ns < s.len() {
            lemma_next_space_bounds(s, ns);
            assert(s[ns] != ' ');
            assert(next_space(s, ns) == next_space(s, ns + 1));
            lemma_next_space_bounds(s, ns + 1);
        }
    }
}

pub proof fn lemma_extend_line_bounds(s: Seq<char>, start: int, e: int, cap: int)
    requires
        0 <= e <= s.len(),
    ensures
        e <= extend_line(s, start, e, cap) <= s.len(),
    decreases s.len() - e,
{
    if 0 <= e < s.len() {
        let ns = next_non_space(s, e);
        lemma_next_non_space_bounds(s, e);
        if ns < s.len() {
            let ne = next_space(s, ns);
            assert(s[ns] != ' ');
            assert(next_space(s, ns) == next_space(s, ns + 1));
            lemma_next_space_bounds(s, ns + 1);
            if ne - start <= cap {
                lemma_extend_line_bounds(s, start, ne, cap);
            }
        }
    }
}


/// Greedy extension never exceeds the cap except by keeping the word
/// it started from: the result is the starting word's end, or fits.
pub proof fn lemma_extend_line_fit(s: Seq<char>, start: int, e: int, cap: int)
    requires
        0 <= e <= s.len(),
    ensures
        extend_line(s, start, e, cap) == e || extend_line(s, start, e, cap) - start <= cap,
    decreases s.len() - e,
{
    if 0 <= e < s.len() {
        let ns = next_non_space(s, e);
        lemma_next_non_space_bounds(s, e);
        if ns < s.len() {
            let ne = next_space(s, ns);
            assert(s[ns] != ' ');
            assert(next_space(s, ns) == next_space(s, ns + 1));
            lemma_next_space_bounds(s, ns + 1);
            if ne - start <= cap {
                lemma_extend_line_fit(s, start, ne, cap);
            }
        }
    }
}

/// The end of the wrapped line starting at the non-space position
/// `start`: the first word always belongs to the line, further words
/// join while the line stays within `cap` characters.
pub open spec fn line_end(s: Seq<char>, start: int, cap: int) -> int {
    extend_line(s, start, next_space(s, start), cap)
}

/// The wrapped lines of `s` from position `i` on, as index ranges into
/// `s`: each line starts at a word and ends at the end of its last
/// word, never exceeding `cap` characters unless a single word does.
pub open spec fn wrap_from(s: Seq<char>, i: int, cap: int) -> Seq<(int, int)>
    decreases s.len() - i,
    via wrap_from_decreases
{
    if i < 0 {
        Seq::empty()
    } else {
        let start = next_non_space(s, i);
        if start >= s.len() {
            Seq::empty()
        } else {
            let e = line_end(s, start, cap);
            seq![(start, e)] + wrap_from(s, e, cap)
        }
    }
}

#[via_fn]
proof fn wrap_from_decreases(s: Seq<char>, i: int, cap: int) {
    if 0 <= i <= s.len() {
        let start = next_non_space(s, i);
        lemma_next_non_space_bounds(s, i);
        if start < s.len() {
            assert(s[start] != ' ');
            assert(next_space(s, start) == next_space(s, start + 1));
            lemma_next_space_bounds(s, start + 1);
            lemma_extend_line_bounds(s, start, next_space(s, start), cap);
        }
    }
}

/// The wrapped lines of the whole of `s`.
pub open spec fn wrapped_lines(s: Seq<char>, cap: int) -> Seq<(int, int)> {
    wrap_from(s, 0, cap)
}

pub proof fn lemma_wrap_from_ranges(s: Seq<char>, i: int, cap: int)
    requires
        0 <= i,
    ensures
        forall|j: int| 0 <= j < wrap_from(s, i, cap).len() ==> {
            let p = #[trigger] wrap_from(s, i, cap)[j];
            i <= p.0 < p.1 <= s.len()
        },
    decreases s.len() - i,
{
    if i > s.len() {
        return ;
    }
    let start = next_non_space(s, i);
    lemma_next_non_space_bounds(s, i);
    if start < s.len() {
        let e = line_end(s, start, cap);
        assert(s[start] != ' ');
        assert(next_space(s, start) == next_space(s, start + 1));
        lemma_next_space_bounds(s, start + 1);
        lemma_extend_line_bounds(s, start, next_space(s, start), cap);
        lemma_wrap_from_ranges(s, e, cap);
        assert forall|j: int| 0 <= j < wrap_from(s, i, cap).len() implies {
            let p = #[trigger] wrap_from(s, i, cap)[j];
            i <= p.0 < p.1 <= s.len()
        } by {
            if j > 0 {
                assert(wrap_from(s, i, cap)[j] == wrap_from(s, e, cap)[j - 1]);
            }
        }
    }
}

fn next_non_space_x(s: &str, i: usize) -> (r: usize)
    requires
        i <= s@.len(),
    ensures
        r == next_non_space(s@, i as int),
        i <= r <= s@.len(),
{
    let len: usize = s.unicode_len();
    let mut j: usize = i;
    while j < len
        invariant
            i <= j <= len,
            len == s@.len(),
            next_non_space(s@, i as int) == next_non_space(s@, j as int),
        decreases len - j,
    {
        if s.get_char(j) != ' ' {
            return j;
        }
        j = j + 1;
    }
    j
}

fn next_space_x(s: &str, i: usize) -> (r: usize)
    requires
        i <= s@.len(),
    ensures
        r == next_space(s@, i as int),
        i <= r <= s@.len(),
{
    let len: usize = s.unicode_len();
    let mut j: usize = i;
    while j < len
        invariant
            i <= j <= len,
            len == s@.len(),
            next_space(s@, i as int) == next_space(s@, j as int),
        decreases len - j,
    {
        if s.get_char(j) == ' ' {
            return j;
        }
        j = j + 1;
    }
    j
}

/// Compute the wrapped lines of `s` for a content width of `cap`
/// characters, as index ranges into `s`.
pub fn wrap_text(s: &str, cap: usize) -> (r: Vec<(usize, usize)>)
    ensures
        r@.len() == wrapped_lines(s@, cap as int).len(),
        forall|j: int| 0 <= j < r@.len() ==> {
            let p = #[trigger] r@[j];
            let q = wrapped_lines(s@, cap as int)[j];
            p.0 == q.0 && p.1 == q.1 && 0 <= p.0 < p.1 <= s@.len()
        },
{
    let len: usize = s.unicode_len();
    let mut out: Vec<(usize, usize)> = Vec::new();
    let mut i: usize = 0;
    let ghost target: Seq<(int, int)> = wrapped_lines(s@, cap as int);
    proof {
        lemma_wrap_from_ranges(s@, 0, cap as int);
    }
    loop
        invariant_except_break
            i <= len,
            len == s@.len(),
            out@.len() + wrap_from(s@, i as int, cap as int).len() == target.len(),
            forall|j: int| 0 <= j < out@.len() ==> {
                let p = #[trigger] out@[j];
                let q = target[j];
                p.0 == q.0 && p.1 == q.1 && 0 <= p.0 < p.1 <= s@.len()
            },
            forall|j: int| 0 <= j < wrap_from(s@, i as int, cap as int).len()
                ==> #[trigger] wrap_from(s@, i as int, cap as int)[j] == target[out@.len() + j],
        ensures
            out@.len() == target.len(),
            forall|j: int| 0 <= j < out@.len() ==> {
                let p = #[trigger] out@[j];
                let q = target[j];
                p.0 == q.0 && p.1 == q.1 && 0 <= p.0 < p.1 <= s@.len()
            },
        decreases len - i,
    {
        let start: usize = next_non_space_x(s, i);
        if start >= len {
            proof {
                assert(wrap_from(s@, i as int, cap as int) =~= Seq::<(int, int)>::empty());
            }
            break;
        }
        let first_end: usize = next_space_x(s, start);
        proof {
            lemma_next_non_space_bounds(s@, i as int);
            assert(s@[start as int] != ' ');
            assert(next_space(s@, start as int) == next_space(s@, start as int + 1));
            lemma_next_space_bounds(s@, start as int + 1);
        }
        let mut e: usize = first_end;
        loop
            invariant_except_break
                start < e <= len,
                len == s@.len(),
                extend_line(s@, start as int, first_end as int, cap as int) == extend_line(
                    s@,
                    start as int,
                    e as int,
                    cap as int,
                ),
            ensures
                start < e <= len,
                e as int == extend_line(s@, start as int, first_end as int, cap as int),
            decreases len - e,
        {
            if e >= len {
                break;
            }
            let ns: usize = next_non_space_x(s, e);
            if ns >= len {
                break;
            }
            let ne: usize = next_space_x(s, ns);
            proof {
                lemma_next_non_space_bounds(s@, e as int);
                assert(s@[ns as int] != ' ');
                assert(next_space(s@, ns as int) == next_space(s@, ns as int + 1));
                lemma_next_space_bounds(s@, ns as int + 1);
            }
            if ne - start <= cap {
                e = ne;
            } else {
                break;
            }
        }
        out.push((start, e));
        proof {
            lemma_wrap_from_ranges(s@, i as int, cap as int);
            assert(wrap_from(s@, i as int, cap as int) == seq![(start as int, e as int)]
                + wrap_from(s@, e as int, cap as int));
            assert(wrap_from(s@, i as int, cap as int)[0] == (start as int, e as int));
            assert forall|j: int| 0 <= j < wrap_from(s@, e as int, cap as int).len()
                implies #[trigger] wrap_from(s@, e as int, cap as int)[j] == target[out@.len()
                + j] by {
                assert(wrap_from(s@, e as int, cap as int)[j] == wrap_from(
                    s@,
                    i as int,
                    cap as int,
                )[j + 1]);
            }
        }
        i = e;
    }
    out
}


/// The cause texts of `chain`, as character sequences.
pub open spec fn causes_view(chain: Seq<String>) -> Seq<Seq<char>> {
    Seq::new(chain.len(), |i: int| chain[i]@)
}

/// Content characters that fit on one wrapped cause line: the page
/// width minus the 20px outer margins and the 32px bullet indent, at
/// 16px per character.
pub open spec fn line_cap(w: int) -> int {
    if w <= 72 {
        0
    } else {
        (w - 72) / 16
    }
}

/// Left edge of a centred run of `n` characters drawn at `scale`; text
/// wider than the page is drawn from the left edge and clipped.
pub open spec fn center_x(w: int, n: int, scale: int) -> int {
    if 8 * scale * n >= w {
        0
    } else {
        (w - 8 * scale * n) / 2
    }
}

fn center_x2(w: i32, a: usize, b: usize, scale: i32) -> (r: i32)
    requires
        0 < w <= crate::MAX_DIM,
        1 <= scale <= 100,
        a <= 10000,
    ensures
        r as int == center_x(w as int, a + b, scale as int),
        0 <= r < w,
{
    if b > 10000 {
        proof {
            vstd::arithmetic::mul::lemma_mul_inequality(
                8,
                8 * (scale as int),
                a as int + b as int,
            );
        }
        0
    } else {
        let n: usize = a + b;
        if n > 10000 {
            proof {
                vstd::arithmetic::mul::lemma_mul_inequality(
                    8,
                    8 * (scale as int),
                    a as int + b as int,
                );
            }
            0
        } else {
            proof {
                vstd::arithmetic::mul::lemma_mul_inequality(8 * (scale as int), 800, n as int);
                vstd::arithmetic::mul::lemma_mul_nonnegative(8 * (scale as int), n as int);
            }
            let tw: i64 = 8 * (scale as i64) * (n as i64);
            if tw >= w as i64 {
                0
            } else {
                ((w as i64 - tw) / 2) as i32
            }
        }
    }
}

/// The wrapped cause lines from `li` on, drawn down the page from `y`
/// in 20px steps; drawing stops once the cursor passes the bottom edge.
pub open spec fn draw_lines(s: Raster, cause: Seq<char>, lines: Seq<(int, int)>, li: int, y: int) -> Raster
    decreases lines.len() - li,
{
    if li < 0 || li >= lines.len() || y >= s.height {
        s
    } else {
        draw_lines(
            sp_draw_text(s, 52, y, cause.subrange(lines[li].0, lines[li].1), 2, BLACK),
            cause,
            lines,
            li + 1,
            y + 20,
        )
    }
}

/// Vertical space a rendered cause takes: one 20px line at least, one
/// per wrapped line otherwise.
pub open spec fn cause_advance(cause: Seq<char>, cap: int) -> int {
    let n = wrapped_lines(cause, cap).len() as int;
    if n == 0 {
        20
    } else {
        20 * n
    }
}

/// The causes from `ci` on, each as a bulleted, word-wrapped block,
/// drawn down the page from `y`; drawing stops once the cursor passes
/// the bottom edge.
pub open spec fn draw_causes(s: Raster, chain: Seq<Seq<char>>, ci: int, y: int, cap: int) -> Raster
    decreases chain.len() - ci,
{
    if ci < 0 || ci >= chain.len() || y >= s.height {
        s
    } else {
        let with_bullet = sp_draw_text(s, 20, y, "- "@, 2, BLACK);
        let done = draw_lines(with_bullet, chain[ci], wrapped_lines(chain[ci], cap), 0, y);
        draw_causes(done, chain, ci + 1, y + cause_advance(chain[ci], cap), cap)
    }
}

/// The diagnostic page drawn over `s`: a light-grey title bar with
/// "ERROR" centred, a light-grey footer naming the build, and the cause
/// chain as bulleted lines word-wrapped within 20px margins.
pub open spec fn error_image(s: Raster, chain: Seq<Seq<char>>, ts: Seq<char>) -> Raster {
    let w = s.width;
    let h = s.height;
    let fx = center_x(w, 15 + ts.len() as int, 2);
    let footer = sp_draw_text(
        sp_draw_text(
            sp_fill_rect(sp_fill_rect(s, 0, h - 30, w, h, LIGHT_GREY), 0, h - 30, w, h - 29, BLACK),
            fx,
            h - 23,
            "Kindling built "@,
            2,
            BLACK,
        ),
        fx + 240,
        h - 23,
        ts,
        2,
        BLACK,
    );
    let title = sp_draw_text(
        sp_fill_rect(sp_fill_rect(footer, 0, 0, w, 55, LIGHT_GREY), 0, 55, w, 56, BLACK),
        center_x(w, 5, 4),
        11,
        "ERROR"@,
        4,
        BLACK,
    );
    draw_causes(title, chain, 0, 90, line_cap(w))
}


pub proof fn lemma_draw_lines_dims(s: Raster, cause: Seq<char>, lines: Seq<(int, int)>, li: int, y: int)
    requires
        s.wf(),
    ensures
        draw_lines(s, cause, lines, li, y).wf(),
        draw_lines(s, cause, lines, li, y).width == s.width,
        draw_lines(s, cause, lines, li, y).height == s.height,
    decreases lines.len() - li,
{
    if !(li < 0 || li >= lines.len() || y >= s.height) {
        let mid = sp_draw_text(s, 52, y, cause.subrange(lines[li].0, lines[li].1), 2, BLACK);
        crate::surface::lemma_draw_text_wf(
            s,
            52,
            y,
            cause.subrange(lines[li].0, lines[li].1),
            2,
            BLACK,
        );
        lemma_draw_lines_dims(mid, cause, lines, li + 1, y + 20);
    }
}

pub proof fn lemma_draw_causes_dims(s: Raster, chain: Seq<Seq<char>>, ci: int, y: int, cap: int)
    requires
        s.wf(),
    ensures
        draw_causes(s, chain, ci, y, cap).wf(),
        draw_causes(s, chain, ci, y, cap).width == s.width,
        draw_causes(s, chain, ci, y, cap).height == s.height,
    decreases chain.len() - ci,
{
    if !(ci < 0 || ci >= chain.len() || y >= s.height) {
        let with_bullet = sp_draw_text(s, 20, y, "- "@, 2, BLACK);
        crate::surface::lemma_draw_text_wf(s, 20, y, "- "@, 2, BLACK);
        let done = draw_lines(with_bullet, chain[ci], wrapped_lines(chain[ci], cap), 0, y);
        lemma_draw_lines_dims(with_bullet, chain[ci], wrapped_lines(chain[ci], cap), 0, y);
        lemma_draw_causes_dims(done, chain, ci + 1, y + cause_advance(chain[ci], cap), cap);
    }
}

/// The diagnostic page keeps the dimensions of the page it is drawn on.
pub proof fn lemma_error_image_dims(s: Raster, chain: Seq<Seq<char>>, ts: Seq<char>)
    requires
        s.wf(),
    ensures
        error_image(s, chain, ts).wf(),
        error_image(s, chain, ts).width == s.width,
        error_image(s, chain, ts).height == s.height,
{
    let w = s.width;
    let h = s.height;
    let fx = center_x(w, 15 + ts.len() as int, 2);
    let s1 = sp_fill_rect(sp_fill_rect(s, 0, h - 30, w, h, LIGHT_GREY), 0, h - 30, w, h - 29, BLACK);
    crate::surface::lemma_draw_text_wf(s1, fx, h - 23, "Kindling built "@, 2, BLACK);
    let s2 = sp_draw_text(s1, fx, h - 23, "Kindling built "@, 2, BLACK);
    crate::surface::lemma_draw_text_wf(s2, fx + 240, h - 23, ts, 2, BLACK);
    let footer = sp_draw_text(s2, fx + 240, h - 23, ts, 2, BLACK);
    let s3 = sp_fill_rect(sp_fill_rect(footer, 0, 0, w, 55, LIGHT_GREY), 0, 55, w, 56, BLACK);
    crate::surface::lemma_draw_text_wf(s3, center_x(w, 5, 4), 11, "ERROR"@, 4, BLACK);
    let title = sp_draw_text(s3, center_x(w, 5, 4), 11, "ERROR"@, 4, BLACK);
    lemma_draw_causes_dims(title, chain, 0, 90, line_cap(w));
}


/// Rendering a cause never changes pixels above its starting line.
pub proof fn lemma_draw_lines_frame_above(s: Raster, cause: Seq<char>, lines: Seq<(int, int)>, li: int, y: int, px: int, py: int)
    requires
        s.wf(),
        s.in_bounds(px, py),
        py < y,
    ensures
        draw_lines(s, cause, lines, li, y).pix(px, py) == s.pix(px, py),
    decreases lines.len() - li,
{
    if !(li < 0 || li >= lines.len() || y >= s.height) {
        let mid = sp_draw_text(s, 52, y, cause.subrange(lines[li].0, lines[li].1), 2, BLACK);
        crate::surface::lemma_draw_text_frame_above(
            s,
            52,
            y,
            cause.subrange(lines[li].0, lines[li].1),
            2,
            BLACK,
            px,
            py,
        );
        crate::surface::lemma_draw_text_wf(
            s,
            52,
            y,
            cause.subrange(lines[li].0, lines[li].1),
            2,
            BLACK,
        );
        lemma_draw_lines_frame_above(mid, cause, lines, li + 1, y + 20, px, py);
    }
}

/// Every cause block needs at least one 20px line of vertical space.
pub proof fn lemma_cause_advance_min(cause: Seq<char>, cap: int)
    ensures
        cause_advance(cause, cap) >= 20,
{
}

/// Rendering the cause list never changes pixels above its starting
/// line.
pub proof fn lemma_draw_causes_frame_above(s: Raster, chain: Seq<Seq<char>>, ci: int, y: int, cap: int, px: int, py: int)
    requires
        s.wf(),
        s.in_bounds(px, py),
        py < y,
    ensures
        draw_causes(s, chain, ci, y, cap).pix(px, py) == s.pix(px, py),
    decreases chain.len() - ci,
{
    if !(ci < 0 || ci >= chain.len() || y >= s.height) {
        let with_bullet = sp_draw_text(s, 20, y, "- "@, 2, BLACK);
        crate::surface::lemma_draw_text_frame_above(s, 20, y, "- "@, 2, BLACK, px, py);
        crate::surface::lemma_draw_text_wf(s, 20, y, "- "@, 2, BLACK);
        let lines = wrapped_lines(chain[ci], cap);
        let done = draw_lines(with_bullet, chain[ci], lines, 0, y);
        lemma_draw_lines_frame_above(with_bullet, chain[ci], lines, 0, y, px, py);
        lemma_draw_lines_dims(with_bullet, chain[ci], lines, 0, y);
        lemma_cause_advance_min(chain[ci], cap);
        lemma_draw_causes_frame_above(
            done,
            chain,
            ci + 1,
            y + cause_advance(chain[ci], cap),
            cap,
            px,
            py,
        );
    }
}


/// Rendering the wrapped cause lines never changes pixels left of the
/// content indent.
pub proof fn lemma_draw_lines_frame_left(s: Raster, cause: Seq<char>, lines: Seq<(int, int)>, li: int, y: int, px: int, py: int)
    requires
        s.wf(),
        s.in_bounds(px, py),
        px < 52,
    ensures
        draw_lines(s, cause, lines, li, y).pix(px, py) == s.pix(px, py),
    decreases lines.len() - li,
{
    if !(li < 0 || li >= lines.len() || y >= s.height) {
        let mid = sp_draw_text(s, 52, y, cause.subrange(lines[li].0, lines[li].1), 2, BLACK);
        crate::surface::lemma_draw_text_frame_left(
            s,
            52,
            y,
            cause.subrange(lines[li].0, lines[li].1),
            2,
            BLACK,
            px,
            py,
        );
        crate::surface::lemma_draw_text_wf(
            s,
            52,
            y,
            cause.subrange(lines[li].0, lines[li].1),
            2,
            BLACK,
        );
        lemma_draw_lines_frame_left(mid, cause, lines, li + 1, y + 20, px, py);
    }
}

/// Render the diagnostic page for the cause chain `chain` into
/// `surface`, stamping `ts` as the build timestamp. Total: the error
/// path can always produce a page.
pub fn draw_error_page(surface: &mut Surface, chain: &Vec<String>, ts: &str)
    requires
        old(surface)@.wf(),
    ensures
        final(surface)@ == error_image(old(surface)@, causes_view(chain@), ts@),
        final(surface)@.wf(),
{
    let w: i32 = surface.width();
    let h: i32 = surface.height();
    surface.fill_rect(0, h - 30, w, h, LIGHT_GREY);
    surface.fill_rect(0, h - 30, w, h - 29, BLACK);
    let tslen: usize = ts.unicode_len();
    let fx: i32 = center_x2(w, 15, tslen, 2);
    surface.draw_text(fx, h - 23, "Kindling built ", 2, BLACK);
    surface.draw_text(fx + 240, h - 23, ts, 2, BLACK);
    surface.fill_rect(0, 0, w, 55, LIGHT_GREY);
    surface.fill_rect(0, 55, w, 56, BLACK);
    let tx: i32 = center_x2(w, 5, 0, 4);
    surface.draw_text(tx, 11, "ERROR", 4, BLACK);

    let ghost base: Raster = surface@;
    let cap: usize = if w <= 72 {
        0
    } else {
        ((w - 72) / 16) as usize
    };
    let mut y: i64 = 90;
    let ghost mut y_spec: int = 90;
    let mut ci: usize = 0;
    loop
        invariant_except_break
            surface@.wf(),
            base.wf(),
            surface@.width == base.width,
            surface@.height == base.height,
            w == base.width,
            h == base.height,
            cap as int == line_cap(base.width),
            ci <= chain@.len(),
            90 <= y_spec,
            90 <= y <= 3000000,
            y_spec < base.height ==> y as int == y_spec,
            y_spec >= base.height ==> y >= base.height,
            draw_causes(base, causes_view(chain@), 0, 90, cap as int) == draw_causes(
                surface@,
                causes_view(chain@),
                ci as int,
                y_spec,
                cap as int,
            ),
        ensures
            surface@.wf(),
            surface@.width == base.width,
            surface@.height == base.height,
            surface@ == draw_causes(base, causes_view(chain@), 0, 90, cap as int),
        decreases chain@.len() - ci,
    {
        if ci >= chain.len() {
            break;
        }
        if y >= h as i64 {
            proof {
                assert(y_spec >= base.height);
            }
            break;
        }
        let cause: &String = &chain[ci];
        let ghost cv: Seq<char> = cause@;
        proof {
            assert(causes_view(chain@)[ci as int] == cv);
        }
        surface.draw_text(20, y as i32, "- ", 2, BLACK);
        let ghost with_bullet: Raster = surface@;
        let lines: Vec<(usize, usize)> = wrap_text(cause.as_str(), cap);
        let ghost lines_spec: Seq<(int, int)> = wrapped_lines(cv, cap as int);
        proof {
            assert forall|j: int| 0 <= j < lines_spec.len() implies (#[trigger] lines_spec[j])
                == (lines@[j].0 as int, lines@[j].1 as int) by {
                assert(lines@[j].0 == lines_spec[j].0 && lines@[j].1 == lines_spec[j].1);
            }
        }
        let mut li: usize = 0;
        let mut yl: i64 = y;
        while li < lines.len() && yl < h as i64
            invariant_except_break
                surface@.wf(),
                surface@.width == base.width,
                surface@.height == base.height,
                w == base.width,
                h == base.height,
                with_bullet.wf(),
                with_bullet.width == base.width,
                with_bullet.height == base.height,
                li <= lines@.len(),
                lines@.len() == lines_spec.len(),
                forall|j: int| 0 <= j < lines_spec.len() ==> (#[trigger] lines_spec[j])
                    == (lines@[j].0 as int, lines@[j].1 as int),
                forall|j: int| 0 <= j < lines@.len() ==> {
                    let p = #[trigger] lines@[j];
                    0 <= p.0 < p.1 <= cv.len()
                },
                cause@ == cv,
                yl == y + 20 * li,
                90 <= y < h,
                draw_lines(with_bullet, cv, lines_spec, 0, y as int) == draw_lines(
                    surface@,
                    cv,
                    lines_spec,
                    li as int,
                    yl as int,
                ),
            ensures
                surface@.wf(),
                surface@.width == base.width,
                surface@.height == base.height,
                surface@ == draw_lines(with_bullet, cv, lines_spec, 0, y as int),
            decreases lines@.len() - li,
        {
            let a: usize = lines[li].0;
            let b: usize = lines[li].1;
            let piece: &str = cause.as_str().substring_char(a, b);
            surface.draw_text(52, yl as i32, piece, 2, BLACK);
            proof {
                assert(piece@ == cv.subrange(lines_spec[li as int].0, lines_spec[li as int].1));
            }
            li = li + 1;
            yl = yl + 20;
        }
        let k: usize = lines.len();
        let adv: i64 = if k == 0 {
            20
        } else if k > 100000 {
            2000000
        } else {
            20 * (k as i64)
        };
        proof {
            y_spec = y_spec + cause_advance(cv, cap as int);
        }
        y = y + adv;
        ci = ci + 1;
    }
    proof {
        assert(final(surface)@ == surface@);
    }
}

/// A handler that renders a diagnostic page for a failed request. Used
/// whenever another handler's loading or drawing phase fails, so that
/// the device still receives a legible image.
pub struct ErrorHandler {
    /// The failure's cause strings, outermost first.
    pub chain: Vec<String>,
    /// The build timestamp stamped into the footer.
    pub build_timestamp: String,
}

impl Handler for ErrorHandler {
    type Data = ();

    open spec fn draw_spec(&self, s: Raster, data: ()) -> Result<Raster, Seq<char>> {
        Ok(error_image(s, causes_view(self.chain@), self.build_timestamp@))
    }

    open spec fn orientation_spec() -> Orientation {
        Orientation::Landscape
    }

    fn draw(&self, surface: &mut Surface, data: ()) -> (r: Result<(), DrawError>) {
        let ghost orig: Raster = surface@;
        draw_error_page(surface, &self.chain, self.build_timestamp.as_str());
        proof {
            lemma_error_image_dims(orig, causes_view(self.chain@), self.build_timestamp@);
        }
        Ok(())
    }

    fn orientation() -> (r: Orientation) {
        Orientation::Landscape
    }

    proof fn draw_spec_preserves_dims(&self, s: Raster, data: ()) {
        lemma_error_image_dims(s, causes_view(self.chain@), self.build_timestamp@);
    }
}

} // verus!
