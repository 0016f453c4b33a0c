use vstd::prelude::*;
use vstd::arithmetic::mul::{
    lemma_mul_basics, lemma_mul_inequality, lemma_mul_is_commutative,
    lemma_mul_is_distributive_add, lemma_mul_nonnegative,
};
use vstd::arithmetic::div_mod::{lemma_div_denominator, lemma_fundamental_div_mod};
use vstd::slice::slice_subrange;

use crate::surface::{lemma_div_bound, lemma_grid, Raster, Surface};

verus! {

/// The four bytes of `n` in big-endian order, most significant first.
pub open spec fn be32(n: int) -> Seq<u8> {
    seq![
        (((n / 0x1000000) % 256) as u8),
        (((n / 0x10000) % 256) as u8),
        (((n / 0x100) % 256) as u8),
        ((n % 256) as u8),
    ]
}

fn push_be32(out: &mut Vec<u8>, n: u32)
    ensures
        final(out)@ == old(out)@ + be32(n as int),
{
    out.push(((n / 0x1000000) % 256) as u8);
    out.push(((n / 0x10000) % 256) as u8);
    out.push(((n / 0x100) % 256) as u8);
    out.push((n % 256) as u8);
    proof {
        assert(out@ =~= old(out)@ + be32(n as int));
    }
}

/// One step of the reflected CRC-32 bit loop (polynomial 0xEDB88320).
pub open spec fn crc_round(c: u32) -> u32 {
    if c & 1 == 1 {
        (c >> 1u32) ^ 0xEDB88320
    } else {
        c >> 1u32
    }
}

pub open spec fn crc_rounds(c: u32, n: nat) -> u32
    decreases n,
{
    if n == 0 {
        c
    } else {
        crc_rounds(crc_round(c), (n - 1) as nat)
    }
}

proof fn lemma_crc_rounds_snoc(c: u32, n: nat)
    ensures
        crc_rounds(c, n + 1) == crc_round(crc_rounds(c, n)),
    decreases n,
{
    if n == 0 {
        assert(crc_rounds(c, 1) == crc_rounds(crc_round(c), 0));
    } else {
        lemma_crc_rounds_snoc(crc_round(c), (n - 1) as nat);
        assert(crc_rounds(c, n + 1) == crc_rounds(crc_round(c), n));
        assert(crc_rounds(c, n) == crc_rounds(crc_round(c), (n - 1) as nat));
    }
}

pub open spec fn crc_byte(c: u32, b: u8) -> u32 {
    crc_rounds(c ^ (b as u32), 8)
}

pub open spec fn crc_from(data: Seq<u8>, i: int, c: u32) -> u32
    decreases data.len() - i,
{
    if i < 0 || i >= data.len() {
        c
    } else {
        crc_from(data, i + 1, crc_byte(c, data[i]))
    }
}

/// The CRC-32 checksum (as used by PNG chunks) of `data`.
pub open spec fn crc32_of(data: Seq<u8>) -> u32 {
    crc_from(data, 0, 0xFFFFFFFFu32) ^ 0xFFFFFFFFu32
}

fn crc32(data: &Vec<u8>) -> (r: u32)
    ensures
        r == crc32_of(data@),
{
    let mut c: u32 = 0xFFFFFFFF;
    let mut i: usize = 0;
    while i < data.len()
        invariant
            i <= data@.len(),
            crc_from(data@, 0, 0xFFFFFFFFu32) == crc_from(data@, i as int, c),
        decreases data@.len() - i,
    {
        let b: u8 = data[i];
        let mut c2: u32 = c ^ (b as u32);
        let mut k: usize = 0;
        while k < 8
            invariant
                k <= 8,
                c2 == crc_rounds(c ^ (b as u32), k as nat),
            decreases 8 - k,
        {
            proof {
                lemma_crc_rounds_snoc(c ^ (b as u32), k as nat);
            }
            c2 = if c2 & 1 == 1 {
                (c2 >> 1u32) ^ 0xEDB88320
            } else {
                c2 >> 1u32
            };
            k = k + 1;
        }
        c = c2;
        i = i + 1;
    }
    c ^ 0xFFFFFFFF
}

/// The running Adler-32 state after folding in `data` from index `i` on.
pub open spec fn adler_from(data: Seq<u8>, i: int, s1: int, s2: int) -> (int, int)
    decreases data.len() - i,
{
    if i < 0 || i >= data.len() {
        (s1, s2)
    } else {
        adler_from(data, i + 1, (s1 + data[i]) % 65521, (s2 + (s1 + data[i]) % 65521) % 65521)
    }
}

/// The Adler-32 checksum (as used by the zlib wrapper) of `data`.
pub open spec fn adler32_of(data: Seq<u8>) -> int {
    adler_from(data, 0, 1, 0).1 * 0x10000 + adler_from(data, 0, 1, 0).0
}

fn adler32(data: &Vec<u8>) -> (r: u32)
    ensures
        r as int == adler32_of(data@),
{
    let mut s1: u32 = 1;
    let mut s2: u32 = 0;
    let mut i: usize = 0;
    while i < data.len()
        invariant
            i <= data@.len(),
            s1 < 65521,
            s2 < 65521,
            adler_from(data@, 0, 1, 0) == adler_from(data@, i as int, s1 as int, s2 as int),
        decreases data@.len() - i,
    {
        let b: u8 = data[i];
        s1 = (s1 + b as u32) % 65521;
        s2 = (s2 + s1) % 65521;
        i = i + 1;
    }
    s2 * 0x10000 + s1
}

/// The five-byte header of a stored deflate block: final-block flag,
/// the length in little-endian order, and its ones' complement.
pub open spec fn block_header(fin: bool, len: int) -> Seq<u8> {
    seq![
        (if fin { 1u8 } else { 0u8 }),
        ((len % 256) as u8),
        (((len / 256) % 256) as u8),
        ((255 - len % 256) as u8),
        ((255 - (len / 256) % 256) as u8),
    ]
}

/// `data` framed as uncompressed ("stored") deflate blocks of at most
/// 65535 bytes each.
pub open spec fn stored_blocks(data: Seq<u8>) -> Seq<u8>
    decreases data.len(),
{
    if data.len() <= 65535 {
        block_header(true, data.len() as int) + data
    } else {
        block_header(false, 65535) + data.take(65535) + stored_blocks(data.skip(65535))
    }
}

proof fn lemma_stored_blocks_len(data: Seq<u8>)
    ensures
        stored_blocks(data).len() <= 2 * data.len() + 5,
    decreases data.len(),
{
    if data.len() > 65535 {
        lemma_stored_blocks_len(data.skip(65535));
    }
}

fn push_stored_blocks(out: &mut Vec<u8>, data: &Vec<u8>, pos: usize)
    requires
        pos <= data@.len(),
    ensures
        final(out)@ == old(out)@ + stored_blocks(data@.skip(pos as int)),
    decreases data@.len() - pos,
{
    let rem: usize = data.len() - pos;
    if rem <= 65535 {
        out.push(1u8);
        out.push((rem % 256) as u8);
        out.push(((rem / 256) % 256) as u8);
        out.push((255 - (rem % 256) as u8));
        out.push((255 - ((rem / 256) % 256) as u8));
        let sl: &[u8] = slice_subrange(data.as_slice(), pos, pos + rem);
        out.extend_from_slice(sl);
        proof {
            assert(data@.skip(pos as int) =~= data@.subrange(pos as int, pos as int + rem));
            assert(out@ =~= old(out)@ + stored_blocks(data@.skip(pos as int)));
        }
    } else {
        out.push(0u8);
        out.push(255u8);
        out.push(255u8);
        out.push(0u8);
        out.push(0u8);
        let sl: &[u8] = slice_subrange(data.as_slice(), pos, pos + 65535);
        out.extend_from_slice(sl);
        push_stored_blocks(out, data, pos + 65535);
        proof {
            let rest = data@.skip(pos as int);
            assert(rest.take(65535) =~= data@.subrange(pos as int, pos as int + 65535));
            assert(rest.skip(65535) =~= data@.skip(pos as int + 65535));
            assert(out@ =~= old(out)@ + stored_blocks(rest));
        }
    }
}

/// `data` wrapped in a zlib stream: header, stored blocks, Adler-32.
pub open spec fn zlib_stream(data: Seq<u8>) -> Seq<u8> {
    seq![0x78u8, 0x01u8] + stored_blocks(data) + be32(adler32_of(data))
}

fn zlib_encode(data: &Vec<u8>) -> (r: Vec<u8>)
    ensures
        r@ == zlib_stream(data@),
{
    let mut out: Vec<u8> = Vec::new();
    out.push(0x78u8);
    out.push(0x01u8);
    push_stored_blocks(&mut out, data, 0);
    let a: u32 = adler32(data);
    push_be32(&mut out, a);
    proof {
        assert(data@.skip(0) =~= data@);
        assert(out@ =~= zlib_stream(data@));
    }
    out
}

/// A PNG chunk: data length, type, data, and the CRC-32 of type and data.
pub open spec fn chunk_bytes(ctype: Seq<u8>, data: Seq<u8>) -> Seq<u8> {
    be32(data.len() as int) + ctype + data + be32(crc32_of(ctype + data) as int)
}

fn push_chunk(out: &mut Vec<u8>, ctype: &Vec<u8>, data: &Vec<u8>)
    requires
        ctype@.len() == 4,
        data@.len() <= 0xFFFFFFFF,
    ensures
        final(out)@ == old(out)@ + chunk_bytes(ctype@, data@),
{
    push_be32(out, data.len() as u32);
    let mut td: Vec<u8> = Vec::new();
    td.extend_from_slice(ctype.as_slice());
    td.extend_from_slice(data.as_slice());
    let crc: u32 = crc32(&td);
    out.extend_from_slice(td.as_slice());
    push_be32(out, crc);
    proof {
        assert(td@ =~= ctype@ + data@);
        assert(out@ =~= old(out)@ + chunk_bytes(ctype@, data@));
    }
}

/// One PNG scanline of `s`: the filter byte 0 followed by row `y`.
pub open spec fn raw_row(s: Raster, y: int) -> Seq<u8> {
    seq![0u8] + s.pixels.subrange(y * s.width, y * s.width + s.width)
}

/// The concatenated scanlines of rows 0 to `y` (exclusive).
pub open spec fn raw_upto(s: Raster, y: int) -> Seq<u8>
    decreases y,
{
    if y <= 0 {
        Seq::empty()
    } else {
        raw_upto(s, y - 1) + raw_row(s, y - 1)
    }
}

/// The full filtered image stream fed to the deflate framing.
pub open spec fn raw_data(s: Raster) -> Seq<u8> {
    raw_upto(s, s.height)
}

proof fn lemma_raw_upto_len(s: Raster, y: int)
    requires
        s.wf(),
        0 <= y <= s.height,
    ensures
        raw_upto(s, y).len() == y * (s.width + 1),
    decreases y,
{
    if y <= 0 {
        lemma_mul_basics(s.width + 1);
        assert(y * (s.width + 1) == 0);
    } else {
        lemma_raw_upto_len(s, y - 1);
        lemma_mul_nonnegative(y - 1, s.width);
        lemma_mul_inequality(y, s.height, s.width);
        lemma_mul_is_distributive_add(s.width, y - 1, 1);
        lemma_mul_is_commutative(s.width, y - 1);
        lemma_mul_is_commutative(s.width, y);
        assert((y - 1) * s.width + s.width == y * s.width);
        assert(y * s.width <= s.height * s.width) by {
            lemma_mul_is_commutative(s.height, s.width);
        }
        assert(raw_row(s, y - 1).len() == s.width + 1);
        lemma_mul_is_distributive_add(s.width + 1, y - 1, 1);
        lemma_mul_is_commutative(s.width + 1, y - 1);
        lemma_mul_is_commutative(s.width + 1, y);
        assert((y - 1) * (s.width + 1) + (s.width + 1) == y * (s.width + 1));
    }
}

fn raw_scanlines(src: &Surface) -> (r: Vec<u8>)
    requires
        src@.wf(),
    ensures
        r@ == raw_data(src@),
        r@.len() == src@.height * (src@.width + 1),
{
    let w: i32 = src.width();
    let h: i32 = src.height();
    let mut out: Vec<u8> = Vec::new();
    let mut y: i32 = 0;
    while y < h
        invariant
            src@.wf(),
            w == src@.width,
            h == src@.height,
            0 <= y <= h,
            out@ == raw_upto(src@, y as int),
        decreases h - y,
    {
        out.push(0u8);
        proof {
            let a = (y as int) * src@.width;
            lemma_mul_nonnegative(y as int, src@.width);
            lemma_mul_inequality(y as int, src@.height, src@.width);
            assert(0 <= a <= src@.pixels.len());
            assert(src@.pixels.subrange(a, a + 0) =~= Seq::<u8>::empty());
            assert(out@ =~= raw_upto(src@, y as int) + seq![0u8] + src@.pixels.subrange(a, a));
        }
        let mut x: i32 = 0;
        while x < w
            invariant
                src@.wf(),
                w == src@.width,
                h == src@.height,
                0 <= y < h,
                0 <= x <= w,
                out@ == raw_upto(src@, y as int) + seq![0u8] + src@.pixels.subrange(
                    (y as int) * src@.width,
                    (y as int) * src@.width + x as int,
                ),
            decreases w - x,
        {
            let p: u8 = src.pixel(x, y);
            out.push(p);
            proof {
                let a = (y as int) * src@.width;
                lemma_mul_nonnegative(y as int, src@.width);
                lemma_grid(src@.width, src@.height, x as int, y as int);
                assert(0 <= a && a + x as int + 1 <= src@.pixels.len());
                assert(src@.pixels.subrange(a, a + x as int) + seq![src@.pixels[a + x as int]]
                    =~= src@.pixels.subrange(a, a + x as int + 1));
                assert(out@ =~= raw_upto(src@, y as int) + seq![0u8] + src@.pixels.subrange(
                    a,
                    a + x as int + 1,
                ));
            }
            x = x + 1;
        }
        proof {
            assert(out@ =~= raw_upto(src@, y as int + 1));
        }
        y = y + 1;
    }
    proof {
        lemma_raw_upto_len(src@, h as int);
    }
    out
}

/// The fixed eight-byte PNG file signature.
pub open spec fn png_signature() -> Seq<u8> {
    seq![137u8, 80u8, 78u8, 71u8, 13u8, 10u8, 26u8, 10u8]
}

pub open spec fn ihdr_type() -> Seq<u8> {
    seq![73u8, 72u8, 68u8, 82u8]
}

pub open spec fn idat_type() -> Seq<u8> {
    seq![73u8, 68u8, 65u8, 84u8]
}

pub open spec fn iend_type() -> Seq<u8> {
    seq![73u8, 69u8, 78u8, 68u8]
}

/// The 13 data bytes of the header chunk: dimensions, 8-bit depth,
/// greyscale colour type, deflate compression, no filtering method
/// variation, no interlacing.
pub open spec fn ihdr_data(w: int, h: int) -> Seq<u8> {
    be32(w) + be32(h) + seq![8u8, 0u8, 0u8, 0u8, 0u8]
}

/// The complete PNG encoding of the raster `s`: an 8-bit greyscale
/// image of exactly `s.width` x `s.height` pixels.
pub open spec fn png_bytes(s: Raster) -> Seq<u8> {
    png_signature() + chunk_bytes(ihdr_type(), ihdr_data(s.width, s.height)) + chunk_bytes(
        idat_type(),
        zlib_stream(raw_data(s)),
    ) + chunk_bytes(iend_type(), Seq::empty())
}

/// Encode the surface as a PNG. Total: every well-formed surface has an
/// encoding, so a failure path can never reach the wire.
pub fn encode_png(src: &Surface) -> (r: Vec<u8>)
    requires
        src@.wf(),
    ensures
        r@ == png_bytes(src@),
{
    let mut out: Vec<u8> = Vec::new();
    out.push(137u8);
    out.push(80u8);
    out.push(78u8);
    out.push(71u8);
    out.push(13u8);
    out.push(10u8);
    out.push(26u8);
    out.push(10u8);
    proof {
        assert(out@ =~= png_signature());
    }

    let mut ihdr_t: Vec<u8> = Vec::new();
    ihdr_t.push(73u8);
    ihdr_t.push(72u8);
    ihdr_t.push(68u8);
    ihdr_t.push(82u8);
    let mut ihdr_d: Vec<u8> = Vec::new();
    push_be32(&mut ihdr_d, src.width() as u32);
    push_be32(&mut ihdr_d, src.height() as u32);
    ihdr_d.push(8u8);
    ihdr_d.push(0u8);
    ihdr_d.push(0u8);
    ihdr_d.push(0u8);
    ihdr_d.push(0u8);
    proof {
        assert(ihdr_t@ =~= ihdr_type());
        assert(ihdr_d@ =~= ihdr_data(src@.width, src@.height));
    }
    push_chunk(&mut out, &ihdr_t, &ihdr_d);

    let raw: Vec<u8> = raw_scanlines(src);
    proof {
        lemma_mul_inequality(src@.height, crate::MAX_DIM as int, src@.width + 1);
        lemma_stored_blocks_len(raw@);
    }
    let z: Vec<u8> = zlib_encode(&raw);
    let mut idat_t: Vec<u8> = Vec::new();
    idat_t.push(73u8);
    idat_t.push(68u8);
    idat_t.push(65u8);
    idat_t.push(84u8);
    proof {
        assert(idat_t@ =~= idat_type());
    }
    push_chunk(&mut out, &idat_t, &z);

    let mut iend_t: Vec<u8> = Vec::new();
    iend_t.push(73u8);
    iend_t.push(69u8);
    iend_t.push(78u8);
    iend_t.push(68u8);
    let iend_d: Vec<u8> = Vec::new();
    proof {
        assert(iend_t@ =~= iend_type());
        assert(iend_d@ =~= Seq::<u8>::empty());
    }
    push_chunk(&mut out, &iend_t, &iend_d);

    proof {
        assert(out@ =~= png_bytes(src@));
    }
    out
}


/// The width a PNG's header chunk declares, read back from the bytes.
pub open spec fn png_width_of(b: Seq<u8>) -> int {
    0x1000000 * (b[16] as int) + 0x10000 * (b[17] as int) + 0x100 * (b[18] as int) + (b[19] as int)
}

/// The height a PNG's header chunk declares, read back from the bytes.
pub open spec fn png_height_of(b: Seq<u8>) -> int {
    0x1000000 * (b[20] as int) + 0x10000 * (b[21] as int) + 0x100 * (b[22] as int) + (b[23] as int)
}

/// The four big-endian bytes of a 32-bit value recombine to the value.
pub proof fn lemma_be32_roundtrip(n: int)
    requires
        0 <= n < 0x100000000,
    ensures
        0x1000000 * (be32(n)[0] as int) + 0x10000 * (be32(n)[1] as int) + 0x100 * (be32(n)[2]
            as int) + (be32(n)[3] as int) == n,
{
    lemma_fundamental_div_mod(n, 256);
    lemma_fundamental_div_mod(n / 256, 256);
    lemma_fundamental_div_mod(n / 0x10000, 256);
    lemma_div_denominator(n, 256, 256);
    lemma_div_denominator(n, 0x10000, 256);
    lemma_div_bound(n, 0x1000000, 256);
    assert((n / 0x1000000) % 256 == n / 0x1000000) by {
        lemma_fundamental_div_mod(n / 0x1000000, 256);
        lemma_div_bound(n / 0x1000000, 256, 1);
    }
}

/// The encoding declares exactly the raster's dimensions in its header.
pub proof fn lemma_png_bytes_dims(s: Raster)
    requires
        s.wf(),
    ensures
        png_width_of(png_bytes(s)) == s.width,
        png_height_of(png_bytes(s)) == s.height,
{
    let b = png_bytes(s);
    let c = chunk_bytes(ihdr_type(), ihdr_data(s.width, s.height));
    let d = ihdr_data(s.width, s.height);
    assert(png_signature().len() == 8);
    assert(be32(13).len() == 4);
    assert(ihdr_type().len() == 4);
    assert(d.len() == 13);
    assert forall|j: int| 0 <= j < 8 implies b[16 + j] == d[j] by {
        assert(c[8 + j] == d[j]);
        assert(b[16 + j] == c[8 + j]);
    }
    assert forall|j: int| 0 <= j < 4 implies d[j] == be32(s.width)[j] by {}
    assert forall|j: int| 0 <= j < 4 implies d[4 + j] == be32(s.height)[j] by {}
    lemma_be32_roundtrip(s.width);
    lemma_be32_roundtrip(s.height);
}

} // verus!
