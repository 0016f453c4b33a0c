use vstd::prelude::*;

verus! {

/// An 8x8 monospace bitmap font.
///
/// Each glyph is a 64-bit pattern: the top row is the most significant
/// byte, and within a row the leftmost pixel is the most significant bit.
/// Lowercase letters share the uppercase shapes; characters without a
/// shape render as a solid block so that unexpected input stays visible.
pub open spec fn glyph_bits(c: char) -> u64 {
    match c {
        ' ' => 0x0000000000000000,
        '!' => 0x0808080808000800,
        '\'' => 0x0808100000000000,
        '(' => 0x0C10202020100C00,
        ')' => 0x3008040404083000,
        '+' => 0x0008083E08080000,
        ',' => 0x0000000018180810,
        '-' => 0x0000007E00000000,
        '.' => 0x0000000000181800,
        '/' => 0x0204081020400000,
        '0' => 0x3C42465A62423C00,
        '1' => 0x0818280808083E00,
        '2' => 0x3C42020C30407E00,
        '3' => 0x3C42021C02423C00,
        '4' => 0x0C1424447E040400,
        '5' => 0x7E407C0202423C00,
        '6' => 0x1C20407C42423C00,
        '7' => 0x7E02040810101000,
        '8' => 0x3C42423C42423C00,
        '9' => 0x3C42423E02043800,
        ':' => 0x0018180018180000,
        '=' => 0x00007E007E000000,
        '?' => 0x3C42020C10001000,
        'A' | 'a' => 0x1824427E42424200,
        'B' | 'b' => 0x7C42427C42427C00,
        'C' | 'c' => 0x3C42404040423C00,
        'D' | 'd' => 0x7844424242447800,
        'E' | 'e' => 0x7E40407C40407E00,
        'F' | 'f' => 0x7E40407C40404000,
        'G' | 'g' => 0x3C42404E42423C00,
        'H' | 'h' => 0x4242427E42424200,
        'I' | 'i' => 0x3E08080808083E00,
        'J' | 'j' => 0x1E04040404443800,
        'K' | 'k' => 0x4244487048444200,
        'L' | 'l' => 0x4040404040407E00,
        'M' | 'm' => 0x42665A5A42424200,
        'N' | 'n' => 0x4262524A46424200,
        'O' | 'o' => 0x3C42424242423C00,
        'P' | 'p' => 0x7C42427C40404000,
        'Q' | 'q' => 0x3C4242424A443A00,
        'R' | 'r' => 0x7C42427C48444200,
        'S' | 's' => 0x3C42403C02423C00,
        'T' | 't' => 0x7F08080808080800,
        'U' | 'u' => 0x4242424242423C00,
        'V' | 'v' => 0x4242424224241800,
        'W' | 'w' => 0x4242425A5A664200,
        'X' | 'x' => 0x4224181818244200,
        'Y' | 'y' => 0x4122140808080800,
        'Z' | 'z' => 0x7E02041820407E00,
        '_' => 0x000000000000007E,
        _ => 0x7E7E7E7E7E7E7E00,
    }
}

/// Runtime lookup of the glyph pattern; agrees with [`glyph_bits`].
pub fn glyph_lookup(c: char) -> (r: u64)
    ensures
        r == glyph_bits(c),
{
    match c {
        ' ' => 0x0000000000000000,
        '!' => 0x0808080808000800,
        '\'' => 0x0808100000000000,
        '(' => 0x0C10202020100C00,
        ')' => 0x3008040404083000,
        '+' => 0x0008083E08080000,
        ',' => 0x0000000018180810,
        '-' => 0x0000007E00000000,
        '.' => 0x0000000000181800,
        '/' => 0x0204081020400000,
        '0' => 0x3C42465A62423C00,
        '1' => 0x0818280808083E00,
        '2' => 0x3C42020C30407E00,
        '3' => 0x3C42021C02423C00,
        '4' => 0x0C1424447E040400,
        '5' => 0x7E407C0202423C00,
        '6' => 0x1C20407C42423C00,
        '7' => 0x7E02040810101000,
        '8' => 0x3C42423C42423C00,
        '9' => 0x3C42423E02043800,
        ':' => 0x0018180018180000,
        '=' => 0x00007E007E000000,
        '?' => 0x3C42020C10001000,
        'A' | 'a' => 0x1824427E42424200,
        'B' | 'b' => 0x7C42427C42427C00,
        'C' | 'c' => 0x3C42404040423C00,
        'D' | 'd' => 0x7844424242447800,
        'E' | 'e' => 0x7E40407C40407E00,
        'F' | 'f' => 0x7E40407C40404000,
        'G' | 'g' => 0x3C42404E42423C00,
        'H' | 'h' => 0x4242427E42424200,
        'I' | 'i' => 0x3E08080808083E00,
        'J' | 'j' => 0x1E04040404443800,
        'K' | 'k' => 0x4244487048444200,
        'L' | 'l' => 0x4040404040407E00,
        'M' | 'm' => 0x42665A5A42424200,
        'N' | 'n' => 0x4262524A46424200,
        'O' | 'o' => 0x3C42424242423C00,
        'P' | 'p' => 0x7C42427C40404000,
        'Q' | 'q' => 0x3C4242424A443A00,
        'R' | 'r' => 0x7C42427C48444200,
        'S' | 's' => 0x3C42403C02423C00,
        'T' | 't' => 0x7F08080808080800,
        'U' | 'u' => 0x4242424242423C00,
        'V' | 'v' => 0x4242424224241800,
        'W' | 'w' => 0x4242425A5A664200,
        'X' | 'x' => 0x4224181818244200,
        'Y' | 'y' => 0x4122140808080800,
        'Z' | 'z' => 0x7E02041820407E00,
        '_' => 0x000000000000007E,
        _ => 0x7E7E7E7E7E7E7E00,
    }
}

/// Whether the glyph for `c` is set at column `gx`, row `gy` of its
/// 8x8 cell.
pub open spec fn glyph_on(c: char, gx: int, gy: int) -> bool {
    0 <= gx < 8 && 0 <= gy < 8 && ((glyph_bits(c) >> ((63 - 8 * gy - gx) as u64)) & 1) == 1
}

} // verus!
