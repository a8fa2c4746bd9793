//! Minimal built-in 5x7 bitmap font: a self-contained glyph table and the
//! blit helpers that the overlays draw with.

use vstd::prelude::*;
use crate::canvas::{painted, put_pixel};
use crate::text::chars_of;

verus! {

pub const GLYPH_W: u32 = 5;

pub const GLYPH_H: u32 = 7;

/// ASCII letters in upper case; every other character as it is.
pub open spec fn upper(c: char) -> char {
    if 'a' <= c <= 'z' {
        (c as u32 - 32) as char
    } else {
        c
    }
}

pub fn to_upper(c: char) -> (r: char)
    ensures
        r == upper(c),
{
    if 'a' <= c && c <= 'z' {
        ((c as u8) - 32) as char
    } else {
        c
    }
}

/// The rows of a glyph, top to bottom. Each row is the low 5 bits of a byte,
/// bit 4 the leftmost pixel. Unknown characters are blank.
pub open spec fn glyph(c: char) -> Seq<u8> {
    match upper(c) {
        'A' => seq![0b01110u8, 0b10001u8, 0b10001u8, 0b11111u8, 0b10001u8, 0b10001u8, 0b10001u8],
        'B' => seq![0b11110u8, 0b10001u8, 0b10001u8, 0b11110u8, 0b10001u8, 0b10001u8, 0b11110u8],
        'C' => seq![0b01111u8, 0b10000u8, 0b10000u8, 0b10000u8, 0b10000u8, 0b10000u8, 0b01111u8],
        'D' => seq![0b11100u8, 0b10010u8, 0b10001u8, 0b10001u8, 0b10001u8, 0b10010u8, 0b11100u8],
        'E' => seq![0b11111u8, 0b10000u8, 0b10000u8, 0b11110u8, 0b10000u8, 0b10000u8, 0b11111u8],
        'F' => seq![0b11111u8, 0b10000u8, 0b10000u8, 0b11110u8, 0b10000u8, 0b10000u8, 0b10000u8],
        'G' => seq![0b01111u8, 0b10000u8, 0b10000u8, 0b10111u8, 0b10001u8, 0b10001u8, 0b01111u8],
        'H' => seq![0b10001u8, 0b10001u8, 0b10001u8, 0b11111u8, 0b10001u8, 0b10001u8, 0b10001u8],
        'I' => seq![0b11111u8, 0b00100u8, 0b00100u8, 0b00100u8, 0b00100u8, 0b00100u8, 0b11111u8],
        'J' => seq![0b00111u8, 0b00010u8, 0b00010u8, 0b00010u8, 0b10010u8, 0b10010u8, 0b01100u8],
        'K' => seq![0b10001u8, 0b10010u8, 0b10100u8, 0b11000u8, 0b10100u8, 0b10010u8, 0b10001u8],
        'L' => seq![0b10000u8, 0b10000u8, 0b10000u8, 0b10000u8, 0b10000u8, 0b10000u8, 0b11111u8],
        'M' => seq![0b10001u8, 0b11011u8, 0b10101u8, 0b10001u8, 0b10001u8, 0b10001u8, 0b10001u8],
        'N' => seq![0b10001u8, 0b11001u8, 0b10101u8, 0b10011u8, 0b10001u8, 0b10001u8, 0b10001u8],
        'O' => seq![0b01110u8, 0b10001u8, 0b10001u8, 0b10001u8, 0b10001u8, 0b10001u8, 0b01110u8],
        'P' => seq![0b11110u8, 0b10001u8, 0b10001u8, 0b11110u8, 0b10000u8, 0b10000u8, 0b10000u8],
        'Q' => seq![0b01110u8, 0b10001u8, 0b10001u8, 0b10001u8, 0b10101u8, 0b10010u8, 0b01101u8],
        'R' => seq![0b11110u8, 0b10001u8, 0b10001u8, 0b11110u8, 0b10100u8, 0b10010u8, 0b10001u8],
        'S' => seq![0b01111u8, 0b10000u8, 0b10000u8, 0b01110u8, 0b00001u8, 0b00001u8, 0b11110u8],
        'T' => seq![0b11111u8, 0b00100u8, 0b00100u8, 0b00100u8, 0b00100u8, 0b00100u8, 0b00100u8],
        'U' => seq![0b10001u8, 0b10001u8, 0b10001u8, 0b10001u8, 0b10001u8, 0b10001u8, 0b01110u8],
        'V' => seq![0b10001u8, 0b10001u8, 0b10001u8, 0b10001u8, 0b10001u8, 0b01010u8, 0b00100u8],
        'W' => seq![0b10001u8, 0b10001u8, 0b10101u8, 0b10101u8, 0b10101u8, 0b10101u8, 0b01010u8],
        'X' => seq![0b10001u8, 0b10001u8, 0b01010u8, 0b00100u8, 0b01010u8, 0b10001u8, 0b10001u8],
        'Y' => seq![0b10001u8, 0b10001u8, 0b01010u8, 0b00100u8, 0b00100u8, 0b00100u8, 0b00100u8],
        'Z' => seq![0b11111u8, 0b00001u8, 0b00010u8, 0b00100u8, 0b01000u8, 0b10000u8, 0b11111u8],
        '0' => seq![0b01110u8, 0b10001u8, 0b10011u8, 0b10101u8, 0b11001u8, 0b10001u8, 0b01110u8],
        '1' => seq![0b00100u8, 0b01100u8, 0b00100u8, 0b00100u8, 0b00100u8, 0b00100u8, 0b11111u8],
        '2' => seq![0b01110u8, 0b10001u8, 0b00001u8, 0b00010u8, 0b00100u8, 0b01000u8, 0b11111u8],
        '3' => seq![0b11110u8, 0b00001u8, 0b00010u8, 0b01100u8, 0b00001u8, 0b10001u8, 0b01110u8],
        '4' => seq![0b00010u8, 0b00110u8, 0b01010u8, 0b10010u8, 0b11111u8, 0b00010u8, 0b00010u8],
        '5' => seq![0b11111u8, 0b10000u8, 0b11110u8, 0b00001u8, 0b00001u8, 0b10001u8, 0b01110u8],
        '6' => seq![0b00110u8, 0b01000u8, 0b10000u8, 0b11110u8, 0b10001u8, 0b10001u8, 0b01110u8],
        '7' => seq![0b11111u8, 0b00001u8, 0b00010u8, 0b00100u8, 0b01000u8, 0b01000u8, 0b01000u8],
        '8' => seq![0b01110u8, 0b10001u8, 0b10001u8, 0b01110u8, 0b10001u8, 0b10001u8, 0b01110u8],
        '9' => seq![0b01110u8, 0b10001u8, 0b10001u8, 0b01111u8, 0b00001u8, 0b00010u8, 0b01100u8],
        '+' => seq![0b00000u8, 0b00100u8, 0b00100u8, 0b11111u8, 0b00100u8, 0b00100u8, 0b00000u8],
        '/' => seq![0b00001u8, 0b00010u8, 0b00100u8, 0b00100u8, 0b01000u8, 0b10000u8, 0b00000u8],
        ':' => seq![0b00000u8, 0b00100u8, 0b00000u8, 0b00000u8, 0b00100u8, 0b00000u8, 0b00000u8],
        '-' => seq![0b00000u8, 0b00000u8, 0b00000u8, 0b11111u8, 0b00000u8, 0b00000u8, 0b00000u8],
        '.' => seq![0b00000u8, 0b00000u8, 0b00000u8, 0b00000u8, 0b00000u8, 0b00100u8, 0b00000u8],
        '_' => seq![0b00000u8, 0b00000u8, 0b00000u8, 0b00000u8, 0b00000u8, 0b00000u8, 0b11111u8],
        '~' => seq![0b00000u8, 0b01001u8, 0b10101u8, 0b10010u8, 0b00000u8, 0b00000u8, 0b00000u8],
        '=' => seq![0b00000u8, 0b11111u8, 0b00000u8, 0b11111u8, 0b00000u8, 0b00000u8, 0b00000u8],
        ',' => seq![0b00000u8, 0b00000u8, 0b00000u8, 0b00000u8, 0b00100u8, 0b00100u8, 0b01000u8],
        '>' => seq![0b10000u8, 0b01000u8, 0b00100u8, 0b00010u8, 0b00100u8, 0b01000u8, 0b10000u8],
        '<' => seq![0b00001u8, 0b00010u8, 0b00100u8, 0b01000u8, 0b00100u8, 0b00010u8, 0b00001u8],
        '*' => seq![0b00000u8, 0b10101u8, 0b01110u8, 0b11111u8, 0b01110u8, 0b10101u8, 0b00000u8],
        '\'' => seq![0b00100u8, 0b00100u8, 0b01000u8, 0b00000u8, 0b00000u8, 0b00000u8, 0b00000u8],
        _ => seq![0u8, 0u8, 0u8, 0u8, 0u8, 0u8, 0u8],
    }
}

/// Each row is the low 5 bits of a glyph column (bit 4 = leftmost pixel),
/// 7 rows top-to-bottom. Unknown characters render as a blank cell.
#[verifier::rlimit(60)]
pub fn glyph_rows(c: char) -> (r: [u8; 7])
    ensures
        r@ == glyph(c),
{
    let r: [u8; 7] = match to_upper(c) {
        'A' => [0b01110, 0b10001, 0b10001, 0b11111, 0b10001, 0b10001, 0b10001],
        'B' => [0b11110, 0b10001, 0b10001, 0b11110, 0b10001, 0b10001, 0b11110],
        'C' => [0b01111, 0b10000, 0b10000, 0b10000, 0b10000, 0b10000, 0b01111],
        'D' => [0b11100, 0b10010, 0b10001, 0b10001, 0b10001, 0b10010, 0b11100],
        'E' => [0b11111, 0b10000, 0b10000, 0b11110, 0b10000, 0b10000, 0b11111],
        'F' => [0b11111, 0b10000, 0b10000, 0b11110, 0b10000, 0b10000, 0b10000],
        'G' => [0b01111, 0b10000, 0b10000, 0b10111, 0b10001, 0b10001, 0b01111],
        'H' => [0b10001, 0b10001, 0b10001, 0b11111, 0b10001, 0b10001, 0b10001],
        'I' => [0b11111, 0b00100, 0b00100, 0b00100, 0b00100, 0b00100, 0b11111],
        'J' => [0b00111, 0b00010, 0b00010, 0b00010, 0b10010, 0b10010, 0b01100],
        'K' => [0b10001, 0b10010, 0b10100, 0b11000, 0b10100, 0b10010, 0b10001],
        'L' => [0b10000, 0b10000, 0b10000, 0b10000, 0b10000, 0b10000, 0b11111],
        'M' => [0b10001, 0b11011, 0b10101, 0b10001, 0b10001, 0b10001, 0b10001],
        'N' => [0b10001, 0b11001, 0b10101, 0b10011, 0b10001, 0b10001, 0b10001],
        'O' => [0b01110, 0b10001, 0b10001, 0b10001, 0b10001, 0b10001, 0b01110],
        'P' => [0b11110, 0b10001, 0b10001, 0b11110, 0b10000, 0b10000, 0b10000],
        'Q' => [0b01110, 0b10001, 0b10001, 0b10001, 0b10101, 0b10010, 0b01101],
        'R' => [0b11110, 0b10001, 0b10001, 0b11110, 0b10100, 0b10010, 0b10001],
        'S' => [0b01111, 0b10000, 0b10000, 0b01110, 0b00001, 0b00001, 0b11110],
        'T' => [0b11111, 0b00100, 0b00100, 0b00100, 0b00100, 0b00100, 0b00100],
        'U' => [0b10001, 0b10001, 0b10001, 0b10001, 0b10001, 0b10001, 0b01110],
        'V' => [0b10001, 0b10001, 0b10001, 0b10001, 0b10001, 0b01010, 0b00100],
        'W' => [0b10001, 0b10001, 0b10101, 0b10101, 0b10101, 0b10101, 0b01010],
        'X' => [0b10001, 0b10001, 0b01010, 0b00100, 0b01010, 0b10001, 0b10001],
        'Y' => [0b10001, 0b10001, 0b01010, 0b00100, 0b00100, 0b00100, 0b00100],
        'Z' => [0b11111, 0b00001, 0b00010, 0b00100, 0b01000, 0b10000, 0b11111],
        '0' => [0b01110, 0b10001, 0b10011, 0b10101, 0b11001, 0b10001, 0b01110],
        '1' => [0b00100, 0b01100, 0b00100, 0b00100, 0b00100, 0b00100, 0b11111],
        '2' => [0b01110, 0b10001, 0b00001, 0b00010, 0b00100, 0b01000, 0b11111],
        '3' => [0b11110, 0b00001, 0b00010, 0b01100, 0b00001, 0b10001, 0b01110],
        '4' => [0b00010, 0b00110, 0b01010, 0b10010, 0b11111, 0b00010, 0b00010],
        '5' => [0b11111, 0b10000, 0b11110, 0b00001, 0b00001, 0b10001, 0b01110],
        '6' => [0b00110, 0b01000, 0b10000, 0b11110, 0b10001, 0b10001, 0b01110],
        '7' => [0b11111, 0b00001, 0b00010, 0b00100, 0b01000, 0b01000, 0b01000],
        '8' => [0b01110, 0b10001, 0b10001, 0b01110, 0b10001, 0b10001, 0b01110],
        '9' => [0b01110, 0b10001, 0b10001, 0b01111, 0b00001, 0b00010, 0b01100],
        '+' => [0b00000, 0b00100, 0b00100, 0b11111, 0b00100, 0b00100, 0b00000],
        '/' => [0b00001, 0b00010, 0b00100, 0b00100, 0b01000, 0b10000, 0b00000],
        ':' => [0b00000, 0b00100, 0b00000, 0b00000, 0b00100, 0b00000, 0b00000],
        '-' => [0b00000, 0b00000, 0b00000, 0b11111, 0b00000, 0b00000, 0b00000],
        '.' => [0b00000, 0b00000, 0b00000, 0b00000, 0b00000, 0b00100, 0b00000],
        '_' => [0b00000, 0b00000, 0b00000, 0b00000, 0b00000, 0b00000, 0b11111],
        '~' => [0b00000, 0b01001, 0b10101, 0b10010, 0b00000, 0b00000, 0b00000],
        '=' => [0b00000, 0b11111, 0b00000, 0b11111, 0b00000, 0b00000, 0b00000],
        ',' => [0b00000, 0b00000, 0b00000, 0b00000, 0b00100, 0b00100, 0b01000],
        '>' => [0b10000, 0b01000, 0b00100, 0b00010, 0b00100, 0b01000, 0b10000],
        '<' => [0b00001, 0b00010, 0b00100, 0b01000, 0b00100, 0b00010, 0b00001],
        '*' => [0b00000, 0b10101, 0b01110, 0b11111, 0b01110, 0b10101, 0b00000],
        '\'' => [0b00100, 0b00100, 0b01000, 0b00000, 0b00000, 0b00000, 0b00000],
        _ => [0, 0, 0, 0, 0, 0, 0],
    };
    assert(r@ =~= glyph(c));
    r
}

/// Bit `4 - col` of row `row` of the glyph is set.
pub open spec fn dot(c: char, col: int, row: int) -> bool {
    glyph(c)[row] & (1u8 << ((4 - col) as u8)) != 0
}

/// The glyph of `c` at `(x, y)`, with dots of `scale`×`scale` pixels, covers
/// the pixel `(px, py)`.
pub open spec fn glyph_covers(c: char, x: int, y: int, scale: int, px: int, py: int) -> bool {
    &&& 0 <= px - x < 5 * scale
    &&& 0 <= py - y < 7 * scale
    &&& dot(c, (px - x) / scale, (py - y) / scale)
}

/// The text at `(x, y)` covers the pixel `(px, py)`: one glyph every six
/// dots.
pub open spec fn text_covers(
    text: Seq<char>,
    x: int,
    y: int,
    scale: int,
    px: int,
    py: int,
) -> bool {
    let i = (px - x) / (6 * scale);
    &&& scale > 0
    &&& 0 <= px - x
    &&& i < text.len()
    &&& glyph_covers(text[i], x + i * (6 * scale), y, scale, px, py)
}

/// The rect at `(x, y)` of `rw`×`rh` pixels covers the pixel `(px, py)`. A
/// side that is no positive signed 32-bit number covers nothing.
pub open spec fn rect_covers(x: int, y: int, rw: u32, rh: u32, px: int, py: int) -> bool {
    &&& 0 <= px - x < rw as i32
    &&& 0 <= py - y < rh as i32
}

fn least(a: i64, b: i64) -> (r: i64)
    ensures
        r == (if a < b {
            a as int
        } else {
            b as int
        }),
{
    if a < b {
        a
    } else {
        b
    }
}

fn greatest(a: i64, b: i64) -> (r: i64)
    ensures
        r == (if a > b {
            a as int
        } else {
            b as int
        }),
{
    if a > b {
        a
    } else {
        b
    }
}

/// Stamp one glyph into an RGBA buffer at `(x, y)`, `scale`x pixel-doubled,
/// in `color`. Out-of-bounds pixels are clipped.
pub fn draw_char(
    back: &mut [u8],
    w: u32,
    h: u32,
    x: i64,
    y: i64,
    scale: u32,
    c: char,
    color: [u8; 4],
)
    requires
        crate::canvas::fits(old(back)@.len(), w, h),
        -0x10_0000_0000_0000 <= x <= 0x10_0000_0000_0000,
        -0x10_0000_0000_0000 <= y <= 0x10_0000_0000_0000,
    ensures
        final(back)@ == painted(
            old(back)@,
            w,
            h,
            |px: int, py: int|
                glyph_covers(c, x as int, y as int, scale as int, px, py),
            color,
        ),
{
    let ghost start = back@;
    let rows: [u8; 7] = glyph_rows(c);
    let s: i64 = scale as i64;
    let top: i64 = greatest(y, 0);
    let bottom: i64 = least(y + 7 * s, h as i64);
    let left: i64 = greatest(x, 0);
    let right: i64 = least(x + 5 * s, w as i64);
    let mut py: i64 = top;
    proof {
        crate::canvas::lemma_painted_nothing(
            start,
            w,
            h,
            |a: int, b: int|
                b < top && glyph_covers(c, x as int, y as int, s as int, a, b),
            color,
        );
    }
    while py < bottom
        invariant
            crate::canvas::fits(start.len(), w, h),
            s == scale,
            rows@ == glyph(c),
            -0x10_0000_0000_0000 <= x <= 0x10_0000_0000_0000,
            -0x10_0000_0000_0000 <= y <= 0x10_0000_0000_0000,
            top == greatest_of(y as int, 0),
            bottom == least_of(y + 7 * s, h as int),
            left == greatest_of(x as int, 0),
            right == least_of(x + 5 * s, w as int),
            top <= py,
            py > top ==> py <= bottom,
            back@ == painted(
                start,
                w,
                h,
                |a: int, b: int| b < py && glyph_covers(c, x as int, y as int, s as int, a, b),
                color,
            ),
        decreases bottom - py,
    {
        let mut px: i64 = left;
        proof {
            crate::canvas::lemma_painted_same(
                start,
                w,
                h,
                |a: int, b: int| b < py && glyph_covers(c, x as int, y as int, s as int, a, b),
                |a: int, b: int|
                    (b < py || (b == py && a < px)) && glyph_covers(
                        c,
                        x as int,
                        y as int,
                        s as int,
                        a,
                        b,
                    ),
                color,
            );
        }
        while px < right
            invariant
                crate::canvas::fits(start.len(), w, h),
                s == scale,
                rows@ == glyph(c),
                -0x10_0000_0000_0000 <= x <= 0x10_0000_0000_0000,
                -0x10_0000_0000_0000 <= y <= 0x10_0000_0000_0000,
                top == greatest_of(y as int, 0),
                bottom == least_of(y + 7 * s, h as int),
                left == greatest_of(x as int, 0),
                right == least_of(x + 5 * s, w as int),
                top <= py < bottom,
                left <= px,
                px > left ==> px <= right,
                back@ == painted(
                    start,
                    w,
                    h,
                    |a: int, b: int|
                        (b < py || (b == py && a < px)) && glyph_covers(
                            c,
                            x as int,
                            y as int,
                            s as int,
                            a,
                            b,
                        ),
                    color,
                ),
            decreases right - px,
        {
            let ghost mid = back@;
            let col: i64 = (px - x) / s;
            let row: i64 = (py - y) / s;
            proof {
                lemma_dot_range(px - x, s as int, 5);
                lemma_dot_range(py - y, s as int, 7);
            }
            let bit: u8 = 1u8 << ((4 - col) as u8);
            let ghost done = |a: int, b: int|
                (b < py || (b == py && a < px)) && glyph_covers(
                    c,
                    x as int,
                    y as int,
                    s as int,
                    a,
                    b,
                );
            let ghost next = |a: int, b: int|
                (b < py || (b == py && a < px + 1)) && glyph_covers(
                    c,
                    x as int,
                    y as int,
                    s as int,
                    a,
                    b,
                );
            if rows[row as usize] & bit != 0 {
                put_pixel(back, w, h, px, py, color);
                proof {
                    crate::canvas::lemma_painted_twice(
                        start,
                        w,
                        h,
                        done,
                        |a: int, b: int| a == px && b == py,
                        next,
                        color,
                    );
                }
            } else {
                proof {
                    crate::canvas::lemma_painted_same(start, w, h, done, next, color);
                }
            }
            px = px + 1;
        }
        proof {
            crate::canvas::lemma_painted_same(
                start,
                w,
                h,
                |a: int, b: int|
                    (b < py || (b == py && a < px)) && glyph_covers(
                        c,
                        x as int,
                        y as int,
                        s as int,
                        a,
                        b,
                    ),
                |a: int, b: int| b < py + 1 && glyph_covers(c, x as int, y as int, s as int, a, b),
                color,
            );
        }
        py = py + 1;
    }
    proof {
        crate::canvas::lemma_painted_same(
            start,
            w,
            h,
            |a: int, b: int| b < py && glyph_covers(c, x as int, y as int, s as int, a, b),
            |a: int, b: int| glyph_covers(c, x as int, y as int, s as int, a, b),
            color,
        );
    }
}

/// Stamp a left-aligned text string. Returns the pixel width consumed.
pub fn draw_text(
    back: &mut [u8],
    w: u32,
    h: u32,
    x: i32,
    y: i32,
    scale: u32,
    text: &str,
    color: [u8; 4],
) -> (width: u32)
    requires
        crate::canvas::fits(old(back)@.len(), w, h),
        6 * scale <= u32::MAX,
        text@.len() * (6 * scale) <= u32::MAX,
    ensures
        final(back)@ == painted(
            old(back)@,
            w,
            h,
            |px: int, py: int|
                text_covers(text@, x as int, y as int, scale as int, px, py),
            color,
        ),
        width == text@.len() * (6 * scale),
{
    let ghost start = back@;
    let chars: Vec<char> = chars_of(text);
    let advance: u32 = (GLYPH_W + 1) * scale;
    let ghost s = scale as int;
    proof {
        crate::canvas::lemma_painted_nothing(
            start,
            w,
            h,
            |a: int, b: int|
                text_covers(text@.take(0), x as int, y as int, s, a, b),
            color,
        );
    }
    let mut width: u32 = 0;
    assert(0 * (6 * s) == 0) by (nonlinear_arith);
    for i in 0..chars.len()
        invariant
            crate::canvas::fits(start.len(), w, h),
            s == scale,
            advance == 6 * s,
            chars@ == text@,
            text@.len() * (6 * s) <= u32::MAX,
            width == i * (6 * s),
            back@ == painted(
                start,
                w,
                h,
                |a: int, b: int|
                    text_covers(text@.take(i as int), x as int, y as int, s, a, b),
                color,
            ),
    {
        assert(width + 6 * s == (i + 1) * (6 * s) && (i + 1) * (6 * s) <= text@.len() * (6 * s))
            by (nonlinear_arith)
            requires
                width == i * (6 * s),
                i + 1 <= text@.len(),
                0 <= s,
        ;
        let c: char = chars[i];
        let at: i64 = x as i64 + width as i64;
        draw_char(back, w, h, at, y as i64, scale, c, color);
        proof {
            let done = |a: int, b: int|
                text_covers(text@.take(i as int), x as int, y as int, s, a, b);
            let one = |a: int, b: int| glyph_covers(c, at as int, y as int, s, a, b);
            let next = |a: int, b: int|
                text_covers(text@.take(i + 1), x as int, y as int, s, a, b);
            assert forall|a: int, b: int| 0 <= a < w && 0 <= b < h implies #[trigger] next(a, b)
                == (done(a, b) || one(a, b)) by {
                lemma_text_step(text@, i as int, x as int, y as int, s, a, b);
            }
            crate::canvas::lemma_painted_twice(start, w, h, done, one, next, color);
        }
        width = width + advance;
    }
    assert(text@.take(chars.len() as int) =~= text@);
    width
}

/// The first `i + 1` characters cover what the first `i` cover and what the
/// glyph of the next one covers.
proof fn lemma_text_step(t: Seq<char>, i: int, x: int, y: int, s: int, px: int, py: int)
    requires
        0 <= i < t.len(),
        0 <= s,
    ensures
        text_covers(t.take(i + 1), x, y, s, px, py) == (text_covers(t.take(i), x, y, s, px, py)
            || glyph_covers(t[i], x + i * (6 * s), y, s, px, py)),
{
    let k = (px - x) / (6 * s);
    if s > 0 && 0 <= px - x {
        assert(k * (6 * s) <= px - x < (k + 1) * (6 * s) && 0 <= k) by (nonlinear_arith)
            requires
                s > 0,
                0 <= px - x,
                k == (px - x) / (6 * s),
        ;
        if k < i {
            assert((k + 1) * (6 * s) <= i * (6 * s)) by (nonlinear_arith)
                requires
                    k + 1 <= i,
                    s > 0,
            ;
            assert(t.take(i + 1)[k] == t.take(i)[k]);
        } else if k > i {
            assert(i * (6 * s) + 6 * s <= k * (6 * s)) by (nonlinear_arith)
                requires
                    i + 1 <= k,
                    s > 0,
            ;
        }
    } else if s > 0 {
        assert(0 <= i * (6 * s)) by (nonlinear_arith)
            requires
                0 <= i,
                s > 0,
        ;
    }
}

/// Fill an axis-aligned rect with a flat color (used for the overlay boxes).
/// Clips to the buffer extent.
pub fn fill_rect(
    back: &mut [u8],
    w: u32,
    h: u32,
    x: i32,
    y: i32,
    rw: u32,
    rh: u32,
    color: [u8; 4],
)
    requires
        crate::canvas::fits(old(back)@.len(), w, h),
    ensures
        final(back)@ == painted(
            old(back)@,
            w,
            h,
            |px: int, py: int| rect_covers(x as int, y as int, rw, rh, px, py),
            color,
        ),
{
    let ghost start = back@;
    let rows: i32 = rh as i32;
    let cols: i32 = rw as i32;
    let top: i64 = greatest(y as i64, 0);
    let bottom: i64 = least(y as i64 + rows as i64, h as i64);
    let left: i64 = greatest(x as i64, 0);
    let right: i64 = least(x as i64 + cols as i64, w as i64);
    let mut py: i64 = top;
    proof {
        crate::canvas::lemma_painted_nothing(
            start,
            w,
            h,
            |a: int, b: int| b < top && rect_covers(x as int, y as int, rw, rh, a, b),
            color,
        );
    }
    while py < bottom
        invariant
            crate::canvas::fits(start.len(), w, h),
            rows == rh as i32,
            cols == rw as i32,
            top == greatest_of(y as int, 0),
            bottom == least_of(y + rows, h as int),
            left == greatest_of(x as int, 0),
            right == least_of(x + cols, w as int),
            top <= py,
            py > top ==> py <= bottom,
            back@ == painted(
                start,
                w,
                h,
                |a: int, b: int| b < py && rect_covers(x as int, y as int, rw, rh, a, b),
                color,
            ),
        decreases bottom - py,
    {
        let mut px: i64 = left;
        proof {
            crate::canvas::lemma_painted_same(
                start,
                w,
                h,
                |a: int, b: int| b < py && rect_covers(x as int, y as int, rw, rh, a, b),
                |a: int, b: int|
                    (b < py || (b == py && a < px)) && rect_covers(
                        x as int,
                        y as int,
                        rw,
                        rh,
                        a,
                        b,
                    ),
                color,
            );
        }
        while px < right
            invariant
                crate::canvas::fits(start.len(), w, h),
                rows == rh as i32,
                cols == rw as i32,
                top == greatest_of(y as int, 0),
                bottom == least_of(y + rows, h as int),
                left == greatest_of(x as int, 0),
                right == least_of(x + cols, w as int),
                top <= py < bottom,
                left <= px,
                px > left ==> px <= right,
                back@ == painted(
                    start,
                    w,
                    h,
                    |a: int, b: int|
                        (b < py || (b == py && a < px)) && rect_covers(
                            x as int,
                            y as int,
                            rw,
                            rh,
                            a,
                            b,
                        ),
                    color,
                ),
            decreases right - px,
        {
            put_pixel(back, w, h, px, py, color);
            proof {
                crate::canvas::lemma_painted_twice(
                    start,
                    w,
                    h,
                    |a: int, b: int|
                        (b < py || (b == py && a < px)) && rect_covers(
                            x as int,
                            y as int,
                            rw,
                            rh,
                            a,
                            b,
                        ),
                    |a: int, b: int| a == px && b == py,
                    |a: int, b: int|
                        (b < py || (b == py && a < px + 1)) && rect_covers(
                            x as int,
                            y as int,
                            rw,
                            rh,
                            a,
                            b,
                        ),
                    color,
                );
            }
            px = px + 1;
        }
        proof {
            crate::canvas::lemma_painted_same(
                start,
                w,
                h,
                |a: int, b: int|
                    (b < py || (b == py && a < px)) && rect_covers(
                        x as int,
                        y as int,
                        rw,
                        rh,
                        a,
                        b,
                    ),
                |a: int, b: int| b < py + 1 && rect_covers(x as int, y as int, rw, rh, a, b),
                color,
            );
        }
        py = py + 1;
    }
    proof {
        crate::canvas::lemma_painted_same(
            start,
            w,
            h,
            |a: int, b: int| b < py && rect_covers(x as int, y as int, rw, rh, a, b),
            |a: int, b: int| rect_covers(x as int, y as int, rw, rh, a, b),
            color,
        );
    }
}

pub open spec fn least_of(a: int, b: int) -> int {
    if a < b {
        a
    } else {
        b
    }
}

pub open spec fn greatest_of(a: int, b: int) -> int {
    if a > b {
        a
    } else {
        b
    }
}

proof fn lemma_dot_range(d: int, s: int, n: int)
    requires
        0 <= d < n * s,
        0 <= s,
    ensures
        s > 0,
        0 <= d / s < n,
{
    assert(s > 0) by (nonlinear_arith)
        requires
            0 <= d < n * s,
            0 <= s,
    ;
    assert(0 <= d / s < n) by (nonlinear_arith)
        requires
            0 <= d < n * s,
            s > 0,
    ;
}

/// A dot is one bit of its row, the highest of five on the left: a row is the
/// sum of its dots, each worth half of the one before it.
pub proof fn law_dots_are_the_bits_of_a_row(c: char, row: int)
    requires
        0 <= row < 7,
    ensures
        glyph(c).len() == 7,
        glyph(c)[row] % 32 == (if dot(c, 0, row) {
            16int
        } else {
            0
        }) + (if dot(c, 1, row) {
            8int
        } else {
            0
        }) + (if dot(c, 2, row) {
            4int
        } else {
            0
        }) + (if dot(c, 3, row) {
            2int
        } else {
            0
        }) + (if dot(c, 4, row) {
            1int
        } else {
            0
        }),
{
    let b = glyph(c)[row];
    assert(b % 32 == (if b & (1u8 << 4u8) != 0 {
        16int
    } else {
        0
    }) + (if b & (1u8 << 3u8) != 0 {
        8int
    } else {
        0
    }) + (if b & (1u8 << 2u8) != 0 {
        4int
    } else {
        0
    }) + (if b & (1u8 << 1u8) != 0 {
        2int
    } else {
        0
    }) + (if b & (1u8 << 0u8) != 0 {
        1int
    } else {
        0
    })) by (bit_vector);
}

/// Each dot of a glyph is a square of pixels, and the glyphs of a text stand
/// six dots apart: pixel `(u, v)` of the square of dot `(col, row)` of
/// character `i` is covered where that character has that dot, and the gap
/// behind a glyph is never covered.
pub proof fn law_text_is_laid_out_in_cells(
    text: Seq<char>,
    x: int,
    y: int,
    scale: int,
    i: int,
    col: int,
    row: int,
    u: int,
    v: int,
)
    requires
        scale > 0,
        0 <= i < text.len(),
        0 <= col < 6,
        0 <= row < 7,
        0 <= u < scale,
        0 <= v < scale,
    ensures
        text_covers(
            text,
            x,
            y,
            scale,
            x + i * (6 * scale) + col * scale + u,
            y + row * scale + v,
        ) == (col < 5 && dot(text[i], col, row)),
{
    let px = x + i * (6 * scale) + col * scale + u;
    let py = y + row * scale + v;
    let cell = col * scale + u;
    assert(0 <= cell < 6 * scale && (cell < 5 * scale <==> col < 5)) by (nonlinear_arith)
        requires
            cell == col * scale + u,
            scale > 0,
            0 <= col < 6,
            0 <= u < scale,
    ;
    assert(i * (6 * scale) >= 0) by (nonlinear_arith)
        requires
            i >= 0,
            scale > 0,
    ;
    vstd::arithmetic::div_mod::lemma_fundamental_div_mod_converse(px - x, 6 * scale, i, cell);
    assert(0 <= row * scale + v < 7 * scale) by (nonlinear_arith)
        requires
            scale > 0,
            0 <= row < 7,
            0 <= v < scale,
    ;
    vstd::arithmetic::div_mod::lemma_fundamental_div_mod_converse(cell, scale, col, u);
    vstd::arithmetic::div_mod::lemma_fundamental_div_mod_converse(py - y, scale, row, v);
}

/// Text covers nothing above, below, left or right of its cells.
pub proof fn law_text_stays_in_its_cells(
    text: Seq<char>,
    x: int,
    y: int,
    scale: int,
    px: int,
    py: int,
)
    requires
        scale > 0,
        px < x || py < y || py >= y + 7 * scale || px >= x + text.len() * (6 * scale),
    ensures
        !text_covers(text, x, y, scale, px, py),
{
    let n = text.len() as int;
    if px >= x + n * (6 * scale) {
        let d = 6 * scale;
        let i = (px - x) / d;
        assert(i >= n) by (nonlinear_arith)
            requires
                px - x >= n * d,
                d > 0,
                i == (px - x) / d,
        ;
    }
}

/// Letters look alike in either case.
pub proof fn law_glyphs_ignore_the_case(c: char)
    ensures
        0x61 <= c as u32 <= 0x7a ==> glyph(c) == glyph((c as u32 - 0x20) as char),
        upper(upper(c)) == upper(c),
{
}

/// No glyph is wider than five dots. Letters that are the same from top to
/// bottom are drawn so, and so are those that are the same from left to right.
pub proof fn law_even_letters_are_even(c: char, row: int)
    requires
        0 <= row < 7,
    ensures
        glyph(c).len() == 7,
        glyph(c)[row] < 32,
        c == 'B' || c == 'C' || c == 'D' || c == 'E' || c == 'H' || c == 'I' || c == 'K' || c == 'O'
            || c == 'X' || c == '8' || c == '+' || c == '*' || c == '-' || c == '>' || c == '<'
            ==> glyph(c)[row] == glyph(c)[6 - row],
        c == 'A' || c == 'H' || c == 'I' || c == 'M' || c == 'O' || c == 'T' || c == 'U' || c == 'V'
            || c == 'W' || c == 'X' || c == 'Y' || c == '8' || c == '+' || c == '*' || c == '-' || c
            == '_' || c == '=' || c == ':' || c == '.' ==> {
            let b = glyph(c)[row];
            b == 0b00000 || b == 0b00100 || b == 0b01010 || b == 0b01110 || b == 0b10001 || b
                == 0b10101 || b == 0b11011 || b == 0b11111
        },
{
}

} // verus!
