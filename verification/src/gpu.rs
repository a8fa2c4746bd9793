//! What goes to the graphics card and what comes back.

use vstd::prelude::*;
use crate::capture::read_word;
use crate::capture::word_at;
use crate::render::ColorCell;

verus! {

/// The byte of `word` that starts at bit `8 * shift`.
pub open spec fn byte_of(word: u32, shift: int) -> u8 {
    (word / (if shift == 0 {
        1u32
    } else if shift == 1 {
        0x100u32
    } else if shift == 2 {
        0x1_0000u32
    } else {
        0x100_0000u32
    }) % 0x100) as u8
}

/// One byte of a packed word, counted from its low end.
pub fn byte(word: u32, shift: u32) -> (r: u8)
    requires
        shift < 4,
    ensures
        r == byte_of(word, shift as int),
{
    let unit: u32 = if shift == 0 {
        1
    } else if shift == 1 {
        0x100
    } else if shift == 2 {
        0x1_0000
    } else {
        0x100_0000
    };
    (word / unit % 0x100) as u8
}

/// The bytes of a word, put together again.
pub proof fn law_bytes_make_the_word(word: u32)
    ensures
        byte_of(word, 0) + byte_of(word, 1) * 0x100 + byte_of(word, 2) * 0x1_0000 + byte_of(word, 3)
            * 0x100_0000 == word,
{
}

/// Work groups of eight that cover `n` cells.
pub fn work_groups(n: u16) -> (r: u32)
    ensures
        r * 8 >= n,
        r * 8 < n + 8,
{
    (n as u32 + 7) / 8
}

/// Bytes of the half-block result: two words for each cell.
pub fn halfblock_bytes(cols: u16, rows: u16) -> (r: u64)
    ensures
        r == cols * rows * 8,
{
    assert(0 <= cols * rows <= 65535 * 65535) by (nonlinear_arith)
        requires
            0 <= cols <= 65535,
            0 <= rows <= 65535,
    ;
    cols as u64 * rows as u64 * 8
}

/// Bytes of the brightness result: one word for each cell.
pub fn luma_bytes(cols: u16, rows: u16) -> (r: u64)
    ensures
        r == cols * rows * 4,
{
    assert(0 <= cols * rows <= 65535 * 65535) by (nonlinear_arith)
        requires
            0 <= cols <= 65535,
            0 <= rows <= 65535,
    ;
    cols as u64 * rows as u64 * 4
}

/// The sizes that both programs are given.
pub fn params(src_w: u32, src_h: u32, cols: u16, rows: u16) -> (r: [u32; 4])
    ensures
        r@ == seq![src_w, src_h, cols as u32, rows as u32],
{
    let r: [u32; 4] = [src_w, src_h, cols as u32, rows as u32];
    assert(r@ =~= seq![src_w, src_h, cols as u32, rows as u32]);
    r
}

/// A color in the low three bytes of a word.
pub open spec fn color_of(word: u32) -> Seq<u8> {
    seq![byte_of(word, 0), byte_of(word, 1), byte_of(word, 2)]
}

fn color(word: u32) -> (r: [u8; 3])
    ensures
        r@ == color_of(word),
{
    let r: [u8; 3] = [byte(word, 0), byte(word, 1), byte(word, 2)];
    assert(r@ =~= color_of(word));
    r
}

/// The cells of a half-block result: for each the color of its upper half,
/// then of its lower.
pub fn halfblock_cells(raw: &[u8], cols: u16, rows: u16) -> (r: Vec<ColorCell>)
    requires
        raw@.len() >= cols * rows * 8,
    ensures
        r@.len() == cols * rows,
        forall|i: int|
            0 <= i < r@.len() ==> (#[trigger] r@[i]).fg@ == color_of(word_at(raw@, i * 8))
                && r@[i].bg@ == color_of(word_at(raw@, i * 8 + 4)),
{
    assert(0 <= cols * rows <= 65535 * 65535) by (nonlinear_arith)
        requires
            0 <= cols <= 65535,
            0 <= rows <= 65535,
    ;
    let n: usize = (cols as u64 * rows as u64) as usize;
    let len: usize = raw.len();
    assert(n == cols * rows);
    let mut out: Vec<ColorCell> = Vec::new();
    for i in 0..n
        invariant
            len == raw@.len(),
            n * 8 <= len,
            out@.len() == i,
            forall|j: int|
                0 <= j < i ==> (#[trigger] out@[j]).fg@ == color_of(word_at(raw@, j * 8))
                    && out@[j].bg@ == color_of(word_at(raw@, j * 8 + 4)),
    {
        let fg: [u8; 3] = color(read_word(raw, i * 8));
        let bg: [u8; 3] = color(read_word(raw, i * 8 + 4));
        out.push(ColorCell { fg, bg });
    }
    out
}

/// The brightness of each cell: the low byte of each word.
pub fn luma_cells(raw: &[u8]) -> (r: Vec<u8>)
    ensures
        r@ == Seq::new(raw@.len() / 4, |i: int| byte_of(word_at(raw@, i * 4), 0)),
{
    let len: usize = raw.len();
    let n: usize = len / 4;
    let mut out: Vec<u8> = Vec::new();
    for i in 0..n
        invariant
            len == raw@.len(),
            n == len / 4,
            out@ =~= Seq::new(i as nat, |j: int| byte_of(word_at(raw@, j * 4), 0)),
    {
        out.push(byte(read_word(raw, i * 4), 0));
    }
    out
}

/// The render nodes that are tried, in order.
pub fn render_node(i: u32) -> (r: Option<u32>)
    ensures
        r == (if i < 8 {
            Some((128 + i) as u32)
        } else {
            None
        }),
{
    if i < 8 {
        Some(128 + i)
    } else {
        None
    }
}

/// The bytes of a word that was read are those that stood there, in their
/// order; the three of a color are its red, green and blue.
pub proof fn law_bytes_come_back(b: Seq<u8>, at: int)
    ensures
        byte_of(word_at(b, at), 0) == b[at],
        byte_of(word_at(b, at), 1) == b[at + 1],
        byte_of(word_at(b, at), 2) == b[at + 2],
        byte_of(word_at(b, at), 3) == b[at + 3],
        color_of(word_at(b, at)) == seq![b[at], b[at + 1], b[at + 2]],
{
    crate::capture::law_words_are_little_endian(b, at);
    assert(color_of(word_at(b, at)) =~= seq![b[at], b[at + 1], b[at + 2]]);
}

} // verus!
