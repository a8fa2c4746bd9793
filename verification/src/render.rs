//! Text renderers: brightness to characters, edge detection, text overlay.

use vstd::prelude::*;
use crate::canvas::{fits, lemma_position};
use crate::text::chars_of;

verus! {

/// Characters from dark to bright.
pub open spec fn luma_map() -> Seq<char> {
    seq![
        ' ', '.', '\'', '`', '^', '"', ',', ':', ';', 'I', 'l', '!', 'i',
        '>', '<', '~', '+', '_', '-', '?', ']', '[', '}', '{', '1', ')',
        '(', '|', '\\', '/', 't', 'f', 'j', 'r', 'x', 'n', 'u', 'v', 'c',
        'z', 'X', 'Y', 'U', 'J', 'C', 'L', 'Q', '0', 'O', 'Z', 'm', 'w',
        'q', 'p', 'd', 'b', 'k', 'h', 'a', 'o', '*', '#', 'M', 'W', '&',
        '8', '%', 'B', '@', '$',
    ]
}

/// The character for a brightness.
pub open spec fn luma_char(luma: u8) -> char {
    luma_map()[(luma * 69) / 255]
}

fn luma_table() -> (t: [char; 70])
    ensures
        t@ == luma_map(),
{
    let t: [char; 70] = [
        ' ', '.', '\'', '`', '^', '"', ',', ':', ';', 'I', 'l', '!', 'i',
        '>', '<', '~', '+', '_', '-', '?', ']', '[', '}', '{', '1', ')',
        '(', '|', '\\', '/', 't', 'f', 'j', 'r', 'x', 'n', 'u', 'v', 'c',
        'z', 'X', 'Y', 'U', 'J', 'C', 'L', 'Q', '0', 'O', 'Z', 'm', 'w',
        'q', 'p', 'd', 'b', 'k', 'h', 'a', 'o', '*', '#', 'M', 'W', '&',
        '8', '%', 'B', '@', '$',
    ];
    assert(t@ =~= luma_map());
    t
}

/// The character for a brightness, from blank for 0 to `$` for 255.
pub fn luma_to_char(luma: u8) -> (c: char)
    ensures
        c == luma_char(luma),
{
    let t: [char; 70] = luma_table();
    t[(luma as usize * 69) / 255]
}

/// Black renders as a blank, white as the densest character.
pub proof fn law_luma_ends()
    ensures
        luma_char(0) == ' ',
        luma_char(255) == '$',
{
}

// ── Terminal cells ───────────────────────────────────────────────────────

/// One cell of a captured terminal.
#[derive(Clone, Copy, Debug, PartialEq, Eq, Structural)]
pub struct Cell {
    pub ch: char,
    pub luma: u8,
}

/// A printable ASCII character other than a space.
pub open spec fn graphic(c: char) -> bool {
    '!' <= c <= '~'
}

pub fn is_graphic(c: char) -> (r: bool)
    ensures
        r == graphic(c),
{
    '!' <= c && c <= '~'
}

impl Cell {
    /// What the cell shows: its character where that is printable, else the
    /// character for its brightness.
    pub open spec fn shown(self) -> char {
        if graphic(self.ch) {
            self.ch
        } else {
            luma_char(self.luma)
        }
    }

    pub fn rendered(&self) -> (c: char)
        ensures
            c == self.shown(),
    {
        if is_graphic(self.ch) {
            self.ch
        } else {
            luma_to_char(self.luma)
        }
    }
}

/// A captured terminal, row by row.
pub struct TermFrame {
    pub cells: Vec<Cell>,
    pub width: u16,
    pub height: u16,
}

pub fn render_chars(frame: &TermFrame) -> (r: Vec<char>)
    ensures
        r@ == Seq::new(frame.cells@.len(), |i: int| frame.cells@[i].shown()),
{
    let mut out: Vec<char> = Vec::new();
    for i in 0..frame.cells.len()
        invariant
            out.len() == i,
            forall|j: int| 0 <= j < i ==> out[j] == (#[trigger] frame.cells@[j]).shown(),
    {
        out.push(frame.cells[i].rendered());
    }
    assert(out@ =~= Seq::new(frame.cells@.len(), |i: int| frame.cells@[i].shown()));
    out
}

// ── Brightness of an image ───────────────────────────────────────────────

/// The brightness, row by row, of the RGBA image `w`×`h` in `rgba` scaled to
/// `cols`×`rows`: what `RgbaImage::from_raw`, `resize_exact` with the triangle
/// filter and `to_luma8` of the `image` crate give.
pub uninterp spec fn resized_luma(
    rgba: Seq<u8>,
    w: u32,
    h: u32,
    cols: u16,
    rows: u16,
) -> Seq<u8>;

/// `RgbaImage::from_raw`, `DynamicImage::resize_exact` with the triangle
/// filter, and `to_luma8` of the `image` crate. `from_raw` takes a buffer with
/// at least four bytes for each pixel and refuses a shorter one; the scaled
/// image has one brightness for each of its pixels. The filter divides by the
/// sum of its weights, which is never zero here: it reaches at least one pixel
/// to each side and, as a grid has at most 65535 cells in a row or column, far
/// more pixels than its single-precision positions are off by.
#[verifier::external_body]
fn image_luma(rgba: &[u8], w: u32, h: u32, cols: u16, rows: u16) -> (r: Option<Vec<u8>>)
    ensures
        r is Some <==> fits(rgba@.len(), w, h),
        r matches Some(v) ==> v@ == resized_luma(rgba@, w, h, cols, rows) && v@.len() == cols * rows,
{
    let img = image::RgbaImage::from_raw(w, h, rgba.to_vec())?;
    let scaled = image::DynamicImage::ImageRgba8(img).resize_exact(
        cols as u32,
        rows as u32,
        image::imageops::FilterType::Triangle,
    );
    Some(scaled.to_luma8().into_raw())
}

/// The brightness of each cell of a `cols`×`rows` grid laid over the image;
/// all dark where the buffer is too short for the image.
pub fn compute_luma(rgba: &[u8], src_w: u32, src_h: u32, cols: u16, rows: u16) -> (r: Vec<u8>)
    ensures
        r@.len() == cols * rows,
        fits(rgba@.len(), src_w, src_h) ==> r@ == resized_luma(rgba@, src_w, src_h, cols, rows),
        !fits(rgba@.len(), src_w, src_h) ==> r@ == Seq::new((cols * rows) as nat, |i: int| 0u8),
{
    match image_luma(rgba, src_w, src_h, cols, rows) {
        Some(v) => v,
        None => {
            assert(0 <= cols * rows <= 65535 * 65535) by (nonlinear_arith)
                requires
                    0 <= cols <= 65535,
                    0 <= rows <= 65535,
            ;
            let full: usize = cols as usize * rows as usize;
            let mut v: Vec<u8> = Vec::new();
            for i in 0..full
                invariant
                    v.len() == i,
                    forall|j: int| 0 <= j < i ==> v[j] == 0,
            {
                v.push(0);
            }
            assert(v@ =~= Seq::new((cols * rows) as nat, |i: int| 0u8));
            v
        },
    }
}

// ── Stability ────────────────────────────────────────────────────────────

pub open spec fn difference(a: u8, b: u8) -> int {
    if a > b {
        a - b
    } else {
        b - a
    }
}

/// A value follows the current one where the two differ by the threshold or
/// more.
pub open spec fn settled(stable: u8, current: u8, threshold: u8) -> u8 {
    if difference(stable, current) >= threshold {
        current
    } else {
        stable
    }
}

/// Moves stable values that the current ones left by `threshold` or more.
/// Returns whether any did. Values past the shorter list stay.
pub fn apply_hysteresis(stable: &mut Vec<u8>, current: &[u8], threshold: u8) -> (changed: bool)
    ensures
        final(stable)@ == Seq::new(
            old(stable)@.len(),
            |i: int|
                if i < current@.len() {
                    settled(old(stable)@[i], current@[i], threshold)
                } else {
                    old(stable)@[i]
                },
        ),
        changed <==> exists|i: int|
            0 <= i < old(stable)@.len() && i < current@.len() && difference(
                #[trigger] old(stable)@[i],
                current@[i],
            ) >= threshold,
{
    let ghost start = stable@;
    let mut changed: bool = false;
    let n: usize = if stable.len() < current.len() {
        stable.len()
    } else {
        current.len()
    };
    for i in 0..n
        invariant
            n <= current.len(),
            n <= start.len(),
            stable@ =~= Seq::new(
                start.len(),
                |j: int|
                    if j < i {
                        settled(start[j], current@[j], threshold)
                    } else {
                        start[j]
                    },
            ),
            changed <==> exists|j: int|
                0 <= j < i && difference(#[trigger] start[j], current@[j]) >= threshold,
    {
        let s: u8 = stable[i];
        let c: u8 = current[i];
        let d: u8 = if s > c {
            s - c
        } else {
            c - s
        };
        assert(s == start[i as int]);
        if d >= threshold {
            stable.set(i, c);
            changed = true;
            assert(difference(start[i as int], current@[i as int]) >= threshold);
        }
    }
    assert(stable@ =~= Seq::new(
        start.len(),
        |i: int|
            if i < current@.len() {
                settled(start[i], current@[i], threshold)
            } else {
                start[i]
            },
    ));
    changed
}

/// A second pass with the same current values and a threshold above zero
/// changes nothing.
pub proof fn law_hysteresis_settles(stable: u8, current: u8, threshold: u8)
    requires
        threshold > 0,
    ensures
        settled(settled(stable, current, threshold), current, threshold) == settled(
            stable,
            current,
            threshold,
        ),
{
}

// ── Edges ────────────────────────────────────────────────────────────────

/// The brightness at a cell; cells outside the grid are neutral.
pub open spec fn luma_at(luma: Seq<u8>, cols: int, rows: int, row: int, col: int) -> u8 {
    if row < 0 || col < 0 || row >= rows || col >= cols {
        128
    } else {
        luma[row * cols + col]
    }
}

/// The character of a cell: `|`, `-` or `+` where the contrast across it is
/// sharp, else the one for its brightness.
pub open spec fn edge_char(luma: Seq<u8>, cols: int, rows: int, row: int, col: int) -> char {
    let horiz = difference(
        luma_at(luma, cols, rows, row, col - 1),
        luma_at(luma, cols, rows, row, col + 1),
    );
    let vert = difference(
        luma_at(luma, cols, rows, row - 1, col),
        luma_at(luma, cols, rows, row + 1, col),
    );
    if horiz > 38 && vert > 38 {
        '+'
    } else if horiz > 38 {
        '|'
    } else if vert > 38 {
        '-'
    } else {
        luma_char(luma_at(luma, cols, rows, row, col))
    }
}

fn get_luma(luma: &[u8], c: i32, r: i32, row: i32, col: i32) -> (v: u8)
    requires
        0 <= c <= 65535,
        0 <= r <= 65535,
        c * r <= luma@.len(),
    ensures
        v == luma_at(luma@, c as int, r as int, row as int, col as int),
{
    if row < 0 || col < 0 || row >= r || col >= c {
        return 128;
    }
    proof {
        lemma_position(col as int, row as int, c as int, r as int);
    }
    assert(0 <= row * c <= 65535 * 65535) by (nonlinear_arith)
        requires
            0 <= row <= 65535,
            0 <= c <= 65535,
    ;
    luma[row as usize * c as usize + col as usize]
}

fn contrast(a: u8, b: u8) -> (d: u8)
    ensures
        d == difference(a, b),
{
    if a > b {
        a - b
    } else {
        b - a
    }
}

/// Map stabilised luma values to characters, with cell-level edge detection.
///
/// Each cell is compared against its left/right/above/below neighbours.
/// A sharp luma jump between neighbours means there is a UI boundary running
/// through this cell: it becomes `|`, `-`, or `+` instead of a luma char.
pub fn luma_to_chars(luma: &[u8], cols: u16, rows: u16) -> (out: Vec<char>)
    requires
        cols * rows <= luma@.len(),
    ensures
        out@.len() == cols * rows,
        forall|row: int, col: int|
            0 <= row < rows && 0 <= col < cols ==> #[trigger] out@[row * cols + col] == edge_char(
                luma@,
                cols as int,
                rows as int,
                row,
                col,
            ),
{
    let c: i32 = cols as i32;
    let r: i32 = rows as i32;
    let mut out: Vec<char> = Vec::new();
    assert(0 * c == 0) by (nonlinear_arith);
    for row in 0..r
        invariant
            c == cols,
            r == rows,
            c * r <= luma@.len(),
            out.len() == row * c,
            forall|y: int, x: int|
                0 <= y < row && 0 <= x < c ==> #[trigger] out@[y * c + x] == edge_char(
                    luma@,
                    c as int,
                    r as int,
                    y,
                    x,
                ),
    {
        for col in 0..c
            invariant
                c == cols,
                r == rows,
                0 <= row < r,
                c * r <= luma@.len(),
                out.len() == row * c + col,
                forall|y: int, x: int|
                    (0 <= y < row && 0 <= x < c) || (y == row && 0 <= x < col)
                        ==> #[trigger] out@[y * c + x] == edge_char(
                        luma@,
                        c as int,
                        r as int,
                        y,
                        x,
                    ),
        {
            let l: u8 = get_luma(luma, c, r, row, col);
            // Contrast left to right means a vertical edge.
            let horiz: u8 = contrast(
                get_luma(luma, c, r, row, col - 1),
                get_luma(luma, c, r, row, col + 1),
            );
            // Contrast above to below means a horizontal edge.
            let vert: u8 = contrast(
                get_luma(luma, c, r, row - 1, col),
                get_luma(luma, c, r, row + 1, col),
            );
            let ch: char = if horiz > 38 && vert > 38 {
                '+'
            } else if horiz > 38 {
                '|'
            } else if vert > 38 {
                '-'
            } else {
                luma_to_char(l)
            };
            let ghost before = out@;
            out.push(ch);
            proof {
                assert forall|y: int, x: int|
                    (0 <= y < row && 0 <= x < c) || (y == row && 0 <= x < col + 1) implies #[trigger] out@[y
                    * c + x] == edge_char(luma@, c as int, r as int, y, x) by {
                    if y < row {
                        assert(y * c + x < row * c) by (nonlinear_arith)
                            requires
                                0 <= y,
                                y + 1 <= row,
                                0 <= x < c,
                        ;
                        assert(0 <= y * c) by (nonlinear_arith)
                            requires
                                0 <= y,
                                0 <= c,
                        ;
                        assert(out@[y * c + x] == before[y * c + x]);
                    } else if x < col {
                        assert(0 <= row * c) by (nonlinear_arith)
                            requires
                                0 <= row,
                                0 <= c,
                        ;
                        assert(out@[y * c + x] == before[y * c + x]);
                    }
                }
            }
        }
        assert((row + 1) * c == row * c + c) by (nonlinear_arith);
    }
    assert(r * c == cols * rows) by (nonlinear_arith)
        requires
            r == rows,
            c == cols,
    ;
    out
}

// ── Text overlay ─────────────────────────────────────────────────────────

/// A text element placed at a specific terminal cell position, stamped over
/// the rendered grid.
pub struct TextCell {
    pub col: u16,
    pub row: u16,
    pub text: String,
}

/// `chars` with the first `n` characters of one text stamped on it. Only
/// printable ASCII is stamped; what lies past the grid is dropped.
pub open spec fn stamped_text(chars: Seq<char>, t: Seq<char>, base: int, n: int) -> Seq<char> {
    Seq::new(
        chars.len(),
        |i: int|
            if base <= i < base + n && (graphic(t[i - base]) || t[i - base] == ' ') {
                t[i - base]
            } else {
                chars[i]
            },
    )
}

/// The number of characters of `t` left of the grid's right edge.
pub open spec fn room(t: Seq<char>, col: u16, cols: u16) -> int {
    if t.len() < cols - col {
        t.len() as int
    } else {
        cols - col
    }
}

/// `chars` with all texts stamped on it in order.
pub open spec fn stamped(chars: Seq<char>, text: Seq<TextCell>, cols: u16) -> Seq<char>
    decreases text.len(),
{
    if text.len() == 0 {
        chars
    } else {
        let t = text.last();
        stamped_text(
            stamped(chars, text.drop_last(), cols),
            t.text@,
            t.row * cols + t.col,
            room(t.text@, t.col, cols),
        )
    }
}

/// Stamp text elements over an already-rendered char grid. Text is truncated
/// at the right edge of the terminal.
pub fn apply_text_overlay(chars: &mut [char], text: &[TextCell], cols: u16)
    requires
        forall|i: int| 0 <= i < text@.len() ==> (#[trigger] text@[i]).col <= cols,
    ensures
        final(chars)@ == stamped(old(chars)@, text@, cols),
{
    let ghost start = chars@;
    assert(text@.take(0) =~= Seq::<TextCell>::empty());
    for k in 0..text.len()
        invariant
            forall|i: int| 0 <= i < text@.len() ==> (#[trigger] text@[i]).col <= cols,
            chars@ == stamped(start, text@.take(k as int), cols),
    {
        let tc: &TextCell = &text[k];
        assert(text@[k as int] == *tc);
        let ghost before = chars@;
        let t: Vec<char> = chars_of(tc.text.as_str());
        assert(0 <= tc.row * cols <= 65535 * 65535) by (nonlinear_arith)
            requires
                0 <= tc.row <= 65535,
                0 <= cols <= 65535,
        ;
        let base: u64 = tc.row as u64 * cols as u64 + tc.col as u64;
        let space: usize = (cols - tc.col) as usize;
        let n: usize = if t.len() < space {
            t.len()
        } else {
            space
        };
        for i in 0..n
            invariant
                n <= t.len(),
                n <= 65535,
                base <= 65535 * 65535 + 65535,
                chars@ =~= stamped_text(before, t@, base as int, i as int),
        {
            let at: u64 = base + i as u64;
            let ch: char = t[i];
            if at < chars.len() as u64 {
                if is_graphic(ch) || ch == ' ' {
                    chars[at as usize] = ch;
                }
            }
        }
        assert(text@.take(k + 1).drop_last() =~= text@.take(k as int));
        assert(text@.take(k + 1).last() == *tc);
    }
    assert(text@.take(text.len() as int) =~= text@);
}

// ── Half blocks ──────────────────────────────────────────────────────────

/// The colors of one cell drawn as an upper half block: the upper half in
/// `fg`, the lower in `bg`.
#[derive(Clone, Copy, Debug)]
pub struct ColorCell {
    pub fg: [u8; 3],
    pub bg: [u8; 3],
}

/// The pixels, row by row, of the RGBA image `w`×`h` in `rgba` scaled to
/// `cols`×`rows`: what `RgbaImage::from_raw` and `imageops::resize` with the
/// nearest pixel of the `image` crate give.
pub uninterp spec fn nearest_pixels(
    rgba: Seq<u8>,
    w: u32,
    h: u32,
    cols: u32,
    rows: u32,
) -> Seq<u8>;

/// `RgbaImage::from_raw` and `imageops::resize` with the nearest pixel, of the
/// `image` crate. `from_raw` takes a buffer with at least four bytes for each
/// pixel and refuses a shorter one; the scaled image has four bytes for each of
/// its pixels. Each weight of this filter is one, so their sum is never zero.
#[verifier::external_body]
fn image_nearest(rgba: &[u8], w: u32, h: u32, cols: u32, rows: u32) -> (r: Option<Vec<u8>>)
    requires
        cols <= 65535,
        rows <= 131070,
    ensures
        r is Some <==> fits(rgba@.len(), w, h),
        r matches Some(v) ==> v@ == nearest_pixels(rgba@, w, h, cols, rows) && v@.len() == 4 * (cols
            * rows),
{
    let img = image::RgbaImage::from_raw(w, h, rgba.to_vec())?;
    let small = image::imageops::resize(&img, cols, rows, image::imageops::FilterType::Nearest);
    Some(small.into_raw())
}

/// The color of a pixel of a picture `cols` pixels wide.
pub open spec fn color_at(pixels: Seq<u8>, cols: int, x: int, y: int) -> Seq<u8> {
    let at = 4 * (y * cols + x);
    seq![pixels[at], pixels[at + 1], pixels[at + 2]]
}

/// Two pixels in each cell of a picture `cols` pixels wide: the upper one in
/// front, the lower one behind.
pub open spec fn halves(pixels: Seq<u8>, cols: int, i: int) -> (Seq<u8>, Seq<u8>) {
    (
        color_at(pixels, cols, i % cols, 2 * (i / cols)),
        color_at(pixels, cols, i % cols, 2 * (i / cols) + 1),
    )
}

/// The half blocks of a `cols`×`rows` grid laid over the image; all black where
/// the buffer is too short for the image.
pub fn rgba_to_halfblocks(rgba: &[u8], w: u32, h: u32, cols: u16, rows: u16) -> (r: Vec<ColorCell>)
    ensures
        r@.len() == cols * rows,
        fits(rgba@.len(), w, h) ==> forall|i: int|
            0 <= i < cols * rows ==> ((#[trigger] r@[i]).fg@, r@[i].bg@) == halves(
                nearest_pixels(rgba@, w, h, cols as u32, (2 * rows) as u32),
                cols as int,
                i,
            ),
        !fits(rgba@.len(), w, h) ==> forall|i: int|
            0 <= i < cols * rows ==> (#[trigger] r@[i]).fg@ == seq![0u8, 0, 0] && r@[i].bg@
                == seq![0u8, 0, 0],
{
    let mut out: Vec<ColorCell> = Vec::new();
    let picture: Option<Vec<u8>> = image_nearest(rgba, w, h, cols as u32, rows as u32 * 2);
    let ghost p = nearest_pixels(rgba@, w, h, cols as u32, (2 * rows) as u32);
    assert(0 * cols == 0) by (nonlinear_arith);
    for y in 0..rows
        invariant
            out@.len() == y * cols,
            picture is Some <==> fits(rgba@.len(), w, h),
            picture matches Some(v) ==> v@ == p && v@.len() == 4 * (cols * (2 * rows)),
            picture is Some ==> forall|i: int|
                0 <= i < y * cols ==> ((#[trigger] out@[i]).fg@, out@[i].bg@) == halves(
                    p,
                    cols as int,
                    i,
                ),
            picture is None ==> forall|i: int|
                0 <= i < y * cols ==> (#[trigger] out@[i]).fg@ == seq![0u8, 0, 0] && out@[i].bg@
                    == seq![0u8, 0, 0],
    {
        for x in 0..cols
            invariant
                y < rows,
                out@.len() == y * cols + x,
                picture is Some <==> fits(rgba@.len(), w, h),
                picture matches Some(v) ==> v@ == p && v@.len() == 4 * (cols * (2 * rows)),
                picture is Some ==> forall|i: int|
                    0 <= i < y * cols + x ==> ((#[trigger] out@[i]).fg@, out@[i].bg@) == halves(
                        p,
                        cols as int,
                        i,
                    ),
                picture is None ==> forall|i: int|
                    0 <= i < y * cols + x ==> (#[trigger] out@[i]).fg@ == seq![0u8, 0, 0]
                        && out@[i].bg@ == seq![0u8, 0, 0],
        {
            let cell: ColorCell = match &picture {
                Some(v) => ColorCell {
                    fg: color_of(v, cols, 2 * (rows as u32), x, 2 * (y as u32)),
                    bg: color_of(v, cols, 2 * (rows as u32), x, 2 * (y as u32) + 1),
                },
                None => ColorCell { fg: [0, 0, 0], bg: [0, 0, 0] },
            };
            proof {
                lemma_position(x as int, y as int, cols as int, rows as int);
                assert([0u8, 0, 0]@ =~= seq![0u8, 0, 0]);
            }
            out.push(cell);
        }
        assert((y + 1) * cols == y * cols + cols) by (nonlinear_arith);
    }
    assert(rows * cols == cols * rows) by (nonlinear_arith);
    out
}

fn color_of(v: &Vec<u8>, cols: u16, rows: u32, x: u16, y: u32) -> (c: [u8; 3])
    requires
        x < cols,
        y < rows <= 131070,
        v@.len() == 4 * (cols * rows),
    ensures
        c@ == color_at(v@, cols as int, x as int, y as int),
{
    proof {
        lemma_position(x as int, y as int, cols as int, rows as int);
        assert(y * cols <= 131070 * 65535) by (nonlinear_arith)
            requires
                0 <= y <= 131070,
                0 <= cols <= 65535,
        ;
    }
    let n: usize = v.len();
    let at: usize = (4 * (y as u64 * cols as u64 + x as u64)) as usize;
    assert(at == 4 * (y * cols + x) && at + 3 < n);
    let c: [u8; 3] = [v[at], v[at + 1], v[at + 2]];
    assert(c@ =~= color_at(v@, cols as int, x as int, y as int));
    c
}

// ── What the renderers keep ──────────────────────────────────────────────

/// Brighter never looks sparser: the place of a character on the ramp follows
/// the brightness, in even steps from the first to the last.
pub proof fn law_ramp_follows_brightness(a: u8, b: u8)
    requires
        a <= b,
    ensures
        exists|i: int, j: int|
            0 <= i <= j < 70 && luma_char(a) == #[trigger] luma_map()[i] && luma_char(b)
                == #[trigger] luma_map()[j] && 255 * i <= 69 * a && 69 * a < 255 * (i + 1) && 255
                * j <= 69 * b && 69 * b < 255 * (j + 1),
{
    let i = (a * 69) / 255;
    let j = (b * 69) / 255;
    assert(luma_char(a) == luma_map()[i] && luma_char(b) == luma_map()[j]);
}

/// A sharp contrast across a cell is an edge whichever side is the brighter
/// one: between left and right it stands up, between above and below it lies
/// down, and where both are sharp it crosses. Without one the cell keeps the
/// character of its brightness. What lies outside the grid counts as neutral.
pub proof fn law_contrast_is_an_edge(luma: Seq<u8>, cols: int, rows: int, row: int, col: int)
    requires
        0 <= row < rows,
        0 <= col < cols,
    ensures
        ({
            let side = |inner: bool, at: int| if inner { luma[at] as int } else { 128 };
            let left = side(col > 0, row * cols + col - 1);
            let right = side(col + 1 < cols, row * cols + col + 1);
            let above = side(row > 0, (row - 1) * cols + col);
            let below = side(row + 1 < rows, (row + 1) * cols + col);
            let upright = left > right + 38 || right > left + 38;
            let lying = above > below + 38 || below > above + 38;
            let c = edge_char(luma, cols, rows, row, col);
            &&& upright && lying ==> c == '+'
            &&& upright && !lying ==> c == '|'
            &&& !upright && lying ==> c == '-'
            &&& !upright && !lying ==> c == luma_char(luma[row * cols + col])
        }),
{
}

/// A picture mirrored left to right has its characters mirrored.
pub proof fn law_edges_mirror_left_to_right(
    luma: Seq<u8>,
    mirrored: Seq<u8>,
    cols: int,
    rows: int,
    row: int,
    col: int,
)
    requires
        0 <= row < rows,
        0 <= col < cols,
        forall|r: int, c: int|
            0 <= r < rows && 0 <= c < cols ==> #[trigger] mirrored[r * cols + c] == luma[r * cols + (
            cols - 1 - c)],
    ensures
        edge_char(mirrored, cols, rows, row, col) == edge_char(
            luma,
            cols,
            rows,
            row,
            cols - 1 - col,
        ),
{
    let far = cols - 1 - col;
    assert forall|r: int, c: int| 0 <= r < rows && 0 <= c < cols implies #[trigger] luma_at(
        mirrored,
        cols,
        rows,
        r,
        c,
    ) == luma_at(luma, cols, rows, r, cols - 1 - c) by {
        assert(mirrored[r * cols + c] == luma[r * cols + (cols - 1 - c)]);
    }
    assert(luma_at(mirrored, cols, rows, row, col) == luma_at(luma, cols, rows, row, far));
    assert(luma_at(mirrored, cols, rows, row, col - 1) == luma_at(luma, cols, rows, row, far + 1));
    assert(luma_at(mirrored, cols, rows, row, col + 1) == luma_at(luma, cols, rows, row, far - 1));
    assert(luma_at(mirrored, cols, rows, row - 1, col) == luma_at(luma, cols, rows, row - 1, far));
    assert(luma_at(mirrored, cols, rows, row + 1, col) == luma_at(luma, cols, rows, row + 1, far));
}

/// A picture mirrored top to bottom has its characters mirrored.
pub proof fn law_edges_mirror_top_to_bottom(
    luma: Seq<u8>,
    mirrored: Seq<u8>,
    cols: int,
    rows: int,
    row: int,
    col: int,
)
    requires
        0 <= row < rows,
        0 <= col < cols,
        forall|r: int, c: int|
            0 <= r < rows && 0 <= c < cols ==> #[trigger] mirrored[r * cols + c] == luma[(rows - 1
                - r) * cols + c],
    ensures
        edge_char(mirrored, cols, rows, row, col) == edge_char(
            luma,
            cols,
            rows,
            rows - 1 - row,
            col,
        ),
{
    let far = rows - 1 - row;
    assert forall|r: int, c: int| 0 <= r < rows && 0 <= c < cols implies #[trigger] luma_at(
        mirrored,
        cols,
        rows,
        r,
        c,
    ) == luma_at(luma, cols, rows, rows - 1 - r, c) by {
        assert(mirrored[r * cols + c] == luma[(rows - 1 - r) * cols + c]);
    }
    assert(luma_at(mirrored, cols, rows, row, col) == luma_at(luma, cols, rows, far, col));
    assert(luma_at(mirrored, cols, rows, row, col - 1) == luma_at(luma, cols, rows, far, col - 1));
    assert(luma_at(mirrored, cols, rows, row, col + 1) == luma_at(luma, cols, rows, far, col + 1));
    assert(luma_at(mirrored, cols, rows, row - 1, col) == luma_at(luma, cols, rows, far + 1, col));
    assert(luma_at(mirrored, cols, rows, row + 1, col) == luma_at(luma, cols, rows, far - 1, col));
}

/// A value moves only where the new one is away by the threshold or more,
/// upward or downward, and then all the way.
pub proof fn law_small_changes_are_ignored(stable: u8, current: u8, threshold: u8)
    ensures
        stable - threshold < current < stable + threshold ==> settled(stable, current, threshold)
            == stable,
        current <= stable - threshold || current >= stable + threshold ==> settled(
            stable,
            current,
            threshold,
        ) == current,
{
}

/// A cell of half blocks shows two pixels of the same column, the upper in
/// front of the lower one, and each two rows of pixels make one row of cells.
pub proof fn law_half_blocks_stack_two_pixels(pixels: Seq<u8>, cols: int, x: int, y: int)
    requires
        0 <= x < cols,
        0 <= y,
        8 * cols * (y + 1) <= pixels.len(),
    ensures
        ({
            let (front, back) = halves(pixels, cols, y * cols + x);
            let upper = 4 * (2 * y * cols + x);
            let lower = upper + 4 * cols;
            &&& front == pixels.subrange(upper, upper + 3)
            &&& back == pixels.subrange(lower, lower + 3)
        }),
{
    lemma_position(x, y, cols, y + 1);
    let upper = 4 * (2 * y * cols + x);
    assert((2 * y) * cols == 2 * y * cols && (2 * y + 1) * cols == 2 * y * cols + cols)
        by (nonlinear_arith);
    assert(0 <= upper && upper + 4 * cols + 4 <= 8 * cols * (y + 1)) by (nonlinear_arith)
        requires
            upper == 4 * (2 * y * cols + x),
            0 <= x < cols,
            0 <= y,
    ;
    let (front, back) = halves(pixels, cols, y * cols + x);
    assert(front =~= pixels.subrange(upper, upper + 3));
    assert(back =~= pixels.subrange(upper + 4 * cols, upper + 4 * cols + 3));
}

/// A text is written from its cell to the right, as far as the row goes;
/// printable characters replace what was there, others leave it, and nothing
/// else in the grid changes. Of texts that overlap the later one shows.
pub proof fn law_text_is_stamped_on_its_row(
    chars: Seq<char>,
    text: Seq<TextCell>,
    t: TextCell,
    cols: u16,
    r: int,
    c: int,
)
    requires
        t.col <= cols,
        0 <= c < cols,
        0 <= r,
        r * cols + c < chars.len(),
    ensures
        ({
            let before = stamped(chars, text, cols);
            let after = stamped(chars, text.push(t), cols);
            let at = r * cols + c;
            let k = c - t.col;
            &&& after.len() == chars.len()
            &&& r == t.row && 0 <= k < t.text@.len() && ' ' <= t.text@[k] <= '~' ==> after[at]
                == t.text@[k]
            &&& !(r == t.row && 0 <= k < t.text@.len() && ' ' <= t.text@[k] <= '~') ==> after[at]
                == before[at]
        }),
{
    lemma_stamped_len(chars, text, cols);
    assert(text.push(t).drop_last() =~= text);
    let at = r * cols + c;
    let base = t.row * cols + t.col;
    let n = room(t.text@, t.col, cols);
    if base <= at < base + n {
        assert(r == t.row) by (nonlinear_arith)
            requires
                t.row * cols + t.col <= r * cols + c < t.row * cols + cols,
                0 <= t.col,
                0 <= c < cols,
        ;
    }
}

proof fn lemma_stamped_len(chars: Seq<char>, text: Seq<TextCell>, cols: u16)
    ensures
        stamped(chars, text, cols).len() == chars.len(),
    decreases text.len(),
{
    if text.len() > 0 {
        lemma_stamped_len(chars, text.drop_last(), cols);
    }
}

/// A captured cell shows its own character where that is printable, else one
/// for its brightness.
pub proof fn law_printable_cells_show_themselves(c: Cell)
    ensures
        '!' <= c.ch <= '~' ==> c.shown() == c.ch,
        !('!' <= c.ch <= '~') ==> c.shown() == luma_char(c.luma),
{
}

} // verus!
