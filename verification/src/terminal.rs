//! Terminal output: choosing a render mode, and the escape sequences that
//! draw a frame.

use vstd::prelude::*;
use crate::config::{Quality, TermEnv};
use crate::render::{apply_hysteresis, luma_to_char, luma_to_chars, ColorCell};
use crate::render::{edge_char, luma_char, settled};
use crate::text::{append_chars, append_decimal, append_str, chars_of, has_part, is_str, lower_all, string_of};
use crate::text::{contains, decimal, lowered};

verus! {

/// How frames are drawn in a terminal.
#[derive(Clone, Copy, Debug, PartialEq, Eq, Structural)]
pub enum TerminalMode {
    Kitty,
    Halfblock,
    Ascii,
    AsciiEdge,
}

/// The mode that suits a terminal.
pub open spec fn mode_for(env: TermEnv) -> TerminalMode {
    if env.term@ == "xterm-kitty"@ {
        TerminalMode::Kitty
    } else if env.term_program is Some && contains(lowered(env.term_program->0@), "wezterm"@) {
        TerminalMode::Kitty
    } else if env.colorterm@ == "truecolor"@ || env.colorterm@ == "24bit"@ {
        TerminalMode::Halfblock
    } else {
        TerminalMode::Ascii
    }
}

/// Detect best render mode based on terminal capabilities.
pub fn detect_mode(env: &TermEnv) -> (m: TerminalMode)
    ensures
        m == mode_for(*env),
{
    let term: Vec<char> = chars_of(env.term.as_str());
    if is_str(term.as_slice(), "xterm-kitty") {
        return TerminalMode::Kitty;
    }
    if let Some(prog) = &env.term_program {
        let p: Vec<char> = chars_of(prog.as_str());
        let l: Vec<char> = lower_all(p.as_slice());
        let wezterm: Vec<char> = chars_of("wezterm");
        if has_part(l.as_slice(), wezterm.as_slice()) {
            return TerminalMode::Kitty;
        }
    }
    let colorterm: Vec<char> = chars_of(env.colorterm.as_str());
    if is_str(colorterm.as_slice(), "truecolor") || is_str(colorterm.as_slice(), "24bit") {
        return TerminalMode::Halfblock;
    }
    TerminalMode::Ascii
}

/// The mode used: the forced one, else the one that the configured quality
/// names, else the one that suits the terminal. Sixel is not implemented, so
/// it leaves the choice to the terminal too.
pub open spec fn chosen_mode(
    forced: Option<TerminalMode>,
    quality: Quality,
    env: TermEnv,
) -> TerminalMode {
    match forced {
        Some(m) => m,
        None => match quality {
            Quality::Kitty => TerminalMode::Kitty,
            Quality::Pixel => TerminalMode::Halfblock,
            Quality::AsciiLuma => TerminalMode::Ascii,
            Quality::AsciiEdge => TerminalMode::AsciiEdge,
            Quality::Auto => mode_for(env),
            Quality::Sixel => mode_for(env),
        },
    }
}

pub fn resolve_mode(forced: Option<TerminalMode>, quality: Quality, env: &TermEnv) -> (m:
    TerminalMode)
    ensures
        m == chosen_mode(forced, quality, *env),
{
    match forced {
        Some(m) => m,
        None => match quality {
            Quality::Kitty => TerminalMode::Kitty,
            Quality::Pixel => TerminalMode::Halfblock,
            Quality::AsciiLuma => TerminalMode::Ascii,
            Quality::AsciiEdge => TerminalMode::AsciiEdge,
            Quality::Auto => detect_mode(env),
            Quality::Sixel => detect_mode(env),
        },
    }
}

/// The name of a mode on the command line.
pub open spec fn mode_name(m: TerminalMode) -> Seq<char> {
    match m {
        TerminalMode::Kitty => "kitty"@,
        TerminalMode::Halfblock => "halfblock"@,
        TerminalMode::Ascii => "ascii"@,
        TerminalMode::AsciiEdge => "ascii-edge"@,
    }
}

/// The mode that a name on the command line names.
pub open spec fn mode_named(s: Seq<char>) -> Option<TerminalMode> {
    if s == "kitty"@ {
        Some(TerminalMode::Kitty)
    } else if s == "halfblock"@ {
        Some(TerminalMode::Halfblock)
    } else if s == "ascii"@ {
        Some(TerminalMode::Ascii)
    } else if s == "ascii-edge"@ {
        Some(TerminalMode::AsciiEdge)
    } else {
        None
    }
}

impl TerminalMode {
    pub fn from_name(s: &str) -> (m: Option<Self>)
        ensures
            m == mode_named(s@),
    {
        let v: Vec<char> = chars_of(s);
        let c: &[char] = v.as_slice();
        if is_str(c, "kitty") {
            Some(Self::Kitty)
        } else if is_str(c, "halfblock") {
            Some(Self::Halfblock)
        } else if is_str(c, "ascii") {
            Some(Self::Ascii)
        } else if is_str(c, "ascii-edge") {
            Some(Self::AsciiEdge)
        } else {
            None
        }
    }

    pub fn name(&self) -> (s: &'static str)
        ensures
            s@ == mode_name(*self),
    {
        match self {
            Self::Kitty => "kitty",
            Self::Halfblock => "halfblock",
            Self::Ascii => "ascii",
            Self::AsciiEdge => "ascii-edge",
        }
    }
}

/// The name of a mode names the mode.
pub proof fn law_mode_name_reads_back(m: TerminalMode)
    ensures
        mode_named(mode_name(m)) == Some(m),
{
    reveal_strlit("kitty");
    reveal_strlit("halfblock");
    reveal_strlit("ascii");
    reveal_strlit("ascii-edge");
    assert("kitty"@[0] == 'k');
    assert("ascii"@[0] == 'a');
    assert("halfblock"@.len() == 9);
    assert("ascii-edge"@.len() == 10);
}

// ── Drawing ──────────────────────────────────────────────────────────────

/// The escape sequence of one half-block cell.
pub open spec fn cell_sequence(c: ColorCell) -> Seq<char> {
    "\x1b[38;2;"@ + decimal(c.fg@[0] as nat) + ";"@ + decimal(c.fg@[1] as nat) + ";"@ + decimal(
        c.fg@[2] as nat,
    ) + ";48;2;"@ + decimal(c.bg@[0] as nat) + ";"@ + decimal(c.bg@[1] as nat) + ";"@ + decimal(
        c.bg@[2] as nat,
    ) + "m▀"@
}

/// The first `n` cells of row `row`; cells past the end of the list are left
/// out.
pub open spec fn row_sequence(cells: Seq<ColorCell>, cols: int, row: int, n: int) -> Seq<char>
    decreases n,
{
    if n <= 0 {
        Seq::empty()
    } else {
        let before = row_sequence(cells, cols, row, n - 1);
        let at = row * cols + n - 1;
        if at < cells.len() {
            before + cell_sequence(cells[at])
        } else {
            before
        }
    }
}

/// The first `n` rows, each on a line of its own.
pub open spec fn rows_sequence(cells: Seq<ColorCell>, cols: int, n: int) -> Seq<char>
    decreases n,
{
    if n <= 0 {
        Seq::empty()
    } else {
        let before = rows_sequence(cells, cols, n - 1);
        let broken = if n > 1 {
            before + "\r\n"@
        } else {
            before
        };
        broken + row_sequence(cells, cols, n - 1, cols)
    }
}

fn push_cell(out: &mut Vec<char>, c: &ColorCell)
    ensures
        final(out)@ == old(out)@ + cell_sequence(*c),
{
    let ghost start = out@;
    append_str(out, "\x1b[38;2;");
    append_decimal(out, c.fg[0] as u64);
    append_str(out, ";");
    append_decimal(out, c.fg[1] as u64);
    append_str(out, ";");
    append_decimal(out, c.fg[2] as u64);
    append_str(out, ";48;2;");
    append_decimal(out, c.bg[0] as u64);
    append_str(out, ";");
    append_decimal(out, c.bg[1] as u64);
    append_str(out, ";");
    append_decimal(out, c.bg[2] as u64);
    append_str(out, "m▀");
    assert(out@ =~= start + cell_sequence(*c));
}

/// Appends the escape sequences that draw half-block cells, and a reset.
pub fn emit_halfblocks(out: &mut Vec<char>, cells: &[ColorCell], cols: u16, rows: u16)
    ensures
        final(out)@ == old(out)@ + rows_sequence(cells@, cols as int, rows as int) + "\x1b[0m"@,
{
    let ghost start = out@;
    assert(start + rows_sequence(cells@, cols as int, 0) =~= start);
    for row in 0..rows
        invariant
            out@ =~= start + rows_sequence(cells@, cols as int, row as int),
    {
        if row > 0 {
            append_str(out, "\r\n");
        }
        let ghost line = out@;
        assert(line + row_sequence(cells@, cols as int, row as int, 0) =~= line);
        for col in 0..cols
            invariant
                out@ =~= line + row_sequence(cells@, cols as int, row as int, col as int),
        {
            assert(0 <= row * cols <= 65535 * 65535) by (nonlinear_arith)
                requires
                    0 <= row <= 65535,
                    0 <= cols <= 65535,
            ;
            let at: u64 = row as u64 * cols as u64 + col as u64;
            if at < cells.len() as u64 {
                push_cell(out, &cells[at as usize]);
            }
        }
        assert(out@ =~= start + rows_sequence(cells@, cols as int, row + 1)) by {
            let before = rows_sequence(cells@, cols as int, row as int);
            if row > 0 {
                assert(line =~= start + (before + "\r\n"@));
            } else {
                assert(line =~= start + before);
            }
        }
    }
    append_str(out, "\x1b[0m");
}

/// The characters of row `row`; those past the end of the list are left out.
pub open spec fn row_chars(chars: Seq<char>, cols: int, row: int) -> Seq<char> {
    let s = row * cols;
    let e = s + cols;
    if s >= chars.len() {
        Seq::empty()
    } else if e <= chars.len() {
        chars.subrange(s, e)
    } else {
        chars.subrange(s, chars.len() as int)
    }
}

/// The first `n` rows of characters, each on a line of its own.
pub open spec fn rows_chars(chars: Seq<char>, cols: int, n: int) -> Seq<char>
    decreases n,
{
    if n <= 0 {
        Seq::empty()
    } else {
        let before = rows_chars(chars, cols, n - 1);
        let broken = if n > 1 {
            before + "\r\n"@
        } else {
            before
        };
        broken + row_chars(chars, cols, n - 1)
    }
}

fn row_slice<'a>(chars: &'a [char], cols: u16, row: u16) -> (r: &'a [char])
    ensures
        r@ == row_chars(chars@, cols as int, row as int),
{
    assert(0 <= row * cols <= 65535 * 65535) by (nonlinear_arith)
        requires
            0 <= row <= 65535,
            0 <= cols <= 65535,
    ;
    let s: u64 = row as u64 * cols as u64;
    let e: u64 = s + cols as u64;
    let n: u64 = chars.len() as u64;
    if s >= n {
        let r: &[char] = vstd::slice::slice_subrange(chars, 0, 0);
        assert(r@ =~= Seq::<char>::empty());
        r
    } else if e <= n {
        vstd::slice::slice_subrange(chars, s as usize, e as usize)
    } else {
        vstd::slice::slice_subrange(chars, s as usize, n as usize)
    }
}

/// Appends a grid of characters.
pub fn emit_chars_vec(out: &mut Vec<char>, chars: &[char], cols: u16, rows: u16)
    ensures
        final(out)@ == old(out)@ + rows_chars(chars@, cols as int, rows as int),
{
    let ghost start = out@;
    assert(start + rows_chars(chars@, cols as int, 0) =~= start);
    for row in 0..rows
        invariant
            out@ =~= start + rows_chars(chars@, cols as int, row as int),
    {
        if row > 0 {
            append_str(out, "\r\n");
        }
        let line: &[char] = row_slice(chars, cols, row);
        let ghost broken = out@;
        append_chars(out, line);
        assert(out@ =~= start + rows_chars(chars@, cols as int, row + 1)) by {
            let before = rows_chars(chars@, cols as int, row as int);
            if row > 0 {
                assert(broken =~= start + (before + "\r\n"@));
            } else {
                assert(broken =~= start + before);
            }
        }
    }
}

/// The rows of the terminal that a frame uses: all but the last.
pub open spec fn usable(rows: u16) -> u16 {
    if rows > 0 {
        (rows - 1) as u16
    } else {
        0
    }
}

/// What a frame has been turned into.
pub enum FrameCells {
    /// A finished kitty graphics sequence.
    Image(String),
    Colors(Vec<ColorCell>),
    Luma(Vec<u8>),
}

/// Each brightness as its character.
pub open spec fn plain_grid(luma: Seq<u8>) -> Seq<char> {
    Seq::new(luma.len(), |i: int| luma_char(luma[i]))
}

pub fn plain_chars(luma: &[u8]) -> (r: Vec<char>)
    ensures
        r@ == plain_grid(luma@),
{
    let mut v: Vec<char> = Vec::new();
    for i in 0..luma.len()
        invariant
            v.len() == i,
            forall|j: int| 0 <= j < i ==> v[j] == luma_char(luma@[j]),
    {
        v.push(luma_to_char(luma[i]));
    }
    assert(v@ =~= plain_grid(luma@));
    v
}

/// The grid of edge-detected characters for a brightness per cell.
pub open spec fn edge_grid(luma: Seq<u8>, cols: int, rows: int) -> Seq<char> {
    Seq::new(
        (cols * rows) as nat,
        |i: int| edge_char(luma, cols, rows, i / cols, i % cols),
    )
}

/// The brightness shown after `luma` was seen: it starts over where the grid
/// has another size, and otherwise follows changes of ten or more.
pub open spec fn steadied(stable: Seq<u8>, luma: Seq<u8>) -> Seq<u8> {
    if stable.len() != luma.len() {
        luma
    } else {
        Seq::new(luma.len(), |i: int| settled(stable[i], luma[i], 10))
    }
}

/// A terminal that frames are drawn in.
pub struct TerminalOutput {
    pub mode: TerminalMode,
    pub width: u32,
    pub height: u32,
    pub cols: u16,
    pub rows: u16,
    pub stable_luma: Vec<u8>,
}

/// Whether the cells of a frame suit the mode and fill the grid.
pub open spec fn suits(mode: TerminalMode, cells: FrameCells, cols: u16, rows: u16) -> bool {
    match mode {
        TerminalMode::Kitty => cells is Image,
        TerminalMode::Halfblock => cells is Colors,
        _ => cells matches FrameCells::Luma(l) && l@.len() == cols * usable(rows),
    }
}

fn edge_chars(luma: &[u8], cols: u16, rows: u16) -> (r: Vec<char>)
    requires
        luma@.len() == cols * rows,
    ensures
        r@ == edge_grid(luma@, cols as int, rows as int),
{
    let r: Vec<char> = luma_to_chars(luma, cols, rows);
    proof {
        assert forall|i: int| 0 <= i < r@.len() implies r@[i] == edge_grid(
            luma@,
            cols as int,
            rows as int,
        )[i] by {
            crate::canvas::lemma_coordinates(i, cols as int, rows as int);
            let row = i / (cols as int);
            let col = i % (cols as int);
            assert(r@[row * cols + col] == edge_char(
                luma@,
                cols as int,
                rows as int,
                row,
                col,
            ));
        }
        assert(r@ =~= edge_grid(luma@, cols as int, rows as int));
    }
    r
}

impl TerminalOutput {
    /// A terminal of `cols`×`rows` cells; cells of 8×16 pixels are assumed
    /// where its size in pixels is not known.
    pub fn new(mode: TerminalMode, cols: u16, rows: u16, pixels: Option<(u32, u32)>) -> (t: Self)
        ensures
            t.mode == mode,
            t.cols == cols,
            t.rows == rows,
            t.stable_luma@.len() == 0,
            (t.width, t.height) == (match pixels {
                Some(p) => p,
                None => ((cols * 8) as u32, (rows * 16) as u32),
            }),
    {
        let (width, height): (u32, u32) = match pixels {
            Some(p) => p,
            None => (cols as u32 * 8, rows as u32 * 16),
        };
        TerminalOutput { mode, width, height, cols, rows, stable_luma: Vec::new() }
    }

    /// What is written for a frame: the cursor goes home, then the frame.
    pub open spec fn drawn(self, cells: FrameCells, cols: u16, rows: u16) -> Seq<char> {
        "\x1b[H"@ + match (self.mode, cells) {
            (TerminalMode::Kitty, FrameCells::Image(s)) => s@,
            (TerminalMode::Halfblock, FrameCells::Colors(c)) => rows_sequence(
                c@,
                cols as int,
                usable(rows) as int,
            ) + "\x1b[0m"@,
            (TerminalMode::Ascii, FrameCells::Luma(l)) => rows_chars(
                plain_grid(l@),
                cols as int,
                usable(rows) as int,
            ),
            (TerminalMode::AsciiEdge, FrameCells::Luma(l)) => rows_chars(
                edge_grid(
                    steadied(self.stable_luma@, l@),
                    cols as int,
                    usable(rows) as int,
                ),
                cols as int,
                usable(rows) as int,
            ),
            _ => Seq::empty(),
        }
    }

    /// Draws a frame whose cells are ready on a terminal that now has
    /// `cols`×`rows` cells; the last row stays free.
    pub fn render_output(&mut self, cells: &FrameCells, cols: u16, rows: u16) -> (out: String)
        requires
            suits(old(self).mode, *cells, cols, rows),
        ensures
            out@ == old(self).drawn(*cells, cols, rows),
            final(self).mode == old(self).mode,
            final(self).cols == cols,
            final(self).rows == rows,
            final(self).width == old(self).width,
            final(self).height == old(self).height,
            final(self).stable_luma@ == (match (old(self).mode, *cells) {
                (TerminalMode::AsciiEdge, FrameCells::Luma(l)) => steadied(
                    old(self).stable_luma@,
                    l@,
                ),
                _ => old(self).stable_luma@,
            }),
    {
        self.cols = cols;
        self.rows = rows;
        let usable_rows: u16 = if rows > 0 {
            rows - 1
        } else {
            0
        };
        let mut out: Vec<char> = Vec::new();
        append_str(&mut out, "\x1b[H");
        let ghost home = out@;
        assert(home =~= "\x1b[H"@);
        match cells {
            FrameCells::Image(s) => {
                append_str(&mut out, s.as_str());
            },
            FrameCells::Colors(c) => {
                emit_halfblocks(&mut out, c.as_slice(), cols, usable_rows);
                assert(out@ =~= home + (rows_sequence(c@, cols as int, usable_rows as int)
                    + "\x1b[0m"@));
            },
            FrameCells::Luma(l) => {
                if self.mode == TerminalMode::AsciiEdge {
                    let ghost before = self.stable_luma@;
                    if self.stable_luma.len() != l.len() {
                        self.stable_luma = vstd::slice::slice_to_vec(l.as_slice());
                    }
                    let _ = apply_hysteresis(&mut self.stable_luma, l.as_slice(), 10);
                    assert(self.stable_luma@ =~= steadied(before, l@));
                    let chars: Vec<char> = edge_chars(
                        self.stable_luma.as_slice(),
                        cols,
                        usable_rows,
                    );
                    emit_chars_vec(&mut out, chars.as_slice(), cols, usable_rows);
                } else {
                    let chars: Vec<char> = plain_chars(l.as_slice());
                    emit_chars_vec(&mut out, chars.as_slice(), cols, usable_rows);
                }
            },
        }
        assert(out@ =~= old(self).drawn(*cells, cols, rows));
        string_of(out.as_slice())
    }
}

// ── Row differences ──────────────────────────────────────────────────────

/// A row to write again, with its text.
pub struct RowUpdate {
    pub row: u16,
    pub text: String,
}

pub open spec fn updates_of(v: Seq<RowUpdate>) -> Seq<(u16, Seq<char>)> {
    Seq::new(v.len(), |i: int| (v[i].row, v[i].text@))
}

/// The first `n` rows of `curr` that differ from `prev`, top to bottom. Rows
/// without characters are left out.
pub open spec fn changed_rows(prev: Seq<char>, curr: Seq<char>, cols: int, n: int) -> Seq<(
    u16,
    Seq<char>,
)>
    decreases n,
{
    if n <= 0 {
        Seq::empty()
    } else {
        let before = changed_rows(prev, curr, cols, n - 1);
        let line = row_chars(curr, cols, n - 1);
        if line.len() > 0 && line != row_chars(prev, cols, n - 1) {
            before.push(((n - 1) as u16, line))
        } else {
            before
        }
    }
}

/// Which rows of a character grid have to be written again.
pub fn diff_rows(prev: &[char], curr: &[char], cols: u16, rows: u16) -> (out: Vec<RowUpdate>)
    ensures
        updates_of(out@) == changed_rows(prev@, curr@, cols as int, rows as int),
{
    let mut out: Vec<RowUpdate> = Vec::new();
    for row in 0..rows
        invariant
            updates_of(out@) =~= changed_rows(prev@, curr@, cols as int, row as int),
    {
        let line: &[char] = row_slice(curr, cols, row);
        let was: &[char] = row_slice(prev, cols, row);
        if line.len() > 0 && !crate::text::same(line, was) {
            let ghost before = out@;
            out.push(RowUpdate { row, text: string_of(line) });
            assert(updates_of(out@) =~= updates_of(before).push((row, line@)));
        }
    }
    out
}

/// Every row of characters that differs from the old grid is written again.
pub proof fn law_changed_row_is_written(
    prev: Seq<char>,
    curr: Seq<char>,
    cols: int,
    n: int,
    row: int,
)
    requires
        0 <= row < n <= 65536,
        row_chars(curr, cols, row).len() > 0,
        row_chars(curr, cols, row) != row_chars(prev, cols, row),
    ensures
        changed_rows(prev, curr, cols, n).contains((row as u16, row_chars(curr, cols, row))),
    decreases n,
{
    let c = changed_rows(prev, curr, cols, n);
    let x = (row as u16, row_chars(curr, cols, row));
    if row == n - 1 {
        assert(c.last() == x);
        assert(c[c.len() - 1] == x);
    } else {
        law_changed_row_is_written(prev, curr, cols, n - 1, row);
        let b = changed_rows(prev, curr, cols, n - 1);
        let i = choose|i: int| 0 <= i < b.len() && b[i] == x;
        assert(c[i] == x);
    }
}

// ── What the drawing keeps ───────────────────────────────────────────────

/// A grid is written row after row, each full and on a line of its own: the
/// character of row `r` and column `c` stands behind `r` rows and their line
/// breaks.
pub proof fn law_rows_follow_one_another(chars: Seq<char>, cols: int, n: int, r: int, c: int)
    requires
        0 < cols,
        0 <= r < n,
        0 <= c < cols,
        n * cols <= chars.len(),
    ensures
        rows_chars(chars, cols, n).len() == n * cols + 2 * (n - 1),
        rows_chars(chars, cols, n)[r * (cols + 2) + c] == chars[r * cols + c],
        r > 0 ==> rows_chars(chars, cols, n)[r * (cols + 2) - 2] == '\r' && rows_chars(
            chars,
            cols,
            n,
        )[r * (cols + 2) - 1] == '\n',
    decreases n,
{
    reveal_strlit("\r\n");
    let whole = rows_chars(chars, cols, n);
    let before = rows_chars(chars, cols, n - 1);
    let row = row_chars(chars, cols, n - 1);
    assert((n - 1) * cols + cols == n * cols && (n - 1) * (cols + 2) == (n - 1) * cols + 2 * (n - 1))
        by (nonlinear_arith);
    assert(0 <= (n - 1) * cols) by (nonlinear_arith)
        requires
            n >= 1,
            cols > 0,
    ;
    assert(row =~= chars.subrange((n - 1) * cols, (n - 1) * cols + cols));
    if n > 1 {
        law_rows_follow_one_another(chars, cols, n - 1, 0, c);
        assert(before.len() == (n - 1) * cols + 2 * (n - 2));
        assert(whole =~= before + "\r\n"@ + row);
        if r < n - 1 {
            law_rows_follow_one_another(chars, cols, n - 1, r, c);
            assert(0 <= r * (cols + 2) && (r + 1) * (cols + 2) <= (n - 1) * (cols + 2) && (r + 1) * (
            cols + 2) == r * (cols + 2) + cols + 2) by (nonlinear_arith)
                requires
                    0 <= r,
                    r + 1 <= n - 1,
                    cols > 0,
            ;
            if r > 0 {
                assert(r * (cols + 2) >= cols + 2) by (nonlinear_arith)
                    requires
                        r >= 1,
                        cols > 0,
                ;
            }
        }
    } else {
        assert(whole =~= row);
        assert(r * cols == 0 && r * (cols + 2) == 0) by (nonlinear_arith)
            requires
                r == 0,
        ;
    }
}

/// Half blocks are written row after row: one more row adds a line break and
/// that row's cells, in order, to what was written.
pub proof fn law_half_block_rows_follow(cells: Seq<ColorCell>, cols: int, n: int)
    requires
        0 < n,
        0 < cols,
        (n + 1) * cols <= cells.len(),
    ensures
        ({
            let row = cells.subrange(n * cols, (n + 1) * cols);
            &&& rows_sequence(cells, cols, n + 1) == rows_sequence(cells, cols, n) + "\r\n"@
                + rows_sequence(row, cols, 1)
            &&& rows_sequence(cells.subrange(0, cols), cols, 1) == rows_sequence(cells, cols, 1)
        }),
{
    let row = cells.subrange(n * cols, (n + 1) * cols);
    assert((n + 1) * cols == n * cols + cols && 0 <= n * cols) by (nonlinear_arith)
        requires
            0 < n,
            0 < cols,
    ;
    lemma_row_alone(cells, row, cols, n, cols);
    lemma_row_alone(cells, cells.subrange(0, cols), cols, 0, cols);
    assert(rows_sequence(row, cols, 0) =~= Seq::<char>::empty());
    assert(rows_sequence(cells, cols, 0) =~= Seq::<char>::empty());
    assert(rows_sequence(cells.subrange(0, cols), cols, 0) =~= Seq::<char>::empty());
    assert(rows_sequence(row, cols, 1) =~= row_sequence(row, cols, 0, cols));
    assert(rows_sequence(cells, cols, n + 1) =~= rows_sequence(cells, cols, n) + "\r\n"@
        + row_sequence(cells, cols, n, cols));
}

proof fn lemma_row_alone(
    cells: Seq<ColorCell>,
    row: Seq<ColorCell>,
    cols: int,
    r: int,
    n: int,
)
    requires
        0 <= n <= cols,
        0 <= r,
        (r + 1) * cols <= cells.len(),
        row == cells.subrange(r * cols, (r + 1) * cols),
    ensures
        row_sequence(cells, cols, r, n) == row_sequence(row, cols, 0, n),
    decreases n,
{
    assert((r + 1) * cols == r * cols + cols && 0 <= r * cols && 0 * cols == 0) by (nonlinear_arith)
        requires
            0 <= r,
            0 <= cols,
    ;
    if n > 0 {
        lemma_row_alone(cells, row, cols, r, n - 1);
    }
}

/// One more cell in a row is one more block behind the others, and a block
/// speaks of its own two colors alone: cells that look alike are written alike,
/// and the color in front comes before the one behind.
pub proof fn law_cells_are_written_in_order(a: ColorCell, b: ColorCell)
    ensures
        rows_sequence(seq![a, b], 2, 1) == rows_sequence(seq![a], 1, 1) + rows_sequence(
            seq![b],
            1,
            1,
        ),
        a.fg@ == b.fg@ && a.bg@ == b.bg@ ==> rows_sequence(seq![a], 1, 1) == rows_sequence(
            seq![b],
            1,
            1,
        ),
{
    reveal_with_fuel(row_sequence, 3);
    reveal_with_fuel(rows_sequence, 3);
    assert(rows_sequence(seq![a, b], 2, 1) =~= cell_sequence(a) + cell_sequence(b));
    assert(rows_sequence(seq![a], 1, 1) =~= cell_sequence(a));
    assert(rows_sequence(seq![b], 1, 1) =~= cell_sequence(b));
}

/// A forced mode is used whatever is configured, a configured one whatever the
/// terminal says, and only where neither names one does the terminal decide.
pub proof fn law_forced_mode_wins(m: TerminalMode, q: Quality, env: TermEnv, other: TermEnv)
    ensures
        chosen_mode(Some(m), q, env) == m,
        q != Quality::Auto && q != Quality::Sixel ==> chosen_mode(None, q, env) == chosen_mode(
            None,
            q,
            other,
        ),
        chosen_mode(None, Quality::Sixel, env) == chosen_mode(None, Quality::Auto, env),
        chosen_mode(None, Quality::Kitty, env) == TerminalMode::Kitty,
        chosen_mode(None, Quality::Pixel, env) == TerminalMode::Halfblock,
        chosen_mode(None, Quality::AsciiLuma, env) == TerminalMode::Ascii,
        chosen_mode(None, Quality::AsciiEdge, env) == TerminalMode::AsciiEdge,
        chosen_mode(None, Quality::Auto, env) != TerminalMode::AsciiEdge,
{
}

/// A terminal that can show pictures is never asked for less, one that knows
/// every color gets half blocks unless it can, and the rest get characters.
pub proof fn law_best_mode_is_chosen(env: TermEnv)
    ensures
        env.term@ == "xterm-kitty"@ ==> mode_for(env) == TerminalMode::Kitty,
        mode_for(env) == TerminalMode::Halfblock ==> env.colorterm@ == "truecolor"@ || env.colorterm@
            == "24bit"@,
        env.colorterm@ == "truecolor"@ || env.colorterm@ == "24bit"@ ==> mode_for(env)
            != TerminalMode::Ascii,
        mode_for(env) == TerminalMode::Kitty && env.term_program is None ==> env.term@
            == "xterm-kitty"@,
{
}

/// The last row of the terminal is left alone.
pub proof fn law_last_row_is_left_alone(rows: u16)
    ensures
        rows > 0 ==> usable(rows) + 1 == rows,
        usable(0) == 0,
{
}

/// A grid of another size starts over; otherwise a cell moves only for a change
/// of ten or more, and then to the new brightness.
pub proof fn law_brightness_is_steady(stable: Seq<u8>, luma: Seq<u8>, i: int)
    requires
        0 <= i < luma.len(),
    ensures
        steadied(stable, luma).len() == luma.len(),
        stable.len() != luma.len() ==> steadied(stable, luma)[i] == luma[i],
        stable.len() == luma.len() && stable[i] - 10 < luma[i] < stable[i] + 10 ==> steadied(
            stable,
            luma,
        )[i] == stable[i],
        stable.len() == luma.len() && !(stable[i] - 10 < luma[i] < stable[i] + 10) ==> steadied(
            stable,
            luma,
        )[i] == luma[i],
{
}

/// An edge grid has each cell of the picture at its own row and column.
pub proof fn law_edges_stay_in_their_cell(luma: Seq<u8>, cols: int, rows: int, r: int, c: int)
    requires
        0 <= r < rows,
        0 <= c < cols,
    ensures
        edge_grid(luma, cols, rows).len() == cols * rows,
        edge_grid(luma, cols, rows)[r * cols + c] == edge_char(luma, cols, rows, r, c),
{
    crate::canvas::lemma_position(c, r, cols, rows);
}

} // verus!
