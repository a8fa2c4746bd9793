//! A text program shown inside the terminal.

use vstd::prelude::*;
use crate::render::{Cell, TermFrame};
use crate::text::chars_of;

verus! {

/// A terminal of the `vt100` crate, without scrollback.
#[verifier::external_body]
pub struct Terminal {
    parser: vt100::Parser,
}

/// What has been written to a terminal, piece by piece.
pub uninterp spec fn written(t: Terminal) -> Seq<Seq<u8>>;

/// The rows and columns that a terminal was made with.
pub uninterp spec fn made_with(t: Terminal) -> (u16, u16);

/// What a terminal of `rows`×`cols` cells shows after the pieces were written
/// to it: the text of each cell it has, by row and column.
pub uninterp spec fn shown(rows: u16, cols: u16, pieces: Seq<Seq<u8>>) -> Map<(u16, u16), Seq<char>>;

/// Sizes on which any text can be written. A wrapped line has to scroll within
/// two rows, the widest character (U+17D8) takes three columns, and the next
/// tab stop has to be a 16-bit number.
pub open spec fn takes_text(rows: u16, cols: u16) -> bool {
    rows >= 2 && 3 <= cols <= 65527
}

/// `vt100::Parser::new`: a terminal of this size that nothing was written to.
#[verifier::external_body]
fn new_terminal(rows: u16, cols: u16) -> (t: Terminal)
    requires
        rows > 0,
        cols > 0,
    ensures
        written(t) == Seq::<Seq<u8>>::empty(),
        made_with(t) == (rows, cols),
{
    Terminal { parser: vt100::Parser::new(rows, cols, 0) }
}

/// `vt100::Parser::process`: one more piece is written. The size stays. On a
/// smaller terminal `Grid::col_wrap` or `Screen::text` finds no row or column to
/// write in and panics; on a wider one `Grid::col_tab` overflows.
#[verifier::external_body]
fn write_to(t: &mut Terminal, piece: &[u8])
    requires
        takes_text(made_with(*old(t)).0, made_with(*old(t)).1),
    ensures
        written(*final(t)) == written(*old(t)).push(piece@),
        made_with(*final(t)) == made_with(*old(t)),
{
    t.parser.process(piece);
}

/// `vt100::Parser::screen`, `Screen::cell` and `Cell::contents`: the text of
/// the cell in this row and column, and nothing where the terminal has no such
/// cell. What is shown is only named: it depends on the size and on what was
/// written, by the rules of terminals.
#[verifier::external_body]
fn cell_text(t: &Terminal, row: u16, col: u16) -> (r: Option<String>)
    ensures
        r is Some <==> shown(made_with(*t).0, made_with(*t).1, written(*t)).contains_key(
            (row, col),
        ),
        r matches Some(s) ==> s@ == shown(made_with(*t).0, made_with(*t).1, written(*t))[(
            row,
            col,
        )],
{
    t.parser.screen().cell(row, col).map(|c| c.contents().to_string())
}

/// How much of its cell a character fills.
pub open spec fn fill(c: char) -> u8 {
    if c == ' ' || c == '\0' {
        0
    } else if c == '.' || c == ',' || c == '\'' || c == '`' {
        30
    } else if c == '-' || c == '_' || c == ':' || c == ';' || c == '~' {
        60
    } else if c == '!' || c == 'i' || c == 'l' || c == '|' || c == '/' || c == '\\' {
        90
    } else if c == '(' || c == ')' || c == '[' || c == ']' || c == '{' || c == '}' {
        95
    } else if c == '─' || c == '│' || c == '┌' || c == '┐' || c == '└' || c == '┘' {
        110
    } else if c == '├' || c == '┤' || c == '┬' || c == '┴' || c == '┼' {
        115
    } else if c == '═' || c == '║' || c == '╔' || c == '╗' || c == '╚' || c == '╝' || c == '╠' || c
        == '╣' {
        120
    } else if c == '░' {
        60
    } else if c == '▒' {
        120
    } else if c == '▓' {
        190
    } else if c == '█' {
        245
    } else if c == '▀' || c == '▄' || c == '▌' || c == '▐' {
        180
    } else if 'a' <= c <= 'z' {
        130
    } else if '0' <= c <= '9' {
        150
    } else if 'A' <= c <= 'Z' {
        170
    } else if '!' <= c <= '~' {
        80
    } else {
        120
    }
}

/// The brightness of a character.
pub fn char_luma(c: char) -> (r: u8)
    ensures
        r == fill(c),
{
    match c {
        ' ' | '\0' => 0,
        '.' | ',' | '\'' | '`' => 30,
        '-' | '_' | ':' | ';' | '~' => 60,
        '!' | 'i' | 'l' | '|' | '/' | '\\' => 90,
        '(' | ')' | '[' | ']' | '{' | '}' => 95,
        '─' | '│' | '┌' | '┐' | '└' | '┘' => 110,
        '├' | '┤' | '┬' | '┴' | '┼' => 115,
        '═' | '║' | '╔' | '╗' | '╚' | '╝' | '╠' | '╣' => 120,
        '░' => 60,
        '▒' => 120,
        '▓' => 190,
        '█' => 245,
        '▀' | '▄' | '▌' | '▐' => 180,
        _ => if 'a' <= c && c <= 'z' {
            130
        } else if '0' <= c && c <= '9' {
            150
        } else if 'A' <= c && c <= 'Z' {
            170
        } else if '!' <= c && c <= '~' {
            80
        } else {
            120
        },
    }
}

/// The character of a cell: the first of its text, a blank where it has none.
pub open spec fn cell_char(text: Option<Seq<char>>) -> char {
    match text {
        Some(t) => if t.len() > 0 {
            t[0]
        } else {
            ' '
        },
        None => ' ',
    }
}

/// The cell of a frame for the text of a cell of the screen.
pub fn frame_cell(text: &Option<String>) -> (c: Cell)
    ensures
        c.ch == cell_char(
            match *text {
                Some(t) => Some(t@),
                None => None,
            },
        ),
        c.luma == fill(c.ch),
{
    let ch: char = match text {
        Some(t) => {
            let v: Vec<char> = chars_of(t.as_str());
            if v.len() > 0 {
                v[0]
            } else {
                ' '
            }
        },
        None => ' ',
    };
    Cell { ch, luma: char_luma(ch) }
}

/// The character that a screen shows in a row and column.
pub open spec fn char_at(screen: Map<(u16, u16), Seq<char>>, row: int, col: int) -> char {
    let k = (row as u16, col as u16);
    cell_char(
        if screen.contains_key(k) {
            Some(screen[k])
        } else {
            None
        },
    )
}

/// A text program's terminal, and the size of its frames.
pub struct TermCompositor {
    pub terminal: Terminal,
    pub width: u16,
    pub height: u16,
}

impl TermCompositor {
    /// The terminal has the size of the frames.
    pub open spec fn wf(self) -> bool {
        made_with(self.terminal) == (self.height, self.width)
    }

    /// What the program has written.
    pub open spec fn pieces(self) -> Seq<Seq<u8>> {
        written(self.terminal)
    }

    pub fn new() -> (t: Self)
        ensures
            t.wf(),
            t.width == 80,
            t.height == 24,
            t.pieces() == Seq::<Seq<u8>>::empty(),
    {
        TermCompositor { terminal: new_terminal(24, 80), width: 80, height: 24 }
    }

    /// A program is started, on a fresh terminal of this size.
    pub fn launch(&mut self, width: u16, height: u16)
        requires
            width > 0,
            height > 0,
        ensures
            final(self).wf(),
            final(self).width == width,
            final(self).height == height,
            final(self).pieces() == Seq::<Seq<u8>>::empty(),
    {
        self.terminal = new_terminal(height, width);
        self.width = width;
        self.height = height;
    }

    /// The program has written something.
    pub fn process(&mut self, piece: &[u8])
        requires
            old(self).wf(),
            takes_text(old(self).height, old(self).width),
        ensures
            final(self).wf(),
            final(self).width == old(self).width,
            final(self).height == old(self).height,
            final(self).pieces() == old(self).pieces().push(piece@),
    {
        write_to(&mut self.terminal, piece);
    }

    /// The frame of what the terminal shows, row by row.
    pub fn capture(&self) -> (f: TermFrame)
        requires
            self.wf(),
        ensures
            f.width == self.width,
            f.height == self.height,
            f.cells@.len() == self.height * self.width,
            forall|row: int, col: int|
                0 <= row < self.height && 0 <= col < self.width ==> (#[trigger] f.cells@[row
                    * self.width + col]).ch == char_at(
                    shown(self.height, self.width, self.pieces()),
                    row,
                    col,
                ),
            forall|i: int| 0 <= i < f.cells@.len() ==> (#[trigger] f.cells@[i]).luma == fill(
                f.cells@[i].ch,
            ),
    {
        let ghost s = shown(self.height, self.width, self.pieces());
        let ghost w = self.width as int;
        let mut cells: Vec<Cell> = Vec::new();
        assert(0 * w == 0) by (nonlinear_arith);
        for row in 0..self.height
            invariant
                self.wf(),
                s == shown(self.height, self.width, self.pieces()),
                w == self.width,
                cells@.len() == row * w,
                forall|r: int, c: int|
                    0 <= r < row && 0 <= c < w ==> (#[trigger] cells@[r * w + c]).ch == char_at(
                        s,
                        r,
                        c,
                    ),
                forall|i: int| 0 <= i < cells@.len() ==> (#[trigger] cells@[i]).luma == fill(
                    cells@[i].ch,
                ),
        {
            for col in 0..self.width
                invariant
                    self.wf(),
                    s == shown(self.height, self.width, self.pieces()),
                    w == self.width,
                    cells@.len() == row * w + col,
                    forall|r: int, c: int|
                        0 <= r < row && 0 <= c < w ==> (#[trigger] cells@[r * w + c]).ch
                            == char_at(s, r, c),
                    forall|c: int|
                        0 <= c < col ==> (#[trigger] cells@[row * w + c]).ch == char_at(
                            s,
                            row as int,
                            c,
                        ),
                    forall|i: int| 0 <= i < cells@.len() ==> (#[trigger] cells@[i]).luma == fill(
                        cells@[i].ch,
                    ),
            {
                let ghost before = cells@;
                let text: Option<String> = cell_text(&self.terminal, row, col);
                cells.push(frame_cell(&text));
                proof {
                    assert forall|r: int, c: int| 0 <= r < row && 0 <= c < w implies (
                    #[trigger] cells@[r * w + c]).ch == char_at(s, r, c) by {
                        lemma_earlier_row(r, row as int, c, w);
                        assert(cells@[r * w + c] == before[r * w + c]);
                    }
                }
            }
            proof {
                assert((row + 1) * w == row * w + w) by (nonlinear_arith);
                assert forall|r: int, c: int| 0 <= r < row + 1 && 0 <= c < w implies (
                #[trigger] cells@[r * w + c]).ch == char_at(s, r, c) by {
                    if r == row {
                        assert(cells@[row * w + c].ch == char_at(s, row as int, c));
                    }
                }
            }
        }
        TermFrame { cells, width: self.width, height: self.height }
    }
}

proof fn lemma_earlier_row(r: int, row: int, c: int, w: int)
    requires
        0 <= r < row,
        0 <= c < w,
    ensures
        0 <= r * w + c < row * w,
{
    assert(0 <= r * w && (r + 1) * w <= row * w && (r + 1) * w == r * w + w) by (nonlinear_arith)
        requires
            0 <= r < row,
            0 <= w,
    ;
}

impl Default for TermCompositor {
    fn default() -> (t: Self)
        ensures
            t.wf(),
            t.width == 80,
            t.height == 24,
            t.pieces() == Seq::<Seq<u8>>::empty(),
    {
        TermCompositor::new()
    }
}

/// Only blanks are dark; nothing is brighter than the full block; the shades
/// and the kinds of characters go up in their order.
pub proof fn law_fuller_characters_are_brighter(c: char, a: char, d: char, z: char)
    requires
        0x61 <= a as u32 <= 0x7a,
        0x30 <= d as u32 <= 0x39,
        0x41 <= z as u32 <= 0x5a,
    ensures
        fill(c) == 0 <==> c == ' ' || c == '\0',
        fill(c) <= fill('█'),
        c != '█' ==> fill(c) < fill('█'),
        0 < fill('░') < fill('▒') < fill('▓') < fill('█'),
        fill(a) < fill(d) < fill(z) < fill('▓'),
{
}

/// A cell shows the first character of its text, and a blank where it has no
/// text.
pub proof fn law_cells_show_their_first_character(c: char, rest: Seq<char>)
    ensures
        cell_char(Some(seq![c] + rest)) == c,
        cell_char(None) == ' ',
        cell_char(Some(Seq::empty())) == ' ',
{
}

/// Small letters fill half of their cell but for the two thinnest, digits more,
/// and capitals two thirds.
pub proof fn law_letters_fill_their_cells(c: char)
    ensures
        0x61 <= c as u32 <= 0x7a ==> fill(c) == (if c == 'i' || c == 'l' {
            90int
        } else {
            130
        }),
        0x30 <= c as u32 <= 0x39 ==> fill(c) == 150,
        0x41 <= c as u32 <= 0x5a ==> fill(c) == 170,
        c as u32 > 0x2600 ==> fill(c) == 120,
{
}

} // verus!
