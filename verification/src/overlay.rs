//! The boxes drawn over a frame: the keybind help and the app launcher.

use vstd::prelude::*;
use crate::canvas::{fits, lemma_pixel_painted, painted, pixel};
use crate::config::{Action, Keybinds, ModKey};
use crate::config::{action_label, mod_key_label};
use crate::font5x7::{draw_text, fill_rect};
use crate::font5x7::{dot, rect_covers, text_covers, upper};
use crate::font5x7::{law_text_is_laid_out_in_cells, law_text_stays_in_its_cells};
use crate::launcher::{DesktopEntry, Launcher};
use crate::launcher::{chosen_command, entries_of, matching, refs_of, Entry};
use crate::text::{append_chars, append_decimal, append_str, chars_of, copy_str, string_of, trimmed};
use crate::text::{decimal, texts, trim};

verus! {

/// Distance between the text and the edge of its box.
pub const PAD: i32 = 12;

/// Pixels per font dot.
pub const SCALE: u32 = 2;

/// Pixels per character cell and per line.
pub const ADVANCE: u32 = 12;

pub const LINE_H: u32 = 20;

/// Most matches that the launcher lists.
pub const MAX_ROWS: usize = 8;

/// Fewest character cells that the launcher box is wide.
pub const MIN_COLS: usize = 40;

/// The box color, near-opaque.
pub open spec fn box_color() -> [u8; 4] {
    [10, 0, 16, 235]
}

/// The text color.
pub open spec fn text_color() -> [u8; 4] {
    [199, 146, 234, 255]
}

/// The color behind the highlighted match.
pub open spec fn bar_color() -> [u8; 4] {
    [40, 20, 52, 255]
}

// ── Boxes of text ────────────────────────────────────────────────────────

/// The length of the longest line, at least `least`.
pub open spec fn columns(ls: Seq<Seq<char>>, least: nat) -> nat
    decreases ls.len(),
{
    if ls.len() == 0 {
        least
    } else {
        let c = columns(ls.drop_last(), least);
        if ls.last().len() > c {
            ls.last().len()
        } else {
            c
        }
    }
}

pub open spec fn box_width(ls: Seq<Seq<char>>, least: nat) -> int {
    columns(ls, least) as int * 12 + 24
}

pub open spec fn box_height(ls: Seq<Seq<char>>) -> int {
    ls.len() as int * 20 + 24
}

/// The sides of the box are signed 32-bit numbers.
pub open spec fn box_fits(ls: Seq<Seq<char>>, least: nat) -> bool {
    box_width(ls, least) <= i32::MAX && box_height(ls) <= i32::MAX
}

/// Where a side of the box starts: centered, never before the edge.
pub open spec fn box_start(side: u32, size: int) -> int {
    let room = side as i32 - size;
    if room > 0 {
        room / 2
    } else {
        0
    }
}

pub open spec fn filled(
    b: Seq<u8>,
    w: u32,
    h: u32,
    x: int,
    y: int,
    rw: int,
    rh: int,
    color: [u8; 4],
) -> Seq<u8> {
    painted(b, w, h, |px: int, py: int| rect_covers(x, y, rw as u32, rh as u32, px, py), color)
}

pub open spec fn written(b: Seq<u8>, w: u32, h: u32, x: int, y: int, text: Seq<char>) -> Seq<u8> {
    painted(b, w, h, |px: int, py: int| text_covers(text, x, y, 2, px, py), text_color())
}

/// The lines written from `(x0, y0)`, the corner of their box.
pub open spec fn lines_written(
    b: Seq<u8>,
    w: u32,
    h: u32,
    x0: int,
    y0: int,
    ls: Seq<Seq<char>>,
) -> Seq<u8>
    decreases ls.len(),
{
    if ls.len() == 0 {
        b
    } else {
        written(
            lines_written(b, w, h, x0, y0, ls.drop_last()),
            w,
            h,
            x0 + 12,
            y0 + 12 + (ls.len() - 1) * 20,
            ls.last(),
        )
    }
}

proof fn lemma_columns(ls: Seq<Seq<char>>, least: nat, i: int)
    requires
        0 <= i < ls.len(),
    ensures
        ls[i].len() <= columns(ls, least),
    decreases ls.len(),
{
    if i < ls.len() - 1 {
        lemma_columns(ls.drop_last(), least, i);
    }
}

fn count_columns(lines: &Vec<String>, least: usize) -> (r: usize)
    ensures
        r == columns(texts(lines@), least as nat),
{
    let mut c: usize = least;
    let ghost all = texts(lines@);
    assert(all.take(0) =~= Seq::<Seq<char>>::empty());
    for i in 0..lines.len()
        invariant
            all == texts(lines@),
            c == columns(all.take(i as int), least as nat),
    {
        assert(all.take(i + 1).drop_last() =~= all.take(i as int));
        let n: usize = chars_of(lines[i].as_str()).len();
        if n > c {
            c = n;
        }
    }
    assert(all.take(lines.len() as int) =~= all);
    c
}

fn start_of(side: u32, size: u32) -> (r: i32)
    requires
        size <= i32::MAX,
    ensures
        r == box_start(side, size as int),
        r + size <= i32::MAX,
        0 <= r <= 0x3fff_ffff,
{
    let room: i64 = (side as i32) as i64 - size as i64;
    if room > 0 {
        (room / 2) as i32
    } else {
        0
    }
}

fn write_lines(back: &mut [u8], w: u32, h: u32, x0: i32, y0: i32, lines: &Vec<String>)
    requires
        fits(old(back)@.len(), w, h),
        0 <= x0 <= 0x3fff_ffff,
        0 <= y0,
        y0 + box_height(texts(lines@)) <= i32::MAX,
        forall|i: int|
            0 <= i < lines@.len() ==> (#[trigger] lines@[i])@.len() * 12 <= i32::MAX,
    ensures
        final(back)@ == lines_written(old(back)@, w, h, x0 as int, y0 as int, texts(lines@)),
        final(back)@.len() == old(back)@.len(),
{
    let ghost start = back@;
    let ghost all = texts(lines@);
    assert(all.take(0) =~= Seq::<Seq<char>>::empty());
    for i in 0..lines.len()
        invariant
            all == texts(lines@),
            fits(start.len(), w, h),
            back.len() == start.len(),
            0 <= x0 <= 0x3fff_ffff,
            0 <= y0,
            y0 + box_height(all) <= i32::MAX,
            forall|i: int|
                0 <= i < lines@.len() ==> (#[trigger] lines@[i])@.len() * 12 <= i32::MAX,
            back@ == lines_written(start, w, h, x0 as int, y0 as int, all.take(i as int)),
    {
        assert(all.take(i + 1).drop_last() =~= all.take(i as int));
        let ghost before = back@;
        let ty: i32 = y0 + PAD + (i as i32) * (LINE_H as i32);
        assert(lines@[i as int]@.len() * 12 <= i32::MAX);
        let color: [u8; 4] = [199, 146, 234, 255];
        assert(color@ =~= text_color()@);
        assert(color == text_color());
        let _ = draw_text(back, w, h, x0 + PAD, ty, SCALE, lines[i].as_str(), color);
        assert(back@ == written(before, w, h, x0 + 12, ty as int, lines@[i as int]@));
    }
    assert(all.take(lines.len() as int) =~= all);
}

fn box_can_be_drawn(lines: &Vec<String>, least: usize) -> (r: bool)
    ensures
        r == box_fits(texts(lines@), least as nat),
{
    assert(texts(lines@).len() == lines.len());
    let cols: usize = count_columns(lines, least);
    // Twelve pixels for each column and twenty for each line, plus the edges.
    cols as u64 <= 178_956_968 && lines.len() as u64 <= 107_374_181
}

fn upper_text(s: &str) -> (r: Vec<char>)
    ensures
        r@ == uppered(s@),
{
    let v: Vec<char> = chars_of(s);
    let mut out: Vec<char> = Vec::new();
    for i in 0..v.len()
        invariant
            v@ == s@,
            out.len() == i,
            forall|j: int| 0 <= j < i ==> out[j] == upper(s@[j]),
    {
        out.push(crate::font5x7::to_upper(v[i]));
    }
    assert(out@ =~= uppered(s@));
    out
}

/// The text with ASCII letters in upper case.
pub open spec fn uppered(s: Seq<char>) -> Seq<char> {
    Seq::new(s.len(), |i: int| upper(s[i]))
}

// ── Help ─────────────────────────────────────────────────────────────────

/// The help line of one bind.
pub open spec fn bind_line(mod_key: ModKey, key: char, action: Action) -> Seq<char> {
    uppered(mod_key_label(mod_key)) + "+"@ + seq![upper(key)] + "  "@ + uppered(
        action_label(action),
    )
}

/// The lines of the help box: a title, the binds in order, and the two fixed
/// chords.
pub open spec fn help_lines(mod_key: ModKey, binds: Seq<(char, Action)>) -> Seq<Seq<char>> {
    let m = uppered(mod_key_label(mod_key));
    seq!["KEYBINDS"@, Seq::empty()] + Seq::new(
        binds.len(),
        |i: int| bind_line(mod_key, binds[i].0, binds[i].1),
    ) + seq![Seq::empty(), m + "+/  TOGGLE THIS MENU"@, m + "+D  APP LAUNCHER"@]
}

/// `b` with the help box over it.
pub open spec fn help_drawn(
    b: Seq<u8>,
    w: u32,
    h: u32,
    mod_key: ModKey,
    binds: Seq<(char, Action)>,
) -> Seq<u8> {
    let ls = help_lines(mod_key, binds);
    let x0 = box_start(w, box_width(ls, 0));
    let y0 = box_start(h, box_height(ls));
    lines_written(
        filled(b, w, h, x0, y0, box_width(ls, 0), box_height(ls), box_color()),
        w,
        h,
        x0,
        y0,
        ls,
    )
}

fn help_text(k: &Keybinds) -> (lines: Vec<String>)
    ensures
        texts(lines@) == help_lines(k.mod_key, k.binds@),
{
    let m: Vec<char> = upper_text(k.mod_key.label());
    let mut lines: Vec<String> = Vec::new();
    lines.push(copy_str("KEYBINDS"));
    lines.push(String::new());
    let ghost head = seq!["KEYBINDS"@, Seq::empty()];
    assert(texts(lines@) =~= head);
    for i in 0..k.binds.len()
        invariant
            m@ == uppered(mod_key_label(k.mod_key)),
            texts(lines@) =~= head + Seq::new(
                i as nat,
                |j: int| bind_line(k.mod_key, k.binds@[j].0, k.binds@[j].1),
            ),
    {
        let (key, action) = k.binds[i];
        let mut l: Vec<char> = Vec::new();
        append_chars(&mut l, m.as_slice());
        append_str(&mut l, "+");
        l.push(crate::font5x7::to_upper(key));
        append_str(&mut l, "  ");
        let a: Vec<char> = upper_text(action.label());
        append_chars(&mut l, a.as_slice());
        assert(l@ =~= bind_line(k.mod_key, key, action));
        let ghost prev = lines@;
        lines.push(string_of(l.as_slice()));
        assert(texts(lines@) =~= texts(prev).push(l@));
    }
    lines.push(String::new());
    let mut toggle: Vec<char> = Vec::new();
    append_chars(&mut toggle, m.as_slice());
    append_str(&mut toggle, "+/  TOGGLE THIS MENU");
    lines.push(string_of(toggle.as_slice()));
    let mut launch: Vec<char> = Vec::new();
    append_chars(&mut launch, m.as_slice());
    append_str(&mut launch, "+D  APP LAUNCHER");
    lines.push(string_of(launch.as_slice()));
    assert(toggle@ =~= m@ + "+/  TOGGLE THIS MENU"@);
    assert(launch@ =~= m@ + "+D  APP LAUNCHER"@);
    assert(texts(lines@) =~= help_lines(k.mod_key, k.binds@));
    lines
}

/// The help overlay: lists the keybinds in a box in the middle of the frame.
pub fn draw_help_overlay(keybinds: &Keybinds, back: &mut [u8], w: u32, h: u32)
    requires
        fits(old(back)@.len(), w, h),
        box_fits(help_lines(keybinds.mod_key, keybinds.binds@), 0),
    ensures
        final(back)@ == help_drawn(old(back)@, w, h, keybinds.mod_key, keybinds.binds@),
        final(back)@.len() == old(back)@.len(),
{
    let lines: Vec<String> = help_text(keybinds);
    let ghost ls = texts(lines@);
    assert(lines.len() == ls.len());
    let cols: usize = count_columns(&lines, 0);
    let box_w: u32 = (cols as u32) * ADVANCE + 24;
    let box_h: u32 = (lines.len() as u32) * LINE_H + 24;
    let x0: i32 = start_of(w, box_w);
    let y0: i32 = start_of(h, box_h);
    let color: [u8; 4] = [10, 0, 16, 235];
    assert(color@ =~= box_color()@);
    assert(color == box_color());
    fill_rect(back, w, h, x0, y0, box_w, box_h, color);
    proof {
        assert forall|i: int| 0 <= i < lines@.len() implies (#[trigger] lines@[i])@.len() * 12
            <= i32::MAX by {
            lemma_columns(ls, 0, i);
            assert(ls[i] == lines@[i]@);
        }
    }
    write_lines(back, w, h, x0, y0, &lines);
}

/// The help box has sides that can be drawn.
pub fn help_can_be_drawn(keybinds: &Keybinds) -> (r: bool)
    ensures
        r == box_fits(help_lines(keybinds.mod_key, keybinds.binds@), 0),
{
    let lines: Vec<String> = help_text(keybinds);
    box_can_be_drawn(&lines, 0)
}

// ── Launcher ─────────────────────────────────────────────────────────────

/// The rows under the query: the first matches, and how many more there are;
/// or what Enter would do where there are none.
pub open spec fn launcher_rows(m: Seq<Entry>, query: Seq<char>) -> Seq<Seq<char>> {
    if m.len() == 0 {
        if trim(query).len() == 0 {
            seq!["NO APPS FOUND — TYPE A COMMAND"@]
        } else {
            seq!["NO MATCH — ENTER RUNS AS SHELL COMMAND"@]
        }
    } else if m.len() <= 8 {
        Seq::new(m.len(), |i: int| m[i].name)
    } else {
        Seq::new(8, |i: int| m[i].name).push("... "@ + decimal((m.len() - 8) as nat) + " MORE"@)
    }
}

/// The lines of the launcher box.
pub open spec fn launcher_lines(
    mod_key: ModKey,
    entries: Seq<Entry>,
    query: Seq<char>,
) -> Seq<Seq<char>> {
    seq![
        "LAUNCHER  ("@ + uppered(mod_key_label(mod_key)) + "+D CLOSE, ENTER RUN, ESC CANCEL)"@,
        "> "@ + query + "_"@,
        Seq::empty(),
    ] + launcher_rows(matching(entries, query), query)
}

/// The highlighted row, counted from the top of the text.
pub open spec fn launcher_row(m: Seq<Entry>, selected: int) -> int {
    3 + if selected < m.len() {
        selected
    } else {
        m.len() - 1
    }
}

/// The position of the highlight is a signed 32-bit number.
pub open spec fn launcher_fits(
    h: u32,
    mod_key: ModKey,
    entries: Seq<Entry>,
    query: Seq<char>,
    selected: int,
) -> bool {
    let ls = launcher_lines(mod_key, entries, query);
    let m = matching(entries, query);
    &&& box_fits(ls, 40)
    &&& m.len() > 0 ==> box_start(h, box_height(ls)) + 12 + launcher_row(m, selected) * 20
        <= i32::MAX
}

/// `b` with the launcher box over it.
pub open spec fn launcher_drawn(
    b: Seq<u8>,
    w: u32,
    h: u32,
    mod_key: ModKey,
    entries: Seq<Entry>,
    query: Seq<char>,
    selected: int,
) -> Seq<u8> {
    let ls = launcher_lines(mod_key, entries, query);
    let m = matching(entries, query);
    let bw = box_width(ls, 40);
    let x0 = box_start(w, bw);
    let y0 = box_start(h, box_height(ls));
    let boxed = filled(b, w, h, x0, y0, bw, box_height(ls), box_color());
    let barred = if m.len() > 0 {
        filled(
            boxed,
            w,
            h,
            x0 + 2,
            y0 + 12 + launcher_row(m, selected) * 20 - 2,
            bw - 4,
            20,
            bar_color(),
        )
    } else {
        boxed
    };
    lines_written(barred, w, h, x0, y0, ls)
}

fn launcher_text(launcher: &Launcher, mod_key: ModKey, m: &Vec<&DesktopEntry>) -> (lines: Vec<
    String,
>)
    requires
        refs_of(m@) == matching(entries_of(launcher.entries@), launcher.query@),
    ensures
        texts(lines@) == launcher_lines(mod_key, entries_of(launcher.entries@), launcher.query@),
{
    let ghost found = refs_of(m@);
    assert(found.len() == m.len());
    let label: Vec<char> = upper_text(mod_key.label());
    let mut lines: Vec<String> = Vec::new();
    let mut title: Vec<char> = Vec::new();
    append_str(&mut title, "LAUNCHER  (");
    append_chars(&mut title, label.as_slice());
    append_str(&mut title, "+D CLOSE, ENTER RUN, ESC CANCEL)");
    lines.push(string_of(title.as_slice()));
    let mut prompt: Vec<char> = Vec::new();
    append_str(&mut prompt, "> ");
    append_str(&mut prompt, launcher.query.as_str());
    append_str(&mut prompt, "_");
    lines.push(string_of(prompt.as_slice()));
    lines.push(String::new());
    let ghost head = seq![
        "LAUNCHER  ("@ + uppered(mod_key_label(mod_key)) + "+D CLOSE, ENTER RUN, ESC CANCEL)"@,
        "> "@ + launcher.query@ + "_"@,
        Seq::empty(),
    ];
    assert(title@ =~= head[0]);
    assert(prompt@ =~= head[1]);
    assert(texts(lines@) =~= head);
    let ghost before = lines@;
    if m.len() == 0 {
        let q: Vec<char> = chars_of(launcher.query.as_str());
        let t: &[char] = trimmed(q.as_slice());
        if t.len() == 0 {
            lines.push(copy_str("NO APPS FOUND — TYPE A COMMAND"));
        } else {
            lines.push(copy_str("NO MATCH — ENTER RUNS AS SHELL COMMAND"));
        }
        assert(texts(lines@) =~= texts(before).push(lines@.last()@));
    } else {
        let shown: usize = if m.len() < MAX_ROWS {
            m.len()
        } else {
            MAX_ROWS
        };
        for i in 0..shown
            invariant
                shown <= m.len(),
                found == refs_of(m@),
                texts(lines@) =~= head + Seq::new(i as nat, |j: int| found[j].name),
        {
            let ghost prev = lines@;
            lines.push(copy_str(m[i].name.as_str()));
            assert(texts(lines@) =~= texts(prev).push(found[i as int].name));
        }
        if m.len() > MAX_ROWS {
            let mut more: Vec<char> = Vec::new();
            append_str(&mut more, "... ");
            append_decimal(&mut more, (m.len() - MAX_ROWS) as u64);
            append_str(&mut more, " MORE");
            let ghost rows = lines@;
            lines.push(string_of(more.as_slice()));
            assert(texts(lines@) =~= texts(rows).push(more@));
            assert(more@ =~= "... "@ + decimal((m.len() - 8) as nat) + " MORE"@);
            assert(texts(lines@) =~= head + Seq::new(8, |j: int| found[j].name).push(more@));
        } else {
            assert(texts(lines@) =~= head + Seq::new(found.len(), |j: int| found[j].name));
        }
    }
    assert(texts(lines@) =~= head + launcher_rows(found, launcher.query@));
    assert(texts(lines@) =~= launcher_lines(
        mod_key,
        entries_of(launcher.entries@),
        launcher.query@,
    ));
    lines
}

/// The launcher box has sides, and a highlight, that can be drawn.
pub fn launcher_can_be_drawn(launcher: &Launcher, mod_key: ModKey, h: u32) -> (r: bool)
    ensures
        r == launcher_fits(
            h,
            mod_key,
            entries_of(launcher.entries@),
            launcher.query@,
            launcher.selected as int,
        ),
{
    let m: Vec<&DesktopEntry> = launcher.matches();
    assert(refs_of(m@).len() == m.len());
    let lines: Vec<String> = launcher_text(launcher, mod_key, &m);
    assert(texts(lines@).len() == lines.len());
    if !box_can_be_drawn(&lines, MIN_COLS) {
        return false;
    }
    if m.len() == 0 {
        return true;
    }
    let y0: i32 = start_of(h, (lines.len() as u32) * LINE_H + 24);
    let row: u64 = if launcher.selected < m.len() {
        launcher.selected as u64
    } else {
        (m.len() - 1) as u64
    };
    row <= 0x7fff_ffff && y0 as u64 + 12 + (3 + row) * 20 <= 0x7fff_ffff
}

/// The launcher modal: query box and top matches, with a bar behind the
/// selected one.
pub fn draw_launcher_overlay(
    launcher: &Launcher,
    mod_key: ModKey,
    back: &mut [u8],
    w: u32,
    h: u32,
)
    requires
        fits(old(back)@.len(), w, h),
        launcher_fits(
            h,
            mod_key,
            entries_of(launcher.entries@),
            launcher.query@,
            launcher.selected as int,
        ),
    ensures
        final(back)@ == launcher_drawn(
            old(back)@,
            w,
            h,
            mod_key,
            entries_of(launcher.entries@),
            launcher.query@,
            launcher.selected as int,
        ),
        final(back)@.len() == old(back)@.len(),
{
    let m: Vec<&DesktopEntry> = launcher.matches();
    let ghost found = refs_of(m@);
    assert(found.len() == m.len());
    let lines: Vec<String> = launcher_text(launcher, mod_key, &m);
    let ghost ls = texts(lines@);
    assert(lines.len() == ls.len());
    let cols: usize = count_columns(&lines, MIN_COLS);
    let box_w: u32 = (cols as u32) * ADVANCE + 24;
    let box_h: u32 = (lines.len() as u32) * LINE_H + 24;
    let x0: i32 = start_of(w, box_w);
    let y0: i32 = start_of(h, box_h);
    let color: [u8; 4] = [10, 0, 16, 235];
    assert(color@ =~= box_color()@);
    assert(color == box_color());
    fill_rect(back, w, h, x0, y0, box_w, box_h, color);
    if m.len() > 0 {
        let row: usize = 3 + if launcher.selected < m.len() {
            launcher.selected
        } else {
            m.len() - 1
        };
        let ry: i32 = y0 + PAD + (row as i32) * (LINE_H as i32) - 2;
        let bar: [u8; 4] = [40, 20, 52, 255];
        assert(bar@ =~= bar_color()@);
        assert(bar == bar_color());
        proof {
            lemma_least_columns(ls, 40);
        }
        fill_rect(back, w, h, x0 + 2, ry, box_w - 4, LINE_H, bar);
    }
    proof {
        assert forall|i: int| 0 <= i < lines@.len() implies (#[trigger] lines@[i])@.len() * 12
            <= i32::MAX by {
            lemma_columns(ls, 40, i);
            assert(ls[i] == lines@[i]@);
        }
    }
    write_lines(back, w, h, x0, y0, &lines);
}

proof fn lemma_least_columns(ls: Seq<Seq<char>>, least: nat)
    ensures
        least <= columns(ls, least),
    decreases ls.len(),
{
    if ls.len() > 0 {
        lemma_least_columns(ls.drop_last(), least);
    }
}

// ── Where the boxes and their text stand ─────────────────────────────────

/// A box is centered to the pixel, its odd one on the far side, and starts at
/// the edge where it is larger than the frame.
pub proof fn law_boxes_are_centered(side: u32, size: int)
    requires
        side <= i32::MAX,
        size >= 0,
    ensures
        size <= side ==> 0 <= side - size - 2 * box_start(side, size) <= 1,
        size <= side ==> 0 <= box_start(side, size) && box_start(side, size) + size <= side,
        size > side ==> box_start(side, size) == 0,
{
}

/// A box is as wide as its longest line needs, and as high as its lines need,
/// with twelve pixels around them: every line fits, and one fills the width.
pub proof fn law_text_fits_its_box(ls: Seq<Seq<char>>, least: nat)
    ensures
        forall|i: int|
            0 <= i < ls.len() ==> 12 + 12 * (#[trigger] ls[i]).len() + 12 <= box_width(ls, least)
                && 12 + 20 * (i + 1) + 12 <= box_height(ls),
        12 + 12 * least + 12 <= box_width(ls, least),
        box_width(ls, least) == 12 + 12 * least + 12 || exists|i: int|
            0 <= i < ls.len() && box_width(ls, least) == 12 + 12 * (#[trigger] ls[i]).len() + 12,
    decreases ls.len(),
{
    if ls.len() > 0 {
        let d = ls.drop_last();
        law_text_fits_its_box(d, least);
        assert(ls[ls.len() - 1] == ls.last());
        assert forall|i: int| 0 <= i < ls.len() implies 12 + 12 * (#[trigger] ls[i]).len() + 12
            <= box_width(ls, least) && 12 + 20 * (i + 1) + 12 <= box_height(ls) by {
            if i < d.len() {
                assert(d[i] == ls[i]);
            }
        }
        if columns(ls, least) != ls.last().len() && columns(d, least) != least {
            let i = choose|i: int|
                0 <= i < d.len() && box_width(d, least) == 12 + 12 * (#[trigger] d[i]).len() + 12;
            assert(ls[i] == d[i]);
        }
    }
}

/// The pixel of some lines of text over a frame.
proof fn lemma_lines_pixel(
    b: Seq<u8>,
    w: u32,
    h: u32,
    x0: int,
    y0: int,
    ls: Seq<Seq<char>>,
    px: int,
    py: int,
)
    requires
        fits(b.len(), w, h),
        0 <= px < w,
        0 <= py < h,
    ensures
        ({
            let after = lines_written(b, w, h, x0, y0, ls);
            let i = (py - y0 - 12) / 20;
            &&& after.len() == b.len()
            &&& pixel(after, w, px, py) == (if 0 <= i < ls.len() && text_covers(
                ls[i],
                x0 + 12,
                y0 + 12 + i * 20,
                2,
                px,
                py,
            ) {
                seq![199u8, 146, 234, 255]
            } else {
                pixel(b, w, px, py)
            })
        }),
    decreases ls.len(),
{
    if ls.len() > 0 {
        let d = ls.drop_last();
        lemma_lines_pixel(b, w, h, x0, y0, d, px, py);
        let n = ls.len() - 1;
        let before = lines_written(b, w, h, x0, y0, d);
        let x = x0 + 12;
        let y = y0 + 12 + n * 20;
        lemma_pixel_painted(
            before,
            w,
            h,
            |a: int, c: int| text_covers(ls.last(), x, y, 2, a, c),
            text_color(),
            px,
            py,
        );
        assert(text_color()@ =~= seq![199u8, 146, 234, 255]);
        let i = (py - y0 - 12) / 20;
        if i != n {
            if text_covers(ls.last(), x, y, 2, px, py) {
                assert(0 <= py - y < 14);
            }
        }
        if 0 <= i < d.len() {
            assert(d[i] == ls[i]);
        }
    }
}

proof fn lemma_filled_pixel(
    b: Seq<u8>,
    w: u32,
    h: u32,
    x: int,
    y: int,
    rw: int,
    rh: int,
    color: [u8; 4],
    px: int,
    py: int,
)
    requires
        fits(b.len(), w, h),
        0 <= rw <= i32::MAX,
        0 <= rh <= i32::MAX,
        0 <= px < w,
        0 <= py < h,
    ensures
        filled(b, w, h, x, y, rw, rh, color).len() == b.len(),
        pixel(filled(b, w, h, x, y, rw, rh, color), w, px, py) == (if 0 <= px - x < rw && 0 <= py
            - y < rh {
            color@
        } else {
            pixel(b, w, px, py)
        }),
{
    lemma_pixel_painted(
        b,
        w,
        h,
        |a: int, c: int| rect_covers(x, y, rw as u32, rh as u32, a, c),
        color,
        px,
        py,
    );
}

/// The cell of character `j` of line `i` shows its glyph in the text color.
proof fn lemma_cell_covers(ls: Seq<Seq<char>>, x0: int, y0: int, i: int, j: int, u: int, v: int)
    requires
        0 <= i < ls.len(),
        0 <= j < ls[i].len(),
        0 <= u < 12,
        0 <= v < 20,
    ensures
        (y0 + 12 + 20 * i + v - y0 - 12) / 20 == i,
        text_covers(
            ls[i],
            x0 + 12,
            y0 + 12 + i * 20,
            2,
            x0 + 12 + 12 * j + u,
            y0 + 12 + 20 * i + v,
        ) == (u < 10 && v < 14 && dot(ls[i][j], u / 2, v / 2)),
{
    if v < 14 {
        law_text_is_laid_out_in_cells(
            ls[i],
            x0 + 12,
            y0 + 12 + i * 20,
            2,
            j,
            u / 2,
            v / 2,
            u % 2,
            v % 2,
        );
        assert(x0 + 12 + j * (6 * 2) + (u / 2) * 2 + u % 2 == x0 + 12 + 12 * j + u);
        assert(y0 + 12 + i * 20 + (v / 2) * 2 + v % 2 == y0 + 12 + 20 * i + v);
    } else {
        law_text_stays_in_its_cells(
            ls[i],
            x0 + 12,
            y0 + 12 + i * 20,
            2,
            x0 + 12 + 12 * j + u,
            y0 + 12 + 20 * i + v,
        );
    }
}

/// The help box shows its lines one under the other, twenty pixels apart, and
/// their characters twelve pixels apart: a pixel of a character's cell has the
/// text color where the character has a dot there, and the box color where it
/// has none. Beside the box the frame is as before.
pub proof fn law_help_shows_its_lines(
    b: Seq<u8>,
    w: u32,
    h: u32,
    mod_key: ModKey,
    binds: Seq<(char, Action)>,
    i: int,
    j: int,
    u: int,
    v: int,
    px: int,
    py: int,
)
    requires
        fits(b.len(), w, h),
        w <= i32::MAX,
        h <= i32::MAX,
        box_fits(help_lines(mod_key, binds), 0),
        0 <= px < w,
        0 <= py < h,
    ensures
        ({
            let ls = help_lines(mod_key, binds);
            let x0 = box_start(w, box_width(ls, 0));
            let y0 = box_start(h, box_height(ls));
            let shown = pixel(help_drawn(b, w, h, mod_key, binds), w, px, py);
            &&& 0 <= i < ls.len() && 0 <= j < ls[i].len() && 0 <= u < 12 && 0 <= v < 20 && px == x0
                + 12 + 12 * j + u && py == y0 + 12 + 20 * i + v ==> shown == (if u < 10 && v < 14
                && dot(ls[i][j], u / 2, v / 2) {
                seq![199u8, 146, 234, 255]
            } else {
                seq![10u8, 0, 16, 235]
            })
            &&& px < x0 || py < y0 || px >= x0 + box_width(ls, 0) || py >= y0 + box_height(ls)
                ==> shown == pixel(b, w, px, py)
        }),
{
    let ls = help_lines(mod_key, binds);
    let bw = box_width(ls, 0);
    let bh = box_height(ls);
    let x0 = box_start(w, bw);
    let y0 = box_start(h, bh);
    let boxed = filled(b, w, h, x0, y0, bw, bh, box_color());
    lemma_filled_pixel(b, w, h, x0, y0, bw, bh, box_color(), px, py);
    assert(box_color()@ =~= seq![10u8, 0, 16, 235]);
    lemma_lines_pixel(boxed, w, h, x0, y0, ls, px, py);
    law_text_fits_its_box(ls, 0);
    if 0 <= i < ls.len() && 0 <= j < ls[i].len() && 0 <= u < 12 && 0 <= v < 20 && px == x0 + 12 + 12
        * j + u && py == y0 + 12 + 20 * i + v {
        lemma_cell_covers(ls, x0, y0, i, j, u, v);
    }
    let k = (py - y0 - 12) / 20;
    if 0 <= k < ls.len() && (px < x0 || py < y0 || px >= x0 + bw || py >= y0 + bh) {
        law_text_stays_in_its_cells(ls[k], x0 + 12, y0 + 12 + k * 20, 2, px, py);
    }
}

/// The launcher box shows its lines likewise; behind the selected match, and
/// behind no other line, the color is that of the highlight.
pub proof fn law_launcher_shows_its_lines(
    b: Seq<u8>,
    w: u32,
    h: u32,
    mod_key: ModKey,
    entries: Seq<Entry>,
    query: Seq<char>,
    selected: int,
    i: int,
    j: int,
    u: int,
    v: int,
    px: int,
    py: int,
)
    requires
        fits(b.len(), w, h),
        w <= i32::MAX,
        h <= i32::MAX,
        box_fits(launcher_lines(mod_key, entries, query), 40),
        0 <= selected < 8,
        0 <= px < w,
        0 <= py < h,
        0 <= i < launcher_lines(mod_key, entries, query).len(),
        0 <= j < launcher_lines(mod_key, entries, query)[i].len(),
        0 <= u < 12,
        0 <= v < 14,
        px == box_start(w, box_width(launcher_lines(mod_key, entries, query), 40)) + 12 + 12 * j + u,
        py == box_start(h, box_height(launcher_lines(mod_key, entries, query))) + 12 + 20 * i + v,
    ensures
        ({
            let ls = launcher_lines(mod_key, entries, query);
            let m = matching(entries, query);
            let shown = pixel(
                launcher_drawn(b, w, h, mod_key, entries, query, selected),
                w,
                px,
                py,
            );
            shown == (if u < 10 && dot(ls[i][j], u / 2, v / 2) {
                seq![199u8, 146, 234, 255]
            } else if m.len() > 0 && i == 3 + (if selected < m.len() {
                selected
            } else {
                m.len() - 1
            }) {
                seq![40u8, 20, 52, 255]
            } else {
                seq![10u8, 0, 16, 235]
            })
        }),
{
    let ls = launcher_lines(mod_key, entries, query);
    let m = matching(entries, query);
    let bw = box_width(ls, 40);
    let bh = box_height(ls);
    let x0 = box_start(w, bw);
    let y0 = box_start(h, bh);
    let boxed = filled(b, w, h, x0, y0, bw, bh, box_color());
    lemma_filled_pixel(b, w, h, x0, y0, bw, bh, box_color(), px, py);
    assert(box_color()@ =~= seq![10u8, 0, 16, 235]);
    assert(bar_color()@ =~= seq![40u8, 20, 52, 255]);
    law_text_fits_its_box(ls, 40);
    assert(12 + 12 * ls[i].len() + 12 <= bw);
    let y = y0 + 12 + launcher_row(m, selected) * 20 - 2;
    lemma_filled_pixel(boxed, w, h, x0 + 2, y, bw - 4, 20, bar_color(), px, py);
    let barred = if m.len() > 0 {
        filled(boxed, w, h, x0 + 2, y, bw - 4, 20, bar_color())
    } else {
        boxed
    };
    lemma_lines_pixel(barred, w, h, x0, y0, ls, px, py);
    lemma_cell_covers(ls, x0, y0, i, j, u, v);
}

/// Beside its box the launcher leaves the frame as it was.
pub proof fn law_launcher_stays_in_its_box(
    b: Seq<u8>,
    w: u32,
    h: u32,
    mod_key: ModKey,
    entries: Seq<Entry>,
    query: Seq<char>,
    selected: int,
    px: int,
    py: int,
)
    requires
        fits(b.len(), w, h),
        w <= i32::MAX,
        h <= i32::MAX,
        box_fits(launcher_lines(mod_key, entries, query), 40),
        0 <= selected < 8,
        0 <= px < w,
        0 <= py < h,
    ensures
        ({
            let ls = launcher_lines(mod_key, entries, query);
            let x0 = box_start(w, box_width(ls, 40));
            let y0 = box_start(h, box_height(ls));
            px < x0 || py < y0 || px >= x0 + box_width(ls, 40) || py >= y0 + box_height(ls)
                ==> pixel(
                launcher_drawn(b, w, h, mod_key, entries, query, selected),
                w,
                px,
                py,
            ) == pixel(b, w, px, py)
        }),
{
    let ls = launcher_lines(mod_key, entries, query);
    let m = matching(entries, query);
    let bw = box_width(ls, 40);
    let bh = box_height(ls);
    let x0 = box_start(w, bw);
    let y0 = box_start(h, bh);
    law_text_fits_its_box(ls, 40);
    let boxed = filled(b, w, h, x0, y0, bw, bh, box_color());
    lemma_filled_pixel(b, w, h, x0, y0, bw, bh, box_color(), px, py);
    let y = y0 + 12 + launcher_row(m, selected) * 20 - 2;
    lemma_filled_pixel(boxed, w, h, x0 + 2, y, bw - 4, 20, bar_color(), px, py);
    let barred = if m.len() > 0 {
        filled(boxed, w, h, x0 + 2, y, bw - 4, 20, bar_color())
    } else {
        boxed
    };
    lemma_lines_pixel(barred, w, h, x0, y0, ls, px, py);
    let k = (py - y0 - 12) / 20;
    if 0 <= k < ls.len() && (px < x0 || py < y0 || px >= x0 + bw || py >= y0 + bh) {
        law_text_stays_in_its_cells(ls[k], x0 + 12, y0 + 12 + k * 20, 2, px, py);
    }
}

/// The launcher names the first eight matches from its fourth line on, and
/// what Enter runs is the entry whose name is highlighted; further matches are
/// counted, not named.
pub proof fn law_highlighted_name_is_run(
    mod_key: ModKey,
    entries: Seq<Entry>,
    query: Seq<char>,
    selected: int,
    k: int,
)
    requires
        0 <= selected,
    ensures
        ({
            let ls = launcher_lines(mod_key, entries, query);
            let m = matching(entries, query);
            &&& 0 <= k < m.len() && k < 8 ==> ls[3 + k] == m[k].name
            &&& selected < m.len() && selected < 8 ==> ls[launcher_row(m, selected)]
                == m[selected].name && chosen_command(entries, query, selected) == Some(
                m[selected].command,
            )
            &&& 0 < m.len() <= 8 ==> ls.len() == 3 + m.len()
            &&& m.len() > 8 ==> ls.len() == 12
            &&& m.len() == 0 ==> ls.len() == 4
            &&& ls[1].len() == query.len() + 3 && ls[1].subrange(2, 2 + query.len() as int) == query
        }),
{
    reveal_strlit("> ");
    reveal_strlit("_");
    let ls = launcher_lines(mod_key, entries, query);
    let typed = "> "@ + query + "_"@;
    assert(ls[1] == typed);
    assert(typed.subrange(2, 2 + query.len() as int) =~= query);
}

/// The help names every bind on a line of its own, in their order: the
/// modifier, a plus sign, the key, and at the end what it does.
pub proof fn law_help_names_every_bind(mod_key: ModKey, binds: Seq<(char, Action)>, i: int)
    requires
        0 <= i < binds.len(),
    ensures
        ({
            let ls = help_lines(mod_key, binds);
            let m = mod_key_label(mod_key).len() as int;
            let a = uppered(action_label(binds[i].1));
            let l = ls[2 + i];
            &&& ls.len() == binds.len() + 5
            &&& l.take(m) == uppered(mod_key_label(mod_key))
            &&& l[m] == '+'
            &&& l[m + 1] == upper(binds[i].0)
            &&& l.skip(m + 4) == a
        }),
{
    reveal_strlit("+");
    reveal_strlit("  ");
    let ls = help_lines(mod_key, binds);
    let m = mod_key_label(mod_key).len() as int;
    let l = bind_line(mod_key, binds[i].0, binds[i].1);
    assert(ls[2 + i] == l);
    assert(l.take(m) =~= uppered(mod_key_label(mod_key)));
    assert(l.skip(m + 4) =~= uppered(action_label(binds[i].1)));
}

} // verus!
