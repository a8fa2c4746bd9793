//! The terminal front end: overrides of the configuration, draining input,
//! and redrawing only what changed.

use vstd::prelude::*;
use crate::config::{Quality, VeilConfig};
use crate::config::{quality_named, ConfigValues};
use crate::keys::KeyCode;
use crate::render::ColorCell;
use crate::text::{append_decimal, append_str, chars_of, cut_once, is_str, parse_unsigned, string_of, trimmed};
use crate::text::{bounded_number, decimal, split_once, trim};
use crate::virtual_input::{forward_event, InputCmd, InputEvent};
use crate::virtual_input::event_cmds;

verus! {

// ── Overrides ────────────────────────────────────────────────────────────

/// The configuration after one `key=value` override. A value that does not
/// read, or another key, changes nothing.
pub open spec fn overridden(c: ConfigValues, kv: Seq<char>) -> ConfigValues {
    match split_once(kv, '=') {
        None => c,
        Some((k, v)) => {
            let key = trim(k);
            let val = trim(v);
            if key == "fps"@ {
                match bounded_number(val, false, 0, u32::MAX as int) {
                    Some(n) => ConfigValues { fps: n as u32, ..c },
                    None => c,
                }
            } else if key == "quality"@ {
                ConfigValues { quality: quality_named(val), ..c }
            } else if key == "cage_timeout_secs"@ {
                match bounded_number(val, false, 0, u32::MAX as int) {
                    Some(n) => ConfigValues { cage_timeout_secs: n as u32, ..c },
                    None => c,
                }
            } else if key == "input"@ {
                ConfigValues { input: !(val == "false"@ || val == "0"@ || val == "off"@), ..c }
            } else {
                c
            }
        },
    }
}

/// Applies one `key=value` override.
pub fn apply_override(cfg: &mut VeilConfig, kv: &str)
    ensures
        final(cfg)@ == overridden(old(cfg)@, kv@),
{
    let text: Vec<char> = chars_of(kv);
    if let Some((k, v)) = cut_once(text.as_slice(), '=') {
        let key: &[char] = trimmed(k);
        let val: &[char] = trimmed(v);
        if is_str(key, "fps") {
            if let Some(n) = parse_unsigned(val, 0xffff_ffff) {
                cfg.fps = n as u32;
            }
        } else if is_str(key, "quality") {
            let name: String = string_of(val);
            cfg.quality = Quality::from_str(name.as_str());
        } else if is_str(key, "cage_timeout_secs") {
            if let Some(n) = parse_unsigned(val, 0xffff_ffff) {
                cfg.cage_timeout_secs = n as u32;
            }
        } else if is_str(key, "input") {
            cfg.input = !(is_str(val, "false") || is_str(val, "0") || is_str(val, "off"));
        }
    }
}

/// The configuration after the first `n` overrides.
pub open spec fn all_overridden(c: ConfigValues, kvs: Seq<String>, n: int) -> ConfigValues
    decreases n,
{
    if n <= 0 {
        c
    } else {
        overridden(all_overridden(c, kvs, n - 1), kvs[n - 1]@)
    }
}

/// Applies the overrides in order; later ones win.
pub fn apply_overrides(cfg: &mut VeilConfig, kvs: &Vec<String>)
    ensures
        final(cfg)@ == all_overridden(old(cfg)@, kvs@, kvs@.len() as int),
{
    let ghost start = cfg@;
    for i in 0..kvs.len()
        invariant
            cfg@ == all_overridden(start, kvs@, i as int),
    {
        apply_override(cfg, kvs[i].as_str());
    }
}

/// Captures a second: half the frame rate, at least five.
pub fn capture_fps(fps: u32) -> (r: u32)
    ensures
        r == (if fps / 2 > 5 {
            fps / 2
        } else {
            5
        }),
{
    if fps / 2 > 5 {
        fps / 2
    } else {
        5
    }
}

// ── Input ────────────────────────────────────────────────────────────────

/// Ctrl+C.
pub open spec fn interrupt(ev: InputEvent) -> bool {
    ev matches InputEvent::Key(k) && k.code == KeyCode::Char('c') && k.mods.ctrl
}

fn is_interrupt(ev: &InputEvent) -> (r: bool)
    ensures
        r == interrupt(*ev),
{
    match ev {
        InputEvent::Key(k) => match k.code {
            KeyCode::Char(c) => c == 'c' && k.mods.ctrl,
            _ => false,
        },
        _ => false,
    }
}

/// What draining the pending events gives.
pub struct Drained {
    /// Commands for the virtual input device, in order.
    pub cmds: Vec<InputCmd>,
    /// The last new size of the terminal.
    pub resize: Option<(u16, u16)>,
    /// Ctrl+C was pressed: the events after it are dropped.
    pub stop: bool,
}

/// The number of events before the first Ctrl+C.
pub open spec fn heeded(events: Seq<InputEvent>) -> int
    decreases events.len(),
{
    if events.len() == 0 {
        0
    } else if interrupt(events[0]) {
        0
    } else {
        1 + heeded(events.skip(1))
    }
}

/// The commands of the first `n` events.
pub open spec fn drained_cmds(events: Seq<InputEvent>, cols: u16, rows: u16, n: int) -> Seq<InputCmd>
    decreases n,
{
    if n <= 0 {
        Seq::empty()
    } else {
        drained_cmds(events, cols, rows, n - 1) + event_cmds(events[n - 1], cols, rows)
    }
}

/// The last new size in the first `n` events.
pub open spec fn drained_size(events: Seq<InputEvent>, n: int) -> Option<(u16, u16)>
    decreases n,
{
    if n <= 0 {
        None
    } else {
        match events[n - 1] {
            InputEvent::Resize(w, h) => Some((w, h)),
            _ => drained_size(events, n - 1),
        }
    }
}

/// Handles all pending input events. `forward` says whether there is a device
/// to send commands to.
pub fn drain_input(events: &Vec<InputEvent>, forward: bool, cols: u16, rows: u16) -> (d: Drained)
    ensures
        d.stop <==> heeded(events@) < events@.len(),
        d.cmds@ == (if forward {
            drained_cmds(events@, cols, rows, heeded(events@))
        } else {
            Seq::empty()
        }),
        d.resize == drained_size(events@, heeded(events@)),
{
    let mut cmds: Vec<InputCmd> = Vec::new();
    let mut resize: Option<(u16, u16)> = None;
    assert(events@.skip(0) =~= events@);
    for i in 0..events.len()
        invariant
            heeded(events@) == i + heeded(events@.skip(i as int)),
            cmds@ =~= (if forward {
                drained_cmds(events@, cols, rows, i as int)
            } else {
                Seq::empty()
            }),
            resize == drained_size(events@, i as int),
    {
        let ev: InputEvent = events[i];
        assert(events@.skip(i as int)[0] == ev);
        assert(events@.skip(i as int).skip(1) =~= events@.skip(i + 1));
        if is_interrupt(&ev) {
            return Drained { cmds, resize, stop: true };
        }
        let (mut sent, size) = forward_event(&ev, cols, rows);
        if forward {
            cmds.append(&mut sent);
        }
        if size.is_some() {
            resize = size;
        }
    }
    assert(events@.skip(events.len() as int) =~= Seq::<InputEvent>::empty());
    Drained { cmds, resize, stop: false }
}

/// The bytes that were typed hold Ctrl+C.
pub fn has_interrupt(bytes: &[u8]) -> (r: bool)
    ensures
        r == bytes@.contains(3),
{
    for i in 0..bytes.len()
        invariant
            forall|j: int| 0 <= j < i ==> bytes@[j] != 3,
    {
        if bytes[i] == 3 {
            return true;
        }
    }
    false
}

// ── Frames ───────────────────────────────────────────────────────────────

/// How input reaches the program.
#[derive(Clone, Copy, Debug, PartialEq, Eq, Structural)]
pub enum InputMethod {
    /// Virtual devices of the compositor's protocol.
    Wayland,
    /// A virtual device of the kernel.
    Kernel,
    /// Not at all: neither is to be had.
    ReadOnly,
    /// Not at all: it is switched off.
    Disabled,
}

/// Virtual devices of the protocol come first, the kernel's second.
pub fn input_method(enabled: bool, wayland: bool, kernel: bool) -> (m: InputMethod)
    ensures
        m == (if !enabled {
            InputMethod::Disabled
        } else if wayland {
            InputMethod::Wayland
        } else if kernel {
            InputMethod::Kernel
        } else {
            InputMethod::ReadOnly
        }),
{
    if !enabled {
        InputMethod::Disabled
    } else if wayland {
        InputMethod::Wayland
    } else if kernel {
        InputMethod::Kernel
    } else {
        InputMethod::ReadOnly
    }
}

/// How captured frames are drawn.
#[derive(Clone, Copy, Debug, PartialEq, Eq, Structural)]
pub enum GuiLoop {
    Ascii { edge: bool },
    Kitty,
    Pixel,
}

/// The way of drawing for a quality. Sixel is not drawn yet; half blocks stand
/// in for it, as for whatever has no way of its own.
pub fn gui_loop(quality: Quality) -> (l: GuiLoop)
    ensures
        l == (match quality {
            Quality::AsciiLuma => GuiLoop::Ascii { edge: false },
            Quality::AsciiEdge => GuiLoop::Ascii { edge: true },
            Quality::Kitty => GuiLoop::Kitty,
            _ => GuiLoop::Pixel,
        }),
{
    match quality {
        Quality::AsciiLuma => GuiLoop::Ascii { edge: false },
        Quality::AsciiEdge => GuiLoop::Ascii { edge: true },
        Quality::Kitty => GuiLoop::Kitty,
        _ => GuiLoop::Pixel,
    }
}

/// A capture has something to draw.
pub fn has_pixels(w: u32, h: u32, bytes: usize) -> (r: bool)
    ensures
        r <==> w > 0 && h > 0 && bytes > 0,
{
    w > 0 && h > 0 && bytes > 0
}

/// A pixel of the test picture: a quarter each of red, green, blue and white.
pub open spec fn test_color(left: bool, top: bool) -> Seq<u8> {
    if left && top {
        seq![220, 50, 50, 255]
    } else if top {
        seq![50, 200, 50, 255]
    } else if left {
        seq![50, 50, 220, 255]
    } else {
        seq![200, 200, 200, 255]
    }
}

/// The test picture, 200 pixels wide and 100 high.
pub fn test_pattern() -> (r: Vec<u8>)
    ensures
        r@ == Seq::new(80_000, |k: int| test_color(k / 4 % 200 < 100, k / 800 < 50)[k % 4]),
{
    let mut out: Vec<u8> = Vec::new();
    for p in 0..20_000u32
        invariant
            out@ =~= Seq::new(
                (4 * p) as nat,
                |k: int| test_color(k / 4 % 200 < 100, k / 800 < 50)[k % 4],
            ),
    {
        let left: bool = p % 200 < 100;
        let top: bool = p / 200 < 50;
        let c: [u8; 4] = if left && top {
            [220, 50, 50, 255]
        } else if top {
            [50, 200, 50, 255]
        } else if left {
            [50, 50, 220, 255]
        } else {
            [200, 200, 200, 255]
        };
        assert(c@ =~= test_color(left, top));
        out.push(c[0]);
        out.push(c[1]);
        out.push(c[2]);
        out.push(c[3]);
    }
    out
}

// ── Half-block rows ──────────────────────────────────────────────────────

/// The rest of the escape sequence that sets a color.
pub open spec fn color_code(c: Seq<u8>) -> Seq<char> {
    decimal(c[0] as nat) + ";"@ + decimal(c[1] as nat) + ";"@ + decimal(c[2] as nat) + "m"@
}

/// The escape sequence of one cell.
pub open spec fn color_cell(c: ColorCell) -> Seq<char> {
    "\x1b[38;2;"@ + color_code(c.fg@) + "\x1b[48;2;"@ + color_code(c.bg@) + "\u{2580}"@
}

/// The escape sequences of cells, one after another.
pub open spec fn color_cells(cells: Seq<ColorCell>) -> Seq<char>
    decreases cells.len(),
{
    if cells.len() == 0 {
        Seq::empty()
    } else {
        color_cells(cells.drop_last()) + color_cell(cells.last())
    }
}

/// The line that draws a row of cells.
pub open spec fn color_line(cells: Seq<ColorCell>) -> Seq<char> {
    color_cells(cells) + "\x1b[0m"@
}

/// Two cells show the same colors.
pub open spec fn same_cell(a: ColorCell, b: ColorCell) -> bool {
    a.fg@ == b.fg@ && a.bg@ == b.bg@
}

/// The cells of row `row` that there are.
pub open spec fn row_cells(cells: Seq<ColorCell>, cols: int, row: int) -> Seq<ColorCell> {
    let s = row * cols;
    let e = s + cols;
    if s >= cells.len() {
        Seq::empty()
    } else if e <= cells.len() {
        cells.subrange(s, e)
    } else {
        cells.subrange(s, cells.len() as int)
    }
}

pub open spec fn same_cells(a: Seq<ColorCell>, b: Seq<ColorCell>) -> bool {
    a.len() == b.len() && forall|i: int|
        0 <= i < a.len() ==> same_cell(#[trigger] a[i], b[i])
}

/// The first `n` rows that changed, with the line that draws each.
pub open spec fn changed_color_rows(
    prev: Seq<ColorCell>,
    curr: Seq<ColorCell>,
    cols: int,
    n: int,
) -> Seq<(u16, Seq<char>)>
    decreases n,
{
    if n <= 0 {
        Seq::empty()
    } else {
        let before = changed_color_rows(prev, curr, cols, n - 1);
        let line = row_cells(curr, cols, n - 1);
        if line.len() > 0 && !same_cells(line, row_cells(prev, cols, n - 1)) {
            before.push(((n - 1) as u16, color_line(line)))
        } else {
            before
        }
    }
}

fn cells_of<'a>(cells: &'a [ColorCell], cols: u16, row: u16) -> (r: &'a [ColorCell])
    ensures
        r@ == row_cells(cells@, cols as int, row as int),
{
    assert(0 <= row * cols <= 65535 * 65535) by (nonlinear_arith)
        requires
            0 <= row <= 65535,
            0 <= cols <= 65535,
    ;
    let s: u64 = row as u64 * cols as u64;
    let e: u64 = s + cols as u64;
    let n: u64 = cells.len() as u64;
    if s >= n {
        let r: &[ColorCell] = vstd::slice::slice_subrange(cells, 0, 0);
        assert(r@ =~= Seq::<ColorCell>::empty());
        r
    } else if e <= n {
        vstd::slice::slice_subrange(cells, s as usize, e as usize)
    } else {
        vstd::slice::slice_subrange(cells, s as usize, n as usize)
    }
}

fn equal_cell(a: &ColorCell, b: &ColorCell) -> (r: bool)
    ensures
        r == same_cell(*a, *b),
{
    let r: bool = a.fg[0] == b.fg[0] && a.fg[1] == b.fg[1] && a.fg[2] == b.fg[2] && a.bg[0]
        == b.bg[0] && a.bg[1] == b.bg[1] && a.bg[2] == b.bg[2];
    if r {
        assert(a.fg@ =~= b.fg@);
        assert(a.bg@ =~= b.bg@);
    }
    r
}

fn equal_cells(a: &[ColorCell], b: &[ColorCell]) -> (r: bool)
    ensures
        r == same_cells(a@, b@),
{
    if a.len() != b.len() {
        return false;
    }
    for i in 0..a.len()
        invariant
            a.len() == b.len(),
            forall|j: int| 0 <= j < i ==> same_cell(#[trigger] a@[j], b@[j]),
    {
        if !equal_cell(&a[i], &b[i]) {
            assert(!same_cell(a@[i as int], b@[i as int]));
            return false;
        }
    }
    true
}

fn append_code(out: &mut Vec<char>, c: [u8; 3])
    ensures
        final(out)@ == old(out)@ + color_code(c@),
{
    let ghost before = out@;
    append_decimal(out, c[0] as u64);
    append_str(out, ";");
    append_decimal(out, c[1] as u64);
    append_str(out, ";");
    append_decimal(out, c[2] as u64);
    append_str(out, "m");
    assert(out@ =~= before + color_code(c@));
}

fn append_cell(out: &mut Vec<char>, c: ColorCell)
    ensures
        final(out)@ == old(out)@ + color_cell(c),
{
    let ghost before = out@;
    append_str(out, "\x1b[38;2;");
    append_code(out, c.fg);
    append_str(out, "\x1b[48;2;");
    append_code(out, c.bg);
    append_str(out, "\u{2580}");
    assert(out@ =~= before + color_cell(c));
}

fn draw_line(cells: &[ColorCell]) -> (r: String)
    ensures
        r@ == color_line(cells@),
{
    let mut out: Vec<char> = Vec::new();
    assert(cells@.take(0) =~= Seq::<ColorCell>::empty());
    for i in 0..cells.len()
        invariant
            out@ == color_cells(cells@.take(i as int)),
    {
        append_cell(&mut out, cells[i]);
        assert(cells@.take(i + 1).drop_last() =~= cells@.take(i as int));
    }
    assert(cells@.take(cells.len() as int) =~= cells@);
    append_str(&mut out, "\x1b[0m");
    string_of(out.as_slice())
}

/// Which rows of a grid of half blocks have to be drawn again.
pub fn diff_color_rows(prev: &[ColorCell], curr: &[ColorCell], cols: u16, rows: u16) -> (out: Vec<
    crate::terminal::RowUpdate,
>)
    ensures
        crate::terminal::updates_of(out@) == changed_color_rows(
            prev@,
            curr@,
            cols as int,
            rows as int,
        ),
{
    let mut out: Vec<crate::terminal::RowUpdate> = Vec::new();
    for row in 0..rows
        invariant
            crate::terminal::updates_of(out@) =~= changed_color_rows(
                prev@,
                curr@,
                cols as int,
                row as int,
            ),
    {
        let line: &[ColorCell] = cells_of(curr, cols, row);
        let was: &[ColorCell] = cells_of(prev, cols, row);
        if line.len() > 0 && !equal_cells(line, was) {
            let ghost before = out@;
            out.push(crate::terminal::RowUpdate { row, text: draw_line(line) });
            assert(crate::terminal::updates_of(out@) =~= crate::terminal::updates_of(before).push(
                (row, color_line(line@)),
            ));
        }
    }
    out
}

// ── What overrides, events and redraws do ────────────────────────────────

proof fn lemma_override(key: Seq<char>, val: Seq<char>)
    requires
        key.len() > 0,
        !key.contains('='),
        !crate::text::white(key[0]),
        !crate::text::white(key.last()),
        val.len() > 0,
        !crate::text::white(val[0]),
        !crate::text::white(val.last()),
    ensures
        split_once(key + seq!['='] + val, '=') == Some((key, val)),
        trim(key) == key,
        trim(val) == val,
{
    let l = key + seq!['='] + val;
    assert forall|j: int| 0 <= j < key.len() implies l[j] != '=' by {
        assert(key.contains(key[j]));
    }
    crate::text::lemma_find_is(l, '=', key.len() as int);
    assert(l.take(key.len() as int) =~= key);
    assert(l.skip(key.len() as int + 1) =~= val);
    crate::text::lemma_trim_id(key);
    crate::text::lemma_trim_id(val);
}

/// An override sets the value it names, as it is written, and nothing else; a
/// text without an equals sign sets nothing.
pub proof fn law_overrides_set_what_they_name(c: ConfigValues, n: u32, word: Seq<char>)
    requires
        word.len() > 0,
        !crate::text::white(word[0]),
        !crate::text::white(word.last()),
        !word.contains('='),
    ensures
        overridden(c, "fps"@ + seq!['='] + decimal(n as nat)) == (ConfigValues { fps: n, ..c }),
        overridden(c, "cage_timeout_secs"@ + seq!['='] + decimal(n as nat)) == (ConfigValues {
            cage_timeout_secs: n,
            ..c
        }),
        overridden(c, "quality"@ + seq!['='] + word) == (ConfigValues {
            quality: quality_named(word),
            ..c
        }),
        overridden(c, "input"@ + seq!['='] + word) == (ConfigValues {
            input: word != "false"@ && word != "0"@ && word != "off"@,
            ..c
        }),
        overridden(c, word) == c,
{
    reveal_strlit("fps");
    reveal_strlit("cage_timeout_secs");
    reveal_strlit("quality");
    reveal_strlit("input");
    let d = decimal(n as nat);
    crate::text::law_decimal_reads_back(n as nat);
    assert(crate::text::is_digit(d[0]));
    assert(crate::text::is_digit(d[d.len() - 1]));
    lemma_override("fps"@, d);
    lemma_override("cage_timeout_secs"@, d);
    lemma_override("quality"@, word);
    lemma_override("input"@, word);
    assert("fps"@.len() == 3 && "quality"@.len() == 7 && "input"@.len() == 5
        && "cage_timeout_secs"@.len() == 17);
    assert forall|j: int| 0 <= j < word.len() implies word[j] != '=' by {
        assert(word.contains(word[j]));
    }
    crate::text::lemma_find_none(word, '=');
}

/// Overrides are taken in order: one list after another is the two together.
pub proof fn law_overrides_add_up(c: ConfigValues, a: Seq<String>, b: Seq<String>, n: int)
    requires
        0 <= n <= b.len(),
    ensures
        all_overridden(c, a + b, a.len() + n) == all_overridden(
            all_overridden(c, a, a.len() as int),
            b,
            n,
        ),
    decreases n,
{
    if n > 0 {
        law_overrides_add_up(c, a, b, n - 1);
        assert((a + b)[a.len() + n - 1] == b[n - 1]);
    } else {
        lemma_override_prefix(c, a, b, a.len() as int);
    }
}

proof fn lemma_override_prefix(c: ConfigValues, a: Seq<String>, b: Seq<String>, n: int)
    requires
        0 <= n <= a.len(),
    ensures
        all_overridden(c, a + b, n) == all_overridden(c, a, n),
    decreases n,
{
    if n > 0 {
        lemma_override_prefix(c, a, b, n - 1);
        assert((a + b)[n - 1] == a[n - 1]);
    }
}

/// Events count up to the first Ctrl+C and no further.
pub proof fn law_events_before_the_interrupt_count(events: Seq<InputEvent>)
    ensures
        0 <= heeded(events) <= events.len(),
        forall|i: int| 0 <= i < heeded(events) ==> !interrupt(#[trigger] events[i]),
        heeded(events) < events.len() ==> interrupt(events[heeded(events)]),
    decreases events.len(),
{
    if events.len() > 0 && !interrupt(events[0]) {
        let t = events.skip(1);
        law_events_before_the_interrupt_count(t);
        assert forall|i: int| 0 <= i < heeded(events) implies !interrupt(#[trigger] events[i]) by {
            if i > 0 {
                assert(t[i - 1] == events[i]);
            }
        }
    }
}

/// The last new size counts, and every event's commands are sent, in order.
pub proof fn law_last_size_counts(
    events: Seq<InputEvent>,
    cols: u16,
    rows: u16,
    n: int,
    i: int,
)
    requires
        0 <= i < n <= events.len(),
        forall|k: int| i < k < n ==> !(#[trigger] events[k] is Resize),
    ensures
        events[i] matches InputEvent::Resize(w, h) ==> drained_size(events, n) == Some((w, h)),
        drained_cmds(events, cols, rows, n).len() >= drained_cmds(events, cols, rows, i).len(),
        drained_cmds(events, cols, rows, n).take(
            drained_cmds(events, cols, rows, i + 1).len() as int,
        ) == drained_cmds(events, cols, rows, i) + event_cmds(events[i], cols, rows),
    decreases n,
{
    if n > i + 1 {
        law_last_size_counts(events, cols, rows, n - 1, i);
        assert(!(events[n - 1] is Resize));
        let l = drained_cmds(events, cols, rows, i + 1).len() as int;
        let before = drained_cmds(events, cols, rows, n - 1);
        lemma_cmds_grow(events, cols, rows, i + 1, n - 1);
        assert(drained_cmds(events, cols, rows, n).take(l) =~= before.take(l));
    } else {
        let all = drained_cmds(events, cols, rows, n);
        assert(all.take(all.len() as int) =~= all);
    }
}

proof fn lemma_cmds_grow(events: Seq<InputEvent>, cols: u16, rows: u16, i: int, n: int)
    requires
        0 <= i <= n <= events.len(),
    ensures
        drained_cmds(events, cols, rows, i).len() <= drained_cmds(events, cols, rows, n).len(),
    decreases n,
{
    if i < n {
        lemma_cmds_grow(events, cols, rows, i, n - 1);
    }
}

/// Ctrl with `c` interrupts; neither alone does.
pub proof fn law_interrupt_needs_ctrl_and_c(k: crate::keys::KeyEvent)
    ensures
        interrupt(InputEvent::Key(k)) <==> k.mods.ctrl && k.code == KeyCode::Char('c'),
{
}

/// A grid that did not change draws nothing.
pub proof fn law_unchanged_rows_are_not_drawn(cells: Seq<ColorCell>, cols: int, n: int)
    ensures
        changed_color_rows(cells, cells, cols, n).len() == 0,
    decreases n,
{
    if n > 0 {
        law_unchanged_rows_are_not_drawn(cells, cols, n - 1);
    }
}

/// A row is drawn again exactly where a cell of it changed its colors, on its
/// own line and whole, and the rows come from the top down.
pub proof fn law_changed_rows_are_drawn(
    prev: Seq<ColorCell>,
    curr: Seq<ColorCell>,
    cols: int,
    n: int,
    row: int,
)
    requires
        0 <= row < n <= 65536,
        cols > 0,
        prev.len() == curr.len(),
        n * cols <= curr.len(),
    ensures
        ({
            let drawn = changed_color_rows(prev, curr, cols, n);
            let changed = exists|c: int|
                0 <= c < cols && !same_cell(
                    #[trigger] curr[row * cols + c],
                    prev[row * cols + c],
                );
            let line = color_line(curr.subrange(row * cols, row * cols + cols));
            &&& changed <==> drawn.contains((row as u16, line))
            &&& forall|i: int, j: int|
                0 <= i < j < drawn.len() ==> (#[trigger] drawn[i]).0 < (#[trigger] drawn[j]).0
            &&& forall|i: int| 0 <= i < drawn.len() ==> (#[trigger] drawn[i]).0 < n
        }),
    decreases n,
{
    let drawn = changed_color_rows(prev, curr, cols, n);
    let before = changed_color_rows(prev, curr, cols, n - 1);
    lemma_rows_ascend(prev, curr, cols, n);
    lemma_rows_ascend(prev, curr, cols, n - 1);
    assert(0 <= row * cols && row * cols + cols <= n * cols) by (nonlinear_arith)
        requires
            0 <= row < n,
            cols > 0,
    ;
    let line = color_line(curr.subrange(row * cols, row * cols + cols));
    let key = (row as u16, line);
    if row < n - 1 {
        assert((n - 1) * cols <= curr.len()) by (nonlinear_arith)
            requires
                n * cols <= curr.len(),
                cols > 0,
        ;
        law_changed_rows_are_drawn(prev, curr, cols, n - 1, row);
        if before.contains(key) {
            let k = choose|k: int| 0 <= k < before.len() && before[k] == key;
            assert(drawn[k] == key);
        }
        if drawn.contains(key) {
            let k = choose|k: int| 0 <= k < drawn.len() && drawn[k] == key;
            if k < before.len() {
                assert(before[k] == key);
            } else {
                assert(drawn[k].0 == (n - 1) as u16);
            }
        }
    } else {
        let a = row_cells(curr, cols, row);
        let b = row_cells(prev, cols, row);
        assert(a.len() == cols && b.len() == cols);
        assert(forall|c: int| 0 <= c < cols ==> a[c] == curr[row * cols + c] && b[c] == prev[row * cols + c]);
        if exists|c: int|
            0 <= c < cols && !same_cell(#[trigger] curr[row * cols + c], prev[row * cols + c]) {
            let c = choose|c: int|
                0 <= c < cols && !same_cell(#[trigger] curr[row * cols + c], prev[row * cols + c]);
            assert(!same_cell(a[c], b[c]));
            assert(drawn[before.len() as int] == key);
        } else {
            assert forall|i: int| 0 <= i < a.len() implies same_cell(#[trigger] a[i], b[i]) by {
                assert(same_cell(curr[row * cols + i], prev[row * cols + i]));
            }
            if drawn.contains(key) {
                let k = choose|k: int| 0 <= k < drawn.len() && drawn[k] == key;
                assert(before[k].0 < n - 1);
            }
        }
    }
}

proof fn lemma_rows_ascend(prev: Seq<ColorCell>, curr: Seq<ColorCell>, cols: int, n: int)
    requires
        n <= 65536,
    ensures
        ({
            let drawn = changed_color_rows(prev, curr, cols, n);
            &&& forall|i: int, j: int|
                0 <= i < j < drawn.len() ==> (#[trigger] drawn[i]).0 < (#[trigger] drawn[j]).0
            &&& forall|i: int| 0 <= i < drawn.len() ==> (#[trigger] drawn[i]).0 < n
        }),
    decreases n,
{
    if n > 0 {
        lemma_rows_ascend(prev, curr, cols, n - 1);
        let before = changed_color_rows(prev, curr, cols, n - 1);
        let drawn = changed_color_rows(prev, curr, cols, n);
        assert forall|i: int| 0 <= i < drawn.len() implies (#[trigger] drawn[i]).0 < n by {
            if i < before.len() {
                assert(drawn[i] == before[i]);
            }
        }
        assert forall|i: int, j: int| 0 <= i < j < drawn.len() implies (#[trigger] drawn[i]).0 < (
        #[trigger] drawn[j]).0 by {
            assert(drawn[i] == before[i]);
            if j < before.len() {
                assert(drawn[j] == before[j]);
            }
        }
    }
}

/// A cell is drawn with its upper color in front and its lower color behind,
/// red, green and blue in that order, as an upper half block; cells follow one
/// another, and a line ends with the colors reset.
pub proof fn law_cells_are_drawn_in_order(a: Seq<ColorCell>, b: Seq<ColorCell>, c: ColorCell)
    ensures
        color_cells(a + b) == color_cells(a) + color_cells(b),
        ({
            let front = decimal(c.fg@[0] as nat) + ";"@ + decimal(c.fg@[1] as nat) + ";"@ + decimal(
                c.fg@[2] as nat,
            ) + "m"@;
            let behind = decimal(c.bg@[0] as nat) + ";"@ + decimal(c.bg@[1] as nat) + ";"@ + decimal(
                c.bg@[2] as nat,
            ) + "m"@;
            color_cells(seq![c]) == "\x1b[38;2;"@ + front + "\x1b[48;2;"@ + behind + "\u{2580}"@
        }),
        color_line(a) == color_cells(a) + "\x1b[0m"@,
    decreases b.len(),
{
    if b.len() == 0 {
        assert(a + b =~= a);
        assert(color_cells(a) + color_cells(b) =~= color_cells(a));
    } else {
        law_cells_are_drawn_in_order(a, b.drop_last(), c);
        assert((a + b).drop_last() =~= a + b.drop_last());
        assert((a + b).last() == b.last());
        assert(color_cells(a + b) =~= color_cells(a) + color_cells(b));
    }
    assert(seq![c].drop_last() =~= Seq::<ColorCell>::empty());
    assert(color_cells(Seq::<ColorCell>::empty()) =~= Seq::<char>::empty());
    assert(color_cells(seq![c]) =~= color_cell(c));
}

} // verus!
