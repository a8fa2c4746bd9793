//! The compositor's decisions: which window has focus, what a key does, what
//! is drawn and when. The Wayland plumbing calls in with events and carries
//! out what comes back.

use vstd::prelude::*;
use std::collections::HashMap;
use crate::config::{Action, Keybinds, ModKey};
use crate::config::bound_action;
use crate::input::InputCmd;
use crate::launcher::Launcher;
use crate::launcher::{by_name, chosen_command, described, entries_of, matching, refs_of, without_repeats};
use crate::layout::{Dir, Layout, Rect};
use crate::layout::{
    focus_candidate, focus_fits, focus_target, grown, inside, law_tiles_allow_focus, shrunk, tiles,
};
use crate::scene::{
    compose, cursor_can_be_drawn, windows_can_be_drawn, Cursor, Frame, Popup, TreeNode, Window,
};
use crate::scene::{
    cache_wf, composed, cursor_fits, lemma_plain_pixel, plain, popups_drawn, sides_fit, tree_drawn,
    window_rect, windows_drawn, windows_fit,
};
use crate::overlay::{help_can_be_drawn, launcher_can_be_drawn};
use crate::overlay::{box_fits, help_lines, launcher_fits};
use crate::surface::{PixelFormat, SurfaceBuf};
use crate::text::{copy_str, to_lower};
use crate::text::lower;
use crate::canvas::{fits, pixel};
use crate::surface::law_surface_covers_its_rectangle;

verus! {

/// `char::from_u32` gives the character of a code point, and none for a number
/// that is no Unicode scalar value.
pub assume_specification[ char::from_u32 ](i: u32) -> (r: Option<char>)
    ensures
        r == (if i < 0xd800 || 0xe000 <= i <= 0x10ffff {
            Some(i as char)
        } else {
            None
        }),
;

// ── Keys ─────────────────────────────────────────────────────────────────

/// Keysyms that the launcher acts on.
pub const KEY_BACKSPACE: u32 = 0xff08;

pub const KEY_RETURN: u32 = 0xff0d;

pub const KEY_ESCAPE: u32 = 0xff1b;

pub const KEY_UP: u32 = 0xff52;

pub const KEY_DOWN: u32 = 0xff54;

pub const KEY_KP_ENTER: u32 = 0xff8d;

pub const KEY_LOWER_D: u32 = 0x64;

pub const KEY_UPPER_D: u32 = 0x44;

/// The left pointer button.
pub const BTN_LEFT: u32 = 0x110;

/// The modifiers held down.
#[derive(Clone, Copy, Debug, PartialEq, Eq, Structural)]
pub struct Modifiers {
    pub ctrl: bool,
    pub alt: bool,
    pub shift: bool,
    pub logo: bool,
}

pub open spec fn held(m: Modifiers, key: ModKey) -> bool {
    match key {
        ModKey::Super => m.logo,
        ModKey::Ctrl => m.ctrl,
        ModKey::Alt => m.alt,
        ModKey::Shift => m.shift,
    }
}

fn mod_held(m: &Modifiers, key: ModKey) -> (r: bool)
    ensures
        r == held(*m, key),
{
    match key {
        ModKey::Super => m.logo,
        ModKey::Ctrl => m.ctrl,
        ModKey::Alt => m.alt,
        ModKey::Shift => m.shift,
    }
}

/// The character of a code point.
pub open spec fn char_of(code_point: u32) -> Option<char> {
    if code_point < 0xd800 || 0xe000 <= code_point <= 0x10ffff {
        Some(code_point as char)
    } else {
        None
    }
}

/// A control character.
pub open spec fn control(c: char) -> bool {
    (c as u32) <= 0x1f || 0x7f <= c as u32 <= 0x9f
}

/// Lowercased ASCII char for a key's code point, ignoring Shift, so a
/// configured `"h"` bind matches whether or not the chord also holds Shift.
pub fn keysym_char(code_point: u32) -> (r: Option<char>)
    ensures
        r == (match char_of(code_point) {
            Some(c) => Some(lower(c)),
            None => None,
        }),
{
    match char::from_u32(code_point) {
        Some(c) => Some(to_lower(c)),
        None => None,
    }
}

/// What a key does to the open launcher.
#[derive(Clone, Copy, Debug, PartialEq, Eq, Structural)]
pub enum LauncherStep {
    Close,
    Run,
    Backspace,
    Up,
    Down,
    Type(char),
    Ignore,
}

/// The chord that opened the launcher and Escape close it, Enter runs, the
/// editing keys edit, and every printable character is typed as it is.
pub open spec fn launcher_key(
    mods: Modifiers,
    mod_key: ModKey,
    sym: u32,
    code_point: u32,
) -> LauncherStep {
    if held(mods, mod_key) && (sym == KEY_LOWER_D || sym == KEY_UPPER_D) {
        LauncherStep::Close
    } else if sym == KEY_ESCAPE {
        LauncherStep::Close
    } else if sym == KEY_RETURN || sym == KEY_KP_ENTER {
        LauncherStep::Run
    } else if sym == KEY_BACKSPACE {
        LauncherStep::Backspace
    } else if sym == KEY_UP {
        LauncherStep::Up
    } else if sym == KEY_DOWN {
        LauncherStep::Down
    } else {
        match char_of(code_point) {
            Some(c) => if control(c) {
                LauncherStep::Ignore
            } else {
                LauncherStep::Type(c)
            },
            None => LauncherStep::Ignore,
        }
    }
}

pub fn launcher_step(mods: &Modifiers, mod_key: ModKey, sym: u32, code_point: u32) -> (s:
    LauncherStep)
    ensures
        s == launcher_key(*mods, mod_key, sym, code_point),
{
    if mod_held(mods, mod_key) && (sym == KEY_LOWER_D || sym == KEY_UPPER_D) {
        return LauncherStep::Close;
    }
    if sym == KEY_ESCAPE {
        return LauncherStep::Close;
    }
    if sym == KEY_RETURN || sym == KEY_KP_ENTER {
        return LauncherStep::Run;
    }
    if sym == KEY_BACKSPACE {
        return LauncherStep::Backspace;
    }
    if sym == KEY_UP {
        return LauncherStep::Up;
    }
    if sym == KEY_DOWN {
        return LauncherStep::Down;
    }
    match char::from_u32(code_point) {
        Some(c) => {
            let u: u32 = c as u32;
            if u <= 0x1f || (0x7f <= u && u <= 0x9f) {
                LauncherStep::Ignore
            } else {
                LauncherStep::Type(c)
            }
        },
        None => LauncherStep::Ignore,
    }
}

/// The chord that quits, whatever the configuration: Shift+Alt+E.
pub open spec fn quit_chord(mods: Modifiers, code_point: u32) -> bool {
    mods.shift && mods.alt && char_of(code_point) is Some && lower(char_of(code_point)->0) == 'e'
}

// ── Windows ──────────────────────────────────────────────────────────────

/// A toplevel window. It stays in the list until it is pruned.
#[derive(Clone, Copy, Debug, PartialEq, Eq, Structural)]
pub struct Toplevel {
    pub id: u64,
    pub alive: bool,
}

/// The positions of the live windows, in order.
pub open spec fn live_at(ts: Seq<Toplevel>) -> Seq<int>
    decreases ts.len(),
{
    if ts.len() == 0 {
        Seq::empty()
    } else if ts.last().alive {
        live_at(ts.drop_last()).push(ts.len() - 1)
    } else {
        live_at(ts.drop_last())
    }
}

/// The number of live windows.
pub open spec fn live_count(ts: Seq<Toplevel>) -> nat {
    live_at(ts).len()
}

/// The identity of live window `i`.
pub open spec fn live_id(ts: Seq<Toplevel>, i: int) -> u64 {
    ts[live_at(ts)[i]].id
}

/// The live windows by number, in order.
pub open spec fn live_ids_of(ts: Seq<Toplevel>) -> Seq<u64> {
    Seq::new(live_count(ts), |i: int| live_id(ts, i))
}

/// Whether these are the live windows, each in its place.
pub open spec fn in_order(windows: Seq<Window>, ts: Seq<Toplevel>) -> bool {
    &&& windows.len() == live_count(ts)
    &&& forall|i: int| 0 <= i < windows.len() ==> (#[trigger] windows[i]).id == live_ids_of(ts)[i]
}

/// The windows that are alive, in order.
pub open spec fn survivors(ts: Seq<Toplevel>) -> Seq<Toplevel>
    decreases ts.len(),
{
    if ts.len() == 0 {
        Seq::empty()
    } else if ts.last().alive {
        survivors(ts.drop_last()).push(ts.last())
    } else {
        survivors(ts.drop_last())
    }
}

pub proof fn lemma_live_at(ts: Seq<Toplevel>)
    ensures
        live_at(ts).len() <= ts.len(),
        forall|i: int|
            0 <= i < live_at(ts).len() ==> 0 <= #[trigger] live_at(ts)[i] < ts.len()
                && ts[live_at(ts)[i]].alive,
        forall|i: int, j: int|
            0 <= i < j < live_at(ts).len() ==> #[trigger] live_at(ts)[i] < #[trigger] live_at(
                ts,
            )[j],
    decreases ts.len(),
{
    if ts.len() > 0 {
        lemma_live_at(ts.drop_last());
    }
}

/// After pruning, every window is alive and has kept its place among the live
/// ones.
pub proof fn law_pruning_keeps_live_windows(ts: Seq<Toplevel>)
    ensures
        survivors(ts).len() == live_count(ts),
        forall|i: int| 0 <= i < survivors(ts).len() ==> (#[trigger] survivors(ts)[i]).alive,
        forall|i: int|
            0 <= i < survivors(ts).len() ==> (#[trigger] survivors(ts)[i]).id == live_id(ts, i),
        live_at(survivors(ts)) == Seq::new(survivors(ts).len(), |i: int| i),
    decreases ts.len(),
{
    if ts.len() > 0 {
        let d = ts.drop_last();
        law_pruning_keeps_live_windows(d);
        lemma_live_at(d);
        lemma_live_at(ts);
        let s = survivors(ts);
        assert forall|i: int| 0 <= i < s.len() implies (#[trigger] s[i]).id == live_id(ts, i) by {
            if i < survivors(d).len() {
                assert(survivors(d)[i].id == live_id(d, i));
                assert(live_at(ts)[i] == live_at(d)[i]);
            }
        }
        if ts.last().alive {
            assert(s.drop_last() =~= survivors(d));
            assert(live_at(s) =~= Seq::new(s.len(), |i: int| i));
        }
    } else {
        assert(live_at(survivors(ts)) =~= Seq::new(survivors(ts).len(), |i: int| i));
    }
}

/// A window's new size, and whether it is the focused one.
#[derive(Clone, Copy, Debug, PartialEq, Eq, Structural)]
pub struct Configure {
    pub id: u64,
    pub width: i32,
    pub height: i32,
    pub activated: bool,
}

/// The keyboard goes to `target`, or nowhere.
#[derive(Clone, Copy, Debug, PartialEq, Eq, Structural)]
pub struct Focus {
    pub target: Option<u64>,
    pub serial: u32,
}

/// What a window operation asks for: perhaps close a window, configure each
/// live window, then move the keyboard.
#[derive(Debug)]
pub struct Retiled {
    pub close: Option<u64>,
    pub configures: Vec<Configure>,
    pub focus: Focus,
}

/// What becomes of a key press.
#[derive(Debug)]
pub enum KeyVerdict {
    /// The client gets it.
    Forward,
    /// Swallowed; nothing else to do.
    Intercept,
    /// Swallowed; carry this out.
    Act(Retiled),
    /// Swallowed; run this shell command.
    Run(String),
    /// Swallowed; scan the desktop files and open the launcher over them.
    OpenLauncher,
    /// Swallowed; shut down.
    Quit,
}

/// What an input command asks for.
#[derive(Debug)]
pub enum InputAction {
    /// The key goes through the keyboard.
    Key { code: u32, pressed: bool },
    /// The pointer is where it was moved to.
    Motion,
    /// The button goes to the pointer; perhaps another window was focused.
    Button(Option<Retiled>),
    Resized(Vec<Configure>),
    /// The pointer scrolls, 120 to the notch.
    Scroll { v120: i32 },
}

/// What an input command asks for, with the serial of its events.
#[derive(Debug)]
pub struct InputReply {
    pub serial: u32,
    pub event: InputAction,
}

/// What a surface commit does to the cached buffer.
pub enum Commit {
    /// A new buffer, with its RGBA pixels where it could be read.
    New(Option<(Vec<u8>, u32, u32)>),
    Removed,
    /// Only other state changed.
    Unchanged,
}

/// The compositor's state.
pub struct State {
    pub output_w: u32,
    pub output_h: u32,
    pub toplevels: Vec<Toplevel>,
    /// Dwindle tiling state (focus + split orientation).
    pub layout: Layout,
    /// Per-window rects, in the order of the live windows. Recomputed whenever
    /// the window set or output size changes.
    pub layout_rects: Vec<Rect>,
    pub keybinds: Keybinds,
    pub show_help: bool,
    /// Bare background color, opaque.
    pub background: [u8; 4],
    /// Open while `Some`.
    pub launcher: Option<Launcher>,
    pub surface_buffers: HashMap<u64, SurfaceBuf>,
    pub dirty: bool,
    pub serial_counter: u32,
    pub frame_serial: u64,
    pub running: bool,
    pub host_clipboard: Option<String>,
    pub pending_copy_out: bool,
    pub client_has_selection: bool,
}

/// The focus kept inside the list of live windows.
pub open spec fn kept_focus(focused: usize, n: nat) -> usize {
    if focused < n {
        focused
    } else if n == 0 {
        0
    } else {
        (n - 1) as usize
    }
}

/// The configure events of a retiling: live window `i` gets the size of rect
/// `i`, and the focused one is activated.
pub open spec fn configures(ts: Seq<Toplevel>, rects: Seq<Rect>, focused: int) -> Seq<Configure> {
    Seq::new(
        live_count(ts),
        |i: int|
            Configure {
                id: live_id(ts, i),
                width: rects[i].w as i32,
                height: rects[i].h as i32,
                activated: i == focused,
            },
    )
}

/// The window that has the keyboard.
pub open spec fn focus_of(ts: Seq<Toplevel>, focused: int) -> Option<u64> {
    if focused < live_count(ts) {
        Some(live_id(ts, focused))
    } else {
        None
    }
}

pub open spec fn next_of(serial: u32) -> u32 {
    if serial == u32::MAX {
        0
    } else {
        (serial + 1) as u32
    }
}

/// The layout after retiling.
pub open spec fn retiled_layout(l: Layout, ts: Seq<Toplevel>) -> Layout {
    Layout { focused: kept_focus(l.focused, live_count(ts)), ..l }
}

/// The windows after an action: a swap moves the focused window past the next
/// one.
pub open spec fn windows_after(ts: Seq<Toplevel>, l: Layout, a: Action) -> Seq<Toplevel> {
    let n = live_count(ts) as int;
    if a == Action::Swap && n >= 2 {
        let from = if l.focused < n {
            l.focused as int
        } else {
            n - 1
        };
        let to = (from + 1) % n;
        let i = live_at(ts)[from];
        let j = live_at(ts)[to];
        ts.update(i, ts[j]).update(j, ts[i])
    } else {
        ts
    }
}

/// `after` is what an action makes of layout `l` over `rects`.
pub open spec fn layout_step(
    l: Layout,
    rects: Seq<Rect>,
    n: nat,
    a: Action,
    after: Layout,
) -> bool {
    match a {
        Action::FocusLeft => focus_step(l, rects, Dir::Left, after),
        Action::FocusRight => focus_step(l, rects, Dir::Right, after),
        Action::FocusUp => focus_step(l, rects, Dir::Up, after),
        Action::FocusDown => focus_step(l, rects, Dir::Down, after),
        Action::Swap => after == (if n < 2 {
            l
        } else {
            Layout {
                focused: (((if l.focused < n {
                    l.focused as int
                } else {
                    n - 1
                }) + 1) % (n as int)) as usize,
                ..l
            }
        }),
        Action::Rotate => after == (Layout { flip: !l.flip, ..l }),
        Action::Close => after == l,
        Action::ResizeGrow => after == (Layout { split_ratio: grown(l.split_ratio), ..l }),
        Action::ResizeShrink => after == (Layout { split_ratio: shrunk(l.split_ratio), ..l }),
    }
}

/// `after` is `l` with the focus moved toward `dir` where a window lies there.
pub open spec fn focus_step(l: Layout, rects: Seq<Rect>, dir: Dir, after: Layout) -> bool {
    &&& after.flip == l.flip
    &&& after.split_ratio == l.split_ratio
    &&& (exists|i: int| focus_candidate(rects, l.focused as int, dir, i)) ==> focus_target(
        rects,
        l.focused as int,
        dir,
        after.focused as int,
    )
    &&& (forall|i: int| !focus_candidate(rects, l.focused as int, dir, i)) ==> after.focused
        == l.focused
}

proof fn lemma_inside_fits(rects: Seq<Rect>, focused: int, w: u32, h: u32)
    requires
        w <= i32::MAX,
        h <= i32::MAX,
        0 <= focused,
        forall|i: int| 0 <= i < rects.len() ==> inside(#[trigger] rects[i], w, h),
    ensures
        focus_fits(rects, focused),
{
    if rects.len() > 0 {
        let cur = crate::layout::focus_origin(rects, focused);
        assert(inside(cur, w, h));
    }
}

impl State {
    /// The output has a signed size, every rect lies inside it, every cached
    /// buffer holds its pixels, and the share is within its bounds.
    pub open spec fn wf(self) -> bool {
        &&& self.output_w <= i32::MAX
        &&& self.output_h <= i32::MAX
        &&& forall|i: int|
            0 <= i < self.layout_rects@.len() ==> inside(
                #[trigger] self.layout_rects@[i],
                self.output_w,
                self.output_h,
            )
        &&& cache_wf(self.surface_buffers@)
        &&& self.layout.wf()
    }

    /// An empty compositor.
    pub fn new(width: u32, height: u32, keybinds: Keybinds, background: [u8; 3]) -> (s: Self)
        requires
            width <= i32::MAX,
            height <= i32::MAX,
        ensures
            s.wf(),
            s.output_w == width,
            s.output_h == height,
            s.toplevels@.len() == 0,
            s.layout_rects@.len() == 0,
            s.layout.focused == 0 && !s.layout.flip && s.layout.split_ratio == crate::ratio::HALF,
            s.keybinds == keybinds,
            !s.show_help,
            s.background@ == seq![background@[0], background@[1], background@[2], 255u8],
            s.launcher is None,
            s.surface_buffers@ == Map::<u64, SurfaceBuf>::empty(),
            !s.dirty,
            s.serial_counter == 0,
            s.frame_serial == 0,
            s.running,
            s.host_clipboard is None,
            !s.pending_copy_out,
            !s.client_has_selection,
    {
        let bg: [u8; 4] = [background[0], background[1], background[2], 255];
        assert(bg@ =~= seq![background@[0], background@[1], background@[2], 255u8]);
        State {
            output_w: width,
            output_h: height,
            toplevels: Vec::new(),
            layout: Layout::default(),
            layout_rects: Vec::new(),
            keybinds,
            show_help: false,
            background: bg,
            launcher: None,
            surface_buffers: HashMap::new(),
            dirty: false,
            serial_counter: 0,
            frame_serial: 0,
            running: true,
            host_clipboard: None,
            pending_copy_out: false,
            client_has_selection: false,
        }
    }

    /// The next event serial; wraps around.
    pub fn next_serial(&mut self) -> (s: u32)
        ensures
            s == next_of(old(self).serial_counter),
            *final(self) == (State { serial_counter: s, ..*old(self) }),
    {
        self.serial_counter = if self.serial_counter == u32::MAX {
            0
        } else {
            self.serial_counter + 1
        };
        self.serial_counter
    }

    /// The positions of the live windows.
    fn live_positions(&self) -> (r: Vec<usize>)
        ensures
            r@.len() == live_count(self.toplevels@),
            forall|i: int|
                0 <= i < r@.len() ==> #[trigger] r@[i] == live_at(self.toplevels@)[i] && r@[i]
                    < self.toplevels@.len(),
    {
        let mut v: Vec<usize> = Vec::new();
        let ghost ts = self.toplevels@;
        assert(ts.take(0) =~= Seq::<Toplevel>::empty());
        for i in 0..self.toplevels.len()
            invariant
                ts == self.toplevels@,
                v@.len() == live_at(ts.take(i as int)).len(),
                forall|j: int|
                    0 <= j < v@.len() ==> #[trigger] v@[j] == live_at(ts.take(i as int))[j]
                        && v@[j] < i,
        {
            assert(ts.take(i + 1).drop_last() =~= ts.take(i as int));
            if self.toplevels[i].alive {
                v.push(i);
            }
        }
        assert(ts.take(ts.len() as int) =~= ts);
        v
    }

    /// Recompute the dwindle tiling. Each live window gets its new size; the
    /// focused one is marked activated, so clients render focus state.
    pub fn relayout(&mut self) -> (r: Vec<Configure>)
        requires
            old(self).wf(),
        ensures
            final(self).wf(),
            *final(self) == (State {
                layout: retiled_layout(old(self).layout, old(self).toplevels@),
                layout_rects: final(self).layout_rects,
                dirty: true,
                ..*old(self)
            }),
            final(self).layout_rects@ == tiles(
                old(self).layout.flip,
                old(self).layout.split_ratio,
                live_count(old(self).toplevels@),
                old(self).output_w,
                old(self).output_h,
            ),
            r@ == configures(
                old(self).toplevels@,
                final(self).layout_rects@,
                final(self).layout.focused as int,
            ),
    {
        let live: Vec<usize> = self.live_positions();
        let n: usize = live.len();
        if self.layout.focused >= n {
            self.layout.focused = if n > 0 {
                n - 1
            } else {
                0
            };
        }
        let focused: usize = self.layout.focused;
        let rects: Vec<Rect> = self.layout.rects(n, self.output_w, self.output_h);
        proof {
            law_tiles_allow_focus(
                self.layout.flip,
                self.layout.split_ratio,
                n as nat,
                self.output_w,
                self.output_h,
                0,
            );
        }
        let mut out: Vec<Configure> = Vec::new();
        for i in 0..n
            invariant
                n == live@.len(),
                n == rects@.len(),
                n == live_count(self.toplevels@),
                forall|j: int|
                    0 <= j < n ==> #[trigger] live@[j] == live_at(self.toplevels@)[j] && live@[j]
                        < self.toplevels@.len(),
                out@.len() == i,
                forall|j: int|
                    0 <= j < i ==> #[trigger] out@[j] == configures(
                        self.toplevels@,
                        rects@,
                        focused as int,
                    )[j],
        {
            let at: usize = live[i];
            let rect: Rect = rects[i];
            out.push(
                Configure {
                    id: self.toplevels[at].id,
                    width: rect.w as i32,
                    height: rect.h as i32,
                    activated: i == focused,
                },
            );
        }
        assert(out@ =~= configures(self.toplevels@, rects@, focused as int));
        self.layout_rects = rects;
        self.dirty = true;
        out
    }

    /// Point the keyboard at the focused live window, or at nothing.
    pub fn refocus_keyboard(&mut self) -> (f: Focus)
        ensures
            f.target == focus_of(old(self).toplevels@, old(self).layout.focused as int),
            f.serial == next_of(old(self).serial_counter),
            *final(self) == (State { serial_counter: f.serial, ..*old(self) }),
    {
        let live: Vec<usize> = self.live_positions();
        let target: Option<u64> = if self.layout.focused < live.len() {
            Some(self.toplevels[live[self.layout.focused]].id)
        } else {
            None
        };
        let serial: u32 = self.next_serial();
        Focus { target, serial }
    }

    /// Retile and refocus.
    fn settle(&mut self, close: Option<u64>) -> (r: Retiled)
        requires
            old(self).wf(),
        ensures
            final(self).wf(),
            r.close == close,
            *final(self) == (State {
                layout: retiled_layout(old(self).layout, old(self).toplevels@),
                layout_rects: final(self).layout_rects,
                dirty: true,
                serial_counter: next_of(old(self).serial_counter),
                ..*old(self)
            }),
            final(self).layout_rects@ == tiles(
                old(self).layout.flip,
                old(self).layout.split_ratio,
                live_count(old(self).toplevels@),
                old(self).output_w,
                old(self).output_h,
            ),
            r.configures@ == configures(
                old(self).toplevels@,
                final(self).layout_rects@,
                final(self).layout.focused as int,
            ),
            r.focus.target == focus_of(old(self).toplevels@, final(self).layout.focused as int),
            r.focus.serial == next_of(old(self).serial_counter),
    {
        let configures: Vec<Configure> = self.relayout();
        let focus: Focus = self.refocus_keyboard();
        Retiled { close, configures, focus }
    }

    /// The state and the answer after an action.
    pub open spec fn acted(self, a: Action, after: State, r: Retiled) -> bool {
        let ts = windows_after(self.toplevels@, self.layout, a);
        &&& r.close == (if a == Action::Close {
            focus_of(self.toplevels@, self.layout.focused as int)
        } else {
            None
        })
        &&& exists|l: Layout|
            {
                &&& #[trigger] layout_step(
                    self.layout,
                    self.layout_rects@,
                    live_count(self.toplevels@),
                    a,
                    l,
                )
                &&& after.toplevels@ == ts
                &&& after.layout == retiled_layout(l, ts)
                &&& after.layout_rects@ == tiles(
                    l.flip,
                    l.split_ratio,
                    live_count(ts),
                    self.output_w,
                    self.output_h,
                )
            }
        &&& after == (State {
            toplevels: after.toplevels,
            layout: after.layout,
            layout_rects: after.layout_rects,
            dirty: true,
            serial_counter: next_of(self.serial_counter),
            ..self
        })
        &&& r.configures@ == configures(ts, after.layout_rects@, after.layout.focused as int)
        &&& r.focus.target == focus_of(ts, after.layout.focused as int)
        &&& r.focus.serial == after.serial_counter
    }

    /// Run a keybind action against the live layout, then re-tile and re-focus
    /// so the client sees the result immediately.
    pub fn dispatch_action(&mut self, action: Action) -> (r: Retiled)
        requires
            old(self).wf(),
        ensures
            final(self).wf(),
            old(self).acted(action, *final(self), r),
    {
        proof {
            lemma_inside_fits(
                self.layout_rects@,
                self.layout.focused as int,
                self.output_w,
                self.output_h,
            );
            lemma_live_at(self.toplevels@);
        }
        let ghost start = *self;
        let mut close: Option<u64> = None;
        match action {
            Action::FocusLeft => {
                self.layout.focus(self.layout_rects.as_slice(), Dir::Left);
            },
            Action::FocusRight => {
                self.layout.focus(self.layout_rects.as_slice(), Dir::Right);
            },
            Action::FocusUp => {
                self.layout.focus(self.layout_rects.as_slice(), Dir::Up);
            },
            Action::FocusDown => {
                self.layout.focus(self.layout_rects.as_slice(), Dir::Down);
            },
            Action::Swap => {
                // Positions among the live windows, mapped back to the list in
                // case a dead window still stands between live ones.
                let live: Vec<usize> = self.live_positions();
                if let Some((a, b)) = self.layout.swap_next(live.len()) {
                    proof {
                        let n = live@.len() as int;
                        let from = if start.layout.focused < n {
                            start.layout.focused as int
                        } else {
                            n - 1
                        };
                        assert(0 <= (from + 1) % n < n) by (nonlinear_arith)
                            requires
                                n >= 2,
                        ;
                    }
                    let i: usize = live[a];
                    let j: usize = live[b];
                    let x: Toplevel = self.toplevels[i];
                    let y: Toplevel = self.toplevels[j];
                    self.toplevels.set(i, y);
                    self.toplevels.set(j, x);
                }
                assert(self.toplevels@ =~= windows_after(start.toplevels@, start.layout, action));
            },
            Action::Rotate => {
                self.layout.rotate_split();
            },
            Action::Close => {
                let live: Vec<usize> = self.live_positions();
                if self.layout.focused < live.len() {
                    close = Some(self.toplevels[live[self.layout.focused]].id);
                }
            },
            Action::ResizeGrow => {
                self.layout.resize_grow();
            },
            Action::ResizeShrink => {
                self.layout.resize_shrink();
            },
        }
        assert(layout_step(
            start.layout,
            start.layout_rects@,
            live_count(start.toplevels@),
            action,
            self.layout,
        ));
        self.settle(close)
    }

    /// A new window takes focus; every window gets its new size. The keyboard
    /// goes to the new window first.
    pub fn new_toplevel(&mut self, id: u64) -> (r: (Focus, Vec<Configure>))
        requires
            old(self).wf(),
        ensures
            final(self).wf(),
            r.0 == (Focus { target: Some(id), serial: next_of(old(self).serial_counter) }),
            final(self).toplevels@ == old(self).toplevels@.push(Toplevel { id, alive: true }),
            final(self).layout.focused + 1 == live_count(final(self).toplevels@),
            *final(self) == (State {
                toplevels: final(self).toplevels,
                layout: Layout { focused: final(self).layout.focused, ..old(self).layout },
                layout_rects: final(self).layout_rects,
                dirty: true,
                serial_counter: next_of(old(self).serial_counter),
                ..*old(self)
            }),
            final(self).layout_rects@ == tiles(
                old(self).layout.flip,
                old(self).layout.split_ratio,
                live_count(final(self).toplevels@),
                old(self).output_w,
                old(self).output_h,
            ),
            r.1@ == configures(
                final(self).toplevels@,
                final(self).layout_rects@,
                final(self).layout.focused as int,
            ),
    {
        let serial: u32 = self.next_serial();
        let ghost before = self.toplevels@;
        self.toplevels.push(Toplevel { id, alive: true });
        assert(self.toplevels@.drop_last() =~= before);
        let n: usize = self.live_positions().len();
        self.layout.focused = n - 1;
        let configures: Vec<Configure> = self.relayout();
        (Focus { target: Some(id), serial }, configures)
    }

    /// Marks a window as gone.
    pub fn mark_dead(&mut self, id: u64)
        ensures
            *final(self) == (State { toplevels: final(self).toplevels, ..*old(self) }),
            final(self).toplevels@ == Seq::new(
                old(self).toplevels@.len(),
                |i: int|
                    if old(self).toplevels@[i].id == id {
                        Toplevel { id, alive: false }
                    } else {
                        old(self).toplevels@[i]
                    },
            ),
    {
        let ghost start = self.toplevels@;
        let n: usize = self.toplevels.len();
        for i in 0..n
            invariant
                n == start.len(),
                *self == (State { toplevels: self.toplevels, ..*old(self) }),
                self.toplevels@ =~= Seq::new(
                    start.len(),
                    |j: int|
                        if j < i && start[j].id == id {
                            Toplevel { id, alive: false }
                        } else {
                            start[j]
                        },
                ),
        {
            if self.toplevels[i].id == id {
                self.toplevels.set(i, Toplevel { id, alive: false });
            }
        }
        assert(self.toplevels@ =~= Seq::new(
            start.len(),
            |i: int|
                if start[i].id == id {
                    Toplevel { id, alive: false }
                } else {
                    start[i]
                },
        ));
    }

    /// Drops the windows that are gone. Where there were any, the survivors
    /// are retiled and the keyboard goes to one of them.
    pub fn prune(&mut self) -> (r: Option<Retiled>)
        requires
            old(self).wf(),
        ensures
            final(self).wf(),
            final(self).toplevels@ == survivors(old(self).toplevels@),
            r is Some <==> survivors(old(self).toplevels@).len() != old(self).toplevels@.len(),
            r is None ==> *final(self) == (State {
                toplevels: final(self).toplevels,
                ..*old(self)
            }),
            r matches Some(t) ==> {
                &&& t.close is None
                &&& *final(self) == (State {
                    toplevels: final(self).toplevels,
                    layout: retiled_layout(old(self).layout, final(self).toplevels@),
                    layout_rects: final(self).layout_rects,
                    dirty: true,
                    serial_counter: next_of(old(self).serial_counter),
                    ..*old(self)
                })
                &&& final(self).layout_rects@ == tiles(
                    old(self).layout.flip,
                    old(self).layout.split_ratio,
                    final(self).toplevels@.len(),
                    old(self).output_w,
                    old(self).output_h,
                )
                &&& t.configures@ == configures(
                    final(self).toplevels@,
                    final(self).layout_rects@,
                    final(self).layout.focused as int,
                )
                &&& t.focus.target == focus_of(
                    final(self).toplevels@,
                    final(self).layout.focused as int,
                )
                &&& t.focus.serial == next_of(old(self).serial_counter)
            },
    {
        let before: usize = self.toplevels.len();
        let ghost ts = self.toplevels@;
        let mut kept: Vec<Toplevel> = Vec::new();
        assert(ts.take(0) =~= Seq::<Toplevel>::empty());
        for i in 0..self.toplevels.len()
            invariant
                ts == self.toplevels@,
                kept@ == survivors(ts.take(i as int)),
        {
            assert(ts.take(i + 1).drop_last() =~= ts.take(i as int));
            let t: Toplevel = self.toplevels[i];
            if t.alive {
                kept.push(t);
            }
        }
        assert(ts.take(ts.len() as int) =~= ts);
        proof {
            law_pruning_keeps_live_windows(ts);
        }
        let after: usize = kept.len();
        self.toplevels = kept;
        if after != before {
            Some(self.settle(None))
        } else {
            None
        }
    }

    // ── Keys ─────────────────────────────────────────────────────────────

    /// Whatever is selected: the highlighted match if there is one, else the
    /// raw typed text as a shell command. Closes the launcher.
    pub fn launch_selected(&mut self) -> (r: Option<String>)
        ensures
            old(self).launcher is None ==> r is None && *final(self) == *old(self),
            old(self).launcher is Some ==> *final(self) == (State {
                launcher: None,
                dirty: true,
                ..*old(self)
            }),
            old(self).launcher matches Some(l) ==> {
                let c = chosen_command(entries_of(l.entries@), l.query@, l.selected as int);
                match r {
                    Some(s) => c == Some(s@),
                    None => c is None,
                }
            },
    {
        match self.launcher.take() {
            None => None,
            Some(l) => {
                self.dirty = true;
                l.command()
            },
        }
    }

    /// What a key does while the launcher is open.
    pub open spec fn launcher_edited(before: Launcher, step: LauncherStep, after: Launcher) -> bool {
        &&& after.entries == before.entries
        &&& after.query@ == (match step {
            LauncherStep::Backspace => if before.query@.len() > 0 {
                before.query@.drop_last()
            } else {
                before.query@
            },
            LauncherStep::Type(c) => before.query@.push(c),
            _ => before.query@,
        })
        &&& after.selected == (match step {
            LauncherStep::Backspace => 0,
            LauncherStep::Type(_) => 0,
            LauncherStep::Up => if before.selected > 0 {
                before.selected - 1
            } else {
                0
            },
            LauncherStep::Down => {
                let n = matching(entries_of(before.entries@), before.query@).len();
                if n == 0 {
                    before.selected as int
                } else if before.selected + 1 < n {
                    before.selected + 1
                } else {
                    n - 1
                }
            },
            _ => before.selected as int,
        })
    }

    /// Per-keystroke handling while the launcher is open. Returns the command
    /// to run, where Enter chose one.
    pub fn handle_launcher_key(&mut self, mods: &Modifiers, sym: u32, code_point: u32) -> (r: Option<
        String,
    >)
        requires
            old(self).launcher is Some,
        ensures
            ({
                let step = launcher_key(*mods, old(self).keybinds.mod_key, sym, code_point);
                let l = old(self).launcher->0;
                &&& step == LauncherStep::Close || step == LauncherStep::Run ==> *final(self) == (
                State { launcher: None, dirty: true, ..*old(self) })
                &&& step == LauncherStep::Ignore ==> *final(self) == *old(self)
                &&& step != LauncherStep::Close && step != LauncherStep::Run && step
                    != LauncherStep::Ignore ==> {
                    &&& *final(self) == (State {
                        launcher: final(self).launcher,
                        dirty: true,
                        ..*old(self)
                    })
                    &&& final(self).launcher is Some
                    &&& Self::launcher_edited(l, step, final(self).launcher->0)
                }
                &&& match r {
                    Some(s) => step == LauncherStep::Run && chosen_command(
                        entries_of(l.entries@),
                        l.query@,
                        l.selected as int,
                    ) == Some(s@),
                    None => step == LauncherStep::Run ==> chosen_command(
                        entries_of(l.entries@),
                        l.query@,
                        l.selected as int,
                    ) is None,
                }
            }),
    {
        let step: LauncherStep = launcher_step(mods, self.keybinds.mod_key, sym, code_point);
        match step {
            LauncherStep::Close => {
                self.launcher = None;
                self.dirty = true;
                None
            },
            LauncherStep::Run => self.launch_selected(),
            LauncherStep::Ignore => None,
            _ => {
                if let Some(mut l) = self.launcher.take() {
                    match step {
                        LauncherStep::Backspace => {
                            let _ = l.query.pop();
                            l.selected = 0;
                        },
                        LauncherStep::Type(c) => {
                            l.query.push(c);
                            l.selected = 0;
                        },
                        LauncherStep::Up => {
                            if l.selected > 0 {
                                l.selected = l.selected - 1;
                            }
                        },
                        LauncherStep::Down => {
                            let m: Vec<&crate::launcher::DesktopEntry> = l.matches();
                            let count: usize = m.len();
                            assert(refs_of(m@).len() == count);
                            if count > 0 {
                                l.selected = if l.selected < count - 1 {
                                    l.selected + 1
                                } else {
                                    count - 1
                                };
                            }
                        },
                        _ => {},
                    }
                    self.launcher = Some(l);
                    self.dirty = true;
                }
                None
            },
        }
    }

    /// Opens the launcher over the given desktop files.
    pub fn open_launcher(&mut self, files: &Vec<String>)
        ensures
            *final(self) == (State { launcher: final(self).launcher, dirty: true, ..*old(self) }),
            final(self).launcher matches Some(l) && l.query@.len() == 0 && l.selected == 0
                && entries_of(l.entries@) == without_repeats(
                by_name(described(Seq::new(files@.len(), |i: int| files@[i]@))),
            ),
    {
        self.launcher = Some(Launcher::new(files));
        self.dirty = true;
    }

    /// What becomes of a key with no launcher open and the quit chord not held:
    /// `None` where the client gets it.
    pub open spec fn chord(self, mods: Modifiers, code_point: u32) -> Option<char> {
        match char_of(code_point) {
            Some(c) => if held(mods, self.keybinds.mod_key) {
                Some(lower(c))
            } else {
                None
            },
            None => None,
        }
    }

    /// Decides what becomes of a key event. The quit chord always works; an
    /// open launcher swallows every key; otherwise the configured modifier
    /// with `/`, `d` or a bound key acts, and everything else is the client's.
    pub fn filter_key(
        &mut self,
        pressed: bool,
        mods: &Modifiers,
        sym: u32,
        code_point: u32,
    ) -> (v: KeyVerdict)
        requires
            old(self).wf(),
        ensures
            final(self).wf(),
            ({
                let quit = pressed && quit_chord(*mods, code_point);
                let open = old(self).launcher is Some;
                let chord = old(self).chord(*mods, code_point);
                let action = bound_action(old(self).keybinds.binds@, chord->0);
                let step = launcher_key(*mods, old(self).keybinds.mod_key, sym, code_point);
                &&& quit ==> v is Quit && *final(self) == (State { running: false, ..*old(self) })
                &&& !quit && open && !pressed ==> v is Intercept && *final(self) == *old(self)
                &&& !quit && open && pressed ==> {
                    let l = old(self).launcher->0;
                    let c = chosen_command(entries_of(l.entries@), l.query@, l.selected as int);
                    &&& (v is Run <==> step == LauncherStep::Run && c is Some)
                    &&& (v matches KeyVerdict::Run(s) ==> c == Some(s@))
                    &&& (v is Run || v is Intercept)
                    &&& (step == LauncherStep::Close || step == LauncherStep::Run ==> *final(self)
                        == (State { launcher: None, dirty: true, ..*old(self) }))
                    &&& (step == LauncherStep::Ignore ==> *final(self) == *old(self))
                    &&& (step != LauncherStep::Close && step != LauncherStep::Run && step
                        != LauncherStep::Ignore ==> final(self).launcher is Some
                        && Self::launcher_edited(l, step, final(self).launcher->0) && *final(self)
                        == (State {
                        launcher: final(self).launcher,
                        dirty: true,
                        ..*old(self)
                    }))
                }
                &&& !quit && !open && (!pressed || chord is None) ==> v is Forward && *final(self)
                    == *old(self)
                &&& !quit && !open && pressed && chord == Some('/') ==> v is Intercept && *final(self) == (State { show_help: !old(self).show_help, dirty: true, ..*old(self) })
                &&& !quit && !open && pressed && chord == Some('d') ==> v is OpenLauncher && *final(self) == *old(self)
                &&& !quit && !open && pressed && chord is Some && chord != Some('/') && chord
                    != Some('d') ==> match action {
                    Some(a) => v matches KeyVerdict::Act(r) && old(self).acted(a, *final(self), r),
                    None => v is Forward && *final(self) == *old(self),
                }
            }),
    {
        let ch: Option<char> = keysym_char(code_point);
        if pressed && mods.shift && mods.alt {
            if let Some(c) = ch {
                if c == 'e' {
                    self.running = false;
                    return KeyVerdict::Quit;
                }
            }
        }
        if self.launcher.is_some() {
            if pressed {
                if let Some(command) = self.handle_launcher_key(mods, sym, code_point) {
                    return KeyVerdict::Run(command);
                }
            }
            return KeyVerdict::Intercept;
        }
        if !pressed {
            return KeyVerdict::Forward;
        }
        let c: char = match ch {
            Some(c) => c,
            None => {
                return KeyVerdict::Forward;
            },
        };
        if mod_held(mods, self.keybinds.mod_key) {
            if c == '/' {
                self.show_help = !self.show_help;
                self.dirty = true;
                return KeyVerdict::Intercept;
            }
            if c == 'd' {
                return KeyVerdict::OpenLauncher;
            }
            if let Some(action) = self.keybinds.action_for(c) {
                return KeyVerdict::Act(self.dispatch_action(action));
            }
        }
        KeyVerdict::Forward
    }

    // ── Pointer ──────────────────────────────────────────────────────────

    /// `after` and `r` are the state and the answer after a button event at
    /// `(x, y)`: a left press on another tile than the focused one focuses it.
    pub open spec fn button_step(
        self,
        button: u32,
        pressed: bool,
        x: int,
        y: int,
        after: State,
        r: Option<Retiled>,
    ) -> bool {
        let hit = tile_at(self.layout_rects@, x, y);
        let moves = pressed && button == BTN_LEFT && hit is Some && hit->0 != self.layout.focused;
        let l = Layout { focused: hit->0 as usize, ..self.layout };
        &&& r is Some <==> moves
        &&& !moves ==> after == self
        &&& r matches Some(t) ==> {
            &&& t.close is None
            &&& after == (State {
                layout: retiled_layout(l, self.toplevels@),
                layout_rects: after.layout_rects,
                dirty: true,
                serial_counter: next_of(self.serial_counter),
                ..self
            })
            &&& after.layout_rects@ == tiles(
                l.flip,
                l.split_ratio,
                live_count(self.toplevels@),
                self.output_w,
                self.output_h,
            )
            &&& t.configures@ == configures(
                self.toplevels@,
                after.layout_rects@,
                after.layout.focused as int,
            )
            &&& t.focus.target == focus_of(self.toplevels@, after.layout.focused as int)
            &&& t.focus.serial == next_of(self.serial_counter)
        }
    }

    /// A button event. A left press on another tile than the focused one
    /// focuses it; nothing is rearranged.
    pub fn press_button(&mut self, button: u32, pressed: bool, x: i32, y: i32) -> (r: Option<Retiled>)
        requires
            old(self).wf(),
        ensures
            final(self).wf(),
            old(self).button_step(button, pressed, x as int, y as int, *final(self), r),
    {
        if pressed && button == BTN_LEFT {
            if let Some(i) = toplevel_at(&self.layout_rects, x, y) {
                if i != self.layout.focused {
                    self.layout.focused = i;
                    return Some(self.settle(None));
                }
            }
        }
        None
    }

    /// The pointer moved: the frame shows it elsewhere.
    pub fn pointer_moved(&mut self)
        ensures
            *final(self) == (State { dirty: true, ..*old(self) }),
    {
        self.dirty = true;
    }

    /// `after` and `r` are the state and the configure events after the output
    /// got a new size.
    pub open spec fn resize_step(
        self,
        width: u32,
        height: u32,
        after: State,
        r: Seq<Configure>,
    ) -> bool {
        &&& after == (State {
            output_w: width,
            output_h: height,
            layout: retiled_layout(self.layout, self.toplevels@),
            layout_rects: after.layout_rects,
            dirty: true,
            ..self
        })
        &&& after.layout_rects@ == tiles(
            self.layout.flip,
            self.layout.split_ratio,
            live_count(self.toplevels@),
            width,
            height,
        )
        &&& r == configures(self.toplevels@, after.layout_rects@, after.layout.focused as int)
    }

    /// The output has a new size: retile everyone into it.
    pub fn resize(&mut self, width: u32, height: u32) -> (r: Vec<Configure>)
        requires
            old(self).wf(),
            width <= i32::MAX,
            height <= i32::MAX,
        ensures
            final(self).wf(),
            old(self).resize_step(width, height, *final(self), r@),
    {
        self.output_w = width;
        self.output_h = height;
        self.layout_rects = Vec::new();
        self.relayout()
    }

    // ── Commands ─────────────────────────────────────────────────────────

    /// Whether a command can be carried out: its key has an X11 code, its size
    /// is a signed one.
    pub open spec fn takes(cmd: InputCmd) -> bool {
        match cmd {
            InputCmd::Key { keycode, .. } => keycode <= u32::MAX - 8,
            InputCmd::Resize { width, height } => width <= i32::MAX && height <= i32::MAX,
            _ => true,
        }
    }

    /// `after` and `r` are the state and the answer after a command. Every
    /// command takes a serial; `(px, py)` is where the pointer is.
    pub open spec fn input_step(
        self,
        cmd: InputCmd,
        px: int,
        py: int,
        after: State,
        r: InputReply,
    ) -> bool {
        let s = State { serial_counter: next_of(self.serial_counter), ..self };
        &&& r.serial == s.serial_counter
        &&& match cmd {
            InputCmd::Key { keycode, pressed, .. } => after == s && r.event == (InputAction::Key {
                code: (keycode + 8) as u32,
                pressed,
            }),
            InputCmd::PointerMotionAbs { .. } => after == (State { dirty: true, ..s }) && r.event
                == InputAction::Motion,
            InputCmd::PointerButton { button, pressed } => r.event matches InputAction::Button(t)
                && s.button_step(button, pressed, px, py, after, t),
            InputCmd::Resize { width, height } => r.event matches InputAction::Resized(c)
                && s.resize_step(width, height, after, c@),
            InputCmd::Scroll { v120 } => after == s && r.event == InputAction::Scroll { v120 },
        }
    }

    /// Takes one input command. A key then goes through the keyboard, which
    /// asks `filter_key` of it; the others go to the pointer, or configure the
    /// windows.
    pub fn apply_input(&mut self, cmd: InputCmd, px: i32, py: i32) -> (r: InputReply)
        requires
            old(self).wf(),
            Self::takes(cmd),
        ensures
            final(self).wf(),
            old(self).input_step(cmd, px as int, py as int, *final(self), r),
    {
        let serial: u32 = self.next_serial();
        let event: InputAction = match cmd {
            // An X11 keycode is the kernel's plus eight.
            InputCmd::Key { keycode, pressed, .. } => InputAction::Key {
                code: keycode + 8,
                pressed,
            },
            InputCmd::PointerMotionAbs { .. } => {
                self.pointer_moved();
                InputAction::Motion
            },
            InputCmd::PointerButton { button, pressed } => InputAction::Button(
                self.press_button(button, pressed, px, py),
            ),
            InputCmd::Resize { width, height } => InputAction::Resized(self.resize(width, height)),
            InputCmd::Scroll { v120 } => InputAction::Scroll { v120 },
        };
        InputReply { serial, event }
    }

    // ── Surfaces ─────────────────────────────────────────────────────────

    /// A client committed a surface. A new buffer that could be read replaces
    /// the cached one; one that could not leaves everything as it is.
    pub fn commit(&mut self, surface: u64, change: Commit)
        requires
            old(self).wf(),
            change matches Commit::New(Some((rgba, w, h))) ==> fits(rgba@.len(), w, h),
        ensures
            final(self).wf(),
            *final(self) == (State {
                surface_buffers: final(self).surface_buffers,
                dirty: final(self).dirty,
                ..*old(self)
            }),
            final(self).dirty == (old(self).dirty || !(change matches Commit::New(None))),
            final(self).surface_buffers@ == (match change {
                Commit::New(Some((rgba, w, h))) => old(self).surface_buffers@.insert(
                    surface,
                    SurfaceBuf { rgba, w, h },
                ),
                Commit::Removed => old(self).surface_buffers@.remove(surface),
                _ => old(self).surface_buffers@,
            }),
    {
        broadcast use vstd::std_specs::hash::group_hash_axioms;

        match change {
            Commit::New(Some((rgba, w, h))) => {
                self.surface_buffers.insert(surface, SurfaceBuf { rgba, w, h });
                self.dirty = true;
            },
            Commit::New(None) => {},
            Commit::Removed => {
                let _ = self.surface_buffers.remove(&surface);
                self.dirty = true;
            },
            Commit::Unchanged => {
                self.dirty = true;
            },
        }
    }

    /// A surface is gone: its cached buffer goes too.
    pub fn destroyed(&mut self, surface: u64)
        requires
            old(self).wf(),
        ensures
            final(self).wf(),
            *final(self) == (State {
                surface_buffers: final(self).surface_buffers,
                dirty: old(self).dirty || old(self).surface_buffers@.dom().contains(surface),
                ..*old(self)
            }),
            final(self).surface_buffers@ == old(self).surface_buffers@.remove(surface),
    {
        broadcast use vstd::std_specs::hash::group_hash_axioms;

        if self.surface_buffers.remove(&surface).is_some() {
            self.dirty = true;
        }
        assert(self.surface_buffers@ =~= old(self).surface_buffers@.remove(surface));
    }

    // ── Clipboard ────────────────────────────────────────────────────────

    /// A client set or cleared a selection. Its data is read on the next tick,
    /// where it set the clipboard.
    pub fn new_selection(&mut self, is_clipboard: bool, has_source: bool)
        ensures
            *final(self) == (if is_clipboard {
                State {
                    client_has_selection: has_source,
                    pending_copy_out: has_source || old(self).pending_copy_out,
                    ..*old(self)
                }
            } else {
                *old(self)
            }),
    {
        if !is_clipboard {
            return;
        }
        self.client_has_selection = has_source;
        if has_source {
            self.pending_copy_out = true;
        }
    }

    /// The text a client gets that asks for a selection: the host's clipboard,
    /// and nothing for other selections.
    pub fn selection_text(&self, is_clipboard: bool) -> (r: Option<String>)
        ensures
            match r {
                Some(s) => is_clipboard && self.host_clipboard is Some && s@
                    == self.host_clipboard->0@,
                None => !is_clipboard || self.host_clipboard is None,
            },
    {
        if !is_clipboard {
            return None;
        }
        match &self.host_clipboard {
            Some(s) => Some(copy_str(s.as_str())),
            None => None,
        }
    }

    /// Whether the client's clipboard is to be read now; asked once for each
    /// selection.
    pub fn take_copy_out(&mut self) -> (r: bool)
        ensures
            r == old(self).pending_copy_out,
            *final(self) == (State { pending_copy_out: false, ..*old(self) }),
    {
        let r: bool = self.pending_copy_out;
        self.pending_copy_out = false;
        r
    }

    /// The host's clipboard holds `text`. Whether it is to be offered to the
    /// client: where it is new and the client has no selection of its own.
    pub fn host_text(&mut self, text: String) -> (offer: bool)
        ensures
            offer <==> !old(self).client_has_selection && !(old(self).host_clipboard
                matches Some(s) && s@ == text@),
            offer ==> *final(self) == (State {
                host_clipboard: Some(text),
                ..*old(self)
            }),
            !offer ==> *final(self) == *old(self),
    {
        if self.client_has_selection {
            return false;
        }
        let same: bool = match &self.host_clipboard {
            Some(s) => *s == text,
            None => false,
        };
        if same {
            return false;
        }
        self.host_clipboard = Some(text);
        true
    }

    // ── Frames ───────────────────────────────────────────────────────────

    /// The milliseconds to the next tick; none once the compositor is to stop.
    pub fn tick_again(&self, stop: bool) -> (ms: Option<u64>)
        ensures
            ms == (if stop || !self.running {
                None
            } else {
                Some(8u64)
            }),
    {
        if stop || !self.running {
            None
        } else {
            Some(8)
        }
    }

    /// Whether a frame is due: something changed, and the last frame is at
    /// least the interval ago. `since_last` is in nanoseconds, the interval in
    /// milliseconds.
    pub fn frame_due(&mut self, since_last: Option<u64>, interval_ms: u64) -> (due: bool)
        requires
            interval_ms <= 1000,
        ensures
            due <==> old(self).dirty && !(since_last matches Some(t) && t < interval_ms
                * 1_000_000),
            *final(self) == (State { dirty: old(self).dirty && !due, ..*old(self) }),
    {
        if !self.dirty {
            return false;
        }
        if let Some(t) = since_last {
            if t < interval_ms * 1_000_000 {
                return false;
            }
        }
        self.dirty = false;
        true
    }

    /// The frame can be drawn.
    pub open spec fn drawable(
        self,
        windows: Seq<Window>,
        cursor: Cursor,
        px: int,
        py: int,
    ) -> bool {
        &&& 4 * (self.output_w * self.output_h) <= usize::MAX
        &&& in_order(windows, self.toplevels@)
        &&& windows_fit(windows, self.layout_rects@, self.output_w, self.output_h)
        &&& cursor_fits(cursor, px, py)
        &&& self.show_help ==> box_fits(
            help_lines(self.keybinds.mod_key, self.keybinds.binds@),
            0,
        )
        &&& self.launcher matches Some(l) ==> launcher_fits(
            self.output_h,
            self.keybinds.mod_key,
            entries_of(l.entries@),
            l.query@,
            l.selected as int,
        )
    }

    /// The live windows by number, in the order in which they are tiled, drawn
    /// and picked.
    pub fn live_ids(&self) -> (r: Vec<u64>)
        ensures
            r@ == live_ids_of(self.toplevels@),
    {
        let at: Vec<usize> = self.live_positions();
        let mut ids: Vec<u64> = Vec::new();
        for i in 0..at.len()
            invariant
                at@.len() == live_count(self.toplevels@),
                forall|j: int|
                    0 <= j < at@.len() ==> #[trigger] at@[j] == live_at(self.toplevels@)[j]
                        && at@[j] < self.toplevels@.len(),
                ids@.len() == i,
                forall|j: int| 0 <= j < i ==> #[trigger] ids@[j] == live_id(self.toplevels@, j),
        {
            assert(at@[i as int] == live_at(self.toplevels@)[i as int]);
            ids.push(self.toplevels[at[i]].id);
        }
        assert(ids@ =~= live_ids_of(self.toplevels@));
        ids
    }

    /// Whether these are the live windows, each in its place.
    pub fn are_live(&self, windows: &Vec<Window>) -> (r: bool)
        ensures
            r == in_order(windows@, self.toplevels@),
    {
        let ids: Vec<u64> = self.live_ids();
        if windows.len() != ids.len() {
            return false;
        }
        for i in 0..windows.len()
            invariant
                windows@.len() == ids@.len(),
                ids@ == live_ids_of(self.toplevels@),
                forall|j: int| 0 <= j < i ==> (#[trigger] windows@[j]).id == ids@[j],
        {
            if windows[i].id != ids[i] {
                assert(windows@[i as int].id != live_ids_of(self.toplevels@)[i as int]);
                return false;
            }
        }
        true
    }

    /// Whether the frame can be drawn.
    pub fn can_draw(&self, windows: &Vec<Window>, cursor: &Cursor, px: i32, py: i32) -> (r: bool)
        requires
            self.wf(),
        ensures
            r == self.drawable(windows@, *cursor, px as int, py as int),
    {
        assert(0 <= self.output_w * self.output_h <= 0x7fff_ffff * 0x7fff_ffff)
            by (nonlinear_arith)
            requires
                0 <= self.output_w <= 0x7fff_ffff,
                0 <= self.output_h <= 0x7fff_ffff,
        ;
        let pixels: u64 = self.output_w as u64 * self.output_h as u64;
        if pixels > (usize::MAX / 4) as u64 {
            return false;
        }
        if !self.are_live(windows) {
            return false;
        }
        if !windows_can_be_drawn(windows, &self.layout_rects, self.output_w, self.output_h)
            || !cursor_can_be_drawn(cursor, px, py) {
            return false;
        }
        if self.show_help && !help_can_be_drawn(&self.keybinds) {
            return false;
        }
        match &self.launcher {
            Some(l) => launcher_can_be_drawn(l, self.keybinds.mod_key, self.output_h),
            None => true,
        }
    }

    /// The next frame: windows with popups, cursor and overlays over the
    /// background, numbered one after the last.
    pub fn composite(&mut self, windows: &Vec<Window>, cursor: &Cursor, px: i32, py: i32) -> (f:
        Frame)
        requires
            old(self).wf(),
            old(self).drawable(windows@, *cursor, px as int, py as int),
        ensures
            final(self).wf(),
            *final(self) == (State { frame_serial: f.serial, ..*old(self) }),
            f.serial == (if old(self).frame_serial == u64::MAX {
                0
            } else {
                old(self).frame_serial + 1
            }),
            f.width == old(self).output_w,
            f.height == old(self).output_h,
            f.rgba@.len() == 4 * (f.width * f.height),
            f.rgba@ == composed(
                old(self).output_w,
                old(self).output_h,
                old(self).background,
                old(self).surface_buffers@,
                windows@,
                old(self).layout_rects@,
                *cursor,
                px as int,
                py as int,
                old(self).show_help,
                old(self).keybinds.mod_key,
                old(self).keybinds.binds@,
                old(self).launcher,
            ),
    {
        let rgba: Vec<u8> = compose(
            self.output_w,
            self.output_h,
            self.background,
            &self.surface_buffers,
            windows,
            &self.layout_rects,
            cursor,
            px,
            py,
            self.show_help,
            &self.keybinds,
            &self.launcher,
        );
        self.frame_serial = if self.frame_serial == u64::MAX {
            0
        } else {
            self.frame_serial + 1
        };
        Frame { rgba, width: self.output_w, height: self.output_h, serial: self.frame_serial }
    }
}

/// After a retiling the keyboard is on a live window wherever there is one.
pub proof fn law_focus_stays_on_a_window(l: Layout, ts: Seq<Toplevel>)
    ensures
        live_count(ts) > 0 ==> retiled_layout(l, ts).focused < live_count(ts),
        live_count(ts) > 0 <==> focus_of(ts, retiled_layout(l, ts).focused as int) is Some,
{
    lemma_live_at(ts);
}

proof fn lemma_same_life(a: Seq<Toplevel>, b: Seq<Toplevel>)
    requires
        a.len() == b.len(),
        forall|i: int| 0 <= i < a.len() ==> (#[trigger] a[i]).alive == b[i].alive,
    ensures
        live_at(a) == live_at(b),
    decreases a.len(),
{
    if a.len() > 0 {
        let x = a.drop_last();
        let y = b.drop_last();
        assert forall|i: int| 0 <= i < x.len() implies (#[trigger] x[i]).alive == y[i].alive by {
            assert(a[i].alive == b[i].alive);
        }
        lemma_same_life(x, y);
        assert(a[a.len() - 1].alive == b[b.len() - 1].alive);
    }
}

/// The size that a window was sent is the size of the rect that it is drawn
/// and picked in.
pub proof fn law_windows_show_in_their_tiles(
    windows: Seq<Window>,
    ts: Seq<Toplevel>,
    rects: Seq<Rect>,
    focused: int,
    w: u32,
    h: u32,
    i: int,
)
    requires
        in_order(windows, ts),
        rects.len() == live_count(ts),
        0 <= i < windows.len(),
    ensures
        configures(ts, rects, focused)[i].id == windows[i].id,
        configures(ts, rects, focused)[i].width == window_rect(rects, i, w, h).w as i32,
        configures(ts, rects, focused)[i].height == window_rect(rects, i, w, h).h as i32,
{
    assert(windows[i].id == live_ids_of(ts)[i]);
}

/// A swap exchanges two live windows, the focused one and the next, and leaves
/// every other one in its place: their tiles, their drawing and what a click on
/// them picks go by this order.
pub proof fn law_swap_exchanges_two_windows(ts: Seq<Toplevel>, l: Layout)
    requires
        live_count(ts) >= 2,
    ensures
        ({
            let from = kept_focus(l.focused, live_count(ts)) as int;
            let to = (from + 1) % (live_count(ts) as int);
            live_ids_of(windows_after(ts, l, Action::Swap)) == live_ids_of(ts).update(
                from,
                live_id(ts, to),
            ).update(to, live_id(ts, from))
        }),
{
    lemma_live_at(ts);
    let n = live_count(ts) as int;
    let from = kept_focus(l.focused, live_count(ts)) as int;
    let to = (from + 1) % n;
    assert(0 <= to < n && to != from) by (nonlinear_arith)
        requires
            0 <= from < n,
            n >= 2,
            to == (from + 1) % n,
    ;
    let i = live_at(ts)[from];
    let j = live_at(ts)[to];
    let once = windows_after(ts, l, Action::Swap);
    assert(once == ts.update(i, ts[j]).update(j, ts[i]));
    lemma_same_life(ts, once);
    let want = live_ids_of(ts).update(from, live_id(ts, to)).update(to, live_id(ts, from));
    assert forall|k: int| 0 <= k < n implies #[trigger] live_ids_of(once)[k] == want[k] by {
        if k != from && k != to {
            assert(live_at(ts)[k] != i && live_at(ts)[k] != j);
        }
    }
    assert(live_ids_of(once) =~= want);
}

/// Of two windows, swapping twice puts each back in its place, and the focus
/// is on the window it started on.
pub proof fn law_swapping_two_windows_twice(ts: Seq<Toplevel>, l: Layout)
    requires
        live_count(ts) == 2,
        l.focused < 2,
    ensures
        ({
            let once = windows_after(ts, l, Action::Swap);
            let moved = Layout { focused: (1 - l.focused) as usize, ..l };
            &&& layout_step(l, Seq::empty(), 2, Action::Swap, moved)
            &&& live_count(once) == 2
            &&& live_id(once, moved.focused as int) == live_id(ts, l.focused as int)
            &&& windows_after(once, moved, Action::Swap) == ts
            &&& layout_step(moved, Seq::empty(), 2, Action::Swap, l)
        }),
{
    lemma_live_at(ts);
    let f = l.focused as int;
    let g = 1 - f;
    assert((f + 1) % 2 == g) by (nonlinear_arith)
        requires
            f == 0 || f == 1,
            g == 1 - f,
    ;
    assert((g + 1) % 2 == f) by (nonlinear_arith)
        requires
            f == 0 || f == 1,
            g == 1 - f,
    ;
    let once = windows_after(ts, l, Action::Swap);
    let i = live_at(ts)[f];
    let j = live_at(ts)[g];
    assert(once == ts.update(i, ts[j]).update(j, ts[i]));
    lemma_same_life(ts, once);
    let moved = Layout { focused: g as usize, ..l };
    assert(windows_after(once, moved, Action::Swap) =~= ts);
}

/// Milliseconds between frames at `fps` frames a second.
pub fn frame_interval_ms(fps: u32) -> (r: u64)
    ensures
        r == 1000int / (if fps > 1 {
            fps as int
        } else {
            1
        }),
        r <= 1000,
{
    let n: u64 = if fps > 1 {
        fps as u64
    } else {
        1
    };
    1000 / n
}

/// The rect contains the point; its far edges are taken as signed numbers.
pub open spec fn tile_holds(r: Rect, x: int, y: int) -> bool {
    x >= r.x && y >= r.y && x < r.x + r.w as i32 && y < r.y + r.h as i32
}

/// The first rect that contains the point.
pub open spec fn tile_at(rects: Seq<Rect>, x: int, y: int) -> Option<int>
    decreases rects.len(),
{
    if rects.len() == 0 {
        None
    } else {
        match tile_at(rects.drop_last(), x, y) {
            Some(i) => Some(i),
            None => if tile_holds(rects.last(), x, y) {
                Some(rects.len() - 1)
            } else {
                None
            },
        }
    }
}

fn holds_point(rx: i32, ry: i32, w: u32, h: u32, x: i32, y: i32) -> (r: bool)
    ensures
        r == (x >= rx && y >= ry && x < rx + w as i32 && y < ry + h as i32),
{
    x >= rx && y >= ry && (x as i64) < rx as i64 + (w as i32) as i64 && (y as i64) < ry as i64 + (
    h as i32) as i64
}

/// Which live window's tiled rect contains `(x, y)`, if any.
pub fn toplevel_at(rects: &Vec<Rect>, x: i32, y: i32) -> (r: Option<usize>)
    ensures
        match r {
            Some(i) => tile_at(rects@, x as int, y as int) == Some(i as int),
            None => tile_at(rects@, x as int, y as int) is None,
        },
{
    assert(rects@.take(0) =~= Seq::<Rect>::empty());
    for i in 0..rects.len()
        invariant
            tile_at(rects@.take(i as int), x as int, y as int) is None,
    {
        assert(rects@.take(i + 1).drop_last() =~= rects@.take(i as int));
        let r: Rect = rects[i];
        if holds_point(r.x, r.y, r.w, r.h, x, y) {
            proof {
                lemma_tile_at_prefix(rects@, i + 1, x as int, y as int);
            }
            return Some(i);
        }
    }
    assert(rects@.take(rects.len() as int) =~= rects@);
    None
}

proof fn lemma_tile_at_prefix(rects: Seq<Rect>, k: int, x: int, y: int)
    requires
        0 <= k <= rects.len(),
        tile_at(rects.take(k), x, y) is Some,
    ensures
        tile_at(rects, x, y) == tile_at(rects.take(k), x, y),
    decreases rects.len() - k,
{
    if k < rects.len() {
        assert(rects.take(k + 1).drop_last() =~= rects.take(k));
        lemma_tile_at_prefix(rects, k + 1, x, y);
    } else {
        assert(rects.take(k) =~= rects);
    }
}

// ── Pointer focus ────────────────────────────────────────────────────────

/// A surface under the pointer, with its origin.
#[derive(Clone, Copy, Debug, PartialEq, Eq, Structural)]
pub struct Pointed {
    pub surface: u64,
    pub x: i32,
    pub y: i32,
}

/// The cached buffer of `surface`, drawn at `(ox, oy)`, contains the point.
pub open spec fn surface_holds(
    cache: Map<u64, SurfaceBuf>,
    surface: u64,
    ox: int,
    oy: int,
    x: int,
    y: int,
) -> bool {
    &&& cache.dom().contains(surface)
    &&& x >= ox && y >= oy
    &&& x < ox + cache[surface].w as i32
    &&& y < oy + cache[surface].h as i32
}

/// The last of the first `n` popups that contains the point.
pub open spec fn popup_under(
    cache: Map<u64, SurfaceBuf>,
    popups: Seq<Popup>,
    r: Rect,
    x: int,
    y: int,
    n: int,
) -> Option<Pointed>
    decreases n,
{
    if n <= 0 {
        None
    } else {
        let p = popups[n - 1];
        if p.tree@.len() > 0 && surface_holds(
            cache,
            p.tree@[0].surface,
            r.x + p.dx,
            r.y + p.dy,
            x,
            y,
        ) {
            Some(
                Pointed {
                    surface: p.tree@[0].surface,
                    x: (r.x + p.dx) as i32,
                    y: (r.y + p.dy) as i32,
                },
            )
        } else {
            popup_under(cache, popups, r, x, y, n - 1)
        }
    }
}

/// What lies under the point in the first `n` windows: the topmost window
/// first, in it the newest popup, then its root.
pub open spec fn under(
    cache: Map<u64, SurfaceBuf>,
    windows: Seq<Window>,
    rects: Seq<Rect>,
    w: u32,
    h: u32,
    x: int,
    y: int,
    n: int,
) -> Option<Pointed>
    decreases n,
{
    if n <= 0 {
        None
    } else {
        let win = windows[n - 1];
        let r = window_rect(rects, n - 1, w, h);
        match popup_under(cache, win.popups@, r, x, y, win.popups@.len() as int) {
            Some(p) => Some(p),
            None => if win.tree@.len() > 0 && surface_holds(
                cache,
                win.tree@[0].surface,
                r.x as int,
                r.y as int,
                x,
                y,
            ) {
                Some(Pointed { surface: win.tree@[0].surface, x: r.x, y: r.y })
            } else {
                under(cache, windows, rects, w, h, x, y, n - 1)
            },
        }
    }
}

fn is_under(
    cache: &HashMap<u64, SurfaceBuf>,
    tree: &Vec<TreeNode>,
    ox: i32,
    oy: i32,
    x: i32,
    y: i32,
) -> (r: bool)
    ensures
        r == (tree@.len() > 0 && surface_holds(
            cache@,
            tree@[0].surface,
            ox as int,
            oy as int,
            x as int,
            y as int,
        )),
{
    broadcast use vstd::std_specs::hash::group_hash_axioms;

    if tree.len() == 0 {
        return false;
    }
    match cache.get(&tree[0].surface) {
        Some(buf) => holds_point(ox, oy, buf.w, buf.h, x, y),
        None => false,
    }
}

/// Walk the live windows, topmost first, each window's popups (newest first)
/// before its root. Return the first surface whose cached buffer contains the point,
/// with its origin.
pub fn pick_focus(state: &State, windows: &Vec<Window>, x: i32, y: i32) -> (r: Option<Pointed>)
    requires
        in_order(windows@, state.toplevels@),
        windows_fit(windows@, state.layout_rects@, state.output_w, state.output_h),
    ensures
        r == under(
            state.surface_buffers@,
            windows@,
            state.layout_rects@,
            state.output_w,
            state.output_h,
            x as int,
            y as int,
            windows@.len() as int,
        ),
{
    let cache: &HashMap<u64, SurfaceBuf> = &state.surface_buffers;
    let rects: &Vec<Rect> = &state.layout_rects;
    let (w, h): (u32, u32) = (state.output_w, state.output_h);
    let mut n: usize = windows.len();
    while n > 0
        invariant
            n <= windows@.len(),
            *cache == state.surface_buffers && *rects == state.layout_rects,
            w == state.output_w && h == state.output_h,
            windows_fit(windows@, rects@, w, h),
            under(cache@, windows@, rects@, w, h, x as int, y as int, windows@.len() as int)
                == under(cache@, windows@, rects@, w, h, x as int, y as int, n as int),
        decreases n,
    {
        let r: Rect = if n - 1 < rects.len() {
            rects[n - 1]
        } else {
            Rect { x: 0, y: 0, w, h }
        };
        let win: &Window = &windows[n - 1];
        assert(windows@[n - 1] == *win);
        let mut k: usize = win.popups.len();
        while k > 0
            invariant
                0 < n <= windows@.len(),
                *cache == state.surface_buffers && *rects == state.layout_rects,
                w == state.output_w && h == state.output_h,
                *win == windows@[n - 1],
                k <= win.popups@.len(),
                r == window_rect(rects@, n - 1, w, h),
                windows_fit(windows@, rects@, w, h),
                under(cache@, windows@, rects@, w, h, x as int, y as int, windows@.len() as int)
                    == under(cache@, windows@, rects@, w, h, x as int, y as int, n as int),
                popup_under(
                    cache@,
                    win.popups@,
                    r,
                    x as int,
                    y as int,
                    win.popups@.len() as int,
                ) == popup_under(cache@, win.popups@, r, x as int, y as int, k as int),
            decreases k,
        {
            let p: &Popup = &win.popups[k - 1];
            assert(win.popups@[k - 1] == *p);
            let bx: i32 = r.x + p.dx;
            let by: i32 = r.y + p.dy;
            if is_under(cache, &p.tree, bx, by, x, y) {
                return Some(Pointed { surface: p.tree[0].surface, x: bx, y: by });
            }
            k = k - 1;
        }
        if is_under(cache, &win.tree, r.x, r.y, x, y) {
            return Some(Pointed { surface: win.tree[0].surface, x: r.x, y: r.y });
        }
        n = n - 1;
    }
    None
}

// ── Buffers of other devices ─────────────────────────────────────────────

/// A buffer that needs no GPU: one plane, linear, in a known format.
pub fn cpu_importable(planes: usize, linear: bool, format: PixelFormat) -> (r: bool)
    ensures
        r <==> planes == 1 && linear && format != PixelFormat::Other,
{
    planes == 1 && linear && format != PixelFormat::Other
}

/// How a committed device buffer is read.
#[derive(Clone, Copy, Debug, PartialEq, Eq, Structural)]
pub enum ImportRoute {
    /// Mapped and converted.
    Cpu,
    /// Detiled by the GPU.
    Gpu,
    /// Not at all.
    Unsupported,
}

/// Linear buffers are mapped; anything else needs a GPU importer.
pub fn import_route(linear: bool, has_gpu: bool) -> (r: ImportRoute)
    ensures
        r == (if linear {
            ImportRoute::Cpu
        } else if has_gpu {
            ImportRoute::Gpu
        } else {
            ImportRoute::Unsupported
        }),
{
    if linear {
        ImportRoute::Cpu
    } else if has_gpu {
        ImportRoute::Gpu
    } else {
        ImportRoute::Unsupported
    }
}

/// Whether a buffer that a client announces is taken: it needs no GPU, or the
/// GPU took it on trial. `gpu` is `None` where there is no GPU.
pub fn dmabuf_accepted(cpu_ok: bool, gpu: Option<bool>) -> (r: bool)
    ensures
        r <==> cpu_ok || gpu == Some(true),
{
    if cpu_ok {
        return true;
    }
    match gpu {
        Some(ok) => ok,
        None => false,
    }
}

/// A format code with a layout modifier.
#[derive(Clone, Copy, Debug, PartialEq, Eq, Structural)]
pub struct DeviceFormat {
    pub code: u32,
    pub modifier: u64,
}

/// The four formats that are always read: `AR24`, `XR24`, `AB24` and `XB24`,
/// linear.
pub open spec fn linear_formats() -> Seq<DeviceFormat> {
    seq![
        DeviceFormat { code: 0x3432_5241, modifier: 0 },
        DeviceFormat { code: 0x3432_5258, modifier: 0 },
        DeviceFormat { code: 0x3432_4241, modifier: 0 },
        DeviceFormat { code: 0x3432_4258, modifier: 0 },
    ]
}

/// `base` with the formats of `more` that are not yet there, in order.
pub open spec fn merged(base: Seq<DeviceFormat>, more: Seq<DeviceFormat>) -> Seq<DeviceFormat>
    decreases more.len(),
{
    if more.len() == 0 {
        base
    } else {
        let m = merged(base, more.drop_last());
        if m.contains(more.last()) {
            m
        } else {
            m.push(more.last())
        }
    }
}

fn has_format(v: &Vec<DeviceFormat>, f: DeviceFormat) -> (r: bool)
    ensures
        r == v@.contains(f),
{
    for i in 0..v.len()
        invariant
            forall|j: int| 0 <= j < i ==> v@[j] != f,
    {
        if v[i] == f {
            assert(v@[i as int] == f);
            return true;
        }
    }
    false
}

/// The formats offered to clients: the linear ones, and whatever the GPU can
/// import.
pub fn feedback_formats(gpu: &Vec<DeviceFormat>) -> (r: Vec<DeviceFormat>)
    ensures
        r@ == merged(linear_formats(), gpu@),
{
    let mut v: Vec<DeviceFormat> = Vec::new();
    v.push(DeviceFormat { code: 0x3432_5241, modifier: 0 });
    v.push(DeviceFormat { code: 0x3432_5258, modifier: 0 });
    v.push(DeviceFormat { code: 0x3432_4241, modifier: 0 });
    v.push(DeviceFormat { code: 0x3432_4258, modifier: 0 });
    assert(v@ =~= linear_formats());
    assert(gpu@.take(0) =~= Seq::<DeviceFormat>::empty());
    for i in 0..gpu.len()
        invariant
            v@ == merged(linear_formats(), gpu@.take(i as int)),
    {
        assert(gpu@.take(i + 1).drop_last() =~= gpu@.take(i as int));
        let f: DeviceFormat = gpu[i];
        if !has_format(&v, f) {
            v.push(f);
        }
    }
    assert(gpu@.take(gpu.len() as int) =~= gpu@);
    v
}

/// Every offered format is offered once.
pub proof fn law_formats_are_offered_once(gpu: Seq<DeviceFormat>)
    ensures
        merged(linear_formats(), gpu).no_duplicates(),
    decreases gpu.len(),
{
    if gpu.len() > 0 {
        law_formats_are_offered_once(gpu.drop_last());
    }
}

/// Whether the polled host clipboard is worth passing on: it holds text that
/// differs from the last.
pub fn clipboard_changed(last: &String, text: &String) -> (r: bool)
    ensures
        r <==> text@.len() > 0 && text@ != last@,
{
    !text.as_str().is_empty() && !(*text == *last)
}

/// `popup_under` reports a popup that the pointer lies in.
proof fn lemma_popup_holds_pointer(
    cache: Map<u64, SurfaceBuf>,
    popups: Seq<Popup>,
    r: Rect,
    x: int,
    y: int,
    n: int,
)
    requires
        0 <= n <= popups.len(),
        forall|id: u64| #[trigger]
            cache.dom().contains(id) ==> cache[id].w <= i32::MAX && cache[id].h <= i32::MAX,
        forall|j: int|
            0 <= j < n ==> i32::MIN <= r.x + (#[trigger] popups[j]).dx <= i32::MAX && i32::MIN
                <= r.y + popups[j].dy <= i32::MAX,
    ensures
        popup_under(cache, popups, r, x, y, n) matches Some(p) ==> {
            &&& cache.dom().contains(p.surface)
            &&& p.x <= x < p.x + cache[p.surface].w
            &&& p.y <= y < p.y + cache[p.surface].h
        },
        popup_under(cache, popups, r, x, y, n) is None ==> forall|j: int|
            0 <= j < n && (#[trigger] popups[j]).tree@.len() > 0 && cache.dom().contains(
                popups[j].tree@[0].surface,
            ) ==> {
                let b = cache[popups[j].tree@[0].surface];
                !(0 <= x - (r.x + popups[j].dx) < b.w && 0 <= y - (r.y + popups[j].dy) < b.h)
            },
    decreases n,
{
    if n > 0 {
        lemma_popup_holds_pointer(cache, popups, r, x, y, n - 1);
        assert(i32::MIN <= r.x + popups[n - 1].dx <= i32::MAX);
    }
}

/// Whatever surface is reported under the pointer, the pointer lies inside its
/// cached buffer placed at the reported origin; and where none is reported,
/// the pointer lies in no window and in no popup.
pub proof fn law_pointer_lies_in_what_it_picks(
    cache: Map<u64, SurfaceBuf>,
    windows: Seq<Window>,
    rects: Seq<Rect>,
    w: u32,
    h: u32,
    x: int,
    y: int,
    n: int,
)
    requires
        0 <= n <= windows.len(),
        windows_fit(windows, rects, w, h),
        sides_fit(w, h, cache),
    ensures
        under(cache, windows, rects, w, h, x, y, n) matches Some(p) ==> {
            &&& cache.dom().contains(p.surface)
            &&& p.x <= x < p.x + cache[p.surface].w
            &&& p.y <= y < p.y + cache[p.surface].h
        },
        under(cache, windows, rects, w, h, x, y, n) is None ==> forall|k: int|
            0 <= k < n ==> {
                let r = window_rect(rects, k, w, h);
                let t = (#[trigger] windows[k]).tree@;
                &&& t.len() > 0 && cache.dom().contains(t[0].surface) ==> !(0 <= x - r.x
                    < cache[t[0].surface].w && 0 <= y - r.y < cache[t[0].surface].h)
                &&& forall|j: int|
                    0 <= j < windows[k].popups@.len() && (#[trigger] windows[k].popups@[j]).tree@.len()
                        > 0 && cache.dom().contains(windows[k].popups@[j].tree@[0].surface) ==> {
                        let q = windows[k].popups@[j];
                        let b = cache[q.tree@[0].surface];
                        !(0 <= x - (r.x + q.dx) < b.w && 0 <= y - (r.y + q.dy) < b.h)
                    }
            },
    decreases n,
{
    if n > 0 {
        law_pointer_lies_in_what_it_picks(cache, windows, rects, w, h, x, y, n - 1);
        let win = windows[n - 1];
        let r = window_rect(rects, n - 1, w, h);
        assert forall|j: int| 0 <= j < win.popups@.len() implies i32::MIN <= r.x
            + (#[trigger] win.popups@[j]).dx <= i32::MAX && i32::MIN <= r.y + win.popups@[j].dy
            <= i32::MAX by {}
        lemma_popup_holds_pointer(cache, win.popups@, r, x, y, win.popups@.len() as int);
    }
}

/// What lies on top is picked: in the last window the newest popup that holds
/// the pointer, at its offset from the window's tile, and without popups the
/// window's own root, at the corner of the tile.
pub proof fn law_topmost_is_picked(
    cache: Map<u64, SurfaceBuf>,
    windows: Seq<Window>,
    rects: Seq<Rect>,
    w: u32,
    h: u32,
    x: int,
    y: int,
)
    requires
        windows.len() > 0,
        rects.len() == windows.len(),
        windows_fit(windows, rects, w, h),
        sides_fit(w, h, cache),
    ensures
        ({
            let picked = under(cache, windows, rects, w, h, x, y, windows.len() as int);
            let win = windows.last();
            let r = rects.last();
            let p = win.popups@.last();
            let child = p.tree@[0].surface;
            let root = win.tree@[0].surface;
            &&& win.popups@.len() > 0 && p.tree@.len() > 0 && cache.dom().contains(child) && 0 <= x - (
            r.x + p.dx) < cache[child].w && 0 <= y - (r.y + p.dy) < cache[child].h ==> (
            picked matches Some(q) && q.surface == child && q.x == r.x + p.dx && q.y == r.y + p.dy)
            &&& win.popups@.len() == 0 && win.tree@.len() > 0 && cache.dom().contains(root) && 0 <= x
                - r.x < cache[root].w && 0 <= y - r.y < cache[root].h ==> picked == Some(
                Pointed { surface: root, x: r.x, y: r.y },
            )
        }),
{
    let win = windows.last();
    let r = rects.last();
    assert(windows[windows.len() - 1] == win);
    assert(window_rect(rects, windows.len() - 1, w, h) == r);
    if win.popups@.len() > 0 {
        let p = win.popups@[win.popups@.len() - 1];
        assert(i32::MIN <= r.x + p.dx <= i32::MAX && i32::MIN <= r.y + p.dy <= i32::MAX);
    }
}

/// Every surface is drawn alone, and its buffer is opaque.
pub open spec fn opaque_window(cache: Map<u64, SurfaceBuf>, win: Window) -> bool {
    &&& opaque_root(cache, win.tree@)
    &&& forall|j: int|
        0 <= j < win.popups@.len() ==> opaque_root(cache, (#[trigger] win.popups@[j]).tree@)
}

pub open spec fn opaque_root(cache: Map<u64, SurfaceBuf>, t: Seq<TreeNode>) -> bool {
    &&& t.len() == 1
    &&& cache.dom().contains(t[0].surface)
    &&& forall|dx: int, dy: int|
        0 <= dx < cache[t[0].surface].w && 0 <= dy < cache[t[0].surface].h
            ==> #[trigger] pixel(
            cache[t[0].surface].rgba@,
            cache[t[0].surface].w,
            dx,
            dy,
        )[3] == 255
}

proof fn lemma_root_pixel(
    b: Seq<u8>,
    w: u32,
    h: u32,
    cache: Map<u64, SurfaceBuf>,
    t: Seq<TreeNode>,
    ox: int,
    oy: int,
    x: int,
    y: int,
)
    requires
        fits(b.len(), w, h),
        sides_fit(w, h, cache),
        opaque_root(cache, t),
        0 <= x < w,
        0 <= y < h,
    ensures
        ({
            let after = tree_drawn(b, w, h, cache, t, ox, oy, 1);
            let s = cache[t[0].surface];
            &&& after.len() == b.len()
            &&& pixel(after, w, x, y) == (if 0 <= x - ox < s.w && 0 <= y - oy < s.h {
                pixel(s.rgba@, s.w, x - ox, y - oy)
            } else {
                pixel(b, w, x, y)
            })
        }),
{
    reveal_with_fuel(tree_drawn, 2);
    let s = cache[t[0].surface];
    if 0 <= x - ox < s.w && 0 <= y - oy < s.h {
        assert(pixel(s.rgba@, s.w, x - ox, y - oy)[3] == 255);
    }
    law_surface_covers_its_rectangle(b, w, h, s, ox, oy, x, y);
}

proof fn lemma_popup_pixel(
    b: Seq<u8>,
    w: u32,
    h: u32,
    cache: Map<u64, SurfaceBuf>,
    popups: Seq<Popup>,
    r: Rect,
    x: int,
    y: int,
    n: int,
)
    requires
        fits(b.len(), w, h),
        sides_fit(w, h, cache),
        0 <= n <= popups.len(),
        forall|j: int| 0 <= j < popups.len() ==> opaque_root(cache, (#[trigger] popups[j]).tree@),
        forall|j: int|
            0 <= j < popups.len() ==> i32::MIN <= r.x + (#[trigger] popups[j]).dx <= i32::MAX
                && i32::MIN <= r.y + popups[j].dy <= i32::MAX,
        0 <= x < w,
        0 <= y < h,
    ensures
        ({
            let after = popups_drawn(b, w, h, cache, popups, r, n);
            &&& after.len() == b.len()
            &&& pixel(after, w, x, y) == (match popup_under(cache, popups, r, x, y, n) {
                Some(p) => pixel(cache[p.surface].rgba@, cache[p.surface].w, x - p.x, y - p.y),
                None => pixel(b, w, x, y),
            })
        }),
    decreases n,
{
    if n > 0 {
        lemma_popup_pixel(b, w, h, cache, popups, r, x, y, n - 1);
        let p = popups[n - 1];
        assert(opaque_root(cache, p.tree@));
        lemma_root_pixel(
            popups_drawn(b, w, h, cache, popups, r, n - 1),
            w,
            h,
            cache,
            p.tree@,
            r.x + p.dx,
            r.y + p.dy,
            x,
            y,
        );
    }
}

proof fn lemma_window_pixel(
    b: Seq<u8>,
    w: u32,
    h: u32,
    cache: Map<u64, SurfaceBuf>,
    windows: Seq<Window>,
    rects: Seq<Rect>,
    x: int,
    y: int,
    n: int,
)
    requires
        fits(b.len(), w, h),
        sides_fit(w, h, cache),
        0 <= n <= windows.len(),
        windows_fit(windows, rects, w, h),
        forall|k: int| 0 <= k < windows.len() ==> opaque_window(cache, #[trigger] windows[k]),
        0 <= x < w,
        0 <= y < h,
    ensures
        ({
            let after = windows_drawn(b, w, h, cache, windows, rects, n);
            &&& after.len() == b.len()
            &&& pixel(after, w, x, y) == (match under(cache, windows, rects, w, h, x, y, n) {
                Some(p) => pixel(cache[p.surface].rgba@, cache[p.surface].w, x - p.x, y - p.y),
                None => pixel(b, w, x, y),
            })
        }),
    decreases n,
{
    if n > 0 {
        lemma_window_pixel(b, w, h, cache, windows, rects, x, y, n - 1);
        let win = windows[n - 1];
        let r = window_rect(rects, n - 1, w, h);
        assert(opaque_window(cache, windows[n - 1]));
        let before = windows_drawn(b, w, h, cache, windows, rects, n - 1);
        lemma_root_pixel(before, w, h, cache, win.tree@, r.x as int, r.y as int, x, y);
        let root = tree_drawn(before, w, h, cache, win.tree@, r.x as int, r.y as int, 1);
        lemma_popup_pixel(root, w, h, cache, win.popups@, r, x, y, win.popups@.len() as int);
    }
}

/// What the pointer picks is what is seen there: over opaque surfaces, the
/// frame at the pointer shows the picked surface's own pixel, counted from the
/// reported origin, and the background where nothing is picked.
pub proof fn law_pointer_picks_what_it_shows(
    w: u32,
    h: u32,
    background: [u8; 4],
    cache: Map<u64, SurfaceBuf>,
    windows: Seq<Window>,
    rects: Seq<Rect>,
    mod_key: ModKey,
    binds: Seq<(char, Action)>,
    x: int,
    y: int,
)
    requires
        sides_fit(w, h, cache),
        windows_fit(windows, rects, w, h),
        forall|k: int| 0 <= k < windows.len() ==> opaque_window(cache, #[trigger] windows[k]),
        0 <= x < w,
        0 <= y < h,
    ensures
        pixel(
            composed(
                w,
                h,
                background,
                cache,
                windows,
                rects,
                Cursor::Hidden,
                x,
                y,
                false,
                mod_key,
                binds,
                None,
            ),
            w,
            x,
            y,
        ) == (match under(cache, windows, rects, w, h, x, y, windows.len() as int) {
            Some(p) => pixel(cache[p.surface].rgba@, cache[p.surface].w, x - p.x, y - p.y),
            None => background@,
        }),
{
    lemma_plain_pixel(w, h, background, x, y);
    lemma_window_pixel(
        plain(w, h, background),
        w,
        h,
        cache,
        windows,
        rects,
        x,
        y,
        windows.len() as int,
    );
}

/// The tile under a point contains it, and no earlier one does; where there is
/// none, no tile contains it.
pub proof fn law_tile_under_a_point(rects: Seq<Rect>, x: int, y: int)
    requires
        forall|i: int|
            0 <= i < rects.len() ==> (#[trigger] rects[i]).w <= i32::MAX && rects[i].h <= i32::MAX,
    ensures
        tile_at(rects, x, y) matches Some(i) ==> {
            &&& 0 <= i < rects.len()
            &&& rects[i].x <= x < rects[i].x + rects[i].w
            &&& rects[i].y <= y < rects[i].y + rects[i].h
        },
        forall|k: int|
            0 <= k < rects.len() && (#[trigger] rects[k]).x <= x < rects[k].x + rects[k].w
                && rects[k].y <= y < rects[k].y + rects[k].h ==> tile_at(rects, x, y) is Some
                && tile_at(rects, x, y)->0 <= k,
    decreases rects.len(),
{
    if rects.len() > 0 {
        let s = rects.drop_last();
        assert forall|i: int| 0 <= i < s.len() implies (#[trigger] s[i]).w <= i32::MAX && s[i].h
            <= i32::MAX by {
            assert(s[i] == rects[i]);
        }
        law_tile_under_a_point(s, x, y);
        assert(rects[rects.len() - 1] == rects.last());
        assert forall|k: int|
            0 <= k < rects.len() && (#[trigger] rects[k]).x <= x < rects[k].x + rects[k].w
                && rects[k].y <= y < rects[k].y + rects[k].h implies tile_at(rects, x, y) is Some
            && tile_at(rects, x, y)->0 <= k by {
            if k < s.len() {
                assert(s[k] == rects[k]);
            }
        }
    }
}

/// A left press gives the keyboard to the window whose tile it hits, and
/// arranges nothing anew; any other button, a release, or a press beside all
/// tiles changes nothing.
pub proof fn law_left_press_focuses_its_tile(
    s: State,
    button: u32,
    pressed: bool,
    x: int,
    y: int,
    after: State,
    r: Option<Retiled>,
)
    requires
        s.wf(),
        s.button_step(button, pressed, x, y, after, r),
        s.layout_rects@.len() == live_count(s.toplevels@),
        live_count(s.toplevels@) <= usize::MAX,
    ensures
        button != 0x110 || !pressed ==> after == s && r is None,
        after.toplevels == s.toplevels,
        after.layout.flip == s.layout.flip,
        after.layout.split_ratio == s.layout.split_ratio,
        r matches Some(t) ==> {
            let f = after.layout.focused as int;
            &&& 0 <= f < s.layout_rects@.len()
            &&& s.layout_rects@[f].x <= x < s.layout_rects@[f].x + s.layout_rects@[f].w
            &&& s.layout_rects@[f].y <= y < s.layout_rects@[f].y + s.layout_rects@[f].h
            &&& t.focus.target == Some(live_ids_of(s.toplevels@)[f])
            &&& t.close is None
        },
        r is None ==> after == s,
        r is None && pressed && button == 0x110 ==> forall|k: int|
            0 <= k < s.layout_rects@.len() && k < s.layout.focused ==> !(
            (#[trigger] s.layout_rects@[k]).x <= x < s.layout_rects@[k].x + s.layout_rects@[k].w
                && s.layout_rects@[k].y <= y < s.layout_rects@[k].y + s.layout_rects@[k].h),
{
    let rects = s.layout_rects@;
    assert forall|i: int| 0 <= i < rects.len() implies (#[trigger] rects[i]).w <= i32::MAX
        && rects[i].h <= i32::MAX by {
        assert(inside(s.layout_rects@[i], s.output_w, s.output_h));
    }
    law_tile_under_a_point(rects, x, y);
}

/// Of all live windows the one that gets the keyboard is activated, and no
/// other; each is sent its own tile's size.
pub proof fn law_focused_window_is_activated(
    ts: Seq<Toplevel>,
    rects: Seq<Rect>,
    focused: int,
    i: int,
)
    requires
        0 <= i < live_count(ts),
        0 <= focused < live_count(ts),
        rects[i].w <= i32::MAX,
        rects[i].h <= i32::MAX,
    ensures
        configures(ts, rects, focused).len() == live_count(ts),
        configures(ts, rects, focused)[i].id == live_ids_of(ts)[i],
        configures(ts, rects, focused)[i].width == rects[i].w,
        configures(ts, rects, focused)[i].height == rects[i].h,
        configures(ts, rects, focused)[i].activated <==> i == focused,
        focus_of(ts, focused) == Some(configures(ts, rects, focused)[focused].id),
{
}

/// The focus keeps its place while there is a window there, and goes to the
/// last window where there is not.
pub proof fn law_focus_moves_only_when_it_must(l: Layout, ts: Seq<Toplevel>)
    requires
        live_count(ts) <= usize::MAX,
    ensures
        l.focused < live_count(ts) ==> retiled_layout(l, ts).focused == l.focused,
        0 < live_count(ts) <= l.focused ==> retiled_layout(l, ts).focused == live_count(ts) - 1,
        retiled_layout(l, ts).flip == l.flip,
        retiled_layout(l, ts).split_ratio == l.split_ratio,
{
}

/// A swap keeps the keyboard on the window that had it, however many windows
/// there are.
pub proof fn law_swap_keeps_the_focused_window(ts: Seq<Toplevel>, l: Layout, after: Layout)
    requires
        2 <= live_count(ts) <= usize::MAX,
        l.focused < live_count(ts),
        layout_step(l, Seq::empty(), live_count(ts), Action::Swap, after),
    ensures
        ({
            let moved = windows_after(ts, l, Action::Swap);
            &&& live_count(moved) == live_count(ts)
            &&& after.focused < live_count(ts)
            &&& after.focused == (if l.focused + 1 < live_count(ts) {
                l.focused + 1
            } else {
                0
            })
            &&& focus_of(moved, after.focused as int) == focus_of(ts, l.focused as int)
            &&& forall|k: int|
                0 <= k < live_count(ts) && k != l.focused && k != after.focused ==> (
                #[trigger] live_ids_of(moved)[k]) == live_ids_of(ts)[k]
        }),
{
    law_swap_exchanges_two_windows(ts, l);
    let n = live_count(ts) as int;
    let f = l.focused as int;
    assert((f + 1) % n == (if f + 1 < n {
        f + 1
    } else {
        0
    })) by {
        if f + 1 < n {
            vstd::arithmetic::div_mod::lemma_small_mod((f + 1) as nat, n as nat);
        } else {
            vstd::arithmetic::div_mod::lemma_mod_self_0(n);
        }
    }
    let moved = windows_after(ts, l, Action::Swap);
    assert(live_ids_of(moved).len() == live_ids_of(ts).len());
    assert(live_ids_of(moved)[after.focused as int] == live_id(ts, f));
}

/// No action but a swap moves a window in the list, and none but a rotation, a
/// growth or a shrinking changes how they are tiled.
pub proof fn law_actions_change_their_own_part(
    ts: Seq<Toplevel>,
    l: Layout,
    rects: Seq<Rect>,
    a: Action,
    after: Layout,
)
    requires
        layout_step(l, rects, live_count(ts), a, after),
    ensures
        a != Action::Swap ==> windows_after(ts, l, a) == ts,
        a == Action::Rotate <==> after.flip != l.flip,
        a != Action::ResizeGrow && a != Action::ResizeShrink ==> after.split_ratio
            == l.split_ratio,
        a == Action::Rotate || a == Action::Close || a == Action::ResizeGrow || a
            == Action::ResizeShrink ==> after.focused == l.focused,
{
}

/// Event serials count up by one and start again after the largest.
pub proof fn law_serials_count_up(serial: u32)
    ensures
        serial < u32::MAX ==> next_of(serial) == serial + 1,
        next_of(serial) == (serial + 1) % 0x1_0000_0000,
        next_of(serial) != serial,
{
}

/// What is typed into the launcher and taken back leaves the query as it was;
/// moving the selection keeps the query, and moves by one within the matches.
pub proof fn law_launcher_edits(b: Launcher, m: Launcher, a: Launcher, c: char)
    ensures
        State::launcher_edited(b, LauncherStep::Type(c), m) ==> m.query@ == b.query@ + seq![c]
            && m.selected == 0 && m.entries == b.entries,
        State::launcher_edited(b, LauncherStep::Type(c), m) && State::launcher_edited(
            m,
            LauncherStep::Backspace,
            a,
        ) ==> a.query@ == b.query@ && a.selected == 0,
        State::launcher_edited(b, LauncherStep::Backspace, m) && b.query@.len() > 0 ==> m.query@
            + seq![b.query@.last()] == b.query@,
        State::launcher_edited(b, LauncherStep::Up, m) ==> m.query@ == b.query@ && m.selected
            <= b.selected && (b.selected > 0 ==> m.selected + 1 == b.selected),
        State::launcher_edited(b, LauncherStep::Down, m) ==> {
            let n = matching(entries_of(b.entries@), b.query@).len();
            &&& m.query@ == b.query@
            &&& n > 0 ==> m.selected < n
            &&& b.selected + 1 < n ==> m.selected == b.selected + 1
            &&& b.selected + 1 == n ==> m.selected == b.selected
        },
        State::launcher_edited(b, LauncherStep::Down, m) && State::launcher_edited(
            m,
            LauncherStep::Up,
            a,
        ) && b.selected + 1 < matching(entries_of(b.entries@), b.query@).len() ==> a.selected
            == b.selected,
{
    if State::launcher_edited(b, LauncherStep::Type(c), m) {
        assert(m.query@ =~= b.query@ + seq![c]);
        assert(m.query@.drop_last() =~= b.query@);
    }
    if State::launcher_edited(b, LauncherStep::Backspace, m) && b.query@.len() > 0 {
        assert(m.query@ + seq![b.query@.last()] =~= b.query@);
    }
}

/// Escape closes the launcher and Enter runs it, whatever is held down; the
/// opening chord closes it too; an unheld `d`, and every other printable
/// character, is typed as it is.
pub proof fn law_launcher_keys(m: Modifiers, mod_key: ModKey, sym: u32, code_point: u32)
    ensures
        sym == 0xff1b ==> launcher_key(m, mod_key, sym, code_point) == LauncherStep::Close,
        sym == 0xff0d || sym == 0xff8d ==> launcher_key(m, mod_key, sym, code_point)
            == LauncherStep::Run,
        sym == 0xff08 ==> launcher_key(m, mod_key, sym, code_point) == LauncherStep::Backspace,
        sym == 0xff52 ==> launcher_key(m, mod_key, sym, code_point) == LauncherStep::Up,
        sym == 0xff54 ==> launcher_key(m, mod_key, sym, code_point) == LauncherStep::Down,
        held(m, mod_key) && (sym == 0x44 || sym == 0x64) ==> launcher_key(
            m,
            mod_key,
            sym,
            code_point,
        ) == LauncherStep::Close,
        sym < 0xff00 && (!held(m, mod_key) || sym != 0x44 && sym != 0x64) && (0x20 <= code_point
            < 0x7f || 0xa0 <= code_point < 0xd800 || 0xe000 <= code_point <= 0x10ffff)
            ==> launcher_key(m, mod_key, sym, code_point) == LauncherStep::Type(code_point as char),
        sym < 0xff00 && (!held(m, mod_key) || sym != 0x44 && sym != 0x64) && (code_point < 0x20
            || 0x7f <= code_point < 0xa0 || 0xd800 <= code_point < 0xe000 || code_point > 0x10ffff)
            ==> launcher_key(m, mod_key, sym, code_point) == LauncherStep::Ignore,
{
}

/// Each modifier is told by its own key alone.
pub proof fn law_each_modifier_is_its_own(m: Modifiers)
    ensures
        held(m, ModKey::Super) == m.logo,
        held(m, ModKey::Ctrl) == m.ctrl,
        held(m, ModKey::Alt) == m.alt,
        held(m, ModKey::Shift) == m.shift,
{
}

/// No chord acts without the configured modifier, and the other modifiers do
/// not matter to one that does.
pub proof fn law_chords_need_the_modifier(s: State, m: Modifiers, o: Modifiers, code_point: u32)
    ensures
        s.chord(m, code_point) is Some ==> held(m, s.keybinds.mod_key),
        held(m, s.keybinds.mod_key) && held(o, s.keybinds.mod_key) ==> s.chord(m, code_point)
            == s.chord(o, code_point),
        held(m, s.keybinds.mod_key) && code_point <= 0x7f ==> s.chord(m, code_point) == Some(
            lower(code_point as char),
        ),
{
}

/// Every format of the GPU and all four linear ones are offered, the linear
/// ones first and in their order, and nothing else is.
pub proof fn law_all_formats_are_offered(gpu: Seq<DeviceFormat>)
    ensures
        merged(linear_formats(), gpu).len() >= 4,
        merged(linear_formats(), gpu).take(4) == seq![
            DeviceFormat { code: 0x3432_5241, modifier: 0 },
            DeviceFormat { code: 0x3432_5258, modifier: 0 },
            DeviceFormat { code: 0x3432_4241, modifier: 0 },
            DeviceFormat { code: 0x3432_4258, modifier: 0 },
        ],
        forall|f: DeviceFormat| #[trigger]
            gpu.contains(f) ==> merged(linear_formats(), gpu).contains(f),
        forall|f: DeviceFormat| #[trigger]
            merged(linear_formats(), gpu).contains(f) ==> linear_formats().contains(f)
                || gpu.contains(f),
    decreases gpu.len(),
{
    let all = merged(linear_formats(), gpu);
    if gpu.len() > 0 {
        let less = gpu.drop_last();
        law_all_formats_are_offered(less);
        let m = merged(linear_formats(), less);
        assert(all.take(4) =~= m.take(4));
        assert forall|f: DeviceFormat| gpu.contains(f) implies all.contains(f) by {
            let k = choose|k: int| 0 <= k < gpu.len() && gpu[k] == f;
            if k < less.len() {
                assert(less[k] == f);
                assert(less.contains(f));
                assert(m.contains(f));
                let j = choose|j: int| 0 <= j < m.len() && m[j] == f;
                assert(all[j] == f);
            } else if !m.contains(f) {
                assert(all[m.len() as int] == f);
            }
        }
        assert forall|f: DeviceFormat| #[trigger] all.contains(f) implies linear_formats().contains(f)
            || gpu.contains(f) by {
            let k = choose|k: int| 0 <= k < all.len() && all[k] == f;
            if k < m.len() {
                assert(m.contains(f));
                if less.contains(f) {
                    let j = choose|j: int| 0 <= j < less.len() && less[j] == f;
                    assert(gpu[j] == f);
                }
            } else {
                assert(gpu[gpu.len() - 1] == f);
            }
        }
    } else {
        assert(all.take(4) =~= all);
    }
}

/// Shift, Alt and E, in either case, quit; nothing else does, and the other
/// modifiers do not matter.
pub proof fn law_quit_chord_is_shift_alt_e(m: Modifiers, code_point: u32)
    ensures
        quit_chord(m, code_point) <==> m.shift && m.alt && (code_point == 0x45 || code_point
            == 0x65),
{
}

/// Every command takes the next serial. A key goes on under its X11 code, eight
/// above the kernel's; scrolling goes on as it is; neither, nor a motion,
/// touches a window.
pub proof fn law_commands_are_passed_on(
    s: State,
    cmd: InputCmd,
    px: int,
    py: int,
    after: State,
    r: InputReply,
)
    requires
        State::takes(cmd),
        s.input_step(cmd, px, py, after, r),
    ensures
        r.serial == (s.serial_counter + 1) % 0x1_0000_0000,
        after.toplevels == s.toplevels,
        cmd matches InputCmd::Key { keycode, pressed, .. } ==> {
            &&& r.event matches InputAction::Key { code, pressed: p } && code == keycode + 8 && p
                == pressed
            &&& after == (State { serial_counter: r.serial, ..s })
        },
        cmd matches InputCmd::Scroll { v120 } ==> {
            &&& r.event matches InputAction::Scroll { v120: v } && v == v120
            &&& after == (State { serial_counter: r.serial, ..s })
        },
        cmd matches InputCmd::PointerMotionAbs { .. } ==> {
            &&& r.event == InputAction::Motion
            &&& after == (State { serial_counter: r.serial, dirty: true, ..s })
        },
        cmd matches InputCmd::Resize { width, height } ==> after.output_w == width && after.output_h
            == height && r.event is Resized,
        cmd matches InputCmd::PointerButton { .. } ==> r.event is Button && after.output_w
            == s.output_w && after.output_h == s.output_h,
{
}

/// After a new size the output has it, each window is sent the size of its new
/// tile, and a lone window fills it; no window goes or moves in the list.
pub proof fn law_windows_fill_the_new_size(
    s: State,
    width: u32,
    height: u32,
    after: State,
    r: Seq<Configure>,
)
    requires
        s.resize_step(width, height, after, r),
    ensures
        after.output_w == width,
        after.output_h == height,
        after.toplevels == s.toplevels,
        after.layout.flip == s.layout.flip,
        after.layout.split_ratio == s.layout.split_ratio,
        after.dirty,
        after.layout_rects@.len() == live_count(s.toplevels@),
        r.len() == live_count(s.toplevels@),
        forall|i: int|
            0 <= i < r.len() ==> (#[trigger] r[i]).width == after.layout_rects@[i].w as i32
                && r[i].height == after.layout_rects@[i].h as i32 && r[i].id == live_ids_of(
                s.toplevels@,
            )[i],
        live_count(s.toplevels@) == 1 ==> after.layout_rects@[0] == (Rect {
            x: 0,
            y: 0,
            w: width,
            h: height,
        }),
{
}

/// Closing asks the focused window to close and leaves the list as it is; no
/// other action closes one. After any action the keyboard is on the focused
/// window, and every live window has a tile.
pub proof fn law_only_close_closes(s: State, a: Action, after: State, r: Retiled)
    requires
        s.acted(a, after, r),
        live_count(s.toplevels@) <= usize::MAX,
    ensures
        a != Action::Close ==> r.close is None,
        a == Action::Close && s.layout.focused < live_count(s.toplevels@) ==> r.close == Some(
            live_ids_of(s.toplevels@)[s.layout.focused as int],
        ),
        a != Action::Swap ==> after.toplevels@ == s.toplevels@,
        after.layout_rects@.len() == live_count(after.toplevels@),
        live_count(after.toplevels@) > 0 && live_count(after.toplevels@) <= usize::MAX
            ==> after.layout.focused < live_count(after.toplevels@) && r.focus.target == Some(
            live_ids_of(after.toplevels@)[after.layout.focused as int],
        ),
        a == Action::Rotate ==> after.layout.flip == !s.layout.flip,
        a != Action::Rotate ==> after.layout.flip == s.layout.flip,
        after.output_w == s.output_w && after.output_h == s.output_h,
{
    let l = choose|l: Layout|
        {
            &&& #[trigger] layout_step(
                s.layout,
                s.layout_rects@,
                live_count(s.toplevels@),
                a,
                l,
            )
            &&& after.toplevels@ == windows_after(s.toplevels@, s.layout, a)
            &&& after.layout == retiled_layout(l, windows_after(s.toplevels@, s.layout, a))
            &&& after.layout_rects@ == tiles(
                l.flip,
                l.split_ratio,
                live_count(windows_after(s.toplevels@, s.layout, a)),
                s.output_w,
                s.output_h,
            )
        };
    law_focus_stays_on_a_window(l, after.toplevels@);
}

} // verus!
