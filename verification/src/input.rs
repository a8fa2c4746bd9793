//! Input for the host compositor: the commands it takes, and the two sources
//! that make them. A terminal reports keys and cells; a bare TTY reports raw
//! evdev events.

use vstd::prelude::*;
use std::collections::HashSet;
use crate::keycodes;
use crate::keycodes::vt_for_fkey;
use crate::keycodes::f_number;
use crate::keys::{keycode_for, mouse_btn, needs_shift};
use crate::keys::{KeyCode, KeyEvent, KeyKind, MouseButton, MouseEvent, MouseKind};
use crate::keys::{button_of, code_of, shifted};
use crate::btn::is_button;
use crate::btn::button_code;

verus! {

/// A command for the host compositor.
#[derive(Clone, Copy, Debug, PartialEq, Eq, Structural)]
pub enum InputCmd {
    /// Raw evdev keycode + active modifier bitmask + press/release.
    Key { keycode: u32, mods: u32, pressed: bool },
    /// Absolute pointer move in logical-output pixels.
    PointerMotionAbs { x: i32, y: i32, width: u32, height: u32 },
    /// Pointer button: evdev BTN_* code + press/release.
    PointerButton { button: u32, pressed: bool },
    /// Vertical scroll in discrete notches (+ = down).
    Scroll { v120: i32 },
    /// Terminal window resized: new compositor output dimensions in pixels.
    Resize { width: u32, height: u32 },
}

/// View geometry used to map pointer coordinates.
///
/// Terminal mode tracks both cell grid and pixel size (cells → pixels);
/// evdev mode only cares about the pixel extent for cursor clamping.
#[derive(Clone, Copy, Debug, PartialEq, Eq, Structural)]
pub struct InputGeometry {
    pub cols: u16,
    pub rows: u16,
    pub comp_w: u32,
    pub comp_h: u32,
}

impl InputGeometry {
    pub fn new(cols: u16, rows: u16, comp_w: u32, comp_h: u32) -> (g: Self)
        ensures
            g == (InputGeometry { cols, rows, comp_w, comp_h }),
    {
        Self { cols, rows, comp_w, comp_h }
    }
}

// ── Terminal ─────────────────────────────────────────────────────────────

/// An event of the terminal.
#[derive(Clone, Copy, Debug, PartialEq, Eq, Structural)]
pub enum TermEvent {
    Key(KeyEvent),
    Mouse(MouseEvent),
    /// New size in cells.
    Resize(u16, u16),
    Other,
}

/// What a terminal event asks for.
#[derive(Debug)]
pub enum TermOutcome {
    /// Shut the compositor down.
    Stop,
    /// Send these commands.
    Send(Vec<InputCmd>),
}

/// Turns terminal events into commands. Keeps which mouse buttons and keys are down.
pub struct CrosstermInput {
    pub left: bool,
    pub right: bool,
    pub middle: bool,
    pub held: HashSet<u32>,
}

/// Ctrl+C.
pub open spec fn ctrl_c(k: KeyEvent) -> bool {
    k.code == KeyCode::Char('c') && k.mods.ctrl
}

/// The kill key, going down.
pub open spec fn kill_key(k: KeyEvent) -> bool {
    k.code == KeyCode::Home && k.kind == KeyKind::Press
}

pub fn is_ctrl_c(k: &KeyEvent) -> (r: bool)
    ensures
        r == ctrl_c(*k),
{
    match k.code {
        KeyCode::Char(c) => c == 'c' && k.mods.ctrl,
        _ => false,
    }
}

/// HOME is the compositor kill key: an escape hatch that always tears veil
/// down even if the guest app wedges. Only fires on press, not release or
/// repeat. The guest never receives HOME.
pub fn is_kill_key(k: &KeyEvent) -> (r: bool)
    ensures
        r == kill_key(*k),
{
    match k.code {
        KeyCode::Home => k.kind == KeyKind::Press,
        _ => false,
    }
}

pub open spec fn key_cmd(keycode: u32, pressed: bool) -> InputCmd {
    InputCmd::Key { keycode, mods: 0, pressed }
}

/// One command where `on`, none otherwise.
pub open spec fn when(on: bool, c: InputCmd) -> Seq<InputCmd> {
    if on {
        seq![c]
    } else {
        Seq::empty()
    }
}

/// The modifiers go down, then the key.
pub open spec fn press_cmds(keycode: u32, shift: bool, ctrl: bool, alt: bool) -> Seq<InputCmd> {
    when(shift, key_cmd(keycodes::LEFT_SHIFT, true)) + when(
        ctrl,
        key_cmd(keycodes::LEFT_CTRL, true),
    ) + when(alt, key_cmd(keycodes::LEFT_ALT, true)) + seq![key_cmd(keycode, true)]
}

/// The key comes up, then the modifiers.
pub open spec fn release_cmds(keycode: u32, shift: bool, ctrl: bool, alt: bool) -> Seq<InputCmd> {
    seq![key_cmd(keycode, false)] + when(alt, key_cmd(keycodes::LEFT_ALT, false)) + when(
        ctrl,
        key_cmd(keycodes::LEFT_CTRL, false),
    ) + when(shift, key_cmd(keycodes::LEFT_SHIFT, false))
}

/// What a key event sends while `held` are down: one press, then one release;
/// the client drives repeat itself.
pub open spec fn key_sends(k: KeyEvent, held: Set<u32>) -> Seq<InputCmd> {
    match code_of(k.code) {
        None => Seq::empty(),
        Some(code) => {
            let shift = shifted(k.code) || k.mods.shift;
            match k.kind {
                KeyKind::Repeat => Seq::empty(),
                KeyKind::Release => if held.contains(code) {
                    release_cmds(code, shift, k.mods.ctrl, k.mods.alt)
                } else {
                    Seq::empty()
                },
                KeyKind::Press => if held.contains(code) {
                    Seq::empty()
                } else {
                    press_cmds(code, shift, k.mods.ctrl, k.mods.alt)
                },
            }
        },
    }
}

/// The keys down after a key event.
pub open spec fn key_holds(k: KeyEvent, held: Set<u32>) -> Set<u32> {
    match code_of(k.code) {
        None => held,
        Some(code) => match k.kind {
            KeyKind::Repeat => held,
            KeyKind::Release => held.remove(code),
            KeyKind::Press => held.insert(code),
        },
    }
}

/// A press and the matching release: the release undoes the press, command by
/// command from the last, and leaves the held keys as they were. A second
/// press of a held key sends nothing.
pub proof fn law_release_undoes_press(k: KeyEvent, held: Set<u32>)
    requires
        k.kind == KeyKind::Press,
        code_of(k.code) matches Some(c) ==> !held.contains(c),
    ensures
        ({
            let up = KeyEvent { kind: KeyKind::Release, ..k };
            let down = key_sends(k, held);
            let after = key_holds(k, held);
            let released = key_sends(up, after);
            &&& key_sends(k, after).len() == 0
            &&& key_holds(up, after) == held
            &&& released.len() == down.len()
            &&& forall|i: int|
                0 <= i < down.len() ==> {
                    let a = #[trigger] down[i];
                    let b = released[down.len() - 1 - i];
                    a matches InputCmd::Key { keycode, mods, pressed } && b == (InputCmd::Key {
                        keycode,
                        mods,
                        pressed: !pressed,
                    }) && pressed
                }
        }),
{
    let up = KeyEvent { kind: KeyKind::Release, ..k };
    assert(key_holds(up, key_holds(k, held)) =~= held);
}

/// The pixel under the center of a cell: cell `c` of `cells` on a side of
/// `pixels`.
pub open spec fn cell_center(c: u16, cells: u16, pixels: u32) -> int {
    ((c * 2 + 1) * pixels) / (2 * (if cells > 1 {
        cells as int
    } else {
        1
    }))
}

/// The products in the mapping of a mouse event fit 32 bits.
pub open spec fn mouse_fits(m: MouseEvent, g: InputGeometry) -> bool {
    &&& (m.column * 2 + 1) * g.comp_w <= u32::MAX
    &&& (m.row * 2 + 1) * g.comp_h <= u32::MAX
}

pub open spec fn motion_of(m: MouseEvent, g: InputGeometry) -> InputCmd {
    InputCmd::PointerMotionAbs {
        x: (cell_center(m.column, g.cols, g.comp_w) as u32) as i32,
        y: (cell_center(m.row, g.rows, g.comp_h) as u32) as i32,
        width: g.comp_w,
        height: g.comp_h,
    }
}

fn center_of(c: u16, cells: u16, pixels: u32) -> (r: i32)
    requires
        (c * 2 + 1) * pixels <= u32::MAX,
    ensures
        r == (cell_center(c, cells, pixels) as u32) as i32,
{
    let n: u32 = if cells > 1 {
        cells as u32
    } else {
        1
    };
    (((c as u32 * 2 + 1) * pixels) / (2 * n)) as i32
}

impl CrosstermInput {
    pub open spec fn down(self, b: MouseButton) -> bool {
        match b {
            MouseButton::Left => self.left,
            MouseButton::Right => self.right,
            MouseButton::Middle => self.middle,
        }
    }

    /// Nothing is down.
    pub fn new() -> (c: Self)
        ensures
            !c.left && !c.right && !c.middle,
            c.held@ == Set::<u32>::empty(),
    {
        CrosstermInput { left: false, right: false, middle: false, held: HashSet::new() }
    }

    fn is_down(&self, b: MouseButton) -> (r: bool)
        ensures
            r == self.down(b),
    {
        match b {
            MouseButton::Left => self.left,
            MouseButton::Right => self.right,
            MouseButton::Middle => self.middle,
        }
    }

    fn set_down(&mut self, b: MouseButton, on: bool)
        ensures
            final(self).held == old(self).held,
            final(self).down(b) == on,
            forall|o: MouseButton| o != b ==> #[trigger] final(self).down(o) == old(self).down(o),
    {
        match b {
            MouseButton::Left => {
                self.left = on;
            },
            MouseButton::Right => {
                self.right = on;
            },
            MouseButton::Middle => {
                self.middle = on;
            },
        }
    }

    /// Map a key event to evdev key commands, with proper hold and release.
    pub fn forward_key(&mut self, k: KeyEvent) -> (out: Vec<InputCmd>)
        ensures
            out@ == key_sends(k, old(self).held@),
            final(self).held@ == key_holds(k, old(self).held@),
            final(self).left == old(self).left,
            final(self).right == old(self).right,
            final(self).middle == old(self).middle,
    {
        broadcast use vstd::std_specs::hash::group_hash_axioms;

        let ghost held = self.held@;
        let mut out: Vec<InputCmd> = Vec::new();
        let keycode: u32 = match keycode_for(k.code) {
            Some(c) => c,
            None => {
                return out;
            },
        };
        let shift: bool = needs_shift(k.code) || k.mods.shift;
        let ctrl: bool = k.mods.ctrl;
        let alt: bool = k.mods.alt;
        match k.kind {
            KeyKind::Repeat => {},
            KeyKind::Release => {
                if self.held.contains(&keycode) {
                    self.held.remove(&keycode);
                    out.push(InputCmd::Key { keycode, mods: 0, pressed: false });
                    if alt {
                        out.push(
                            InputCmd::Key { keycode: keycodes::LEFT_ALT, mods: 0, pressed: false },
                        );
                    }
                    if ctrl {
                        out.push(
                            InputCmd::Key { keycode: keycodes::LEFT_CTRL, mods: 0, pressed: false },
                        );
                    }
                    if shift {
                        out.push(
                            InputCmd::Key { keycode: keycodes::LEFT_SHIFT, mods: 0, pressed: false },
                        );
                    }
                    assert(out@ =~= release_cmds(keycode, shift, ctrl, alt));
                } else {
                    assert(held.remove(keycode) =~= held);
                }
            },
            KeyKind::Press => {
                if !self.held.contains(&keycode) {
                    self.held.insert(keycode);
                    if shift {
                        out.push(
                            InputCmd::Key { keycode: keycodes::LEFT_SHIFT, mods: 0, pressed: true },
                        );
                    }
                    if ctrl {
                        out.push(
                            InputCmd::Key { keycode: keycodes::LEFT_CTRL, mods: 0, pressed: true },
                        );
                    }
                    if alt {
                        out.push(
                            InputCmd::Key { keycode: keycodes::LEFT_ALT, mods: 0, pressed: true },
                        );
                    }
                    out.push(InputCmd::Key { keycode, mods: 0, pressed: true });
                    assert(out@ =~= press_cmds(keycode, shift, ctrl, alt));
                } else {
                    assert(held.insert(keycode) =~= held);
                }
            },
        }
        out
    }

    /// What a mouse event sends.
    pub open spec fn mouse_sends(self, m: MouseEvent, g: InputGeometry) -> Seq<InputCmd> {
        match m.kind {
            MouseKind::Moved => seq![motion_of(m, g)],
            MouseKind::Drag(_) => seq![motion_of(m, g)],
            MouseKind::Down(b) => if self.down(b) {
                Seq::empty()
            } else {
                seq![
                    motion_of(m, g),
                    InputCmd::PointerButton { button: button_of(b), pressed: true },
                ]
            },
            MouseKind::Up(b) => if self.down(b) {
                seq![InputCmd::PointerButton { button: button_of(b), pressed: false }]
            } else {
                Seq::empty()
            },
            MouseKind::ScrollDown => seq![InputCmd::Scroll { v120: 120 }],
            MouseKind::ScrollUp => seq![InputCmd::Scroll { v120: (-120) as i32 }],
            MouseKind::Other => Seq::empty(),
        }
    }

    /// Whether button `b` is down after a mouse event.
    pub open spec fn down_after(self, m: MouseEvent, b: MouseButton) -> bool {
        match m.kind {
            MouseKind::Down(c) => c == b || self.down(b),
            MouseKind::Up(c) => c != b && self.down(b),
            _ => self.down(b),
        }
    }

    /// Map terminal cell coordinates to compositor pixels, aiming at the
    /// center of the cell so clicks land where users visually aim.
    pub fn forward_mouse(&mut self, m: MouseEvent, g: &InputGeometry) -> (out: Vec<InputCmd>)
        requires
            mouse_fits(m, *g),
        ensures
            out@ == old(self).mouse_sends(m, *g),
            final(self).held == old(self).held,
            forall|b: MouseButton| #[trigger] final(self).down(b) == old(self).down_after(m, b),
    {
        let x: i32 = center_of(m.column, g.cols, g.comp_w);
        let y: i32 = center_of(m.row, g.rows, g.comp_h);
        let motion: InputCmd = InputCmd::PointerMotionAbs {
            x,
            y,
            width: g.comp_w,
            height: g.comp_h,
        };
        let mut out: Vec<InputCmd> = Vec::new();
        match m.kind {
            MouseKind::Moved => {
                out.push(motion);
            },
            MouseKind::Drag(_) => {
                out.push(motion);
            },
            MouseKind::Down(b) => {
                if !self.is_down(b) {
                    self.set_down(b, true);
                    out.push(motion);
                    out.push(InputCmd::PointerButton { button: mouse_btn(b), pressed: true });
                }
            },
            MouseKind::Up(b) => {
                if self.is_down(b) {
                    self.set_down(b, false);
                    out.push(InputCmd::PointerButton { button: mouse_btn(b), pressed: false });
                }
            },
            MouseKind::ScrollDown => {
                out.push(InputCmd::Scroll { v120: 120 });
            },
            MouseKind::ScrollUp => {
                out.push(InputCmd::Scroll { v120: -120 });
            },
            MouseKind::Other => {},
        }
        assert(out@ =~= old(self).mouse_sends(m, *g));
        out
    }

    /// Handles one terminal event. `pixels` is the terminal's size in pixels
    /// where it is known; cells of 8×16 pixels are assumed otherwise.
    pub fn handle(
        &mut self,
        ev: TermEvent,
        geom: &mut InputGeometry,
        pixels: Option<(u32, u32)>,
    ) -> (out: TermOutcome)
        requires
            ev matches TermEvent::Mouse(m) ==> mouse_fits(m, *old(geom)),
        ensures
            out is Stop <==> (ev matches TermEvent::Key(k) && (ctrl_c(k) || kill_key(k))),
            out is Stop ==> *final(self) == *old(self),
            ev matches TermEvent::Key(k) ==> *final(geom) == *old(geom) && (out
                matches TermOutcome::Send(v) ==> v@ == key_sends(k, old(self).held@)
                && final(self).held@ == key_holds(k, old(self).held@) && (forall|b: MouseButton|
                #[trigger] final(self).down(b) == old(self).down(b))),
            ev matches TermEvent::Mouse(m) ==> *final(geom) == *old(geom) && (out
                matches TermOutcome::Send(v) ==> v@ == old(self).mouse_sends(m, *old(geom))
                && final(self).held == old(self).held && (forall|b: MouseButton|
                #[trigger] final(self).down(b) == old(self).down_after(m, b))),
            ev matches TermEvent::Resize(cols, rows) ==> *final(self) == *old(self) && ({
                let (w, h) = match pixels {
                    Some(p) => p,
                    None => ((cols * 8) as u32, (rows * 16) as u32),
                };
                &&& *final(geom) == (InputGeometry { cols, rows, comp_w: w, comp_h: h })
                &&& out matches TermOutcome::Send(v)
                &&& v@ == seq![InputCmd::Resize { width: w, height: h }]
            }),
            ev is Other ==> *final(self) == *old(self) && *final(geom) == *old(geom) && (out
                matches TermOutcome::Send(v) && v@.len() == 0),
    {
        match ev {
            TermEvent::Key(k) => {
                if is_ctrl_c(&k) || is_kill_key(&k) {
                    return TermOutcome::Stop;
                }
                TermOutcome::Send(self.forward_key(k))
            },
            TermEvent::Mouse(m) => TermOutcome::Send(self.forward_mouse(m, geom)),
            TermEvent::Resize(cols, rows) => {
                let (w, h): (u32, u32) = match pixels {
                    Some(p) => p,
                    None => (cols as u32 * 8, rows as u32 * 16),
                };
                geom.cols = cols;
                geom.rows = rows;
                geom.comp_w = w;
                geom.comp_h = h;
                let mut v: Vec<InputCmd> = Vec::new();
                v.push(InputCmd::Resize { width: w, height: h });
                assert(v@ =~= seq![InputCmd::Resize { width: w, height: h }]);
                TermOutcome::Send(v)
            },
            TermEvent::Other => TermOutcome::Send(Vec::new()),
        }
    }
}

// ── Bare TTY ─────────────────────────────────────────────────────────────

/// A relative axis of a pointing device.
#[derive(Clone, Copy, Debug, PartialEq, Eq, Structural)]
pub enum RelAxis {
    X,
    Y,
    Wheel,
    Other,
}

/// An event of an input device.
#[derive(Clone, Copy, Debug, PartialEq, Eq, Structural)]
pub enum EvdevEvent {
    /// `value`: 0 = release, 1 = press, 2 = repeat.
    Key { code: u16, value: i32 },
    Rel { axis: RelAxis, value: i32 },
    Other,
}

/// What an event of an input device asks for.
#[derive(Clone, Copy, Debug, PartialEq, Eq, Structural)]
pub enum EvdevOutcome {
    Nothing,
    /// Switch to this virtual terminal.
    SwitchVt(i32),
    /// Shut the compositor down.
    Stop,
    Send(InputCmd),
}

/// Turns raw device events into commands. Keeps a virtual cursor in compositor pixels
/// and whether Ctrl and Alt are down.
#[derive(Clone, Copy, Debug, PartialEq, Eq, Structural)]
pub struct EvdevInput {
    pub cx: i32,
    pub cy: i32,
    pub ctrl_held: bool,
    pub alt_held: bool,
}

/// `v` moved by `d`, kept on a side of `size` pixels.
pub open spec fn moved(v: i32, d: i32, size: u32) -> int {
    let last = if (size as i32) > 1 {
        size as i32 - 1
    } else {
        0
    };
    if v + d < 0 {
        0
    } else if v + d > last {
        last
    } else {
        v + d
    }
}

pub open spec fn at_least_one(size: u32) -> u32 {
    if (size as i32) > 1 {
        (size as i32) as u32
    } else {
        1
    }
}

impl EvdevInput {
    /// The state after an event.
    pub open spec fn after(self, ev: EvdevEvent, w: u32, h: u32) -> EvdevInput {
        match ev {
            EvdevEvent::Key { code, value } => if value == 2 {
                self
            } else {
                EvdevInput {
                    ctrl_held: if code == keycodes::LEFT_CTRL || code == keycodes::RIGHT_CTRL {
                        value == 1
                    } else {
                        self.ctrl_held
                    },
                    alt_held: if code == keycodes::LEFT_ALT || code == keycodes::RIGHT_ALT {
                        value == 1
                    } else {
                        self.alt_held
                    },
                    ..self
                }
            },
            EvdevEvent::Rel { axis: RelAxis::X, value } => EvdevInput {
                cx: moved(self.cx, value, w) as i32,
                ..self
            },
            EvdevEvent::Rel { axis: RelAxis::Y, value } => EvdevInput {
                cy: moved(self.cy, value, h) as i32,
                ..self
            },
            _ => self,
        }
    }

    /// What an event asks for: Ctrl+Alt with a function key switches the
    /// virtual terminal, HOME going down stops, buttons and keys pass through,
    /// motion moves the cursor, the wheel scrolls.
    pub open spec fn asks(self, ev: EvdevEvent, w: u32, h: u32) -> EvdevOutcome {
        let next = self.after(ev, w, h);
        match ev {
            EvdevEvent::Key { code, value } => {
                let pressed = value == 1;
                if value == 2 {
                    EvdevOutcome::Nothing
                } else if next.ctrl_held && next.alt_held && pressed && f_number(code as int)
                    is Some {
                    EvdevOutcome::SwitchVt(f_number(code as int)->0)
                } else if code == keycodes::HOME && pressed {
                    EvdevOutcome::Stop
                } else if button_code(code as int) {
                    EvdevOutcome::Send(InputCmd::PointerButton { button: code as u32, pressed })
                } else {
                    EvdevOutcome::Send(InputCmd::Key { keycode: code as u32, mods: 0, pressed })
                }
            },
            EvdevEvent::Rel { axis: RelAxis::Wheel, value } => EvdevOutcome::Send(
                InputCmd::Scroll { v120: (-value * 120) as i32 },
            ),
            EvdevEvent::Rel { axis: RelAxis::Other, .. } => EvdevOutcome::Nothing,
            EvdevEvent::Rel { .. } => EvdevOutcome::Send(
                InputCmd::PointerMotionAbs {
                    x: next.cx,
                    y: next.cy,
                    width: at_least_one(w),
                    height: at_least_one(h),
                },
            ),
            EvdevEvent::Other => EvdevOutcome::Nothing,
        }
    }

    /// The cursor starts in the middle; no key is down.
    pub fn new(geom: &InputGeometry) -> (e: Self)
        ensures
            e == (EvdevInput {
                cx: (geom.comp_w / 2) as i32,
                cy: (geom.comp_h / 2) as i32,
                ctrl_held: false,
                alt_held: false,
            }),
    {
        Self {
            cx: (geom.comp_w / 2) as i32,
            cy: (geom.comp_h / 2) as i32,
            ctrl_held: false,
            alt_held: false,
        }
    }

    /// Handles one device event.
    pub fn handle_event(&mut self, ev: EvdevEvent, geom: &InputGeometry) -> (out: EvdevOutcome)
        requires
            ev matches EvdevEvent::Rel { axis: RelAxis::Wheel, value } ==> -17895697 <= value
                <= 17895697,
        ensures
            *final(self) == old(self).after(ev, geom.comp_w, geom.comp_h),
            out == old(self).asks(ev, geom.comp_w, geom.comp_h),
    {
        match ev {
            EvdevEvent::Key { code, value } => {
                // The client drives repeat itself.
                if value == 2 {
                    return EvdevOutcome::Nothing;
                }
                let pressed: bool = value == 1;
                if code as u32 == keycodes::LEFT_CTRL || code as u32 == keycodes::RIGHT_CTRL {
                    self.ctrl_held = pressed;
                }
                if code as u32 == keycodes::LEFT_ALT || code as u32 == keycodes::RIGHT_ALT {
                    self.alt_held = pressed;
                }
                // The exclusive grab keeps this chord from the kernel, so it is
                // swallowed here and acted on.
                if self.ctrl_held && self.alt_held && pressed {
                    if let Some(vt) = vt_for_fkey(code) {
                        return EvdevOutcome::SwitchVt(vt);
                    }
                }
                if code as u32 == keycodes::HOME && pressed {
                    return EvdevOutcome::Stop;
                }
                if is_button(code) {
                    EvdevOutcome::Send(InputCmd::PointerButton { button: code as u32, pressed })
                } else {
                    EvdevOutcome::Send(InputCmd::Key { keycode: code as u32, mods: 0, pressed })
                }
            },
            EvdevEvent::Rel { axis, value } => {
                match axis {
                    RelAxis::X => {
                        self.cx = step(self.cx, value, geom.comp_w);
                        send_motion(self.cx, self.cy, geom)
                    },
                    RelAxis::Y => {
                        self.cy = step(self.cy, value, geom.comp_h);
                        send_motion(self.cx, self.cy, geom)
                    },
                    // evdev: +1 = wheel up. Commands: +120 = scroll down.
                    RelAxis::Wheel => EvdevOutcome::Send(InputCmd::Scroll { v120: -value * 120 }),
                    RelAxis::Other => EvdevOutcome::Nothing,
                }
            },
            EvdevEvent::Other => EvdevOutcome::Nothing,
        }
    }
}

fn step(v: i32, d: i32, size: u32) -> (r: i32)
    ensures
        r == moved(v, d, size),
{
    let s: i32 = size as i32;
    let last: i64 = if s > 1 {
        s as i64 - 1
    } else {
        0
    };
    let t: i64 = v as i64 + d as i64;
    if t < 0 {
        0
    } else if t > last {
        last as i32
    } else {
        t as i32
    }
}

fn send_motion(x: i32, y: i32, geom: &InputGeometry) -> (r: EvdevOutcome)
    ensures
        r == EvdevOutcome::Send(
            InputCmd::PointerMotionAbs {
                x,
                y,
                width: at_least_one(geom.comp_w),
                height: at_least_one(geom.comp_h),
            },
        ),
{
    let w: i32 = geom.comp_w as i32;
    let h: i32 = geom.comp_h as i32;
    EvdevOutcome::Send(
        InputCmd::PointerMotionAbs {
            x,
            y,
            width: if w > 1 { w as u32 } else { 1 },
            height: if h > 1 { h as u32 } else { 1 },
        },
    )
}

/// The virtual cursor never leaves the output.
pub proof fn law_cursor_stays_on_output(e: EvdevInput, ev: EvdevEvent, w: u32, h: u32)
    requires
        1 <= w <= i32::MAX,
        1 <= h <= i32::MAX,
        0 <= e.cx < w,
        0 <= e.cy < h,
    ensures
        0 <= e.after(ev, w, h).cx < w,
        0 <= e.after(ev, w, h).cy < h,
{
}

/// Where input comes from.
#[derive(Clone, Copy, Debug, PartialEq, Eq, Structural)]
pub enum InputSource {
    /// Raw devices; the terminal where they cannot be opened.
    Evdev,
    Terminal,
}

/// Bare TTY (neither Wayland nor X11 nor SSH) reads raw devices, anything
/// else the terminal.
pub fn choose_input(ssh: bool, wayland: bool, x11: bool) -> (s: InputSource)
    ensures
        s == InputSource::Evdev <==> !ssh && !wayland && !x11,
{
    if !ssh && !wayland && !x11 {
        InputSource::Evdev
    } else {
        InputSource::Terminal
    }
}

/// A relative motion moves the cursor by exactly its value along its own axis
/// as long as it stays on the output, and to the edge it would cross
/// otherwise. The other coordinate is kept, and what is sent is where the
/// cursor now is.
pub proof fn law_motion_moves_by_its_value(e: EvdevInput, value: i32, w: u32, h: u32)
    requires
        1 <= w <= i32::MAX,
        1 <= h <= i32::MAX,
    ensures
        ({
            let ev = EvdevEvent::Rel { axis: RelAxis::X, value };
            let n = e.after(ev, w, h);
            &&& 0 <= e.cx + value < w ==> n.cx == e.cx + value
            &&& e.cx + value < 0 ==> n.cx == 0
            &&& e.cx + value >= w ==> n.cx == w - 1
            &&& n.cy == e.cy && n.ctrl_held == e.ctrl_held && n.alt_held == e.alt_held
            &&& e.asks(ev, w, h) == EvdevOutcome::Send(
                InputCmd::PointerMotionAbs { x: n.cx, y: e.cy, width: w, height: h },
            )
        }),
        ({
            let ev = EvdevEvent::Rel { axis: RelAxis::Y, value };
            let n = e.after(ev, w, h);
            &&& 0 <= e.cy + value < h ==> n.cy == e.cy + value
            &&& e.cy + value < 0 ==> n.cy == 0
            &&& e.cy + value >= h ==> n.cy == h - 1
            &&& n.cx == e.cx && n.ctrl_held == e.ctrl_held && n.alt_held == e.alt_held
            &&& e.asks(ev, w, h) == EvdevOutcome::Send(
                InputCmd::PointerMotionAbs { x: e.cx, y: n.cy, width: w, height: h },
            )
        }),
{
}

/// Two motions that stay on the output add up, and a motion and its opposite
/// lead back.
pub proof fn law_motions_add_up(e: EvdevInput, a: i32, b: i32, w: u32, h: u32)
    requires
        1 <= w <= i32::MAX,
        1 <= h <= i32::MAX,
        0 <= e.cx + a < w,
        0 <= e.cx + a + b < w,
        0 <= e.cy + a < h,
        0 <= e.cy + a + b < h,
    ensures
        ({
            let x = |v: i32| EvdevEvent::Rel { axis: RelAxis::X, value: v };
            e.after(x(a), w, h).after(x(b), w, h).cx == e.cx + a + b
        }),
        ({
            let y = |v: i32| EvdevEvent::Rel { axis: RelAxis::Y, value: v };
            e.after(y(a), w, h).after(y(b), w, h).cy == e.cy + a + b
        }),
{
}

/// The wheel scrolls 120 for a notch, the other way round than it is reported,
/// and moves neither the cursor nor a key. A motion of another kind does
/// nothing.
pub proof fn law_wheel_scrolls_the_other_way(e: EvdevInput, value: i32, w: u32, h: u32)
    requires
        -17895697 <= value <= 17895697,
    ensures
        ({
            let ev = EvdevEvent::Rel { axis: RelAxis::Wheel, value };
            &&& e.after(ev, w, h) == e
            &&& e.asks(ev, w, h) matches EvdevOutcome::Send(InputCmd::Scroll { v120 })
            &&& v120 + 120 * value == 0
        }),
        ({
            let ev = EvdevEvent::Rel { axis: RelAxis::Other, value };
            e.after(ev, w, h) == e && e.asks(ev, w, h) is Nothing
        }),
        e.after(EvdevEvent::Other, w, h) == e,
        e.asks(EvdevEvent::Other, w, h) is Nothing,
{
}

/// A device key goes through as it is, down and up, and moves no cursor; a
/// repeat is swallowed. HOME going down stops, and coming up does not.
pub proof fn law_device_keys_pass_through(e: EvdevInput, code: u16, w: u32, h: u32)
    ensures
        ({
            let ev = |value: i32| EvdevEvent::Key { code, value };
            &&& e.after(ev(2), w, h) == e && e.asks(ev(2), w, h) is Nothing
            &&& e.after(ev(1), w, h).cx == e.cx && e.after(ev(1), w, h).cy == e.cy
            &&& code == 102 ==> e.asks(ev(1), w, h) is Stop
            &&& e.asks(ev(0), w, h) !is Stop && e.asks(ev(0), w, h) !is SwitchVt
            &&& e.asks(ev(1), w, h) is Stop ==> code == 102
            &&& 0x110 <= code <= 0x117 ==> e.asks(ev(0), w, h) == EvdevOutcome::Send(
                InputCmd::PointerButton { button: code as u32, pressed: false },
            )
            &&& code < 0x100 ==> e.asks(ev(0), w, h) == EvdevOutcome::Send(
                InputCmd::Key { keycode: code as u32, mods: 0, pressed: false },
            )
            &&& 0x110 <= code <= 0x117 ==> e.asks(ev(1), w, h) == EvdevOutcome::Send(
                InputCmd::PointerButton { button: code as u32, pressed: true },
            )
            &&& code < 59 ==> e.asks(ev(1), w, h) == EvdevOutcome::Send(
                InputCmd::Key { keycode: code as u32, mods: 0, pressed: true },
            )
        }),
{
}

/// A function key switches to its terminal exactly while both a Ctrl and an
/// Alt key are down; either of each pair counts, and letting it go ends it.
pub proof fn law_switching_needs_ctrl_and_alt(e: EvdevInput, code: u16, w: u32, h: u32)
    ensures
        ({
            let ev = |c: u16, value: i32| EvdevEvent::Key { code: c, value };
            &&& (e.asks(ev(code, 1), w, h) is SwitchVt && code != 29 && code != 97 && code != 56
                && code != 100) ==> e.ctrl_held && e.alt_held
            &&& e.ctrl_held && e.alt_held && 59 <= code <= 68 ==> e.asks(ev(code, 1), w, h)
                == EvdevOutcome::SwitchVt((code - 58) as i32)
            &&& e.after(ev(29, 1), w, h).ctrl_held && e.after(ev(97, 1), w, h).ctrl_held
            &&& !e.after(ev(29, 0), w, h).ctrl_held && !e.after(ev(97, 0), w, h).ctrl_held
            &&& e.after(ev(56, 1), w, h).alt_held && e.after(ev(100, 1), w, h).alt_held
            &&& !e.after(ev(56, 0), w, h).alt_held && !e.after(ev(100, 0), w, h).alt_held
            &&& e.after(ev(29, 1), w, h).alt_held == e.alt_held
            &&& e.after(ev(56, 1), w, h).ctrl_held == e.ctrl_held
            &&& code != 29 && code != 97 ==> e.after(ev(code, 1), w, h).ctrl_held == e.ctrl_held
            &&& code != 56 && code != 100 ==> e.after(ev(code, 1), w, h).alt_held == e.alt_held
        }),
{
}

/// A click lands inside the cell it was made in: the pixel reaches into the
/// cell's part of the side. Cells further on lie no further back, and a cell
/// and its mirror image lie as far from the two ends, up to one pixel.
pub proof fn law_clicks_land_in_their_cell(c: u16, d: u16, cells: u16, pixels: u32)
    requires
        c < cells,
        c <= d,
        d < cells,
        1 <= pixels,
    ensures
        0 <= cell_center(c, cells, pixels) < pixels,
        cell_center(c, cells, pixels) * cells < (c + 1) * pixels,
        c * pixels < (cell_center(c, cells, pixels) + 1) * cells,
        cell_center(c, cells, pixels) <= cell_center(d, cells, pixels),
        pixels - 1 <= cell_center(c, cells, pixels) + cell_center(
            (cells - 1 - c) as u16,
            cells,
            pixels,
        ) <= pixels,
{
    let n = cells as int;
    let p = pixels as int;
    let q = cell_center(c, cells, pixels);
    let r = cell_center(d, cells, pixels);
    let m = cell_center((cells - 1 - c) as u16, cells, pixels);
    let a = (c * 2 + 1) * p;
    let b = (d * 2 + 1) * p;
    let z = ((n - 1 - c) * 2 + 1) * p;
    assert(q * (2 * n) <= a < q * (2 * n) + 2 * n) by (nonlinear_arith)
        requires
            q == a / (2 * n),
            n >= 1,
    ;
    assert(r * (2 * n) <= b < r * (2 * n) + 2 * n) by (nonlinear_arith)
        requires
            r == b / (2 * n),
            n >= 1,
    ;
    assert(m * (2 * n) <= z < m * (2 * n) + 2 * n) by (nonlinear_arith)
        requires
            m == z / (2 * n),
            n >= 1,
    ;
    assert(a >= 1 && a <= b && a + z == 2 * n * p && a < 2 * n * p) by (nonlinear_arith)
        requires
            a == (c * 2 + 1) * p,
            b == (d * 2 + 1) * p,
            z == ((n - 1 - c) * 2 + 1) * p,
            0 <= c <= d,
            c + 1 <= n,
            p >= 1,
    ;
    assert(0 <= q < p) by (nonlinear_arith)
        requires
            q * (2 * n) <= a < q * (2 * n) + 2 * n,
            1 <= a < 2 * n * p,
            n >= 1,
    ;
    assert(q * n < (c + 1) * p && c * p < (q + 1) * n) by (nonlinear_arith)
        requires
            q * (2 * n) <= a < q * (2 * n) + 2 * n,
            a == (c * 2 + 1) * p,
            p >= 1,
    ;
    assert(q <= r) by (nonlinear_arith)
        requires
            q * (2 * n) <= a,
            a <= b,
            b < r * (2 * n) + 2 * n,
            n >= 1,
    ;
    assert(p - 1 <= q + m <= p) by (nonlinear_arith)
        requires
            q * (2 * n) <= a < q * (2 * n) + 2 * n,
            m * (2 * n) <= z < m * (2 * n) + 2 * n,
            a + z == 2 * n * p,
            n >= 1,
    ;
}

/// A button that goes down and comes up is reported once each way, with one
/// code of its own and at the place of the click; what is down already does not
/// go down again, and what is up does not come up.
pub proof fn law_buttons_go_down_and_up(c: CrosstermInput, m: MouseEvent, g: InputGeometry, b: MouseButton)
    ensures
        ({
            let down = MouseEvent { kind: MouseKind::Down(b), ..m };
            let up = MouseEvent { kind: MouseKind::Up(b), ..m };
            let moved = MouseEvent { kind: MouseKind::Moved, ..m };
            &&& c.down_after(down, b) && !c.down_after(up, b)
            &&& forall|o: MouseButton| o != b ==> #[trigger] c.down_after(down, o) == c.down(o)
            &&& forall|o: MouseButton| o != b ==> #[trigger] c.down_after(up, o) == c.down(o)
            &&& c.down(b) ==> c.mouse_sends(down, g).len() == 0
            &&& !c.down(b) ==> c.mouse_sends(up, g).len() == 0
            &&& !c.down(b) ==> c.mouse_sends(down, g) == c.mouse_sends(moved, g).push(
                InputCmd::PointerButton { button: button_of(b), pressed: true },
            )
            &&& c.down(b) ==> c.mouse_sends(up, g) == seq![
                InputCmd::PointerButton { button: button_of(b), pressed: false },
            ]
            &&& c.mouse_sends(MouseEvent { kind: MouseKind::Drag(b), ..m }, g) == c.mouse_sends(
                moved,
                g,
            )
            &&& forall|o: MouseButton| o != b ==> #[trigger] button_of(o) != button_of(b)
            &&& b == MouseButton::Left ==> button_of(b) == 0x110
            &&& b == MouseButton::Right ==> button_of(b) == 0x111
        }),
{
}

/// Scrolling up undoes scrolling down, a notch each, and moving says where in
/// pixels of the whole output.
pub proof fn law_terminal_motion_and_scroll(c: CrosstermInput, m: MouseEvent, g: InputGeometry)
    requires
        mouse_fits(m, g),
        m.column < g.cols,
        m.row < g.rows,
        1 <= g.comp_w <= i32::MAX,
        1 <= g.comp_h <= i32::MAX,
    ensures
        ({
            let moved = MouseEvent { kind: MouseKind::Moved, ..m };
            let down = MouseEvent { kind: MouseKind::ScrollDown, ..m };
            let up = MouseEvent { kind: MouseKind::ScrollUp, ..m };
            &&& c.mouse_sends(down, g).len() == 1 && c.mouse_sends(up, g).len() == 1
            &&& c.mouse_sends(down, g)[0] matches InputCmd::Scroll { v120: a }
            &&& c.mouse_sends(up, g)[0] matches InputCmd::Scroll { v120: b }
            &&& a == 120 && a + b == 0
            &&& c.mouse_sends(moved, g).len() == 1
            &&& c.mouse_sends(moved, g)[0] matches InputCmd::PointerMotionAbs { x, y, width, height }
            &&& width == g.comp_w && height == g.comp_h
            &&& 0 <= x < width && 0 <= y < height
            &&& m.column * width < (x + 1) * g.cols && x * g.cols < (m.column + 1) * width
            &&& m.row * height < (y + 1) * g.rows && y * g.rows < (m.row + 1) * height
        }),
{
    law_clicks_land_in_their_cell(m.column, m.column, g.cols, g.comp_w);
    law_clicks_land_in_their_cell(m.row, m.row, g.rows, g.comp_h);
}

/// What a key press sends: the modifiers that are down, each once and before
/// the key, and the key itself last, all going down. A key that is down
/// already, or that repeats, sends nothing, and no key is sent under two codes.
pub proof fn law_press_sends_modifiers_first(k: KeyEvent, held: Set<u32>, code: u32)
    requires
        k.kind == KeyKind::Press,
        code_of(k.code) == Some(code),
        !held.contains(code),
    ensures
        ({
            let out = key_sends(k, held);
            let shift = shifted(k.code) || k.mods.shift;
            &&& out.len() == 1 + (if shift { 1int } else { 0 }) + (if k.mods.ctrl { 1int } else { 0 })
                + (if k.mods.alt { 1int } else { 0 })
            &&& out[out.len() - 1] == (InputCmd::Key { keycode: code, mods: 0, pressed: true })
            &&& shift ==> out[0] == (InputCmd::Key { keycode: 42, mods: 0, pressed: true })
            &&& k.mods.alt ==> out[out.len() - 2] == (InputCmd::Key {
                keycode: 56,
                mods: 0,
                pressed: true,
            })
            &&& k.mods.ctrl && !shift ==> out[0] == (InputCmd::Key {
                keycode: 29,
                mods: 0,
                pressed: true,
            })
            &&& k.mods.ctrl && shift ==> out[1] == (InputCmd::Key {
                keycode: 29,
                mods: 0,
                pressed: true,
            })
            &&& key_holds(k, held).contains(code)
            &&& key_sends(KeyEvent { kind: KeyKind::Repeat, ..k }, held).len() == 0
            &&& key_holds(KeyEvent { kind: KeyKind::Repeat, ..k }, held) == held
            &&& key_sends(KeyEvent { kind: KeyKind::Release, ..k }, held).len() == 0
            &&& forall|o: u32| o != code ==> key_holds(k, held).contains(o) == held.contains(o)
        }),
{
}

/// The two ways out of a terminal: `c` with Ctrl, and HOME on its way down.
pub proof fn law_ways_out(k: KeyEvent)
    ensures
        kill_key(k) ==> k.kind == KeyKind::Press && k.code == KeyCode::Home,
        k.code == KeyCode::Home && k.kind == KeyKind::Press ==> kill_key(k),
        k.code == KeyCode::Char('c') ==> ctrl_c(k) == k.mods.ctrl,
        k.code != KeyCode::Char('c') ==> !ctrl_c(k),
{
}

} // verus!
