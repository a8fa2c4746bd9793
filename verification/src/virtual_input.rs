//! Virtual input devices: commands for a nested compositor, and the events
//! that the two kinds of virtual device (a kernel device, and the virtual
//! keyboard and pointer protocols) make of them.

use vstd::prelude::*;
use vstd::slice::slice_to_vec;
use vstd::utf8::encode_utf8;
use crate::text::{chars_of, is_str};
use crate::keys::{key_to_input, mouse_btn};
use crate::keys::{KeyEvent, KeyKind, MouseEvent, MouseKind};
use crate::keys::{button_of, evdev_code, input_of};
use crate::xkb_mod;
use crate::keycodes;

verus! {

/// A command for a virtual input device.
#[derive(Clone, Copy, Debug, PartialEq, Eq, Structural)]
pub enum InputCmd {
    Key { keycode: u32, mods: u32, pressed: bool },
    PointerButton { button: u32, pressed: bool },
    PointerMotionAbs { x: u32, y: u32, width: u32, height: u32 },
    /// Vertical scroll: positive = down, negative = up. One notch = 1 step.
    PointerAxisScroll { steps: i32 },
}

/// An event of the terminal.
#[derive(Clone, Copy, Debug, PartialEq, Eq, Structural)]
pub enum InputEvent {
    Key(KeyEvent),
    Mouse(MouseEvent),
    Resize(u16, u16),
}

/// The commands that a terminal event makes on a grid of `cols`×`rows` cells.
/// Each row covers two source pixels. A mouse event moves the pointer first.
pub open spec fn event_cmds(ev: InputEvent, cols: u16, rows: u16) -> Seq<InputCmd> {
    match ev {
        InputEvent::Key(k) => match input_of(k) {
            Some((keycode, mods)) => seq![
                InputCmd::Key { keycode, mods, pressed: k.kind != KeyKind::Release },
            ],
            None => Seq::empty(),
        },
        InputEvent::Mouse(m) => {
            let motion = InputCmd::PointerMotionAbs {
                x: m.column as u32,
                y: (m.row * 2) as u32,
                width: cols as u32,
                height: (rows * 2) as u32,
            };
            match m.kind {
                MouseKind::Down(b) => seq![
                    motion,
                    InputCmd::PointerButton { button: button_of(b), pressed: true },
                ],
                MouseKind::Up(b) => seq![
                    motion,
                    InputCmd::PointerButton { button: button_of(b), pressed: false },
                ],
                MouseKind::ScrollUp => seq![
                    motion,
                    InputCmd::PointerAxisScroll { steps: (-1) as i32 },
                ],
                MouseKind::ScrollDown => seq![motion, InputCmd::PointerAxisScroll { steps: 1 }],
                _ => seq![motion],
            }
        },
        InputEvent::Resize(_, _) => Seq::empty(),
    }
}

/// Turns a terminal event into commands, in order. The second part is
/// the new size where the terminal was resized.
pub fn forward_event(ev: &InputEvent, cols: u16, rows: u16) -> (r: (
    Vec<InputCmd>,
    Option<(u16, u16)>,
))
    ensures
        r.0@ == event_cmds(*ev, cols, rows),
        r.1 == (match *ev {
            InputEvent::Resize(w, h) => Some((w, h)),
            _ => None,
        }),
{
    let mut out: Vec<InputCmd> = Vec::new();
    match *ev {
        InputEvent::Key(k) => {
            if let Some((keycode, mods)) = key_to_input(&k) {
                let pressed: bool = k.kind != KeyKind::Release;
                out.push(InputCmd::Key { keycode, mods, pressed });
            }
            assert(out@ =~= event_cmds(*ev, cols, rows));
            (out, None)
        },
        InputEvent::Mouse(m) => {
            out.push(
                InputCmd::PointerMotionAbs {
                    x: m.column as u32,
                    y: m.row as u32 * 2,
                    width: cols as u32,
                    height: rows as u32 * 2,
                },
            );
            match m.kind {
                MouseKind::Down(b) => {
                    out.push(InputCmd::PointerButton { button: mouse_btn(b), pressed: true });
                },
                MouseKind::Up(b) => {
                    out.push(InputCmd::PointerButton { button: mouse_btn(b), pressed: false });
                },
                MouseKind::ScrollUp => {
                    out.push(InputCmd::PointerAxisScroll { steps: -1 });
                },
                MouseKind::ScrollDown => {
                    out.push(InputCmd::PointerAxisScroll { steps: 1 });
                },
                _ => {},
            }
            assert(out@ =~= event_cmds(*ev, cols, rows));
            (out, None)
        },
        InputEvent::Resize(w, h) => {
            assert(out@ =~= event_cmds(*ev, cols, rows));
            (out, Some((w, h)))
        },
    }
}

// ── Kernel device ────────────────────────────────────────────────────────

/// An event written to the kernel device.
#[derive(Clone, Copy, Debug, PartialEq, Eq, Structural)]
pub struct RawEvent {
    pub kind: u16,
    pub code: u16,
    pub value: i32,
}

pub const EV_SYN: u16 = 0;

pub const EV_KEY: u16 = 1;

pub const EV_REL: u16 = 2;

pub const EV_ABS: u16 = 3;

pub const ABS_X: u16 = 0;

pub const ABS_Y: u16 = 1;

pub const REL_WHEEL: u16 = 8;

pub open spec fn raw(kind: u16, code: u16, value: i32) -> RawEvent {
    RawEvent { kind, code, value }
}

fn ev(kind: u16, code: u16, value: i32) -> (r: RawEvent)
    ensures
        r == raw(kind, code, value),
{
    RawEvent { kind, code, value }
}

pub open spec fn raw_when(on: bool, e: RawEvent) -> Seq<RawEvent> {
    if on {
        seq![e]
    } else {
        Seq::empty()
    }
}

/// A modifier bit set in `a` but not in `b`.
pub open spec fn only_in(a: u32, b: u32, bit: u32) -> bool {
    a & bit != 0 && b & bit == 0
}

/// Key events with `value` for the modifiers set in `a` but not in `b`:
/// Shift, Ctrl, Alt, Super.
pub open spec fn mod_events(a: u32, b: u32, value: i32) -> Seq<RawEvent> {
    raw_when(only_in(a, b, xkb_mod::SHIFT), raw(EV_KEY, keycodes::LEFT_SHIFT as u16, value))
        + raw_when(
        only_in(a, b, xkb_mod::CONTROL),
        raw(EV_KEY, keycodes::LEFT_CTRL as u16, value),
    ) + raw_when(only_in(a, b, xkb_mod::ALT), raw(EV_KEY, keycodes::LEFT_ALT as u16, value))
        + raw_when(
        only_in(a, b, xkb_mod::SUPER),
        raw(EV_KEY, keycodes::LEFT_META as u16, value),
    )
}

/// A coordinate on the device's axis of 65536 steps.
pub open spec fn axis_value(v: u32, size: u32) -> i32 {
    ((v * 65535) / (if size > 1 {
        size as int
    } else {
        1
    })) as u64 as i32
}

pub open spec fn wheel_fits(cmd: InputCmd) -> bool {
    cmd matches InputCmd::PointerAxisScroll { steps } ==> steps > i32::MIN
}

/// The kernel device: remembers which modifiers it holds down.
#[derive(Clone, Copy, Debug, PartialEq, Eq, Structural)]
pub struct UInputHandle {
    pub held_mods: u32,
}

impl UInputHandle {
    /// The events that a command makes. A key press presses the modifiers that
    /// are not yet down first; a release lets go of those no longer wanted
    /// after it. Every command ends with a synchronisation event.
    pub open spec fn events(self, cmd: InputCmd) -> Seq<RawEvent> {
        match cmd {
            InputCmd::Key { keycode, mods, pressed } => if pressed {
                mod_events(mods, self.held_mods, 1) + seq![
                    raw(EV_KEY, keycode as u16, 1),
                    raw(EV_SYN, 0, 0),
                ]
            } else {
                seq![raw(EV_KEY, keycode as u16, 0)] + mod_events(self.held_mods, mods, 0) + seq![
                    raw(EV_SYN, 0, 0),
                ]
            },
            InputCmd::PointerButton { button, pressed } => seq![
                raw(EV_KEY, button as u16, if pressed { 1 } else { 0 }),
                raw(EV_SYN, 0, 0),
            ],
            InputCmd::PointerMotionAbs { x, y, width, height } => seq![
                raw(EV_ABS, ABS_X, axis_value(x, width)),
                raw(EV_ABS, ABS_Y, axis_value(y, height)),
                raw(EV_SYN, 0, 0),
            ],
            InputCmd::PointerAxisScroll { steps } => seq![
                raw(EV_REL, REL_WHEEL, (-steps) as i32),
                raw(EV_SYN, 0, 0),
            ],
        }
    }

    /// A device that holds nothing down.
    pub fn new() -> (u: Self)
        ensures
            u.held_mods == 0,
    {
        Self { held_mods: 0 }
    }

    fn push_mods(out: &mut Vec<RawEvent>, a: u32, b: u32, value: i32)
        ensures
            final(out)@ == old(out)@ + mod_events(a, b, value),
    {
        let ghost start = out@;
        if a & xkb_mod::SHIFT != 0 && b & xkb_mod::SHIFT == 0 {
            out.push(ev(EV_KEY, keycodes::LEFT_SHIFT as u16, value));
        }
        if a & xkb_mod::CONTROL != 0 && b & xkb_mod::CONTROL == 0 {
            out.push(ev(EV_KEY, keycodes::LEFT_CTRL as u16, value));
        }
        if a & xkb_mod::ALT != 0 && b & xkb_mod::ALT == 0 {
            out.push(ev(EV_KEY, keycodes::LEFT_ALT as u16, value));
        }
        if a & xkb_mod::SUPER != 0 && b & xkb_mod::SUPER == 0 {
            out.push(ev(EV_KEY, keycodes::LEFT_META as u16, value));
        }
        assert(out@ =~= start + mod_events(a, b, value));
    }

    /// Turns a command into the events to write to the device.
    pub fn send(&mut self, cmd: InputCmd) -> (out: Vec<RawEvent>)
        requires
            wheel_fits(cmd),
        ensures
            out@ == old(self).events(cmd),
            final(self).held_mods == (match cmd {
                InputCmd::Key { mods, .. } => mods,
                _ => old(self).held_mods,
            }),
    {
        let mut out: Vec<RawEvent> = Vec::new();
        match cmd {
            InputCmd::Key { keycode, mods, pressed } => {
                if pressed {
                    Self::push_mods(&mut out, mods, self.held_mods, 1);
                    out.push(ev(EV_KEY, keycode as u16, 1));
                } else {
                    out.push(ev(EV_KEY, keycode as u16, 0));
                    Self::push_mods(&mut out, self.held_mods, mods, 0);
                }
                self.held_mods = mods;
            },
            InputCmd::PointerButton { button, pressed } => {
                out.push(ev(EV_KEY, button as u16, if pressed { 1 } else { 0 }));
            },
            InputCmd::PointerMotionAbs { x, y, width, height } => {
                out.push(ev(EV_ABS, ABS_X, on_axis(x, width)));
                out.push(ev(EV_ABS, ABS_Y, on_axis(y, height)));
            },
            InputCmd::PointerAxisScroll { steps } => {
                out.push(ev(EV_REL, REL_WHEEL, -steps));
            },
        }
        out.push(ev(EV_SYN, 0, 0));
        assert(out@ =~= old(self).events(cmd));
        out
    }
}

fn on_axis(v: u32, size: u32) -> (r: i32)
    ensures
        r == axis_value(v, size),
{
    let n: u64 = if size > 1 {
        size as u64
    } else {
        1
    };
    ((v as u64 * 65535) / n) as i32
}

/// A point inside the image has coordinates inside the axis.
pub proof fn law_axis_value_in_range(v: u32, size: u32)
    requires
        v <= size,
        1 <= size,
    ensures
        0 <= axis_value(v, size) <= 65535,
{
    assert(0 <= (v * 65535) / (size as int) <= 65535) by (nonlinear_arith)
        requires
            0 <= v <= size,
            1 <= size,
    ;
}

// ── Virtual keyboard and pointer ─────────────────────────────────────────

/// A request to the virtual keyboard or pointer. Pointer requests end with a
/// frame.
#[derive(Clone, Copy, Debug, PartialEq, Eq, Structural)]
pub enum VirtualRequest {
    Modifiers(u32),
    Key { keycode: u32, pressed: bool },
    Button { button: u32, pressed: bool },
    Motion { x: u32, y: u32, width: u32, height: u32 },
    Scroll { steps: i32 },
}

/// The virtual keyboard and pointer: remembers the modifiers it has announced.
#[derive(Clone, Copy, Debug, PartialEq, Eq, Structural)]
pub struct WaylandInput {
    pub mods: u32,
}

pub open spec fn request_when(on: bool, r: VirtualRequest) -> Seq<VirtualRequest> {
    if on {
        seq![r]
    } else {
        Seq::empty()
    }
}

impl WaylandInput {
    /// The requests that a command makes. Changed modifiers are announced
    /// before the key, and cleared again after its release.
    pub open spec fn requests(self, cmd: InputCmd) -> Seq<VirtualRequest> {
        match cmd {
            InputCmd::Key { keycode, mods, pressed } => request_when(
                mods != self.mods,
                VirtualRequest::Modifiers(mods),
            ) + seq![VirtualRequest::Key { keycode, pressed }] + request_when(
                !pressed && mods != 0,
                VirtualRequest::Modifiers(0),
            ),
            InputCmd::PointerButton { button, pressed } => seq![
                VirtualRequest::Button { button, pressed },
            ],
            InputCmd::PointerMotionAbs { x, y, width, height } => seq![
                VirtualRequest::Motion { x, y, width, height },
            ],
            InputCmd::PointerAxisScroll { steps } => seq![VirtualRequest::Scroll { steps }],
        }
    }

    /// The modifiers announced after a command.
    pub open spec fn mods_after(self, cmd: InputCmd) -> u32 {
        match cmd {
            InputCmd::Key { mods, pressed, .. } => if pressed {
                mods
            } else {
                0
            },
            _ => self.mods,
        }
    }

    /// A keyboard with no modifier announced.
    pub fn new() -> (w: Self)
        ensures
            w.mods == 0,
    {
        Self { mods: 0 }
    }

    /// Turns a command into the requests to make.
    pub fn send(&mut self, cmd: InputCmd) -> (out: Vec<VirtualRequest>)
        ensures
            out@ == old(self).requests(cmd),
            final(self).mods == old(self).mods_after(cmd),
    {
        let mut out: Vec<VirtualRequest> = Vec::new();
        match cmd {
            InputCmd::Key { keycode, mods, pressed } => {
                if mods != self.mods {
                    out.push(VirtualRequest::Modifiers(mods));
                    self.mods = mods;
                }
                out.push(VirtualRequest::Key { keycode, pressed });
                // Reset modifiers after key release.
                if !pressed && self.mods != 0 {
                    out.push(VirtualRequest::Modifiers(0));
                    self.mods = 0;
                }
            },
            InputCmd::PointerButton { button, pressed } => {
                out.push(VirtualRequest::Button { button, pressed });
            },
            InputCmd::PointerMotionAbs { x, y, width, height } => {
                out.push(VirtualRequest::Motion { x, y, width, height });
            },
            InputCmd::PointerAxisScroll { steps } => {
                out.push(VirtualRequest::Scroll { steps });
            },
        }
        assert(out@ =~= old(self).requests(cmd));
        out
    }
}

/// The version of an interface to bind for virtual input, where it is one
/// that is needed. Only the first seat is taken.
pub open spec fn virtual_version(interface: Seq<char>, offered: u32, has_seat: bool) -> Option<u32> {
    if interface == "wl_seat"@ {
        if has_seat {
            None
        } else {
            Some(
                if offered < 5 {
                    offered
                } else {
                    5
                },
            )
        }
    } else if interface == "zwp_virtual_keyboard_manager_v1"@ {
        Some(1)
    } else if interface == "zwlr_virtual_pointer_manager_v1"@ {
        Some(
            if offered < 2 {
                offered
            } else {
                2
            },
        )
    } else {
        None
    }
}

pub fn virtual_bind(interface: &str, offered: u32, has_seat: bool) -> (r: Option<u32>)
    ensures
        r == virtual_version(interface@, offered, has_seat),
{
    let c: Vec<char> = chars_of(interface);
    if is_str(c.as_slice(), "wl_seat") {
        if has_seat {
            None
        } else {
            Some(
                if offered < 5 {
                    offered
                } else {
                    5
                },
            )
        }
    } else if is_str(c.as_slice(), "zwp_virtual_keyboard_manager_v1") {
        Some(1)
    } else if is_str(c.as_slice(), "zwlr_virtual_pointer_manager_v1") {
        Some(
            if offered < 2 {
                offered
            } else {
                2
            },
        )
    } else {
        None
    }
}

/// The keymap as it is shared with the compositor: its text and a NUL.
pub fn keymap_bytes(text: &str) -> (r: Vec<u8>)
    ensures
        r@ == encode_utf8(text@).push(0),
{
    let mut v: Vec<u8> = slice_to_vec(text.as_bytes());
    v.push(0);
    v
}

/// Every key and button that the virtual device can press: letters, digits,
/// punctuation, modifiers, editing and function keys, and the three buttons.
pub open spec fn device_keys() -> Seq<u16> {
    seq![
        30, 48, 46, 32, 18, 33, 34, 35, 23, 36, 37, 38, 50, 49, 24, 25, 16, 19, 31, 20, 22, 47, 17,
        45, 21, 44, 2, 3, 4, 5, 6, 7, 8, 9, 10, 11, 12, 13, 26, 27, 43, 39, 40, 41, 51, 52, 53, 57,
        42, 54, 29, 97, 56, 100, 125, 126, 1, 15, 14, 28, 110, 111, 102, 107, 104, 109, 105, 106,
        103, 108, 59, 60, 61, 62, 63, 64, 65, 66, 67, 68, 87, 88, 272, 273, 274,
    ]
}

pub fn all_keys() -> (r: [u16; 85])
    ensures
        r@ == device_keys(),
{
    let r: [u16; 85] = [
        30, 48, 46, 32, 18, 33, 34, 35, 23, 36, 37, 38, 50, 49, 24, 25, 16, 19, 31, 20, 22, 47, 17,
        45, 21, 44, 2, 3, 4, 5, 6, 7, 8, 9, 10, 11, 12, 13, 26, 27, 43, 39, 40, 41, 51, 52, 53, 57,
        42, 54, 29, 97, 56, 100, 125, 126, 1, 15, 14, 28, 110, 111, 102, 107, 104, 109, 105, 106,
        103, 108, 59, 60, 61, 62, 63, 64, 65, 66, 67, 68, 87, 88, 272, 273, 274,
    ];
    assert(r@ =~= device_keys());
    r
}

/// Every key that a typed character stands for can be pressed.
pub proof fn law_typed_keys_can_be_pressed(c: char)
    ensures
        evdev_code(c) matches Some(k) ==> device_keys().contains(k as u16),
{
    let d = device_keys();
    if let Some(k) = evdev_code(c) {
        assert(d[0] == 30 && d[1] == 48 && d[2] == 46 && d[3] == 32 && d[4] == 18 && d[5] == 33
            && d[6] == 34 && d[7] == 35 && d[8] == 23 && d[9] == 36 && d[10] == 37 && d[11] == 38
            && d[12] == 50 && d[13] == 49 && d[14] == 24 && d[15] == 25 && d[16] == 16 && d[17]
            == 19 && d[18] == 31 && d[19] == 20 && d[20] == 22 && d[21] == 47 && d[22] == 17
            && d[23] == 45 && d[24] == 21 && d[25] == 44);
        assert(d[26] == 2 && d[27] == 3 && d[28] == 4 && d[29] == 5 && d[30] == 6 && d[31] == 7
            && d[32] == 8 && d[33] == 9 && d[34] == 10 && d[35] == 11 && d[36] == 12 && d[37] == 13
            && d[38] == 26 && d[39] == 27 && d[40] == 43 && d[41] == 39 && d[42] == 40 && d[43]
            == 41 && d[44] == 51 && d[45] == 52 && d[46] == 53 && d[47] == 57);
    }
}

// ── What events and commands come to ─────────────────────────────────────

/// Whatever the mouse does, the pointer is first moved to its cell, with two
/// pixels to the row; then comes what it does, if anything.
pub proof fn law_mouse_moves_first(m: MouseEvent, cols: u16, rows: u16)
    ensures
        ({
            let c = event_cmds(InputEvent::Mouse(m), cols, rows);
            &&& 1 <= c.len() <= 2
            &&& c[0] == (InputCmd::PointerMotionAbs {
                x: m.column as u32,
                y: (2 * m.row) as u32,
                width: cols as u32,
                height: (2 * rows) as u32,
            })
            &&& m.kind matches MouseKind::Down(b) ==> c.len() == 2 && c[1]
                == (InputCmd::PointerButton { button: button_of(b), pressed: true })
            &&& m.kind matches MouseKind::Up(b) ==> c.len() == 2 && c[1]
                == (InputCmd::PointerButton { button: button_of(b), pressed: false })
            &&& m.kind == MouseKind::ScrollUp ==> c.len() == 2 && c[1]
                == (InputCmd::PointerAxisScroll { steps: (-1) as i32 })
            &&& m.kind == MouseKind::ScrollDown ==> c.len() == 2 && c[1]
                == (InputCmd::PointerAxisScroll { steps: 1 })
            &&& m.kind is Drag || m.kind == MouseKind::Moved || m.kind == MouseKind::Other
                ==> c.len() == 1
        }),
{
}

/// A key that can be sent makes one command, released where it was let go and
/// pressed where it was pressed or held; a new size makes none.
pub proof fn law_keys_make_one_command(k: KeyEvent, cols: u16, rows: u16, w: u16, h: u16)
    ensures
        event_cmds(InputEvent::Key(k), cols, rows).len() == (if input_of(k) is Some {
            1int
        } else {
            0
        }),
        input_of(k) matches Some((code, bits)) ==> event_cmds(InputEvent::Key(k), cols, rows)[0]
            == (InputCmd::Key { keycode: code, mods: bits, pressed: k.kind != KeyKind::Release }),
        event_cmds(InputEvent::Resize(w, h), cols, rows).len() == 0,
{
}

/// A coordinate takes its share of the axis: the start at 0, the far edge at
/// 65535, in proportion between them and never backwards.
pub proof fn law_axis_values_are_in_proportion(v: u32, u: u32, size: u32)
    requires
        v <= u <= size,
        1 <= size,
    ensures
        axis_value(v, size) * size <= v * 65535 < (axis_value(v, size) + 1) * size,
        axis_value(v, size) <= axis_value(u, size),
        axis_value(0, size) == 0,
        axis_value(size, size) == 65535,
{
    law_axis_value_in_range(v, size);
    law_axis_value_in_range(u, size);
    let n = size as int;
    assert((v * 65535) / n * n <= v * 65535 < ((v * 65535) / n + 1) * n && (v * 65535) / n <= (u
        * 65535) / n && (n * 65535) / n == 65535 && (v * 65535) / n <= 65535 && (u * 65535) / n
        <= 65535 && 0 <= (v * 65535) / n && 0 <= (u * 65535) / n) by (nonlinear_arith)
        requires
            0 <= v <= u <= n,
            n >= 1,
    ;
    assert(0int / n == 0) by (nonlinear_arith)
        requires
            n >= 1,
    ;
    assert(0 * 65535 == 0);
}

/// Modifiers that are down already are not pressed again; each of the others
/// is pressed by its own key, and released by the same.
pub proof fn law_modifiers_are_pressed_once(a: u32, b: u32, v: i32)
    ensures
        mod_events(a, a, v).len() == 0,
        mod_events(0, b, v).len() == 0,
        only_in(a, b, 1) ==> mod_events(a, b, v).contains(raw(1, 42, v)),
        only_in(a, b, 4) ==> mod_events(a, b, v).contains(raw(1, 29, v)),
        only_in(a, b, 8) ==> mod_events(a, b, v).contains(raw(1, 56, v)),
        only_in(a, b, 64) ==> mod_events(a, b, v).contains(raw(1, 125, v)),
        forall|i: int|
            0 <= i < mod_events(a, b, v).len() ==> {
                let e = #[trigger] mod_events(a, b, v)[i];
                &&& e.kind == 1 && e.value == v
                &&& e.code == 42 && only_in(a, b, 1) || e.code == 29 && only_in(a, b, 4) || e.code
                    == 56 && only_in(a, b, 8) || e.code == 125 && only_in(a, b, 64)
            },
{
    assert(0u32 & 1u32 == 0 && 0u32 & 4u32 == 0 && 0u32 & 8u32 == 0 && 0u32 & 64u32 == 0)
        by (bit_vector);
    let s1 = raw_when(only_in(a, b, xkb_mod::SHIFT), raw(EV_KEY, keycodes::LEFT_SHIFT as u16, v));
    let s2 = raw_when(only_in(a, b, xkb_mod::CONTROL), raw(EV_KEY, keycodes::LEFT_CTRL as u16, v));
    let s3 = raw_when(only_in(a, b, xkb_mod::ALT), raw(EV_KEY, keycodes::LEFT_ALT as u16, v));
    let s4 = raw_when(only_in(a, b, xkb_mod::SUPER), raw(EV_KEY, keycodes::LEFT_META as u16, v));
    let all = mod_events(a, b, v);
    assert(all == s1 + s2 + s3 + s4);
    if only_in(a, b, 1) {
        assert(all[0] == raw(1, 42, v));
    }
    if only_in(a, b, 4) {
        assert(all[s1.len() as int] == raw(1, 29, v));
    }
    if only_in(a, b, 8) {
        assert(all[(s1 + s2).len() as int] == raw(1, 56, v));
    }
    if only_in(a, b, 64) {
        assert(all[(s1 + s2 + s3).len() as int] == raw(1, 125, v));
    }
}

/// Every command ends with a synchronisation; a pressed key comes right before
/// it and after its modifiers, a released one before the modifiers that are let
/// go; the wheel turns up where the steps go down.
pub proof fn law_commands_end_in_a_synchronisation(u: UInputHandle, cmd: InputCmd)
    requires
        wheel_fits(cmd),
    ensures
        ({
            let e = u.events(cmd);
            let n = e.len() as int;
            &&& n >= 2
            &&& e[n - 1] == raw(0, 0, 0)
            &&& forall|i: int| 0 <= i < n - 1 ==> (#[trigger] e[i]).kind != 0
            &&& cmd matches InputCmd::Key { keycode, mods, pressed: true } ==> e[n - 2] == raw(
                1,
                keycode as u16,
                1,
            ) && e.take(n - 2) == mod_events(mods, u.held_mods, 1)
            &&& cmd matches InputCmd::Key { keycode, mods, pressed: false } ==> e[0] == raw(
                1,
                keycode as u16,
                0,
            ) && e.subrange(1, n - 1) == mod_events(u.held_mods, mods, 0)
            &&& cmd matches InputCmd::PointerButton { button, pressed } ==> n == 2 && e[0] == raw(
                1,
                button as u16,
                if pressed {
                    1
                } else {
                    0
                },
            )
            &&& cmd matches InputCmd::PointerMotionAbs { x, y, width, height } ==> n == 3 && e[0]
                == raw(3, 0, axis_value(x, width)) && e[1] == raw(3, 1, axis_value(y, height))
            &&& cmd matches InputCmd::PointerAxisScroll { steps } ==> n == 2 && e[0].kind == 2
                && e[0].code == 8 && e[0].value + steps == 0
        }),
{
    let e = u.events(cmd);
    let n = e.len() as int;
    match cmd {
        InputCmd::Key { keycode, mods, pressed } => {
            if pressed {
                let m = mod_events(mods, u.held_mods, 1);
                law_modifiers_are_pressed_once(mods, u.held_mods, 1);
                assert(e.take(n - 2) =~= m);
                assert forall|i: int| 0 <= i < n - 1 implies (#[trigger] e[i]).kind != 0 by {
                    if i < m.len() {
                        assert(e[i] == m[i]);
                    }
                }
            } else {
                let m = mod_events(u.held_mods, mods, 0);
                law_modifiers_are_pressed_once(u.held_mods, mods, 0);
                assert(e.subrange(1, n - 1) =~= m);
                assert forall|i: int| 0 <= i < n - 1 implies (#[trigger] e[i]).kind != 0 by {
                    if i > 0 {
                        assert(e[i] == m[i - 1]);
                    }
                }
            }
        },
        _ => {},
    }
}

/// The keyboard announces modifiers where they changed, right before the key,
/// and after a release none is left announced; a key by itself is one request.
pub proof fn law_modifiers_are_announced_and_cleared(
    w: WaylandInput,
    keycode: u32,
    mods: u32,
)
    ensures
        ({
            let down = w.requests(InputCmd::Key { keycode, mods, pressed: true });
            let up = w.requests(InputCmd::Key { keycode, mods, pressed: false });
            let k = VirtualRequest::Key { keycode, pressed: true };
            let r = VirtualRequest::Key { keycode, pressed: false };
            &&& mods == w.mods ==> down == seq![k]
            &&& mods != w.mods ==> down == seq![VirtualRequest::Modifiers(mods), k]
            &&& mods == 0 && w.mods == 0 ==> up == seq![r]
            &&& mods != 0 ==> up.last() == VirtualRequest::Modifiers(0)
            &&& mods == 0 && w.mods != 0 ==> up == seq![VirtualRequest::Modifiers(0), r]
            &&& w.mods_after(InputCmd::Key { keycode, mods, pressed: true }) == mods
            &&& w.mods_after(InputCmd::Key { keycode, mods, pressed: false }) == 0
        }),
{
    let down = w.requests(InputCmd::Key { keycode, mods, pressed: true });
    let up = w.requests(InputCmd::Key { keycode, mods, pressed: false });
    let k = VirtualRequest::Key { keycode, pressed: true };
    let r = VirtualRequest::Key { keycode, pressed: false };
    if mods == w.mods {
        assert(down =~= seq![k]);
    } else {
        assert(down =~= seq![VirtualRequest::Modifiers(mods), k]);
    }
    if mods == 0 {
        if w.mods == 0 {
            assert(up =~= seq![r]);
        } else {
            assert(up =~= seq![VirtualRequest::Modifiers(0), r]);
        }
    }
}

/// Pointer commands are passed on as they are and leave the modifiers alone.
pub proof fn law_pointer_commands_pass(
    w: WaylandInput,
    a: u32,
    b: u32,
    c: u32,
    d: u32,
    pressed: bool,
    steps: i32,
)
    ensures
        w.requests(InputCmd::PointerButton { button: a, pressed }) == seq![
            VirtualRequest::Button { button: a, pressed },
        ],
        w.requests(InputCmd::PointerMotionAbs { x: a, y: b, width: c, height: d }) == seq![
            VirtualRequest::Motion { x: a, y: b, width: c, height: d },
        ],
        w.requests(InputCmd::PointerAxisScroll { steps }) == seq![VirtualRequest::Scroll { steps }],
        w.mods_after(InputCmd::PointerButton { button: a, pressed }) == w.mods,
        w.mods_after(InputCmd::PointerMotionAbs { x: a, y: b, width: c, height: d }) == w.mods,
        w.mods_after(InputCmd::PointerAxisScroll { steps }) == w.mods,
{
}

/// No interface is bound in a version that is not offered, but for the
/// keyboard's only one, and none but the three at all.
pub proof fn law_bound_versions_are_offered(interface: Seq<char>, offered: u32, has_seat: bool)
    ensures
        virtual_version(interface, offered, has_seat) matches Some(v) ==> {
            &&& v <= offered || interface == "zwp_virtual_keyboard_manager_v1"@ && v == 1
            &&& v <= 5
            &&& interface == "wl_seat"@ && !has_seat || interface
                == "zwp_virtual_keyboard_manager_v1"@ || interface
                == "zwlr_virtual_pointer_manager_v1"@
        },
        interface == "wl_seat"@ && !has_seat && offered <= 5 ==> virtual_version(
            interface,
            offered,
            has_seat,
        ) == Some(offered),
{
}

} // verus!
