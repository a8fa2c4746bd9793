use veil::btn;
use veil::btn::is_button;
use veil::input::{
    choose_input, is_ctrl_c, is_kill_key, CrosstermInput, EvdevEvent, EvdevInput, EvdevOutcome,
    InputCmd, InputGeometry, InputSource, RelAxis, TermEvent, TermOutcome,
};
use veil::keycodes::{f_key, vt_for_fkey};
use veil::keys::{
    evdev_keycode, key_to_input, keycode_for, mouse_btn, needs_shift, xkb_mods, KeyCode, KeyEvent,
    KeyKind, KeyMods, MouseButton, MouseEvent, MouseKind,
};
use veil::virtual_input::{
    all_keys, forward_event, keymap_bytes, virtual_bind, InputCmd as VirtualCmd, InputEvent,
    RawEvent, UInputHandle, VirtualRequest, WaylandInput, EV_ABS, EV_KEY, EV_REL, EV_SYN, REL_WHEEL,
};
use veil::xkb_mod;

const NONE: KeyMods = KeyMods { shift: false, ctrl: false, alt: false, logo: false };

fn key(code: KeyCode, mods: KeyMods, kind: KeyKind) -> KeyEvent {
    KeyEvent { code, mods, kind }
}

fn cmd(keycode: u32, pressed: bool) -> InputCmd {
    InputCmd::Key { keycode, mods: 0, pressed }
}

#[test]
fn characters_have_keys() {
    assert_eq!(evdev_keycode('a'), Some(30));
    assert_eq!(evdev_keycode(' '), Some(57));
    assert_eq!(evdev_keycode('A'), None);
    assert_eq!(evdev_keycode('ä'), None);
    assert_eq!(keycode_for(KeyCode::Char('A')), Some(30));
    assert_eq!(keycode_for(KeyCode::Char('!')), Some(2));
    assert_eq!(keycode_for(KeyCode::Enter), Some(28));
    assert_eq!(keycode_for(KeyCode::F(12)), Some(88));
    assert_eq!(keycode_for(KeyCode::Other), None);
    assert!(needs_shift(KeyCode::Char('A')) && needs_shift(KeyCode::Char('?')));
    assert!(!needs_shift(KeyCode::Char('a')) && !needs_shift(KeyCode::Enter));
}

#[test]
fn typed_keys_can_be_pressed() {
    for u in 0..128u8 {
        if let Some(k) = evdev_keycode(u as char) {
            assert!(all_keys().contains(&(k as u16)), "{u}");
        }
    }
    assert_eq!(all_keys().len(), 85);
}

#[test]
fn buttons_and_modifiers() {
    assert_eq!(mouse_btn(MouseButton::Left), btn::LEFT);
    assert_eq!(mouse_btn(MouseButton::Right), 0x111);
    assert_eq!(mouse_btn(MouseButton::Middle), 0x112);
    assert!(is_button(0x110) && !is_button(30));
    assert_eq!(xkb_mods(KeyMods { shift: true, ctrl: true, alt: true, logo: true }), 1 + 4 + 8 + 64);
    assert_eq!(xkb_mods(NONE), 0);
    assert_eq!(
        key_to_input(&key(KeyCode::Char('b'), KeyMods { ctrl: true, ..NONE }, KeyKind::Press)),
        Some((48, xkb_mod::CONTROL))
    );
    assert_eq!(key_to_input(&key(KeyCode::Other, NONE, KeyKind::Press)), None);
}

#[test]
fn function_keys_switch_terminals() {
    assert_eq!(f_key(1), Some(59));
    assert_eq!(f_key(11), Some(87));
    assert_eq!(f_key(13), None);
    assert_eq!(vt_for_fkey(59), Some(1));
    assert_eq!(vt_for_fkey(88), Some(12));
    assert_eq!(vt_for_fkey(69), None);
    for n in 1..=12u8 {
        assert_eq!(vt_for_fkey(f_key(n).unwrap() as u16), Some(n as i32));
    }
}

#[test]
fn a_release_undoes_a_press() {
    let mut c = CrosstermInput::new();
    let mods = KeyMods { ctrl: true, alt: true, ..NONE };
    assert_eq!(
        c.forward_key(key(KeyCode::Char('A'), mods, KeyKind::Press)),
        vec![cmd(42, true), cmd(29, true), cmd(56, true), cmd(30, true)]
    );
    assert_eq!(c.forward_key(key(KeyCode::Char('A'), mods, KeyKind::Press)), vec![]);
    assert_eq!(c.forward_key(key(KeyCode::Char('A'), mods, KeyKind::Repeat)), vec![]);
    assert_eq!(
        c.forward_key(key(KeyCode::Char('A'), mods, KeyKind::Release)),
        vec![cmd(30, false), cmd(56, false), cmd(29, false), cmd(42, false)]
    );
    assert_eq!(c.forward_key(key(KeyCode::Char('A'), mods, KeyKind::Release)), vec![]);
    assert_eq!(c.forward_key(key(KeyCode::Other, mods, KeyKind::Press)), vec![]);
}

#[test]
fn clicks_aim_at_the_middle_of_a_cell() {
    let mut c = CrosstermInput::new();
    let g = InputGeometry::new(80, 24, 640, 384);
    let at = |kind| MouseEvent { kind, column: 3, row: 1 };
    let motion = InputCmd::PointerMotionAbs { x: 28, y: 24, width: 640, height: 384 };
    assert_eq!(c.forward_mouse(at(MouseKind::Moved), &g), vec![motion]);
    let left = |pressed| InputCmd::PointerButton { button: 0x110, pressed };
    assert_eq!(c.forward_mouse(at(MouseKind::Down(MouseButton::Left)), &g), vec![motion, left(true)]);
    assert_eq!(c.forward_mouse(at(MouseKind::Down(MouseButton::Left)), &g), vec![]);
    assert_eq!(c.forward_mouse(at(MouseKind::Drag(MouseButton::Left)), &g), vec![motion]);
    assert_eq!(c.forward_mouse(at(MouseKind::Up(MouseButton::Left)), &g), vec![left(false)]);
    assert_eq!(c.forward_mouse(at(MouseKind::Up(MouseButton::Left)), &g), vec![]);
    assert_eq!(c.forward_mouse(at(MouseKind::ScrollUp), &g), vec![InputCmd::Scroll { v120: -120 }]);
    assert_eq!(c.forward_mouse(at(MouseKind::ScrollDown), &g), vec![InputCmd::Scroll { v120: 120 }]);
    assert_eq!(c.forward_mouse(at(MouseKind::Other), &g), vec![]);
}

fn sent(o: TermOutcome) -> Vec<InputCmd> {
    match o {
        TermOutcome::Send(v) => v,
        TermOutcome::Stop => panic!("stopped"),
    }
}

#[test]
fn terminal_events() {
    let mut c = CrosstermInput::new();
    let mut g = InputGeometry::new(80, 24, 640, 384);
    let ctrl_c = key(KeyCode::Char('c'), KeyMods { ctrl: true, ..NONE }, KeyKind::Press);
    assert!(is_ctrl_c(&ctrl_c));
    assert!(matches!(c.handle(TermEvent::Key(ctrl_c), &mut g, None), TermOutcome::Stop));
    let home = key(KeyCode::Home, NONE, KeyKind::Press);
    assert!(is_kill_key(&home) && !is_kill_key(&key(KeyCode::Home, NONE, KeyKind::Release)));
    assert!(matches!(c.handle(TermEvent::Key(home), &mut g, None), TermOutcome::Stop));
    assert_eq!(
        sent(c.handle(TermEvent::Resize(100, 50), &mut g, None)),
        vec![InputCmd::Resize { width: 800, height: 800 }]
    );
    assert_eq!(g, InputGeometry::new(100, 50, 800, 800));
    assert_eq!(
        sent(c.handle(TermEvent::Resize(100, 50), &mut g, Some((7, 9)))),
        vec![InputCmd::Resize { width: 7, height: 9 }]
    );
    assert_eq!(sent(c.handle(TermEvent::Other, &mut g, None)), vec![]);
}

#[test]
fn raw_events() {
    let g = InputGeometry::new(0, 0, 100, 50);
    let mut e = EvdevInput::new(&g);
    assert_eq!((e.cx, e.cy), (50, 25));
    let motion = |x, y| {
        EvdevOutcome::Send(InputCmd::PointerMotionAbs { x, y, width: 100, height: 50 })
    };
    assert_eq!(e.handle_event(EvdevEvent::Rel { axis: RelAxis::X, value: 1000 }, &g), motion(99, 25));
    assert_eq!(e.handle_event(EvdevEvent::Rel { axis: RelAxis::Y, value: -1000 }, &g), motion(99, 0));
    assert_eq!(
        e.handle_event(EvdevEvent::Rel { axis: RelAxis::Wheel, value: 2 }, &g),
        EvdevOutcome::Send(InputCmd::Scroll { v120: -240 })
    );
    assert_eq!(
        e.handle_event(EvdevEvent::Key { code: 0x110, value: 1 }, &g),
        EvdevOutcome::Send(InputCmd::PointerButton { button: 0x110, pressed: true })
    );
    assert_eq!(e.handle_event(EvdevEvent::Key { code: 30, value: 2 }, &g), EvdevOutcome::Nothing);
    assert_eq!(
        e.handle_event(EvdevEvent::Key { code: 29, value: 1 }, &g),
        EvdevOutcome::Send(cmd(29, true))
    );
    assert_eq!(
        e.handle_event(EvdevEvent::Key { code: 59, value: 1 }, &g),
        EvdevOutcome::Send(cmd(59, true))
    );
    e.handle_event(EvdevEvent::Key { code: 100, value: 1 }, &g);
    assert_eq!(e.handle_event(EvdevEvent::Key { code: 60, value: 1 }, &g), EvdevOutcome::SwitchVt(2));
    assert_eq!(e.handle_event(EvdevEvent::Key { code: 102, value: 1 }, &g), EvdevOutcome::Stop);
    assert_eq!(e.handle_event(EvdevEvent::Other, &g), EvdevOutcome::Nothing);
}

#[test]
fn a_bare_terminal_reads_the_devices() {
    assert_eq!(choose_input(false, false, false), InputSource::Evdev);
    assert_eq!(choose_input(true, false, false), InputSource::Terminal);
    assert_eq!(choose_input(false, true, false), InputSource::Terminal);
    assert_eq!(choose_input(false, false, true), InputSource::Terminal);
}

#[test]
fn events_for_a_nested_compositor() {
    let m = |kind| InputEvent::Mouse(MouseEvent { kind, column: 3, row: 4 });
    let motion = VirtualCmd::PointerMotionAbs { x: 3, y: 8, width: 80, height: 48 };
    assert_eq!(
        forward_event(&m(MouseKind::Down(MouseButton::Right)), 80, 24).0,
        vec![motion, VirtualCmd::PointerButton { button: 273, pressed: true }]
    );
    assert_eq!(
        forward_event(&m(MouseKind::ScrollUp), 80, 24).0,
        vec![motion, VirtualCmd::PointerAxisScroll { steps: -1 }]
    );
    let up = InputEvent::Key(key(KeyCode::Char('x'), NONE, KeyKind::Release));
    assert_eq!(
        forward_event(&up, 80, 24),
        (vec![VirtualCmd::Key { keycode: 45, mods: 0, pressed: false }], None)
    );
    assert_eq!(forward_event(&InputEvent::Resize(1, 2), 80, 24), (vec![], Some((1, 2))));
}

fn raw(kind: u16, code: u16, value: i32) -> RawEvent {
    RawEvent { kind, code, value }
}

#[test]
fn the_kernel_device_holds_modifiers() {
    let mut u = UInputHandle::new();
    let press = VirtualCmd::Key { keycode: 30, mods: 5, pressed: true };
    assert_eq!(
        u.send(press),
        vec![raw(EV_KEY, 42, 1), raw(EV_KEY, 29, 1), raw(EV_KEY, 30, 1), raw(EV_SYN, 0, 0)]
    );
    assert_eq!(u.held_mods, 5);
    assert_eq!(
        u.send(VirtualCmd::Key { keycode: 30, mods: 1, pressed: false }),
        vec![raw(EV_KEY, 30, 0), raw(EV_KEY, 29, 0), raw(EV_SYN, 0, 0)]
    );
    assert_eq!(
        u.send(VirtualCmd::PointerMotionAbs { x: 40, y: 24, width: 80, height: 24 }),
        vec![raw(EV_ABS, 0, 32767), raw(EV_ABS, 1, 65535), raw(EV_SYN, 0, 0)]
    );
    assert_eq!(
        u.send(VirtualCmd::PointerAxisScroll { steps: 1 }),
        vec![raw(EV_REL, REL_WHEEL, -1), raw(EV_SYN, 0, 0)]
    );
}

#[test]
fn the_virtual_keyboard_announces_modifiers() {
    let mut w = WaylandInput::new();
    assert_eq!(
        w.send(VirtualCmd::Key { keycode: 30, mods: 1, pressed: true }),
        vec![VirtualRequest::Modifiers(1), VirtualRequest::Key { keycode: 30, pressed: true }]
    );
    assert_eq!(
        w.send(VirtualCmd::Key { keycode: 30, mods: 1, pressed: false }),
        vec![VirtualRequest::Key { keycode: 30, pressed: false }, VirtualRequest::Modifiers(0)]
    );
    assert_eq!(w.mods, 0);
    assert_eq!(
        w.send(VirtualCmd::PointerButton { button: 272, pressed: true }),
        vec![VirtualRequest::Button { button: 272, pressed: true }]
    );
    assert_eq!(
        w.send(VirtualCmd::PointerAxisScroll { steps: 2 }),
        vec![VirtualRequest::Scroll { steps: 2 }]
    );
}

#[test]
fn virtual_devices_are_bound() {
    assert_eq!(virtual_bind("wl_seat", 9, false), Some(5));
    assert_eq!(virtual_bind("wl_seat", 9, true), None);
    assert_eq!(virtual_bind("zwp_virtual_keyboard_manager_v1", 9, true), Some(1));
    assert_eq!(virtual_bind("zwlr_virtual_pointer_manager_v1", 1, true), Some(1));
    assert_eq!(virtual_bind("zwlr_virtual_pointer_manager_v1", 9, true), Some(2));
    assert_eq!(virtual_bind("wl_shm", 9, true), None);
    assert_eq!(keymap_bytes("aä"), vec![97, 0xc3, 0xa4, 0]);
}
