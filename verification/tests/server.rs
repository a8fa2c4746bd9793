use std::collections::HashMap;

use veil::config::{Action, Keybinds, ModKey};
use veil::input::InputCmd;
use veil::layout::Rect;
use veil::scene::{
    compose, cursor_can_be_drawn, draw_fallback_cursor, tree_can_be_drawn, windows_can_be_drawn,
    Cursor, Popup, TreeNode, Window,
};
use veil::server::{
    clipboard_changed, cpu_importable, dmabuf_accepted, feedback_formats, frame_interval_ms,
    import_route, keysym_char, launcher_step, pick_focus, toplevel_at, Commit, Configure,
    DeviceFormat, Focus, ImportRoute, InputAction, KeyVerdict, LauncherStep, Modifiers, Pointed,
    State, KEY_BACKSPACE, KEY_DOWN, KEY_ESCAPE, KEY_RETURN, KEY_UP,
};
use veil::surface::{PixelFormat, SurfaceBuf};

const NONE: Modifiers = Modifiers { ctrl: false, alt: false, shift: false, logo: false };
const LOGO: Modifiers = Modifiers { logo: true, ..NONE };

fn binds() -> Keybinds {
    Keybinds {
        mod_key: ModKey::Super,
        binds: vec![('h', Action::FocusLeft), ('l', Action::FocusRight), ('s', Action::Swap),
            ('r', Action::Rotate), ('q', Action::Close), ('g', Action::ResizeGrow)],
    }
}

fn two_windows() -> State {
    let mut s = State::new(100, 50, binds(), [1, 2, 3]);
    s.new_toplevel(7);
    s.new_toplevel(8);
    s
}

#[test]
fn windows_are_tiled_and_focused() {
    let mut s = State::new(100, 50, binds(), [1, 2, 3]);
    assert_eq!(s.background, [1, 2, 3, 255]);
    let (f, c) = s.new_toplevel(7);
    assert_eq!(f, Focus { target: Some(7), serial: 1 });
    assert_eq!(c, vec![Configure { id: 7, width: 100, height: 50, activated: true }]);
    let (f, c) = s.new_toplevel(8);
    assert_eq!(f, Focus { target: Some(8), serial: 2 });
    assert_eq!(
        c,
        vec![
            Configure { id: 7, width: 50, height: 50, activated: false },
            Configure { id: 8, width: 50, height: 50, activated: true },
        ]
    );
    assert!(s.dirty);
    assert_eq!(s.layout.focused, 1);
}

#[test]
fn dead_windows_are_pruned() {
    let mut s = two_windows();
    assert!(s.prune().is_none());
    s.mark_dead(8);
    let r = s.prune().unwrap();
    assert_eq!(r.focus.target, Some(7));
    assert_eq!(r.configures, vec![Configure { id: 7, width: 100, height: 50, activated: true }]);
    s.mark_dead(7);
    let r = s.prune().unwrap();
    assert_eq!(r.focus.target, None);
    assert!(r.configures.is_empty() && s.toplevels.is_empty());
}

#[test]
fn swapping_two_windows_twice() {
    let mut s = two_windows();
    let before = s.toplevels.clone();
    s.dispatch_action(Action::Swap);
    assert_eq!(s.toplevels[0].id, 8);
    assert_eq!(s.layout.focused, 0);
    s.dispatch_action(Action::Swap);
    assert_eq!(s.toplevels, before);
    assert_eq!(s.layout.focused, 1);
}

#[test]
fn swapping_skips_the_dead() {
    let mut s = State::new(100, 50, binds(), [0; 3]);
    for id in [1, 2, 3] {
        s.new_toplevel(id);
    }
    s.mark_dead(2);
    s.layout.focused = 0;
    s.dispatch_action(Action::Swap);
    let ids: Vec<u64> = s.toplevels.iter().map(|t| t.id).collect();
    assert_eq!(ids, [3, 2, 1]);
}

#[test]
fn actions_of_the_layout() {
    let mut s = two_windows();
    let r = s.dispatch_action(Action::FocusLeft);
    assert_eq!((r.close, r.focus.target), (None, Some(7)));
    let r = s.dispatch_action(Action::Close);
    assert_eq!(r.close, Some(7));
    s.dispatch_action(Action::Rotate);
    assert_eq!(s.layout_rects[1], Rect { x: 0, y: 25, w: 100, h: 25 });
    s.dispatch_action(Action::ResizeGrow);
    assert_eq!(s.layout_rects[0].h, 28);
    s.dispatch_action(Action::ResizeShrink);
    assert_eq!(s.layout_rects[0].h, 25);
}

#[test]
fn keys_go_to_the_window_or_the_compositor() {
    let mut s = two_windows();
    assert!(matches!(s.filter_key(true, &NONE, 0x68, 0x68), KeyVerdict::Forward));
    assert!(matches!(s.filter_key(false, &LOGO, 0x68, 0x68), KeyVerdict::Forward));
    assert!(matches!(s.filter_key(true, &LOGO, 0x48, 0x48), KeyVerdict::Act(_)));
    assert_eq!(s.layout.focused, 0);
    assert!(matches!(s.filter_key(true, &LOGO, 0x7a, 0x7a), KeyVerdict::Forward));
    assert!(matches!(s.filter_key(true, &LOGO, 0x2f, 0x2f), KeyVerdict::Intercept));
    assert!(s.show_help);
    assert!(matches!(s.filter_key(true, &LOGO, 0x2f, 0x2f), KeyVerdict::Intercept));
    assert!(!s.show_help);
    assert!(matches!(s.filter_key(true, &LOGO, 0x64, 0x64), KeyVerdict::OpenLauncher));
    let quit = Modifiers { shift: true, alt: true, ..NONE };
    assert!(matches!(s.filter_key(false, &quit, 0x45, 0x45), KeyVerdict::Forward));
    assert!(s.running);
    assert!(matches!(s.filter_key(true, &quit, 0x45, 0x45), KeyVerdict::Quit));
    assert!(!s.running);
}

fn files() -> Vec<String> {
    vec![
        "[Desktop Entry]\nName=Foot\nExec=foot %u\n".to_string(),
        "[Desktop Entry]\nName=Firefox\nExec=firefox\n".to_string(),
    ]
}

#[test]
fn the_launcher_takes_all_keys() {
    let mut s = two_windows();
    s.open_launcher(&files());
    assert!(matches!(s.filter_key(false, &NONE, 0x66, 0x66), KeyVerdict::Intercept));
    for c in "Foo".chars() {
        assert!(matches!(s.filter_key(true, &NONE, c as u32, c as u32), KeyVerdict::Intercept));
    }
    assert_eq!(s.launcher.as_ref().unwrap().query, "Foo");
    match s.filter_key(true, &NONE, KEY_RETURN, 13) {
        KeyVerdict::Run(c) => assert_eq!(c, "foot"),
        v => panic!("{v:?}"),
    }
    assert!(s.launcher.is_none());
}

#[test]
fn moving_in_the_launcher() {
    let mut s = two_windows();
    s.open_launcher(&files());
    let key = |s: &mut State, sym: u32| s.handle_launcher_key(&NONE, sym, 0);
    let selected = |s: &State| s.launcher.as_ref().unwrap().selected;
    key(&mut s, KEY_DOWN);
    assert_eq!(selected(&s), 1);
    key(&mut s, KEY_DOWN);
    assert_eq!(selected(&s), 1);
    key(&mut s, KEY_UP);
    key(&mut s, KEY_UP);
    assert_eq!(selected(&s), 0);
    s.handle_launcher_key(&NONE, 0x78, 0x78);
    key(&mut s, KEY_BACKSPACE);
    assert_eq!(s.launcher.as_ref().unwrap().query, "");
    key(&mut s, KEY_ESCAPE);
    assert!(s.launcher.is_none());
    s.open_launcher(&files());
    s.handle_launcher_key(&LOGO, 0x64, 0x64);
    assert!(s.launcher.is_none());
}

#[test]
fn launcher_commands() {
    let mut s = two_windows();
    assert_eq!(s.launch_selected(), None);
    s.open_launcher(&files());
    for c in "Ls -l".chars() {
        s.handle_launcher_key(&NONE, c as u32, c as u32);
    }
    assert_eq!(s.handle_launcher_key(&NONE, KEY_RETURN, 13).as_deref(), Some("Ls -l"));
    s.open_launcher(&vec![]);
    assert_eq!(s.launch_selected(), None);
}

#[test]
fn keysyms() {
    assert_eq!(keysym_char(0x41), Some('a'));
    assert_eq!(keysym_char(0xd800), None);
    assert_eq!(keysym_char(0x11_0000), None);
    assert_eq!(launcher_step(&NONE, ModKey::Super, 0x64, 0x64), LauncherStep::Type('d'));
    assert_eq!(launcher_step(&LOGO, ModKey::Super, 0x44, 0x44), LauncherStep::Close);
    assert_eq!(launcher_step(&NONE, ModKey::Super, 9, 9), LauncherStep::Ignore);
    assert_eq!(launcher_step(&NONE, ModKey::Super, 0, 0x9f), LauncherStep::Ignore);
    assert_eq!(launcher_step(&NONE, ModKey::Super, 0, 0xe9), LauncherStep::Type('é'));
}

#[test]
fn clicks_focus_a_window() {
    let mut s = two_windows();
    assert!(s.press_button(0x110, true, 60, 10).is_none());
    assert!(s.press_button(0x111, true, 10, 10).is_none());
    assert!(s.press_button(0x110, false, 10, 10).is_none());
    let r = s.press_button(0x110, true, 10, 10).unwrap();
    assert_eq!(r.focus.target, Some(7));
    assert_eq!(s.layout.focused, 0);
    assert!(s.press_button(0x110, true, 500, 10).is_none());
}

#[test]
fn input_is_applied() {
    let mut s = two_windows();
    let n = s.serial_counter;
    let r = s.apply_input(InputCmd::Key { keycode: 30, mods: 0, pressed: true }, 0, 0);
    assert_eq!(r.serial, n + 1);
    assert!(matches!(r.event, InputAction::Key { code: 38, pressed: true }));
    s.dirty = false;
    let m = InputCmd::PointerMotionAbs { x: 1, y: 2, width: 3, height: 4 };
    assert!(matches!(s.apply_input(m, 1, 2).event, InputAction::Motion));
    assert!(s.dirty);
    let b = InputCmd::PointerButton { button: 0x110, pressed: true };
    assert!(matches!(s.apply_input(b, 1, 2).event, InputAction::Button(Some(_))));
    assert_eq!(s.layout.focused, 0);
    let c = InputCmd::Scroll { v120: -120 };
    assert!(matches!(s.apply_input(c, 1, 2).event, InputAction::Scroll { v120: -120 }));
    match s.apply_input(InputCmd::Resize { width: 20, height: 10 }, 0, 0).event {
        InputAction::Resized(c) => assert_eq!((c[0].width, c[0].height), (10, 10)),
        e => panic!("{e:?}"),
    }
    assert_eq!((s.output_w, s.output_h), (20, 10));
}

#[test]
fn serials_wrap() {
    let mut s = two_windows();
    s.serial_counter = u32::MAX;
    assert_eq!(s.next_serial(), 0);
}

fn solid(w: u32, h: u32, c: [u8; 4]) -> (Vec<u8>, u32, u32) {
    (c.repeat((w * h) as usize), w, h)
}

#[test]
fn surfaces_come_and_go() {
    let mut s = two_windows();
    s.dirty = false;
    s.commit(7, Commit::New(None));
    assert!(!s.dirty);
    s.commit(7, Commit::New(Some(solid(1, 1, [9, 9, 9, 255]))));
    assert!(s.dirty && s.surface_buffers.contains_key(&7));
    s.dirty = false;
    s.commit(8, Commit::Unchanged);
    assert!(s.dirty);
    s.dirty = false;
    s.destroyed(8);
    assert!(!s.dirty);
    s.destroyed(7);
    assert!(s.dirty && s.surface_buffers.is_empty());
    s.commit(7, Commit::New(Some(solid(1, 1, [9, 9, 9, 255]))));
    s.commit(7, Commit::Removed);
    assert!(s.surface_buffers.is_empty());
}

#[test]
fn clipboards() {
    let mut s = two_windows();
    assert!(s.host_text("a".to_string()));
    assert!(!s.host_text("a".to_string()));
    assert_eq!(s.selection_text(true).as_deref(), Some("a"));
    assert_eq!(s.selection_text(false), None);
    s.new_selection(false, true);
    assert!(!s.take_copy_out());
    s.new_selection(true, true);
    assert!(s.take_copy_out() && !s.take_copy_out());
    assert!(!s.host_text("b".to_string()));
    s.new_selection(true, false);
    assert!(s.host_text("b".to_string()));
    assert!(clipboard_changed(&"a".to_string(), &"b".to_string()));
    assert!(!clipboard_changed(&"a".to_string(), &"a".to_string()));
    assert!(!clipboard_changed(&"a".to_string(), &"".to_string()));
}

#[test]
fn frames_are_paced() {
    assert_eq!(frame_interval_ms(60), 16);
    assert_eq!(frame_interval_ms(0), 1000);
    let mut s = two_windows();
    assert!(!s.frame_due(Some(15_999_999), 16));
    assert!(s.dirty);
    assert!(s.frame_due(Some(16_000_000), 16));
    assert!(!s.dirty);
    assert!(!s.frame_due(None, 16));
}

#[test]
fn ticks_end_with_the_compositor() {
    let mut s = two_windows();
    assert_eq!(s.tick_again(false), Some(8));
    assert_eq!(s.tick_again(true), None);
    s.running = false;
    assert_eq!(s.tick_again(false), None);
}

fn node(surface: u64) -> TreeNode {
    TreeNode { surface, parent: 0, dx: 0, dy: 0 }
}

#[test]
fn a_frame_shows_windows_and_background() {
    let mut s = two_windows();
    s.commit(7, Commit::New(Some(solid(100, 50, [255, 0, 0, 255]))));
    s.commit(9, Commit::New(Some(solid(2, 1, [0, 255, 0, 255]))));
    s.commit(5, Commit::New(Some(solid(1, 1, [0, 0, 255, 255]))));
    let child = TreeNode { surface: 5, parent: 0, dx: 3, dy: 4 };
    let windows = vec![
        Window {
            id: 7,
            tree: vec![node(7), child],
            popups: vec![Popup { dx: 10, dy: 20, tree: vec![node(9)] }],
        },
        Window { id: 8, tree: vec![node(8)], popups: vec![] },
    ];
    assert!(s.can_draw(&windows, &Cursor::Hidden, 0, 0));
    let f = s.composite(&windows, &Cursor::Hidden, 0, 0);
    assert_eq!((f.width, f.height, f.serial), (100, 50, 1));
    let at = |x: usize, y: usize| &f.rgba[4 * (y * 100 + x)..4 * (y * 100 + x) + 4];
    assert_eq!(at(0, 0), [255, 0, 0, 255]);
    assert_eq!(at(3, 4), [0, 0, 255, 255]);
    assert_eq!(at(11, 20), [0, 255, 0, 255]);
    assert_eq!(at(12, 20), [255, 0, 0, 255]);
    assert_eq!(s.composite(&windows, &Cursor::Named, 0, 0).serial, 2);
    let tree = vec![TreeNode { dx: i32::MAX, ..node(7) }, node(8)];
    let far = vec![
        Window { id: 7, tree, popups: vec![] },
        Window { id: 8, tree: vec![node(8)], popups: vec![] },
    ];
    assert!(s.can_draw(&far, &Cursor::Hidden, 0, 0));
    // Only the live windows can be drawn, each in its place.
    let one = |id: u64| Window { id, tree: vec![node(id)], popups: vec![] };
    assert!(!s.can_draw(&vec![one(8), one(7)], &Cursor::Hidden, 0, 0));
    assert!(!s.can_draw(&vec![one(7)], &Cursor::Hidden, 0, 0));
}

#[test]
fn a_swap_moves_windows_to_the_other_tile() {
    let mut s = two_windows();
    s.commit(7, Commit::New(Some(solid(50, 50, [255, 0, 0, 255]))));
    s.commit(8, Commit::New(Some(solid(50, 50, [0, 255, 0, 255]))));
    let scene = |s: &State| -> Vec<Window> {
        let one = |id: u64| Window { id, tree: vec![node(id)], popups: vec![] };
        s.live_ids().into_iter().map(one).collect()
    };
    assert_eq!(s.live_ids(), [7, 8]);
    let first = s.composite(&scene(&s), &Cursor::Hidden, 0, 0);
    assert_eq!(first.rgba[..4], [255, 0, 0, 255]);
    assert_eq!(pick_focus(&s, &scene(&s), 10, 10).unwrap().surface, 7);
    s.dispatch_action(Action::Swap);
    assert_eq!(s.live_ids(), [8, 7]);
    let second = s.composite(&scene(&s), &Cursor::Hidden, 0, 0);
    assert_eq!(second.rgba[..4], [0, 255, 0, 255]);
    assert_eq!(pick_focus(&s, &scene(&s), 10, 10).unwrap().surface, 8);
    assert_eq!(pick_focus(&s, &scene(&s), 60, 10).unwrap().surface, 7);
}

#[test]
fn what_cannot_be_drawn() {
    let two = |dx: i32| vec![node(7), TreeNode { surface: 8, parent: 0, dx, dy: 0 }];
    assert!(tree_can_be_drawn(&two(5), 0, 0));
    assert!(!tree_can_be_drawn(&two(i32::MAX), 1, 0));
    let rects = vec![Rect { x: 1, y: 0, w: 5, h: 5 }];
    let w = |dx| vec![Window { id: 7, tree: two(dx), popups: vec![] }];
    assert!(windows_can_be_drawn(&w(0), &rects, 10, 10));
    assert!(!windows_can_be_drawn(&w(i32::MAX), &rects, 10, 10));
    let c = |hot_x| Cursor::Surface { tree: vec![node(1)], hot_x, hot_y: 0 };
    assert!(cursor_can_be_drawn(&c(1), 5, 5));
    assert!(!cursor_can_be_drawn(&c(-1), i32::MAX, 5));
}

#[test]
fn the_arrow_is_drawn() {
    let mut back = vec![7u8; 4 * 20 * 20];
    draw_fallback_cursor(&mut back, 20, 20, 2, 3);
    let at = |x: usize, y: usize| back[4 * (y * 20 + x)..4 * (y * 20 + x) + 4].to_vec();
    assert_eq!(at(2, 3), [255, 255, 255, 255]);
    assert_eq!(at(3, 3), [7, 7, 7, 7]);
    assert_eq!(at(3, 5), [0, 0, 0, 255]);
    assert_eq!(at(13, 13), [0, 0, 0, 255]);
    let mut edge = vec![7u8; 4 * 4];
    draw_fallback_cursor(&mut edge, 2, 2, -1, -1);
    assert_eq!(edge[0..4], [255, 255, 255, 255]);
}

#[test]
fn overlays_lie_on_top() {
    let cache = HashMap::new();
    let plain = compose(400, 300, [1, 2, 3, 255], &cache, &vec![], &vec![], &Cursor::Hidden, 0, 0,
        false, &binds(), &None);
    assert_eq!(plain, [1, 2, 3, 255].repeat(400 * 300));
    let help = compose(400, 300, [1, 2, 3, 255], &cache, &vec![], &vec![], &Cursor::Hidden, 0, 0,
        true, &binds(), &None);
    let middle = 4 * (150 * 400 + 200);
    assert_ne!(help[middle..middle + 4], [1, 2, 3, 255]);
    assert_eq!(help[0..4], [1, 2, 3, 255]);
    let arrow = compose(400, 300, [1, 2, 3, 255], &cache, &vec![], &vec![], &Cursor::Named, 0, 0,
        false, &binds(), &None);
    assert_eq!(arrow[0..4], [255, 255, 255, 255]);
}

#[test]
fn the_pointer_picks_a_surface() {
    let mut s = two_windows();
    let buf = |w, h| SurfaceBuf { rgba: vec![0; (w * h * 4) as usize], w, h };
    s.surface_buffers.insert(7, buf(50, 50));
    s.surface_buffers.insert(8, buf(50, 50));
    s.surface_buffers.insert(9, buf(5, 5));
    let popup = Popup { dx: 10, dy: 10, tree: vec![node(9)] };
    let windows = vec![
        Window { id: 7, tree: vec![node(7)], popups: vec![popup] },
        Window { id: 8, tree: vec![node(8)], popups: vec![] },
    ];
    let rects = vec![Rect { x: 0, y: 0, w: 50, h: 50 }, Rect { x: 50, y: 0, w: 50, h: 50 }];
    assert_eq!(s.layout_rects, rects);
    assert!(s.are_live(&windows));
    let pick = |x, y| pick_focus(&s, &windows, x, y);
    assert_eq!(pick(12, 12), Some(Pointed { surface: 9, x: 10, y: 10 }));
    assert_eq!(pick(20, 20), Some(Pointed { surface: 7, x: 0, y: 0 }));
    assert_eq!(pick(70, 20), Some(Pointed { surface: 8, x: 50, y: 0 }));
    assert_eq!(pick(70, 50), None);
    assert_eq!(toplevel_at(&rects, 49, 49), Some(0));
    assert_eq!(toplevel_at(&rects, 50, 0), Some(1));
    assert_eq!(toplevel_at(&rects, -1, 0), None);
}

#[test]
fn device_buffers() {
    assert!(cpu_importable(1, true, PixelFormat::Argb8888));
    assert!(!cpu_importable(2, true, PixelFormat::Argb8888));
    assert!(!cpu_importable(1, true, PixelFormat::Other));
    assert_eq!(import_route(true, true), ImportRoute::Cpu);
    assert_eq!(import_route(false, true), ImportRoute::Gpu);
    assert_eq!(import_route(false, false), ImportRoute::Unsupported);
    assert!(dmabuf_accepted(true, None) && dmabuf_accepted(false, Some(true)));
    assert!(!dmabuf_accepted(false, None) && !dmabuf_accepted(false, Some(false)));
    let tiled = DeviceFormat { code: 0x3432_5241, modifier: 5 };
    let linear = DeviceFormat { code: 0x3432_5258, modifier: 0 };
    let f = feedback_formats(&vec![tiled, linear, tiled]);
    assert_eq!(f.len(), 5);
    assert_eq!(f[4], tiled);
}
