use veil::cli::{
    apply_overrides, capture_fps, diff_color_rows, drain_input, gui_loop, has_interrupt, has_pixels,
    input_method, test_pattern, GuiLoop, InputMethod,
};
use veil::config::{Quality, VeilConfig};
use veil::keys::{KeyCode, KeyEvent, KeyKind, KeyMods, MouseEvent, MouseKind};
use veil::render::ColorCell;
use veil::virtual_input::{forward_event, InputCmd, InputEvent};

#[test]
fn overrides_change_what_they_name() {
    let mut c = VeilConfig::default();
    apply_overrides(
        &mut c,
        &vec![
            "fps=60".to_string(),
            " quality = pixel ".to_string(),
            "cage_timeout_secs=x".to_string(),
            "input=off".to_string(),
            "nothing".to_string(),
            "other=1".to_string(),
        ],
    );
    assert_eq!(c.fps, 60);
    assert_eq!(c.quality, Quality::Pixel);
    assert_eq!(c.cage_timeout_secs, VeilConfig::default().cage_timeout_secs);
    assert!(!c.input);
    apply_overrides(&mut c, &vec!["input=yes".to_string(), "fps=1".to_string(), "fps=2".to_string()]);
    assert!(c.input);
    assert_eq!(c.fps, 2);
}

#[test]
fn captures_are_half_the_frames() {
    assert_eq!(capture_fps(60), 30);
    assert_eq!(capture_fps(11), 5);
    assert_eq!(capture_fps(0), 5);
}

fn key(c: char, ctrl: bool) -> InputEvent {
    InputEvent::Key(KeyEvent {
        code: KeyCode::Char(c),
        mods: KeyMods { shift: false, ctrl, alt: false, logo: false },
        kind: KeyKind::Press,
    })
}

#[test]
fn control_c_stops_draining() {
    let d = drain_input(
        &vec![key('a', false), InputEvent::Resize(10, 5), key('c', true), key('b', false)],
        true,
        80,
        24,
    );
    assert!(d.stop);
    assert_eq!(d.resize, Some((10, 5)));
    assert_eq!(d.cmds, forward_event(&key('a', false), 80, 24).0);
}

#[test]
fn all_events_are_drained() {
    let m = InputEvent::Mouse(MouseEvent { kind: MouseKind::Moved, column: 3, row: 4 });
    let d = drain_input(&vec![m, InputEvent::Resize(1, 2), InputEvent::Resize(3, 4)], true, 80, 24);
    assert!(!d.stop);
    assert_eq!(d.resize, Some((3, 4)));
    assert_eq!(d.cmds, vec![InputCmd::PointerMotionAbs { x: 3, y: 8, width: 80, height: 48 }]);
    let quiet = drain_input(&vec![m, InputEvent::Resize(1, 2)], false, 80, 24);
    assert_eq!(quiet.cmds, vec![]);
    assert_eq!(quiet.resize, Some((1, 2)));
}

#[test]
fn typed_bytes_with_control_c() {
    assert!(has_interrupt(&[65, 3, 66]));
    assert!(!has_interrupt(b"abc"));
    assert!(!has_interrupt(&[]));
}

#[test]
fn qualities_have_their_way_of_drawing() {
    assert_eq!(gui_loop(Quality::AsciiLuma), GuiLoop::Ascii { edge: false });
    assert_eq!(gui_loop(Quality::AsciiEdge), GuiLoop::Ascii { edge: true });
    assert_eq!(gui_loop(Quality::Kitty), GuiLoop::Kitty);
    assert_eq!(gui_loop(Quality::Sixel), GuiLoop::Pixel);
    assert_eq!(gui_loop(Quality::Pixel), GuiLoop::Pixel);
    assert!(has_pixels(1, 1, 4) && !has_pixels(0, 1, 4) && !has_pixels(1, 0, 4) && !has_pixels(1, 1, 0));
}

#[test]
fn the_test_picture_has_four_quarters() {
    let p = test_pattern();
    assert_eq!(p.len(), 200 * 100 * 4);
    let at = |x: usize, y: usize| &p[(y * 200 + x) * 4..(y * 200 + x) * 4 + 4];
    assert_eq!(at(0, 0), [220, 50, 50, 255]);
    assert_eq!(at(99, 49), [220, 50, 50, 255]);
    assert_eq!(at(100, 0), [50, 200, 50, 255]);
    assert_eq!(at(0, 50), [50, 50, 220, 255]);
    assert_eq!(at(199, 99), [200, 200, 200, 255]);
}

fn cell(n: u8) -> ColorCell {
    ColorCell { fg: [n, 2, 3], bg: [4, 5, 6] }
}

#[test]
fn only_changed_rows_are_drawn() {
    let prev = vec![cell(1), cell(1), cell(1), cell(1)];
    let curr = vec![cell(1), cell(1), cell(1), cell(9)];
    let d = diff_color_rows(&prev, &curr, 2, 2);
    assert_eq!(d.len(), 1);
    assert_eq!(d[0].row, 1);
    assert_eq!(
        d[0].text,
        "\x1b[38;2;1;2;3m\x1b[48;2;4;5;6m\u{2580}\x1b[38;2;9;2;3m\x1b[48;2;4;5;6m\u{2580}\x1b[0m"
    );
    assert!(diff_color_rows(&prev, &prev, 2, 2).is_empty());
    assert!(diff_color_rows(&[], &[], 0, 3).is_empty());
}

#[test]
fn ways_of_input() {
    assert_eq!(input_method(true, true, true), InputMethod::Wayland);
    assert_eq!(input_method(true, false, true), InputMethod::Kernel);
    assert_eq!(input_method(true, false, false), InputMethod::ReadOnly);
    assert_eq!(input_method(false, true, true), InputMethod::Disabled);
}
