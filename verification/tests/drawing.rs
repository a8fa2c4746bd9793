use veil::canvas::put_pixel;
use veil::config::{Action, Keybinds, ModKey};
use veil::font5x7::{draw_char, draw_text, fill_rect, glyph_rows, to_upper};
use veil::launcher::{
    clean_exec, comes_before, is_desktop_file, parse_desktop_file, scan_desktop_entries, Launcher,
};
use veil::lockfile::{acquire, attach_socket, lock_content, read_lock, Acquire, LockInfo};
use veil::config::OutputPref;
use veil::output::{
    blit_rgba_to_xrgb, choose_connector, choose_crtc, choose_output, list_cards, session_active,
    CardError, ConnectorInfo, DrmOutput, FlipResult, OutputChoice, SeatEvent, SessionState,
};
use veil::overlay::{
    draw_help_overlay, draw_launcher_overlay, help_can_be_drawn, launcher_can_be_drawn,
};
use veil::surface::{blit, linear_to_rgba, shm_to_rgba, BufferData, PixelFormat, SurfaceBuf};

const RAW: [u8; 8] = [1, 2, 3, 4, 5, 6, 7, 8];

fn data(format: PixelFormat) -> BufferData {
    BufferData { offset: 0, width: 1, height: 2, stride: 4, format }
}

#[test]
fn shared_memory_becomes_rgba() {
    let bgr = Some((vec![3, 2, 1, 255, 7, 6, 5, 255], 1, 2));
    let rgb = Some((vec![1, 2, 3, 255, 5, 6, 7, 255], 1, 2));
    assert_eq!(shm_to_rgba(&RAW, &data(PixelFormat::Argb8888)), bgr);
    assert_eq!(shm_to_rgba(&RAW, &data(PixelFormat::Xrgb8888)), bgr);
    assert_eq!(shm_to_rgba(&RAW, &data(PixelFormat::Abgr8888)), rgb);
    assert_eq!(shm_to_rgba(&RAW, &data(PixelFormat::Xbgr8888)), rgb);
    assert_eq!(shm_to_rgba(&RAW, &data(PixelFormat::Other)), None);
    let d = data(PixelFormat::Argb8888);
    assert_eq!(shm_to_rgba(&RAW[..7], &d), None);
    assert_eq!(shm_to_rgba(&RAW, &BufferData { width: 2, ..d }), None);
    assert_eq!(
        shm_to_rgba(&RAW, &BufferData { offset: 4, height: 1, ..d }),
        Some((vec![7, 6, 5, 255], 1, 1))
    );
}

#[test]
fn mapped_buffers_become_rgba() {
    let conv = |o, s, w, h, f| linear_to_rgba(&RAW, o, s, w, h, f);
    assert_eq!(conv(0, 8, 1, 1, PixelFormat::Xbgr8888), Some((vec![1, 2, 3, 255], 1, 1)));
    assert_eq!(conv(4, 4, 1, 1, PixelFormat::Argb8888), Some((vec![7, 6, 5, 255], 1, 1)));
    assert_eq!(conv(4, 4, 1, 2, PixelFormat::Argb8888), None);
    assert_eq!(conv(9, 4, 1, 0, PixelFormat::Argb8888), None);
    assert_eq!(conv(0, 3, 1, 1, PixelFormat::Argb8888), None);
    assert_eq!(conv(0, 4, 1, 1, PixelFormat::Other), None);
}

#[test]
fn blitting_blends_and_clips() {
    let src = SurfaceBuf { rgba: vec![200, 100, 0, 255, 255, 255, 255, 128], w: 2, h: 1 };
    let mut back = vec![0u8; 8];
    blit(&mut back, 2, 1, &src, 0, 0);
    assert_eq!(back, [200, 100, 0, 255, 128, 128, 128, 255]);
    let mut back = vec![0u8; 8];
    blit(&mut back, 2, 1, &src, -1, 0);
    assert_eq!(back, [128, 128, 128, 255, 0, 0, 0, 0]);
    let mut back = vec![9u8; 8];
    blit(&mut back, 2, 1, &src, 2, 0);
    blit(&mut back, 2, 1, &src, 0, 1);
    assert_eq!(back, [9; 8]);
    let clear = SurfaceBuf { rgba: vec![1, 2, 3, 0], w: 1, h: 1 };
    blit(&mut back, 2, 1, &clear, 0, 0);
    assert_eq!(back, [9; 8]);
}

#[test]
fn pixels_are_put_inside() {
    let mut back = vec![0u8; 8];
    put_pixel(&mut back, 2, 1, 1, 0, [1, 2, 3, 4]);
    put_pixel(&mut back, 2, 1, 2, 0, [9; 4]);
    put_pixel(&mut back, 2, 1, -1, 0, [9; 4]);
    assert_eq!(back, [0, 0, 0, 0, 1, 2, 3, 4]);
}

#[test]
fn glyphs() {
    assert_eq!(to_upper('a'), 'A');
    assert_eq!(glyph_rows('a'), glyph_rows('A'));
    assert_eq!(glyph_rows(' '), [0; 7]);
    assert_ne!(glyph_rows('A'), glyph_rows('B'));
    let mut back = vec![0u8; 4 * 5 * 7];
    draw_char(&mut back, 5, 7, 0, 0, 1, 'A', [255; 4]);
    let lit = back.chunks(4).filter(|p| p[0] == 255).count();
    let want: u32 = glyph_rows('A').iter().map(|r| r.count_ones()).sum();
    assert_eq!(lit as u32, want);
    assert_eq!(draw_text(&mut back, 5, 7, 0, 0, 2, "abc", [1; 4]), 36);
}

#[test]
fn rectangles_are_clipped() {
    let mut back = vec![0u8; 4 * 9];
    fill_rect(&mut back, 3, 3, -1, 1, 2, 5, [1, 2, 3, 4]);
    let set: Vec<usize> = (0..9).filter(|i| back[4 * i] == 1).collect();
    assert_eq!(set, [3, 6]);
}

fn keybinds() -> Keybinds {
    Keybinds { mod_key: ModKey::Alt, binds: vec![('h', Action::FocusLeft)] }
}

#[test]
fn help_is_a_box_in_the_middle() {
    assert!(help_can_be_drawn(&keybinds()));
    let mut back = vec![0u8; 4 * 400 * 300];
    draw_help_overlay(&keybinds(), &mut back, 400, 300);
    // Six lines of at most 23 characters.
    let (w, h) = (23 * 12 + 24, 6 * 20 + 24);
    let painted = back.chunks(4).filter(|p| p[3] != 0).count();
    assert_eq!(painted, w * h);
    let x0 = (400 - w) / 2;
    let y0 = (300 - h) / 2;
    assert_eq!(back[4 * (y0 * 400 + x0)..4 * (y0 * 400 + x0) + 4], [10, 0, 16, 235]);
}

#[test]
fn the_launcher_marks_the_selection() {
    let mut l = Launcher::new(&vec![
        "[Desktop Entry]\nName=Foot\nExec=foot\n".to_string(),
        "[Desktop Entry]\nName=Vim\nExec=vim\n".to_string(),
    ]);
    let draw = |l: &Launcher| {
        assert!(launcher_can_be_drawn(l, ModKey::Super, 300));
        let mut back = vec![0u8; 4 * 800 * 300];
        draw_launcher_overlay(l, ModKey::Super, &mut back, 800, 300);
        back
    };
    let rows = |b: &[u8]| {
        let v: Vec<usize> = (0..300).filter(|y| {
            b[4 * 800 * y..4 * 800 * (y + 1)].chunks(4).any(|p| p == [40, 20, 52, 255])
        }).collect();
        v
    };
    let first = rows(&draw(&l));
    assert_eq!(first.len(), 20);
    l.selected = 1;
    let second = rows(&draw(&l));
    assert_eq!(second[0], first[0] + 20);
    l.selected = 99;
    assert_eq!(rows(&draw(&l)), second);
    l.query = "nothing".to_string();
    assert!(rows(&draw(&l)).is_empty());
}

#[test]
fn field_codes_are_dropped() {
    assert_eq!(clean_exec("foot %u --x %F"), "foot --x");
    assert_eq!(clean_exec("  a   b "), "a b");
    assert_eq!(clean_exec("%%"), "");
    assert_eq!(clean_exec("50%off"), "50%off");
}

fn entry(content: &str) -> Option<(String, String)> {
    parse_desktop_file(content).map(|e| (e.name, e.command))
}

#[test]
fn desktop_files() {
    let ok = Some(("Foot".to_string(), "foot".to_string()));
    assert_eq!(entry("[Desktop Entry]\nType=Application\nName=Foot\nExec=foot %u\n"), ok);
    assert_eq!(entry("Name=Foot\nExec=foot\n"), None);
    assert_eq!(entry("[Desktop Entry]\nName=Foot\n"), None);
    assert_eq!(entry("[Desktop Entry]\nName=Foot\nExec=foot\nNoDisplay=true\n"), None);
    assert_eq!(entry("[Desktop Entry]\nName=Foot\nExec=foot\nHidden=true\n"), None);
    assert_eq!(entry("[Desktop Entry]\nName=Foot\nExec=foot\nType=Link\n"), ok);
    assert_eq!(entry("[Desktop Entry]\nName=Foot\nExec=foot\n[Desktop Action x]\nName=No\n"), ok);
    assert!(is_desktop_file("foot.desktop") && !is_desktop_file("foot.txt"));
    assert!(is_desktop_file("a.b.desktop") && !is_desktop_file(".desktop"));
}

#[test]
fn entries_are_sorted_by_name() {
    let file = |n: &str| format!("[Desktop Entry]\nName={n}\nExec={n}\n");
    let e = scan_desktop_entries(&vec![file("b"), file("C"), file("a"), "x".to_string()]);
    let names: Vec<&str> = e.iter().map(|e| e.name.as_str()).collect();
    assert_eq!(names, ["a", "b", "C"]);
    assert!(comes_before(&['a'], &['b']) && comes_before(&['a'], &['a', 'a']));
    assert!(!comes_before(&['a'], &['a']) && !comes_before(&['b'], &['a', 'z']));
}

#[test]
fn searching_for_an_application() {
    let mut l = Launcher::new(&vec![
        "[Desktop Entry]\nName=Foot\nExec=foot\n".to_string(),
        "[Desktop Entry]\nName=Firefox\nExec=firefox\n".to_string(),
    ]);
    assert_eq!(l.matches().len(), 2);
    l.query = "OO".to_string();
    assert_eq!(l.matches().len(), 1);
    assert_eq!(l.command().as_deref(), Some("foot"));
    l.query = "make x".to_string();
    assert_eq!(l.command().as_deref(), Some("make x"));
    l.entries.clear();
    l.query = "  ".to_string();
    assert_eq!(l.command(), None);
}

#[test]
fn a_lock_reads_back() {
    assert_eq!(lock_content(42, "wayland-veil"), "pid=42\nsocket=wayland-veil\n");
    let i = read_lock(&lock_content(42, "wayland-veil")).unwrap();
    assert_eq!((i.pid, i.socket_name.as_str()), (42, "wayland-veil"));
    let i = read_lock("x\nsocket= a \npid= -7\npid=8\r\n").unwrap();
    assert_eq!((i.pid, i.socket_name.as_str()), (8, "a"));
    assert!(read_lock("pid=1\n").is_none());
    assert!(read_lock("socket=a\n").is_none());
    assert!(read_lock("pid=x\nsocket=a\n").is_none());
}

#[test]
fn one_instance_holds_the_lock() {
    assert_eq!(acquire(true, false), Acquire::Refuse);
    assert_eq!(acquire(false, false), Acquire::Write);
    assert_eq!(acquire(true, true), Acquire::Unregistered);
    assert_eq!(acquire(false, true), Acquire::Unregistered);
    let live = Some(LockInfo { pid: 1, socket_name: "there".to_string() });
    assert_eq!(attach_socket(&Some("mine".to_string()), &live), "mine");
    assert_eq!(attach_socket(&None, &live), "there");
    assert_eq!(attach_socket(&None, &None), "wayland-veil-0");
    let read = read_lock(&lock_content(7, "wayland-veil-3"));
    assert_eq!(attach_socket(&None, &read), "wayland-veil-3");
}

#[test]
fn outputs() {
    let var = |s: &str| Some(s.to_string());
    for s in ["drm", "kms"] {
        assert_eq!(choose_output(&var(s), true, OutputPref::Terminal, true), OutputChoice::Drm);
    }
    for s in ["terminal", "term"] {
        assert_eq!(choose_output(&var(s), false, OutputPref::Drm, false), OutputChoice::Terminal);
    }
    assert_eq!(choose_output(&var("x"), true, OutputPref::Drm, false), OutputChoice::Terminal);
    assert_eq!(choose_output(&None, false, OutputPref::Drm, true), OutputChoice::Drm);
    assert_eq!(choose_output(&None, false, OutputPref::Terminal, false), OutputChoice::Terminal);
    assert_eq!(choose_output(&None, false, OutputPref::Auto, true), OutputChoice::Terminal);
    assert_eq!(choose_output(&None, false, OutputPref::Auto, false), OutputChoice::DrmElseTerminal);
}

#[test]
fn cards_are_in_order() {
    let names = ["renderD128", "card10", "card2", "card0-HDMI-A-1", "card0"];
    let v: Vec<String> = names.iter().map(|s| s.to_string()).collect();
    assert_eq!(list_cards(&v), ["/dev/dri/card0", "/dev/dri/card2", "/dev/dri/card10"]);
}

#[test]
fn flips_trade_buffers() {
    let mut d = DrmOutput::new(8, 6);
    assert_eq!((d.get_size(), d.back, d.front_buffer()), ((8, 6), 1, 0));
    assert!(d.flipped(FlipResult::Busy) && d.back == 1);
    assert!(!d.flipped(FlipResult::Failed));
    assert!(d.flipped(FlipResult::Queued));
    assert_eq!((d.back, d.flip_pending), (0, true));
    d.drained(false);
    assert!(d.flip_pending);
    d.drained(true);
    assert!(!d.flip_pending);
    assert_eq!(d.on_vt_switch(true, true), Some(1));
    assert_eq!(d.on_vt_switch(false, true), None);
    assert_eq!(d.on_vt_switch(true, false), None);
}

#[test]
fn displays() {
    let c = |connected, modes: &[(u16, u16)]| ConnectorInfo { connected, modes: modes.to_vec() };
    assert_eq!(choose_connector(&vec![]), Err(CardError::NoDisplay));
    assert_eq!(choose_connector(&vec![c(false, &[(1, 2)])]), Err(CardError::NoDisplay));
    assert_eq!(choose_connector(&vec![c(true, &[]), c(true, &[(1, 2)])]), Err(CardError::NoMode));
    let cs = vec![c(false, &[(1, 2)]), c(true, &[(3, 4), (5, 6)])];
    assert_eq!(choose_connector(&cs), Ok((1, 3, 4)));
    assert_eq!(choose_crtc(&vec![vec![], vec![9, 8]]), Ok(9));
    assert_eq!(choose_crtc(&vec![vec![]]), Err(CardError::NoCrtc));
}

#[test]
fn seats() {
    let mut s = SessionState::new();
    assert!(session_active(&s));
    s.opening();
    assert!(!session_active(&s));
    assert!(!s.on_event(SeatEvent::Enable) && session_active(&s));
    assert!(s.on_event(SeatEvent::Disable) && !session_active(&s));
}

#[test]
fn frames_are_scanned_out() {
    let src = [1, 2, 3, 255, 4, 5, 6, 255];
    let mut dst = vec![9u8; 24];
    blit_rgba_to_xrgb(&mut dst, 12, 2, 2, &src, 1, 2);
    assert_eq!(
        dst,
        [3, 2, 1, 0, 0, 0, 0, 0, 9, 9, 9, 9, 6, 5, 4, 0, 0, 0, 0, 0, 9, 9, 9, 9]
    );
}
