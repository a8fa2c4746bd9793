use veil::config::{Quality, TermEnv};
use veil::kitty::{base64_of, render_kitty_frame};
use veil::render::{
    apply_hysteresis, apply_text_overlay, compute_luma, luma_to_char, luma_to_chars, render_chars,
    rgba_to_halfblocks, Cell, ColorCell, TermFrame, TextCell,
};
use veil::terminal::{
    detect_mode, diff_rows, emit_chars_vec, emit_halfblocks, plain_chars, resolve_mode, FrameCells,
    TerminalMode, TerminalOutput,
};
use veil::tui::{char_luma, frame_cell, TermCompositor};

#[test]
fn brightness_maps_from_blank_to_dense() {
    assert_eq!(luma_to_char(0), ' ');
    assert_eq!(luma_to_char(255), '$');
    let mut seen: Vec<char> = (0..=255u8).map(luma_to_char).collect();
    seen.dedup();
    assert_eq!(seen.len(), 70);
}

#[test]
fn printable_cells_show_themselves() {
    let cells = vec![Cell { ch: 'x', luma: 0 }, Cell { ch: ' ', luma: 255 }, Cell { ch: 'ä', luma: 0 }];
    let f = TermFrame { cells, width: 3, height: 1 };
    assert_eq!(render_chars(&f), vec!['x', '$', ' ']);
}

#[test]
fn the_brightness_of_an_image() {
    // Two halves, black and white: averaged to one cell each.
    let mut rgba = Vec::new();
    for _ in 0..4 {
        for x in 0..4 {
            let v = if x < 2 { 0u8 } else { 255 };
            rgba.extend_from_slice(&[v, v, v, 255]);
        }
    }
    let luma = compute_luma(&rgba, 4, 4, 4, 4);
    assert_eq!(luma, [0, 0, 255, 255].repeat(4));
    assert_eq!(compute_luma(&rgba[..10], 4, 4, 2, 2), vec![0; 4]);
    // A single color keeps its Rec. 709 brightness at every size.
    let red: Vec<u8> = [255u8, 0, 0, 255].repeat(64);
    for l in compute_luma(&red, 8, 8, 3, 5) {
        assert_eq!(l, 54);
    }
    assert_eq!(compute_luma(&red, 8, 8, 0, 5), Vec::<u8>::new());
}

#[test]
fn small_changes_are_ignored() {
    let mut stable = vec![100, 100, 100];
    assert!(apply_hysteresis(&mut stable, &[105, 110, 90], 10));
    assert_eq!(stable, vec![100, 110, 90]);
    assert!(!apply_hysteresis(&mut stable, &[105, 110, 90], 10));
    assert!(apply_hysteresis(&mut stable, &[0], 10));
    assert_eq!(stable, vec![0, 110, 90]);
}

#[test]
fn sharp_contrasts_become_lines() {
    // Bright on the right, dark on the left of the middle column.
    let luma = [0u8, 128, 255, 0, 128, 255, 0, 128, 255];
    let c = luma_to_chars(&luma, 3, 3);
    assert_eq!(c[4], '|');
    let t = [0u8, 0, 0, 128, 128, 128, 255, 255, 255];
    assert_eq!(luma_to_chars(&t, 3, 3)[4], '-');
    let flat = [128u8; 9];
    assert_eq!(luma_to_chars(&flat, 3, 3)[4], luma_to_char(128));
    assert_eq!(luma_to_chars(&[0], 1, 1), vec![luma_to_char(0)]);
}

#[test]
fn texts_lie_over_the_grid() {
    let mut grid = vec!['.'; 6];
    let text = vec![
        TextCell { col: 1, row: 0, text: "ab".to_string() },
        TextCell { col: 2, row: 1, text: "xyz".to_string() },
    ];
    apply_text_overlay(&mut grid, &text, 3);
    assert_eq!(grid[0..3], ['.', 'a', 'b']);
    assert_eq!(grid[5], 'x');
}

fn env(term: &str, colorterm: &str, program: Option<&str>) -> TermEnv {
    TermEnv {
        term: term.to_string(),
        colorterm: colorterm.to_string(),
        term_program: program.map(String::from),
    }
}

#[test]
fn modes_for_terminals() {
    assert_eq!(detect_mode(&env("xterm-kitty", "", None)), TerminalMode::Kitty);
    assert_eq!(detect_mode(&env("xterm", "", Some("WezTerm"))), TerminalMode::Kitty);
    assert_eq!(detect_mode(&env("xterm", "24bit", None)), TerminalMode::Halfblock);
    assert_eq!(detect_mode(&env("xterm", "", None)), TerminalMode::Ascii);
    let e = env("xterm-kitty", "", None);
    assert_eq!(resolve_mode(Some(TerminalMode::Ascii), Quality::Pixel, &e), TerminalMode::Ascii);
    assert_eq!(resolve_mode(None, Quality::Pixel, &e), TerminalMode::Halfblock);
    assert_eq!(resolve_mode(None, Quality::AsciiEdge, &e), TerminalMode::AsciiEdge);
    assert_eq!(resolve_mode(None, Quality::Auto, &e), TerminalMode::Kitty);
}

#[test]
fn mode_names_read_back() {
    for m in [
        TerminalMode::Kitty, TerminalMode::Halfblock, TerminalMode::Ascii, TerminalMode::AsciiEdge,
    ] {
        assert_eq!(TerminalMode::from_name(m.name()), Some(m));
    }
    assert_eq!(TerminalMode::from_name("sixel"), None);
}

#[test]
fn half_blocks_are_colored() {
    let mut out = Vec::new();
    let c = ColorCell { fg: [1, 2, 3], bg: [40, 50, 255] };
    emit_halfblocks(&mut out, &[c, c], 1, 2);
    let s: String = out.iter().collect();
    assert!(s.contains("\x1b[38;2;1;2;3;48;2;40;50;255m▀\r\n\x1b[38;2;1;2;3;48;2;40;50;255m▀"));
}

#[test]
fn characters_fill_rows() {
    let mut out = Vec::new();
    emit_chars_vec(&mut out, &['a', 'b', 'c', 'd'], 2, 2);
    let s: String = out.iter().collect();
    assert_eq!(s, "ab\r\ncd");
}

#[test]
fn frames_are_drawn_from_the_top() {
    let mut t = TerminalOutput::new(TerminalMode::Ascii, 2, 3, None);
    assert_eq!((t.width, t.height), (16, 48));
    let s = t.render_output(&FrameCells::Luma(vec![128; 4]), 2, 3);
    assert!(s.starts_with("\x1b[H"));
    let sharp = [0u8, 128, 255, 0, 128, 255, 0, 128, 255].to_vec();
    let s = t.render_output(&FrameCells::Luma(sharp.clone()), 3, 4);
    let row: String = [0, 128, 255].map(luma_to_char).iter().collect();
    assert_eq!(s, format!("\x1b[H{row}\r\n{row}\r\n{row}"));
    let mut edges = TerminalOutput::new(TerminalMode::AsciiEdge, 3, 4, None);
    assert!(edges.render_output(&FrameCells::Luma(sharp), 3, 4).contains('|'));
    let mut k = TerminalOutput::new(TerminalMode::Kitty, 2, 3, Some((10, 20)));
    assert_eq!((k.width, k.height), (10, 20));
    assert_eq!(k.render_output(&FrameCells::Image("pic".to_string()), 4, 5), "\x1b[Hpic");
    assert_eq!((k.cols, k.rows), (4, 5));
    let mut e = TerminalOutput::new(TerminalMode::AsciiEdge, 2, 2, None);
    let first = e.render_output(&FrameCells::Luma(vec![100, 100]), 2, 2);
    let second = e.render_output(&FrameCells::Luma(vec![105, 95]), 2, 2);
    assert_eq!(first, second);
    assert_eq!(e.stable_luma, vec![100, 100]);
    let mut h = TerminalOutput::new(TerminalMode::Halfblock, 1, 2, None);
    let cell = ColorCell { fg: [0, 0, 0], bg: [0, 0, 0] };
    let s = h.render_output(&FrameCells::Colors(vec![cell]), 1, 2);
    assert!(s.ends_with("\x1b[0m") && s.starts_with("\x1b[H"));
}

#[test]
fn rows_that_changed_are_written() {
    let d = diff_rows(&['a', 'b', 'c', 'd'], &['a', 'b', 'c', 'x'], 2, 2);
    assert_eq!(d.len(), 1);
    assert_eq!((d[0].row, d[0].text.as_str()), (1, "cx"));
    assert!(diff_rows(&['a'], &['a'], 1, 1).is_empty());
    assert_eq!(plain_chars(&[0, 255]), vec![' ', '$']);
}

#[test]
fn characters_have_brightness() {
    for (c, l) in [
        (' ', 0), ('\0', 0), ('.', 30), ('~', 60), ('i', 90), ('(', 95), ('─', 110), ('├', 115),
        ('║', 120), ('░', 60), ('▒', 120), ('▓', 190), ('█', 245), ('▀', 180), ('a', 130),
        ('7', 150), ('Z', 170), ('#', 80), ('ä', 120), ('\n', 120),
    ] {
        assert_eq!(char_luma(c), l, "{c:?}");
    }
}

#[test]
fn a_screen_is_captured() {
    let mut t = TermCompositor::new();
    assert_eq!((t.width, t.height), (80, 24));
    t.process(b"gone");
    t.launch(4, 2);
    // A sequence may come in pieces.
    t.process(b"ab\r\n\x1b[3");
    t.process(b"1m#");
    let f = t.capture();
    let chars: Vec<char> = f.cells.iter().map(|c| c.ch).collect();
    assert_eq!(chars, ['a', 'b', ' ', ' ', '#', ' ', ' ', ' ']);
    assert_eq!(f.cells[0].luma, 130);
    assert_eq!((f.width, f.height), (4, 2));
    assert_eq!(frame_cell(&Some("xyz".to_string())), Cell { ch: 'x', luma: 130 });
    assert_eq!(frame_cell(&Some(String::new())), Cell { ch: ' ', luma: 0 });
    assert_eq!(frame_cell(&None), Cell { ch: ' ', luma: 0 });
}

#[test]
fn a_screen_takes_wide_and_combined_text() {
    let mut t = TermCompositor::new();
    t.launch(3, 2);
    // The widest character, a wide one at the end of a row, and marks on them.
    t.process("\u{17d8}\u{17d8}\r\nab\u{4e16}\u{fe0f}*\u{fe0f}\u{301}".as_bytes());
    t.process(b"\x1b[2;3Hx\x1b[99L\x1b[99P\x1b[99@\x1bM\t\t\x1b[1;1Hy");
    assert_eq!(t.capture().cells[0].ch, 'y');
    t.launch(80, 24);
    t.process("\x1b[24;80H*\u{fe0f}\x1b[23;80Ha".as_bytes());
    assert_eq!(t.capture().cells[22 * 80 + 79].ch, 'a');
}

#[test]
fn very_wide_images_have_brightness() {
    let white = vec![255u8; 4 * 1_500_000];
    assert_eq!(compute_luma(&white, 1_500_000, 1, 2, 1), vec![255, 255]);
    assert_eq!(compute_luma(&white, 1, 1_500_000, 1, 2), vec![255, 255]);
    assert_eq!(compute_luma(&white, 1, 1, 65535, 1), vec![255; 65535]);
}

#[test]
fn half_blocks_hold_two_pixels() {
    let rgba: Vec<u8> = (0..16).collect();
    let c = rgba_to_halfblocks(&rgba, 2, 2, 2, 1);
    assert_eq!((c[0].fg, c[0].bg), ([0, 1, 2], [8, 9, 10]));
    assert_eq!((c[1].fg, c[1].bg), ([4, 5, 6], [12, 13, 14]));
    assert_eq!(c.len(), 2);
    // Scaled up, the nearest pixel is repeated.
    let c = rgba_to_halfblocks(&rgba, 2, 2, 4, 2);
    assert_eq!((c[0].fg, c[1].fg, c[2].fg), ([0, 1, 2], [0, 1, 2], [4, 5, 6]));
    assert_eq!((c[0].bg, c[4].fg), ([0, 1, 2], [8, 9, 10]));
    let c = rgba_to_halfblocks(&rgba[..15], 2, 2, 1, 1);
    assert_eq!((c[0].fg, c[0].bg), ([0; 3], [0; 3]));
    assert!(rgba_to_halfblocks(&rgba, 2, 2, 0, 3).is_empty());
}

#[test]
fn base64_of_known_texts() {
    for (text, code) in [
        ("", ""), ("f", "Zg=="), ("fo", "Zm8="), ("foo", "Zm9v"), ("foob", "Zm9vYg=="),
        ("fooba", "Zm9vYmE="), ("foobar", "Zm9vYmFy"),
    ] {
        assert_eq!(base64_of(text.as_bytes()).iter().collect::<String>(), code);
    }
    assert_eq!(base64_of(&[0xfb, 0xff, 0xbf]), ['+', '/', '+', '/']);
}

#[test]
fn frames_are_kitty_pictures() {
    assert_eq!(
        render_kitty_frame(&[1, 2, 3, 4], 1, 1, 8, 6),
        "\x1b_Ga=T,f=32,i=1,p=1,q=2,C=1,s=1,v=1,c=8,r=6,m=0;AQIDBA==\x1b\\"
    );
    // 3072 bytes fill one sequence, one more pixel starts another.
    let rgba = vec![0u8; 3076];
    assert_eq!(render_kitty_frame(&rgba[..3072], 768, 1, 1, 1).matches("\x1b_G").count(), 1);
    let two = render_kitty_frame(&rgba, 769, 1, 1, 1);
    assert!(two.contains(",m=1;AAAA"));
    assert!(two.ends_with("\x1b\\\x1b_Gm=0;AAAAAA==\x1b\\"));
    assert_eq!(render_kitty_frame(&rgba, 0, 1, 1, 1), "");
    assert_eq!(render_kitty_frame(&[], 1, 1, 1, 1), "");
}
