use veil::config::{
    bind_field_names, config_from, detect_quality, load, parse_hex_color, Action, Globals, Keybinds,
    ModKey, OutputPref, Quality, ScriptRun, TermEnv, VeilConfig,
};

#[test]
fn hex_color_with_hash() {
    assert_eq!(parse_hex_color("#4b5d45"), Some([0x4b, 0x5d, 0x45]));
}

#[test]
fn hex_color_without_hash() {
    assert_eq!(parse_hex_color("4B5D45"), Some([0x4b, 0x5d, 0x45]));
}

#[test]
fn hex_color_rejects_garbage() {
    assert_eq!(parse_hex_color("not a color"), None);
    assert_eq!(parse_hex_color("#fff"), None); // no 3-digit shorthand
    assert_eq!(parse_hex_color(""), None);
}

#[test]
fn hex_color_is_trimmed() {
    assert_eq!(parse_hex_color("  #8c8c8c\n"), Some([0x8c, 0x8c, 0x8c]));
    assert_eq!(parse_hex_color("##8c8c8c"), None);
    assert_eq!(parse_hex_color("#"), None);
    assert_eq!(parse_hex_color("äöü"), None);
    assert_eq!(parse_hex_color("+1+2+3"), None);
}

fn env(term: &str, colorterm: &str, program: Option<&str>) -> TermEnv {
    TermEnv {
        term: term.to_string(),
        colorterm: colorterm.to_string(),
        term_program: program.map(String::from),
    }
}

#[test]
fn quality_names_read_back() {
    for q in [
        Quality::Auto, Quality::Pixel, Quality::AsciiLuma, Quality::AsciiEdge, Quality::Sixel,
        Quality::Kitty,
    ] {
        assert_eq!(Quality::from_str(q.as_str()), q);
    }
    assert_eq!(Quality::from_str("nonsense"), Quality::Auto);
}

#[test]
fn the_terminal_decides_an_automatic_quality() {
    assert_eq!(detect_quality(&env("xterm-kitty", "", None)), Quality::Kitty);
    assert_eq!(detect_quality(&env("xterm-256color", "truecolor", None)), Quality::Pixel);
    assert_eq!(detect_quality(&env("xterm-256color", "24bit", None)), Quality::Pixel);
    assert_eq!(detect_quality(&env("linux", "", None)), Quality::AsciiLuma);
    let c = VeilConfig::default();
    assert_eq!(c.resolved_quality(&env("xterm-kitty", "", None)), Quality::Kitty);
    let mut fixed = VeilConfig::default();
    fixed.quality = Quality::AsciiEdge;
    assert_eq!(fixed.resolved_quality(&env("xterm-kitty", "", None)), Quality::AsciiEdge);
}

#[test]
fn preferences_by_name() {
    assert_eq!(OutputPref::from_str("drm"), OutputPref::Drm);
    assert_eq!(OutputPref::from_str("terminal"), OutputPref::Terminal);
    assert_eq!(OutputPref::from_str("?"), OutputPref::Auto);
    assert_eq!(ModKey::from_str("ctrl"), ModKey::Ctrl);
    assert_eq!(ModKey::from_str("alt"), ModKey::Alt);
    assert_eq!(ModKey::from_str("shift"), ModKey::Shift);
    assert_eq!(ModKey::from_str("super"), ModKey::Super);
}

#[test]
fn default_keys() {
    let k = Keybinds::default();
    for (c, a) in [
        ('h', Action::FocusLeft), ('l', Action::FocusRight), ('k', Action::FocusUp),
        ('j', Action::FocusDown), ('s', Action::Swap), ('r', Action::Rotate), ('q', Action::Close),
        ('=', Action::ResizeGrow), ('-', Action::ResizeShrink),
    ] {
        assert_eq!(k.action_for(c), Some(a));
    }
    assert_eq!(k.action_for('x'), None);
    assert_eq!(k.copy().binds, k.binds);
}

fn nothing() -> Globals {
    Globals {
        quality: None,
        fps: None,
        cage_timeout_secs: None,
        input: None,
        gpu_render: None,
        output: None,
        background: None,
        mod_key: None,
        keys: vec![None, None, None, None, None, None, None, None, None],
    }
}

fn same(a: &VeilConfig, b: &VeilConfig) {
    assert_eq!(a.quality, b.quality);
    assert_eq!(a.fps, b.fps);
    assert_eq!(a.cage_timeout_secs, b.cage_timeout_secs);
    assert_eq!(a.input, b.input);
    assert_eq!(a.gpu_render, b.gpu_render);
    assert_eq!(a.output, b.output);
    assert_eq!(a.background, b.background);
    assert_eq!(a.keybinds.mod_key, b.keybinds.mod_key);
    assert_eq!(a.keybinds.binds, b.keybinds.binds);
}

#[test]
fn globals_that_are_not_set_keep_their_defaults() {
    same(&config_from(&nothing()), &VeilConfig::default());
}

#[test]
fn globals_override_the_defaults() {
    let mut g = nothing();
    g.quality = Some("kitty".to_string());
    g.fps = Some(30);
    g.input = Some(false);
    g.background = Some("#010203".to_string());
    g.keys[0] = Some("a".to_string());
    let c = config_from(&g);
    assert_eq!(c.quality, Quality::Kitty);
    assert_eq!(c.fps, 30);
    assert!(!c.input);
    assert_eq!(c.background, [1, 2, 3]);
    assert_eq!(c.keybinds.action_for('a'), Some(Action::FocusLeft));
    assert_eq!(c.keybinds.action_for('h'), None);
}

/// Runs a script as the programs do.
fn run(source: &str) -> ScriptRun {
    let lua = mlua::Lua::new();
    if lua.load(source).exec().is_err() {
        return ScriptRun::Failed;
    }
    let g = lua.globals();
    let keybinds = g.get::<mlua::Table>("keybinds").ok();
    let text = |t: &mlua::Table, key: &str| t.get::<String>(key).ok();
    ScriptRun::Ended(Globals {
        quality: text(&g, "quality"),
        fps: g.get("fps").ok(),
        cage_timeout_secs: g.get("cage_timeout_secs").ok(),
        input: g.get::<Option<bool>>("input").ok().flatten(),
        gpu_render: g.get::<Option<bool>>("gpu_render").ok().flatten(),
        output: text(&g, "output"),
        background: text(&g, "background"),
        mod_key: keybinds.as_ref().and_then(|t| text(t, "mod_key")),
        keys: match &keybinds {
            Some(t) => bind_field_names().iter().map(|n| text(t, n)).collect(),
            None => Vec::new(),
        },
    })
}

#[test]
fn a_script_sets_globals() {
    let c = load(Some(&run(
        "quality = 'ascii_edge'\nfps = 20 + 10\ncage_timeout_secs = 3\ninput = false\n\
         gpu_render = false\noutput = 'drm'\nbackground = '#102030'\n\
         keybinds = { mod_key = 'ctrl', focus_left = 'a', close = 'x' }",
    )));
    assert_eq!(c.quality, Quality::AsciiEdge);
    assert_eq!(c.fps, 30);
    assert_eq!(c.cage_timeout_secs, 3);
    assert!(!c.input && !c.gpu_render);
    assert_eq!(c.output, OutputPref::Drm);
    assert_eq!(c.background, [0x10, 0x20, 0x30]);
    assert_eq!(c.keybinds.mod_key, ModKey::Ctrl);
    assert_eq!(c.keybinds.action_for('a'), Some(Action::FocusLeft));
    assert_eq!(c.keybinds.action_for('x'), Some(Action::Close));
    assert_eq!(c.keybinds.action_for('l'), Some(Action::FocusRight));
}

#[test]
fn a_missing_or_broken_script_gives_the_defaults() {
    same(&load(None), &VeilConfig::default());
    same(&load(Some(&run("this is not lua ("))), &VeilConfig::default());
    same(&load(Some(&run(""))), &VeilConfig::default());
    same(&load(Some(&run("fps = 'many' quality = {}"))), &VeilConfig::default());
}

#[test]
fn a_script_that_fails_half_way_keeps_nothing() {
    let c = load(Some(&run("fps = 30\nquality = \"kitty\"\nerror(\"x\")\n")));
    same(&c, &VeilConfig::default());
    assert_eq!((c.fps, c.quality, c.cage_timeout_secs), (60, Quality::Auto, 8));
    assert!(c.input && c.gpu_render);
    assert_eq!(c.background, [0x8c, 0x8c, 0x8c]);
    same(&load(Some(&ScriptRun::Failed)), &VeilConfig::default());
}

#[test]
fn fields_of_the_keybinds_have_names() {
    assert_eq!(bind_field_names()[0], "focus_left");
    assert_eq!(bind_field_names()[8], "resize_shrink");
}
