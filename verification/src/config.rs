//! The configuration: what `config.lua` can set, its defaults, and how the
//! values of the script's globals become a configuration.

use vstd::prelude::*;
use crate::text::{chars_of, has_part, hex_digit, is_str, lower_all, to_lower, trimmed};
use crate::text::{contains, hex_value, lower, lowered, trim};
use vstd::slice::slice_subrange;

verus! {

/// A render mode.
#[derive(Clone, Copy, Debug, PartialEq, Eq, Structural)]
pub enum Quality {
    Auto,
    /// Color halfblock (▀, 24-bit truecolor): best for GUI apps.
    Pixel,
    /// Greyscale luma characters: works everywhere.
    AsciiLuma,
    /// Luma with an edge detection overlay.
    AsciiEdge,
    /// Sixel inline images.
    Sixel,
    /// Kitty graphics protocol.
    Kitty,
}

/// The mode that `s` names; every other text names `Auto`.
pub open spec fn quality_named(s: Seq<char>) -> Quality {
    if s == "pixel"@ {
        Quality::Pixel
    } else if s == "ascii"@ || s == "ascii_luma"@ {
        Quality::AsciiLuma
    } else if s == "ascii_edge"@ {
        Quality::AsciiEdge
    } else if s == "sixel"@ {
        Quality::Sixel
    } else if s == "kitty"@ {
        Quality::Kitty
    } else {
        Quality::Auto
    }
}

pub open spec fn quality_name(q: Quality) -> Seq<char> {
    match q {
        Quality::Auto => "auto"@,
        Quality::Pixel => "pixel"@,
        Quality::AsciiLuma => "ascii_luma"@,
        Quality::AsciiEdge => "ascii_edge"@,
        Quality::Sixel => "sixel"@,
        Quality::Kitty => "kitty"@,
    }
}

impl Quality {
    pub fn from_str(s: &str) -> (q: Self)
        ensures
            q == quality_named(s@),
    {
        let v: Vec<char> = chars_of(s);
        let c: &[char] = v.as_slice();
        if is_str(c, "pixel") {
            Self::Pixel
        } else if is_str(c, "ascii") || is_str(c, "ascii_luma") {
            Self::AsciiLuma
        } else if is_str(c, "ascii_edge") {
            Self::AsciiEdge
        } else if is_str(c, "sixel") {
            Self::Sixel
        } else if is_str(c, "kitty") {
            Self::Kitty
        } else {
            Self::Auto
        }
    }

    pub fn as_str(&self) -> (s: &'static str)
        ensures
            s@ == quality_name(*self),
    {
        match self {
            Self::Auto => "auto",
            Self::Pixel => "pixel",
            Self::AsciiLuma => "ascii_luma",
            Self::AsciiEdge => "ascii_edge",
            Self::Sixel => "sixel",
            Self::Kitty => "kitty",
        }
    }
}

/// The name of a mode names the mode.
pub proof fn law_quality_name_reads_back(q: Quality)
    ensures
        quality_named(quality_name(q)) == q,
{
    reveal_strlit("auto");
    reveal_strlit("pixel");
    reveal_strlit("ascii");
    reveal_strlit("ascii_luma");
    reveal_strlit("ascii_edge");
    reveal_strlit("sixel");
    reveal_strlit("kitty");
    let s = quality_name(q);
    assert(s == "auto"@ ==> s.len() == 4);
    assert("pixel"@[0] == 'p');
    assert("ascii"@[0] == 'a');
    assert("sixel"@[0] == 's');
    assert("kitty"@[0] == 'k');
    assert("ascii_luma"@[6] == 'l');
    assert("ascii_edge"@[6] == 'e');
    assert("ascii"@.len() == 5 && "ascii_luma"@.len() == 10 && "ascii_edge"@.len() == 10);
    assert("pixel"@.len() == 5 && "sixel"@.len() == 5 && "kitty"@.len() == 5);
}

/// What the terminal says of itself in its environment.
pub struct TermEnv {
    /// `TERM`, empty where unset.
    pub term: String,
    /// `COLORTERM`, empty where unset.
    pub colorterm: String,
    /// `TERM_PROGRAM`.
    pub term_program: Option<String>,
}

/// The best mode for a terminal.
pub open spec fn detected(env: TermEnv) -> Quality {
    if env.term@ == "xterm-kitty"@ {
        Quality::Kitty
    } else if env.term_program is Some && contains(
        lowered(env.term_program->0@),
        "wezterm"@,
    ) {
        Quality::Kitty
    } else if contains(env.term@, "sixel"@) || env.term@ == "mlterm"@ {
        Quality::Sixel
    } else if env.colorterm@ == "truecolor"@ || env.colorterm@ == "24bit"@ {
        Quality::Pixel
    } else {
        Quality::AsciiLuma
    }
}

/// Detect the best supported render mode from what the terminal says.
pub fn detect_quality(env: &TermEnv) -> (q: Quality)
    ensures
        q == detected(*env),
{
    let term: Vec<char> = chars_of(env.term.as_str());
    let colorterm: Vec<char> = chars_of(env.colorterm.as_str());

    // Kitty graphics protocol
    if is_str(term.as_slice(), "xterm-kitty") {
        return Quality::Kitty;
    }
    if let Some(prog) = &env.term_program {
        let p: Vec<char> = chars_of(prog.as_str());
        let l: Vec<char> = lower_all(p.as_slice());
        let wezterm: Vec<char> = chars_of("wezterm");
        if has_part(l.as_slice(), wezterm.as_slice()) {
            return Quality::Kitty;
        }
    }
    // Sixel

    let sixel: Vec<char> = chars_of("sixel");
    if has_part(term.as_slice(), sixel.as_slice()) || is_str(term.as_slice(), "mlterm") {
        return Quality::Sixel;
    }
    // Truecolor: halfblock pixel rendering works great

    if is_str(colorterm.as_slice(), "truecolor") || is_str(colorterm.as_slice(), "24bit") {
        return Quality::Pixel;
    }
    Quality::AsciiLuma
}

/// Output backend preference. `Auto` keeps the environment heuristic, `Drm`
/// always goes straight for DRM/KMS, `Terminal` always for the terminal.
#[derive(Clone, Copy, Debug, PartialEq, Eq, Structural)]
pub enum OutputPref {
    Auto,
    Drm,
    Terminal,
}

pub open spec fn output_named(s: Seq<char>) -> OutputPref {
    if s == "drm"@ || s == "kms"@ {
        OutputPref::Drm
    } else if s == "terminal"@ || s == "term"@ {
        OutputPref::Terminal
    } else {
        OutputPref::Auto
    }
}

impl OutputPref {
    pub fn from_str(s: &str) -> (o: Self)
        ensures
            o == output_named(s@),
    {
        let v: Vec<char> = chars_of(s);
        let c: &[char] = v.as_slice();
        if is_str(c, "drm") || is_str(c, "kms") {
            Self::Drm
        } else if is_str(c, "terminal") || is_str(c, "term") {
            Self::Terminal
        } else {
            Self::Auto
        }
    }
}

/// The modifier held down with a tiling keybind.
#[derive(Clone, Copy, Debug, PartialEq, Eq, Structural)]
pub enum ModKey {
    Super,
    Ctrl,
    Alt,
    Shift,
}

pub open spec fn mod_key_named(s: Seq<char>) -> ModKey {
    if s == "ctrl"@ {
        ModKey::Ctrl
    } else if s == "alt"@ {
        ModKey::Alt
    } else if s == "shift"@ {
        ModKey::Shift
    } else {
        ModKey::Super
    }
}

pub open spec fn mod_key_label(m: ModKey) -> Seq<char> {
    match m {
        ModKey::Super => "Super"@,
        ModKey::Ctrl => "Ctrl"@,
        ModKey::Alt => "Alt"@,
        ModKey::Shift => "Shift"@,
    }
}

impl ModKey {
    pub fn from_str(s: &str) -> (m: Self)
        ensures
            m == mod_key_named(s@),
    {
        let v: Vec<char> = chars_of(s);
        let c: &[char] = v.as_slice();
        if is_str(c, "ctrl") {
            Self::Ctrl
        } else if is_str(c, "alt") {
            Self::Alt
        } else if is_str(c, "shift") {
            Self::Shift
        } else {
            Self::Super
        }
    }

    pub fn label(&self) -> (s: &'static str)
        ensures
            s@ == mod_key_label(*self),
    {
        match self {
            Self::Super => "Super",
            Self::Ctrl => "Ctrl",
            Self::Alt => "Alt",
            Self::Shift => "Shift",
        }
    }
}

/// A tiling-layout operation a keybind can trigger.
#[derive(Clone, Copy, Debug, PartialEq, Eq, Structural)]
pub enum Action {
    FocusLeft,
    FocusRight,
    FocusUp,
    FocusDown,
    Swap,
    Rotate,
    Close,
    ResizeGrow,
    ResizeShrink,
}

pub open spec fn action_label(a: Action) -> Seq<char> {
    match a {
        Action::FocusLeft => "focus left"@,
        Action::FocusRight => "focus right"@,
        Action::FocusUp => "focus up"@,
        Action::FocusDown => "focus down"@,
        Action::Swap => "swap with next"@,
        Action::Rotate => "rotate split"@,
        Action::Close => "close window"@,
        Action::ResizeGrow => "resize grow"@,
        Action::ResizeShrink => "resize shrink"@,
    }
}

impl Action {
    pub fn label(&self) -> (s: &'static str)
        ensures
            s@ == action_label(*self),
    {
        match self {
            Self::FocusLeft => "focus left",
            Self::FocusRight => "focus right",
            Self::FocusUp => "focus up",
            Self::FocusDown => "focus down",
            Self::Swap => "swap with next",
            Self::Rotate => "rotate split",
            Self::Close => "close window",
            Self::ResizeGrow => "resize grow",
            Self::ResizeShrink => "resize shrink",
        }
    }
}

/// The keybinds. `binds` keeps declaration order: the help overlay lists them
/// in this order.
#[derive(Debug)]
pub struct Keybinds {
    pub mod_key: ModKey,
    pub binds: Vec<(char, Action)>,
}

/// The action of the first bind of `key`.
pub open spec fn bound_action(binds: Seq<(char, Action)>, key: char) -> Option<Action>
    decreases binds.len(),
{
    if binds.len() == 0 {
        None
    } else if binds[0].0 == key {
        Some(binds[0].1)
    } else {
        bound_action(binds.skip(1), key)
    }
}

/// The actions in help-menu order, each with the name of its field in the
/// `keybinds` table and its default key.
pub open spec fn bind_fields() -> Seq<(Seq<char>, char, Action)> {
    seq![
        ("focus_left"@, 'h', Action::FocusLeft),
        ("focus_right"@, 'l', Action::FocusRight),
        ("focus_up"@, 'k', Action::FocusUp),
        ("focus_down"@, 'j', Action::FocusDown),
        ("swap"@, 's', Action::Swap),
        ("rotate"@, 'r', Action::Rotate),
        ("close"@, 'q', Action::Close),
        ("resize_grow"@, '=', Action::ResizeGrow),
        ("resize_shrink"@, '-', Action::ResizeShrink),
    ]
}

/// The names of the fields of the `keybinds` table, in help-menu order.
pub fn bind_field_names() -> (r: [&'static str; 9])
    ensures
        forall|i: int| 0 <= i < 9 ==> (#[trigger] r@[i])@ == bind_fields()[i].0,
{
    [
        "focus_left",
        "focus_right",
        "focus_up",
        "focus_down",
        "swap",
        "rotate",
        "close",
        "resize_grow",
        "resize_shrink",
    ]
}

pub open spec fn default_binds() -> Seq<(char, Action)> {
    Seq::new(9, |i: int| (bind_fields()[i].1, bind_fields()[i].2))
}

impl Keybinds {
    pub fn action_for(&self, key: char) -> (a: Option<Action>)
        ensures
            a == bound_action(self.binds@, key),
    {
        assert(self.binds@.skip(0) =~= self.binds@);
        for i in 0..self.binds.len()
            invariant
                bound_action(self.binds@, key) == bound_action(self.binds@.skip(i as int), key),
        {
            assert(self.binds@.skip(i as int).skip(1) =~= self.binds@.skip(i + 1));
            let (k, a) = self.binds[i];
            if k == key {
                return Some(a);
            }
        }
        None
    }

    /// A copy.
    pub fn copy(&self) -> (r: Self)
        ensures
            r.mod_key == self.mod_key,
            r.binds@ == self.binds@,
    {
        let mut binds: Vec<(char, Action)> = Vec::new();
        for i in 0..self.binds.len()
            invariant
                binds@ =~= self.binds@.take(i as int),
        {
            binds.push(self.binds[i]);
        }
        assert(self.binds@.take(self.binds.len() as int) =~= self.binds@);
        Keybinds { mod_key: self.mod_key, binds }
    }
}

impl Default for Keybinds {
    fn default() -> (k: Self)
        ensures
            k.mod_key == ModKey::Super,
            k.binds@ == default_binds(),
    {
        let mut binds: Vec<(char, Action)> = Vec::new();
        binds.push(('h', Action::FocusLeft));
        binds.push(('l', Action::FocusRight));
        binds.push(('k', Action::FocusUp));
        binds.push(('j', Action::FocusDown));
        binds.push(('s', Action::Swap));
        binds.push(('r', Action::Rotate));
        binds.push(('q', Action::Close));
        binds.push(('=', Action::ResizeGrow));
        binds.push(('-', Action::ResizeShrink));
        assert(binds@ =~= default_binds());
        Self { mod_key: ModKey::Super, binds }
    }
}

/// The whole configuration.
#[derive(Debug)]
pub struct VeilConfig {
    pub quality: Quality,
    pub fps: u32,
    pub cage_timeout_secs: u32,
    pub input: bool,
    /// Whether to use GPU compute shaders for frame encoding.
    pub gpu_render: bool,
    pub keybinds: Keybinds,
    pub output: OutputPref,
    /// Bare background color (RGB), shown wherever no window covers.
    pub background: [u8; 3],
}

/// The values of a configuration.
#[verifier::ext_equal]
pub struct ConfigValues {
    pub quality: Quality,
    pub fps: u32,
    pub cage_timeout_secs: u32,
    pub input: bool,
    pub gpu_render: bool,
    pub mod_key: ModKey,
    pub binds: Seq<(char, Action)>,
    pub output: OutputPref,
    pub background: Seq<u8>,
}

impl View for VeilConfig {
    type V = ConfigValues;

    open spec fn view(&self) -> ConfigValues {
        ConfigValues {
            quality: self.quality,
            fps: self.fps,
            cage_timeout_secs: self.cage_timeout_secs,
            input: self.input,
            gpu_render: self.gpu_render,
            mod_key: self.keybinds.mod_key,
            binds: self.keybinds.binds@,
            output: self.output,
            background: self.background@,
        }
    }
}

pub open spec fn default_values() -> ConfigValues {
    ConfigValues {
        quality: Quality::Auto,
        fps: 60,
        cage_timeout_secs: 8,
        input: true,
        gpu_render: true,
        mod_key: ModKey::Super,
        binds: default_binds(),
        output: OutputPref::Auto,
        background: seq![0x8cu8, 0x8cu8, 0x8cu8],
    }
}

impl Default for VeilConfig {
    fn default() -> (c: Self)
        ensures
            c@ == default_values(),
    {
        let c = Self {
            quality: Quality::Auto,
            fps: 60,
            cage_timeout_secs: 8,
            input: true,
            gpu_render: true,
            keybinds: Keybinds::default(),
            output: OutputPref::Auto,
            background: [0x8c, 0x8c, 0x8c],
        };
        assert(c@.background =~= default_values().background);
        c
    }
}

impl VeilConfig {
    /// Resolve `Quality::Auto` to a concrete mode based on terminal capabilities.
    pub fn resolved_quality(&self, env: &TermEnv) -> (q: Quality)
        ensures
            q == (if self.quality == Quality::Auto {
                detected(*env)
            } else {
                self.quality
            }),
            q != Quality::Auto,
    {
        if self.quality == Quality::Auto {
            detect_quality(env)
        } else {
            self.quality
        }
    }
}

// ── Colors ───────────────────────────────────────────────────────────────

/// The text without the `#` that it may start with.
pub open spec fn without_hash(s: Seq<char>) -> Seq<char> {
    if s.len() > 0 && s[0] == '#' {
        s.skip(1)
    } else {
        s
    }
}

/// The color that six hexadecimal digits write, two for each of red, green
/// and blue, after at most one `#`; `None` for everything else.
pub open spec fn hex_color(s: Seq<char>) -> Option<Seq<u8>> {
    let d = without_hash(trim(s));
    if d.len() == 6 && (forall|i: int| 0 <= i < 6 ==> hex_value(#[trigger] d[i]) is Some) {
        Some(
            Seq::new(
                3,
                |i: int| (hex_value(d[2 * i])->0 * 16 + hex_value(d[2 * i + 1])->0) as u8,
            ),
        )
    } else {
        None
    }
}

fn hex_pair(hi: char, lo: char) -> (r: Option<u8>)
    ensures
        r is Some <==> hex_value(hi) is Some && hex_value(lo) is Some,
        r matches Some(v) ==> v == (hex_value(hi)->0 * 16 + hex_value(lo)->0) as u8,
{
    match hex_digit(hi) {
        Some(h) => match hex_digit(lo) {
            Some(l) => Some(h * 16 + l),
            None => None,
        },
        None => None,
    }
}

/// Parse `"#RRGGBB"` or `"RRGGBB"` into RGB bytes. `None` on anything else:
/// callers fall back to the default rather than rejecting the whole config.
pub fn parse_hex_color(s: &str) -> (r: Option<[u8; 3]>)
    ensures
        match r {
            Some(c) => hex_color(s@) == Some(c@),
            None => hex_color(s@) is None,
        },
{
    let v: Vec<char> = chars_of(s);
    let t: &[char] = trimmed(v.as_slice());
    let d: &[char] = if t.len() > 0 && t[0] == '#' {
        slice_subrange(t, 1, t.len())
    } else {
        t
    };
    assert(d@ =~= without_hash(trim(s@)));
    if d.len() != 6 {
        return None;
    }
    let r: Option<u8> = hex_pair(d[0], d[1]);
    let g: Option<u8> = hex_pair(d[2], d[3]);
    let b: Option<u8> = hex_pair(d[4], d[5]);
    match (r, g, b) {
        (Some(r), Some(g), Some(b)) => {
            let c: [u8; 3] = [r, g, b];
            assert(c@ =~= hex_color(s@)->0);
            Some(c)
        },
        _ => {
            assert(hex_value(d@[0]) is None || hex_value(d@[1]) is None || hex_value(d@[2]) is None
                || hex_value(d@[3]) is None || hex_value(d@[4]) is None || hex_value(d@[5])
                is None);
            None
        },
    }
}

// ── Globals of the script ────────────────────────────────────────────────

/// The values that a script left in its globals, each where it can be read as
/// the type that the configuration takes.
pub struct Globals {
    pub quality: Option<String>,
    pub fps: Option<u32>,
    pub cage_timeout_secs: Option<u32>,
    pub input: Option<bool>,
    pub gpu_render: Option<bool>,
    pub output: Option<String>,
    pub background: Option<String>,
    /// `keybinds.mod_key`, where `keybinds` is a table.
    pub mod_key: Option<String>,
    /// The fields of `keybinds` by [`bind_field_names`], where `keybinds` is a
    /// table; none where it is not.
    pub keys: Vec<Option<String>>,
}

/// What `Globals` says.
#[verifier::ext_equal]
pub struct GlobalValues {
    pub quality: Option<Seq<char>>,
    pub fps: Option<u32>,
    pub cage_timeout_secs: Option<u32>,
    pub input: Option<bool>,
    pub gpu_render: Option<bool>,
    pub output: Option<Seq<char>>,
    pub background: Option<Seq<char>>,
    pub mod_key: Option<Seq<char>>,
    pub keys: Seq<Option<Seq<char>>>,
}

pub open spec fn text_of(s: Option<String>) -> Option<Seq<char>> {
    match s {
        Some(t) => Some(t@),
        None => None,
    }
}

impl View for Globals {
    type V = GlobalValues;

    open spec fn view(&self) -> GlobalValues {
        GlobalValues {
            quality: text_of(self.quality),
            fps: self.fps,
            cage_timeout_secs: self.cage_timeout_secs,
            input: self.input,
            gpu_render: self.gpu_render,
            output: text_of(self.output),
            background: text_of(self.background),
            mod_key: text_of(self.mod_key),
            keys: Seq::new(self.keys@.len(), |i: int| text_of(self.keys@[i])),
        }
    }
}

/// The key that a field sets: its first character, ASCII letters in lower
/// case. An absent or empty field leaves the default.
pub open spec fn key_of(field: Option<Seq<char>>, default: char) -> char {
    match field {
        Some(s) => if s.len() > 0 {
            lower(s[0])
        } else {
            default
        },
        None => default,
    }
}

/// The configuration that the globals of a script give: each value where it
/// is there and has a meaning, the default otherwise.
pub open spec fn resolved(g: GlobalValues) -> ConfigValues {
    let d = default_values();
    ConfigValues {
        quality: match g.quality {
            Some(s) => quality_named(s),
            None => d.quality,
        },
        fps: match g.fps {
            Some(n) => n,
            None => d.fps,
        },
        cage_timeout_secs: match g.cage_timeout_secs {
            Some(n) => n,
            None => d.cage_timeout_secs,
        },
        input: match g.input {
            Some(b) => b,
            None => d.input,
        },
        gpu_render: match g.gpu_render {
            Some(b) => b,
            None => d.gpu_render,
        },
        mod_key: match g.mod_key {
            Some(s) => mod_key_named(s),
            None => d.mod_key,
        },
        binds: Seq::new(
            9,
            |i: int|
                (
                    key_of(
                        if i < g.keys.len() {
                            g.keys[i]
                        } else {
                            None
                        },
                        bind_fields()[i].1,
                    ),
                    bind_fields()[i].2,
                ),
        ),
        output: match g.output {
            Some(s) => output_named(s),
            None => d.output,
        },
        background: match g.background {
            Some(s) => match hex_color(s) {
                Some(c) => c,
                None => d.background,
            },
            None => d.background,
        },
    }
}

/// A script that sets nothing gives the default configuration.
pub proof fn law_empty_script_gives_defaults(g: GlobalValues)
    requires
        g.quality is None,
        g.fps is None,
        g.cage_timeout_secs is None,
        g.input is None,
        g.gpu_render is None,
        g.output is None,
        g.background is None,
        g.mod_key is None,
        forall|i: int| 0 <= i < g.keys.len() ==> #[trigger] g.keys[i] is None,
    ensures
        resolved(g) == default_values(),
{
    assert(resolved(g).binds =~= default_binds());
}

/// Every action keeps exactly one bind, in help-menu order, whatever the
/// script sets.
pub proof fn law_every_action_is_bound(g: GlobalValues)
    ensures
        resolved(g).binds.len() == 9,
        forall|i: int| 0 <= i < 9 ==> (#[trigger] resolved(g).binds[i]).1 == bind_fields()[i].2,
        forall|i: int, j: int|
            0 <= i < j < 9 ==> (#[trigger] resolved(g).binds[i]).1 != (#[trigger] resolved(
                g,
            ).binds[j]).1,
{
}

fn first_key(field: &Option<String>, default: char) -> (k: char)
    ensures
        k == key_of(text_of(*field), default),
{
    match field {
        Some(s) => {
            let v: Vec<char> = chars_of(s.as_str());
            if v.len() > 0 {
                to_lower(v[0])
            } else {
                default
            }
        },
        None => default,
    }
}

fn field_at(keys: &Vec<Option<String>>, i: usize, default: char) -> (k: char)
    ensures
        k == key_of(
            if i < keys@.len() {
                text_of(keys@[i as int])
            } else {
                None
            },
            default,
        ),
{
    if i < keys.len() {
        first_key(&keys[i], default)
    } else {
        default
    }
}

/// The keybinds that the globals of a script give.
pub fn parse_keybinds(g: &Globals) -> (k: Keybinds)
    ensures
        k.mod_key == resolved(g@).mod_key,
        k.binds@ == resolved(g@).binds,
{
    let mod_key: ModKey = match &g.mod_key {
        Some(s) => ModKey::from_str(s.as_str()),
        None => ModKey::Super,
    };
    let mut binds: Vec<(char, Action)> = Vec::new();
    binds.push((field_at(&g.keys, 0, 'h'), Action::FocusLeft));
    binds.push((field_at(&g.keys, 1, 'l'), Action::FocusRight));
    binds.push((field_at(&g.keys, 2, 'k'), Action::FocusUp));
    binds.push((field_at(&g.keys, 3, 'j'), Action::FocusDown));
    binds.push((field_at(&g.keys, 4, 's'), Action::Swap));
    binds.push((field_at(&g.keys, 5, 'r'), Action::Rotate));
    binds.push((field_at(&g.keys, 6, 'q'), Action::Close));
    binds.push((field_at(&g.keys, 7, '='), Action::ResizeGrow));
    binds.push((field_at(&g.keys, 8, '-'), Action::ResizeShrink));
    assert(binds@ =~= resolved(g@).binds);
    Keybinds { mod_key, binds }
}

/// The configuration that the globals of a script give.
pub fn config_from(g: &Globals) -> (c: VeilConfig)
    ensures
        c@ == resolved(g@),
{
    let d: VeilConfig = VeilConfig::default();
    let quality: Quality = match &g.quality {
        Some(s) => Quality::from_str(s.as_str()),
        None => d.quality,
    };
    let fps: u32 = match g.fps {
        Some(n) => n,
        None => d.fps,
    };
    let cage_timeout_secs: u32 = match g.cage_timeout_secs {
        Some(n) => n,
        None => d.cage_timeout_secs,
    };
    let input: bool = match g.input {
        Some(b) => b,
        None => d.input,
    };
    let gpu_render: bool = match g.gpu_render {
        Some(b) => b,
        None => d.gpu_render,
    };
    let output: OutputPref = match &g.output {
        Some(s) => OutputPref::from_str(s.as_str()),
        None => d.output,
    };
    let background: [u8; 3] = match &g.background {
        Some(s) => match parse_hex_color(s.as_str()) {
            Some(c) => c,
            None => d.background,
        },
        None => d.background,
    };
    let keybinds: Keybinds = parse_keybinds(g);
    VeilConfig {
        quality,
        fps,
        cage_timeout_secs,
        input,
        gpu_render,
        keybinds,
        output,
        background,
    }
}

/// How a configuration script ended.
pub enum ScriptRun {
    /// It does not compile, or raised an error.
    Failed,
    /// It ran to its end and left these globals.
    Ended(Globals),
}

/// What a configuration file says: the defaults where there is none that can
/// be read, and where its script failed, whatever that had set before. Else
/// what the globals of the script say.
pub open spec fn settled(run: Option<ScriptRun>) -> ConfigValues {
    match run {
        Some(ScriptRun::Ended(g)) => resolved(g@),
        _ => default_values(),
    }
}

/// The configuration of a file, by the run of its script. `None` where there
/// is no file that can be read.
pub fn load(run: Option<&ScriptRun>) -> (c: VeilConfig)
    ensures
        c@ == settled(
            match run {
                Some(r) => Some(*r),
                None => None,
            },
        ),
{
    match run {
        Some(ScriptRun::Ended(g)) => config_from(g),
        Some(ScriptRun::Failed) => VeilConfig::default(),
        None => VeilConfig::default(),
    }
}

// ── What a setting changes ───────────────────────────────────────────────

/// A setting of its own kind counts as it stands, and changes nothing else.
pub proof fn law_settings_stand_alone(g: GlobalValues, n: u32, b: bool)
    ensures
        resolved(GlobalValues { fps: Some(n), ..g }) == (ConfigValues { fps: n, ..resolved(g) }),
        resolved(GlobalValues { cage_timeout_secs: Some(n), ..g }) == (ConfigValues {
            cage_timeout_secs: n,
            ..resolved(g)
        }),
        resolved(GlobalValues { input: Some(b), ..g }) == (ConfigValues {
            input: b,
            ..resolved(g)
        }),
        resolved(GlobalValues { gpu_render: Some(b), ..g }) == (ConfigValues {
            gpu_render: b,
            ..resolved(g)
        }),
{
    let r = resolved(g);
    assert(resolved(GlobalValues { fps: Some(n), ..g }).binds =~= r.binds);
    assert(resolved(GlobalValues { cage_timeout_secs: Some(n), ..g }).binds =~= r.binds);
    assert(resolved(GlobalValues { input: Some(b), ..g }).binds =~= r.binds);
    assert(resolved(GlobalValues { gpu_render: Some(b), ..g }).binds =~= r.binds);
}

/// A background that is no color leaves the gray default; each pair of digits
/// of one that is gives a byte, red, green and blue in that order, with or
/// without a `#`.
pub proof fn law_background_is_read_in_pairs(d: Seq<char>, g: GlobalValues)
    requires
        d.len() == 6,
        forall|i: int| 0 <= i < 6 ==> hex_value(#[trigger] d[i]) is Some,
    ensures
        hex_color(d) matches Some(c) && c.len() == 3 && c[0] == 16 * hex_value(d[0])->0 + hex_value(
            d[1],
        )->0 && c[1] == 16 * hex_value(d[2])->0 + hex_value(d[3])->0 && c[2] == 16 * hex_value(
            d[4],
        )->0 + hex_value(d[5])->0,
        hex_color(seq!['#'] + d) == hex_color(d),
        hex_color(seq!['#', '#'] + d) is None,
        hex_color(d.drop_last()) is None,
        resolved(GlobalValues { background: Some(d), ..g }).background == hex_color(d)->0,
        resolved(GlobalValues { background: Some(d.drop_last()), ..g }).background == seq![
            0x8cu8,
            0x8cu8,
            0x8cu8,
        ],
{
    assert(hex_value(d[0]) is Some && hex_value(d[5]) is Some && hex_value(d[1]) is Some
        && hex_value(d[2]) is Some && hex_value(d[3]) is Some && hex_value(d[4]) is Some);
    crate::text::lemma_trim_id(d);
    let one = seq!['#'] + d;
    crate::text::lemma_trim_id(one);
    assert(one.skip(1) =~= d);
    let two = seq!['#', '#'] + d;
    crate::text::lemma_trim_id(two);
    assert(two.skip(1) =~= one);
    let short = d.drop_last();
    assert(short[0] == d[0] && short[4] == d[4]);
    crate::text::lemma_trim_id(short);
    assert(without_hash(short).len() < 6);
}

/// A field binds its own action, to the first of its characters in lower case,
/// and leaves every other bind as it is.
pub proof fn law_fields_bind_their_actions(g: GlobalValues, i: int, c: char, rest: Seq<char>)
    requires
        g.keys.len() == 9,
        0 <= i < 9,
    ensures
        ({
            let set = resolved(
                GlobalValues { keys: g.keys.update(i, Some(seq![c] + rest)), ..g },
            ).binds;
            &&& set[i].0 == lower(c)
            &&& set[i].1 == resolved(g).binds[i].1
            &&& forall|k: int| 0 <= k < 9 && k != i ==> #[trigger] set[k] == resolved(g).binds[k]
        }),
        resolved(GlobalValues { keys: g.keys.update(i, Some(Seq::empty())), ..g }).binds[i]
            == resolved(GlobalValues { keys: g.keys.update(i, None), ..g }).binds[i],
{
}

/// A key does what its first bind says, and nothing where it has none.
pub proof fn law_first_bind_counts(a: Seq<(char, Action)>, b: Seq<(char, Action)>, key: char)
    ensures
        bound_action(a, key) is Some ==> bound_action(a + b, key) == bound_action(a, key),
        bound_action(a, key) is None ==> bound_action(a + b, key) == bound_action(b, key),
        bound_action(a, key) is None <==> forall|i: int| 0 <= i < a.len() ==> (#[trigger] a[i]).0 != key,
        a.len() > 0 && a[0].0 == key ==> bound_action(a, key) == Some(a[0].1),
    decreases a.len(),
{
    if a.len() == 0 {
        assert(a + b =~= b);
    } else {
        let t = a.skip(1);
        law_first_bind_counts(t, b, key);
        assert((a + b).skip(1) =~= t + b);
        assert((a + b)[0] == a[0]);
        assert forall|i: int| 0 < i < a.len() implies (#[trigger] a[i]) == t[i - 1] by {}
        if bound_action(a, key) is None {
            assert forall|i: int| 0 <= i < a.len() implies (#[trigger] a[i]).0 != key by {
                if i > 0 {
                    assert(t[i - 1].0 != key);
                }
            }
        }
        if forall|i: int| 0 <= i < a.len() ==> (#[trigger] a[i]).0 != key {
            assert(a[0].0 != key);
            assert forall|i: int| 0 <= i < t.len() implies (#[trigger] t[i]).0 != key by {
                assert(a[i + 1].0 != key);
            }
        }
    }
}

/// Every modifier is named by its label in lower case, and by no other text
/// but for the default.
pub proof fn law_modifiers_are_named_by_their_labels(m: ModKey, s: Seq<char>)
    ensures
        mod_key_named(lowered(mod_key_label(m))) == m,
        mod_key_named(s) != ModKey::Super ==> s == lowered(mod_key_label(mod_key_named(s))),
{
    reveal_strlit("Super");
    reveal_strlit("Ctrl");
    reveal_strlit("Alt");
    reveal_strlit("Shift");
    reveal_strlit("ctrl");
    reveal_strlit("alt");
    reveal_strlit("shift");
    assert(lowered("Ctrl"@) =~= "ctrl"@);
    assert(lowered("Alt"@) =~= "alt"@);
    assert(lowered("Shift"@) =~= "shift"@);
    let d = lowered("Super"@);
    assert(d.len() == 5 && d[1] == 'u');
    assert("shift"@[1] == 'h');
    assert("shift"@.len() == 5 && "alt"@.len() == 3 && "ctrl"@.len() == 4);
}

/// Every action has a label of its own.
pub proof fn law_labels_tell_actions_apart(a: Action, b: Action)
    requires
        action_label(a) == action_label(b),
    ensures
        a == b,
{
    reveal_strlit("focus left");
    reveal_strlit("focus right");
    reveal_strlit("focus up");
    reveal_strlit("focus down");
    reveal_strlit("swap with next");
    reveal_strlit("rotate split");
    reveal_strlit("close window");
    reveal_strlit("resize grow");
    reveal_strlit("resize shrink");
    assert("focus left"@.len() == 10 && "focus left"@[0] == 'f' && "focus left"@[6] == 'l');
    assert("focus right"@.len() == 11 && "focus right"@[0] == 'f' && "focus right"@[6] == 'r');
    assert("focus up"@.len() == 8 && "focus up"@[0] == 'f' && "focus up"@[6] == 'u');
    assert("focus down"@.len() == 10 && "focus down"@[0] == 'f' && "focus down"@[6] == 'd');
    assert("swap with next"@.len() == 14 && "swap with next"@[0] == 's' && "swap with next"@[6] == 'i');
    assert("rotate split"@.len() == 12 && "rotate split"@[0] == 'r' && "rotate split"@[6] == ' ');
    assert("close window"@.len() == 12 && "close window"@[0] == 'c' && "close window"@[6] == 'w');
    assert("resize grow"@.len() == 11 && "resize grow"@[0] == 'r' && "resize grow"@[6] == ' ');
    assert("resize shrink"@.len() == 13 && "resize shrink"@[0] == 'r' && "resize shrink"@[6] == ' ');
    let (x, y) = (action_label(a), action_label(b));
    assert(x.len() == y.len() && x[0] == y[0] && x[6] == y[6]);
}

/// A terminal is told by the strongest that it says of itself: the Kitty
/// protocol before Sixel, Sixel before true color, and plain text where it says
/// nothing. Detection always settles on a mode.
pub proof fn law_detection_prefers_the_better_mode(env: TermEnv)
    ensures
        detected(env) != Quality::Auto,
        env.term@ == "xterm-kitty"@ ==> detected(env) == Quality::Kitty,
        env.term_program matches Some(p) && lowered(p@) == "wezterm"@ ==> detected(env)
            == Quality::Kitty,
        env.term_program is None && env.term@ == "mlterm"@ ==> detected(env) == Quality::Sixel,
        detected(env) == Quality::Pixel ==> env.colorterm@ == "truecolor"@ || env.colorterm@
            == "24bit"@,
        env.colorterm@ == "truecolor"@ || env.colorterm@ == "24bit"@ ==> detected(env)
            != Quality::AsciiLuma,
        env.term@.len() == 0 && env.colorterm@.len() == 0 && env.term_program is None ==> detected(
            env,
        ) == Quality::AsciiLuma,
{
    reveal_strlit("xterm-kitty");
    reveal_strlit("wezterm");
    reveal_strlit("sixel");
    reveal_strlit("mlterm");
    reveal_strlit("truecolor");
    reveal_strlit("24bit");
    let w = "wezterm"@;
    assert(w.subrange(0, w.len() as int) =~= w);
    assert(crate::text::occurs_at(w, w, 0));
    assert("mlterm"@.len() == 6 && "xterm-kitty"@.len() == 11);
}

/// Both names of an output choose it, and any other text leaves the choice to
/// the surroundings.
pub proof fn law_outputs_by_name(s: Seq<char>)
    ensures
        output_named(s) == OutputPref::Drm <==> s == "drm"@ || s == "kms"@,
        output_named(s) == OutputPref::Terminal <==> s == "terminal"@ || s == "term"@,
{
    reveal_strlit("drm");
    reveal_strlit("kms");
    reveal_strlit("terminal");
    reveal_strlit("term");
    assert("drm"@.len() == 3 && "kms"@.len() == 3 && "terminal"@.len() == 8 && "term"@.len() == 4);
}

/// A script that failed, and no script, give one and the same configuration.
pub proof fn law_failed_scripts_change_nothing(g: Globals)
    ensures
        settled(Some(ScriptRun::Failed)) == settled(None),
        settled(Some(ScriptRun::Ended(g))) == resolved(g@),
        settled(None).fps == 60,
        settled(None).quality == Quality::Auto,
        settled(None).mod_key == ModKey::Super,
{
}

/// Each default key does one thing: no two actions share a key, and every key
/// of the list does what stands beside it, the four directions on the keys of
/// the home row.
pub proof fn law_default_keys_differ(i: int, j: int)
    requires
        0 <= i < 9,
        0 <= j < 9,
    ensures
        default_binds().len() == 9,
        i != j ==> default_binds()[i].0 != default_binds()[j].0 && default_binds()[i].1
            != default_binds()[j].1,
        bound_action(default_binds(), default_binds()[i].0) == Some(default_binds()[i].1),
        bound_action(default_binds(), 'h') == Some(Action::FocusLeft),
        bound_action(default_binds(), 'j') == Some(Action::FocusDown),
        bound_action(default_binds(), 'k') == Some(Action::FocusUp),
        bound_action(default_binds(), 'l') == Some(Action::FocusRight),
        bound_action(default_binds(), '=') == Some(Action::ResizeGrow),
        bound_action(default_binds(), '-') == Some(Action::ResizeShrink),
        bound_action(default_binds(), '/') is None,
        bound_action(default_binds(), 'd') is None,
{
    let b = default_binds();
    lemma_bind_at(b, i);
    lemma_bind_at(b, 0);
    lemma_bind_at(b, 1);
    lemma_bind_at(b, 2);
    lemma_bind_at(b, 3);
    lemma_bind_at(b, 7);
    lemma_bind_at(b, 8);
    law_first_bind_counts(b, b, '/');
    law_first_bind_counts(b, b, 'd');
}

proof fn lemma_bind_at(b: Seq<(char, Action)>, i: int)
    requires
        0 <= i < b.len(),
        forall|j: int| 0 <= j < i ==> (#[trigger] b[j]).0 != b[i].0,
    ensures
        bound_action(b, b[i].0) == Some(b[i].1),
    decreases b.len(),
{
    if i > 0 {
        let t = b.skip(1);
        assert(t[i - 1] == b[i]);
        assert(b[0].0 != b[i].0);
        assert forall|j: int| 0 <= j < i - 1 implies (#[trigger] t[j]).0 != t[i - 1].0 by {
            assert(t[j] == b[j + 1]);
        }
        lemma_bind_at(t, i - 1);
    }
}

} // verus!
