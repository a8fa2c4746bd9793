//! The command line of the host, and the settings it gives.

use vstd::prelude::*;
use crate::terminal::TerminalMode;
use crate::terminal::mode_named;
use crate::text::{chars_of, copy_str, has_prefix, is_str, parse_unsigned};
use crate::text::{bounded_number, starts_with, texts};

verus! {

/// How the host is started.
#[derive(Debug)]
pub struct HostConfig {
    pub socket_name: String,
    pub width: u32,
    pub height: u32,
    pub spawn: Option<Vec<String>>,
    pub wayland_debug: bool,
}

impl Default for HostConfig {
    fn default() -> (c: Self)
        ensures
            c.socket_name@ == "wayland-veil-0"@,
            c.width == 1280,
            c.height == 720,
            c.spawn is None,
            !c.wayland_debug,
    {
        HostConfig {
            socket_name: copy_str("wayland-veil-0"),
            width: 1280,
            height: 720,
            spawn: None,
            wayland_debug: false,
        }
    }
}

/// What is wrong with a command line.
#[derive(Debug)]
pub enum UsageError {
    UnknownSubcommand(String),
    UnknownFlag(String),
    /// The flag needs a value.
    MissingValue(String),
    UnknownMode(String),
    /// `run` without a command.
    NoCommand,
}

/// What a `UsageError` says.
pub enum Usage {
    UnknownSubcommand(Seq<char>),
    UnknownFlag(Seq<char>),
    MissingValue(Seq<char>),
    UnknownMode(Seq<char>),
    NoCommand,
}

impl View for UsageError {
    type V = Usage;

    open spec fn view(&self) -> Usage {
        match *self {
            UsageError::UnknownSubcommand(s) => Usage::UnknownSubcommand(s@),
            UsageError::UnknownFlag(s) => Usage::UnknownFlag(s@),
            UsageError::MissingValue(s) => Usage::MissingValue(s@),
            UsageError::UnknownMode(s) => Usage::UnknownMode(s@),
            UsageError::NoCommand => Usage::NoCommand,
        }
    }
}

/// The settings of `run`.
#[derive(Debug)]
pub struct RunArgs {
    pub socket: Option<String>,
    pub width: u32,
    pub height: u32,
    /// A size was given; it is not taken from the terminal.
    pub explicit_size: bool,
    pub debug: bool,
    pub append: bool,
    pub override_lock: bool,
    pub mode: Option<TerminalMode>,
    pub stats: bool,
    pub spawn: Vec<String>,
}

/// What `RunArgs` says.
#[verifier::ext_equal]
pub struct Run {
    pub socket: Option<Seq<char>>,
    pub width: u32,
    pub height: u32,
    pub explicit_size: bool,
    pub debug: bool,
    pub append: bool,
    pub override_lock: bool,
    pub mode: Option<TerminalMode>,
    pub stats: bool,
    pub spawn: Seq<Seq<char>>,
}

pub open spec fn text_of(s: Option<String>) -> Option<Seq<char>> {
    match s {
        Some(t) => Some(t@),
        None => None,
    }
}

impl View for RunArgs {
    type V = Run;

    open spec fn view(&self) -> Run {
        Run {
            socket: text_of(self.socket),
            width: self.width,
            height: self.height,
            explicit_size: self.explicit_size,
            debug: self.debug,
            append: self.append,
            override_lock: self.override_lock,
            mode: self.mode,
            stats: self.stats,
            spawn: texts(self.spawn@),
        }
    }
}

/// What a command line asks for.
#[derive(Debug)]
pub enum Command {
    Version,
    Help,
    Probe,
    ListModes,
    Stop,
    Run(RunArgs),
    Bad(UsageError),
}

/// What a `Command` says.
pub enum Asked {
    Version,
    Help,
    Probe,
    ListModes,
    Stop,
    Run(Run),
    Bad(Usage),
}

impl View for Command {
    type V = Asked;

    open spec fn view(&self) -> Asked {
        match *self {
            Command::Version => Asked::Version,
            Command::Help => Asked::Help,
            Command::Probe => Asked::Probe,
            Command::ListModes => Asked::ListModes,
            Command::Stop => Asked::Stop,
            Command::Run(r) => Asked::Run(r@),
            Command::Bad(e) => Asked::Bad(e@),
        }
    }
}

pub open spec fn no_settings() -> Run {
    Run {
        socket: None,
        width: 1280,
        height: 720,
        explicit_size: false,
        debug: false,
        append: false,
        override_lock: false,
        mode: None,
        stats: false,
        spawn: Seq::empty(),
    }
}

/// `arg` is the flag with this short and long name.
pub open spec fn flag(arg: Seq<char>, short: Seq<char>, long: Seq<char>) -> bool {
    arg == short || arg == long
}

/// The number that the next argument writes, or `default`.
pub open spec fn number_or(args: Seq<Seq<char>>, i: int, default: u32) -> u32 {
    if i < args.len() {
        match bounded_number(args[i], false, 0, u32::MAX as int) {
            Some(n) => n as u32,
            None => default,
        }
    } else {
        default
    }
}

/// Where reading goes on after a flag with a value at `i`.
pub open spec fn past_value(args: Seq<Seq<char>>, i: int) -> int {
    if i + 1 < args.len() {
        i + 2
    } else {
        i + 1
    }
}

/// The arguments of `run` from `i` on. Flags come before the command; the
/// command and everything after it are the client's.
pub open spec fn run_from(args: Seq<Seq<char>>, i: int, r: Run) -> Asked
    decreases args.len() - i,
{
    if i >= args.len() {
        if r.spawn.len() == 0 {
            Asked::Bad(Usage::NoCommand)
        } else {
            Asked::Run(r)
        }
    } else {
        let a = args[i];
        if r.spawn.len() > 0 {
            run_from(args, i + 1, Run { spawn: r.spawn.push(a), ..r })
        } else if a == "--help"@ {
            Asked::Help
        } else if flag(a, "-a"@, "--append"@) {
            run_from(args, i + 1, Run { append: true, ..r })
        } else if flag(a, "-O"@, "--override"@) {
            run_from(args, i + 1, Run { override_lock: true, ..r })
        } else if flag(a, "-d"@, "--debug"@) {
            run_from(args, i + 1, Run { debug: true, ..r })
        } else if a == "--stats"@ {
            run_from(args, i + 1, Run { stats: true, ..r })
        } else if flag(a, "-w"@, "--width"@) {
            run_from(
                args,
                past_value(args, i),
                Run { width: number_or(args, i + 1, r.width), explicit_size: true, ..r },
            )
        } else if flag(a, "-h"@, "--height"@) {
            run_from(
                args,
                past_value(args, i),
                Run { height: number_or(args, i + 1, r.height), explicit_size: true, ..r },
            )
        } else if flag(a, "-s"@, "--socket"@) {
            if i + 1 < args.len() {
                run_from(args, i + 2, Run { socket: Some(args[i + 1]), ..r })
            } else {
                Asked::Bad(Usage::MissingValue("--socket"@))
            }
        } else if flag(a, "-m"@, "--mode"@) {
            if i + 1 >= args.len() {
                Asked::Bad(Usage::MissingValue("--mode"@))
            } else if mode_named(args[i + 1]) is None {
                Asked::Bad(Usage::UnknownMode(args[i + 1]))
            } else {
                run_from(args, i + 2, Run { mode: mode_named(args[i + 1]), ..r })
            }
        } else if starts_with(a, seq!['-']) {
            Asked::Bad(Usage::UnknownFlag(a))
        } else {
            run_from(args, i + 1, Run { spawn: r.spawn.push(a), ..r })
        }
    }
}

/// What a command line (without the program's name) asks for.
pub open spec fn asked(args: Seq<Seq<char>>) -> Asked {
    let sub = if args.len() > 0 {
        args[0]
    } else {
        Seq::empty()
    };
    if sub == "-v"@ || sub == "--version"@ {
        Asked::Version
    } else if sub == "--help"@ {
        Asked::Help
    } else if sub == "probe"@ {
        Asked::Probe
    } else if sub == "list-modes"@ {
        Asked::ListModes
    } else if sub == "stop"@ {
        Asked::Stop
    } else if sub == "run"@ {
        run_from(args, 1, no_settings())
    } else {
        Asked::Bad(Usage::UnknownSubcommand(sub))
    }
}

fn flag_is(arg: &[char], short: &str, long: &str) -> (r: bool)
    ensures
        r == flag(arg@, short@, long@),
{
    is_str(arg, short) || is_str(arg, long)
}

fn number_at(args: &Vec<String>, i: usize, default: u32) -> (r: u32)
    ensures
        r == number_or(texts(args@), i as int, default),
{
    if i < args.len() {
        let v: Vec<char> = chars_of(args[i].as_str());
        match parse_unsigned(v.as_slice(), 0xffff_ffff) {
            Some(n) => n as u32,
            None => default,
        }
    } else {
        default
    }
}

fn parse_run(args: &Vec<String>) -> (c: Command)
    requires
        args@.len() >= 1,
        args@.len() < usize::MAX - 1,
    ensures
        c@ == run_from(texts(args@), 1, no_settings()),
{
    let mut r: RunArgs = RunArgs {
        socket: None,
        width: 1280,
        height: 720,
        explicit_size: false,
        debug: false,
        append: false,
        override_lock: false,
        mode: None,
        stats: false,
        spawn: Vec::new(),
    };
    let ghost all = texts(args@);
    assert(r@ =~= no_settings());
    let mut i: usize = 1;
    while i < args.len()
        invariant
            all == texts(args@),
            args@.len() < usize::MAX - 1,
            i <= args@.len() + 1,
            run_from(all, 1, no_settings()) == run_from(all, i as int, r@),
        decreases args.len() + 1 - i,
    {
        let a: Vec<char> = chars_of(args[i].as_str());
        let c: &[char] = a.as_slice();
        let ghost before = r@;
        assert(all[i as int] == c@);
        if r.spawn.len() > 0 {
            r.spawn.push(copy_str(args[i].as_str()));
            assert(r@ =~= (Run { spawn: before.spawn.push(c@), ..before }));
            i = i + 1;
        } else if is_str(c, "--help") {
            return Command::Help;
        } else if flag_is(c, "-a", "--append") {
            r.append = true;
            i = i + 1;
        } else if flag_is(c, "-O", "--override") {
            r.override_lock = true;
            i = i + 1;
        } else if flag_is(c, "-d", "--debug") {
            r.debug = true;
            i = i + 1;
        } else if is_str(c, "--stats") {
            r.stats = true;
            i = i + 1;
        } else if flag_is(c, "-w", "--width") {
            r.width = number_at(args, i + 1, r.width);
            r.explicit_size = true;
            if i + 1 < args.len() {
                i = i + 2;
            } else {
                i = i + 1;
            }
        } else if flag_is(c, "-h", "--height") {
            r.height = number_at(args, i + 1, r.height);
            r.explicit_size = true;
            if i + 1 < args.len() {
                i = i + 2;
            } else {
                i = i + 1;
            }
        } else if flag_is(c, "-s", "--socket") {
            if i + 1 < args.len() {
                r.socket = Some(copy_str(args[i + 1].as_str()));
                i = i + 2;
            } else {
                return Command::Bad(UsageError::MissingValue(copy_str("--socket")));
            }
        } else if flag_is(c, "-m", "--mode") {
            if i + 1 >= args.len() {
                return Command::Bad(UsageError::MissingValue(copy_str("--mode")));
            }
            match TerminalMode::from_name(args[i + 1].as_str()) {
                None => {
                    return Command::Bad(UsageError::UnknownMode(copy_str(args[i + 1].as_str())));
                },
                Some(m) => {
                    r.mode = Some(m);
                    i = i + 2;
                },
            }
        } else {
            let dash: [char; 1] = ['-'];
            assert(dash@ =~= seq!['-']);
            if has_prefix(c, &dash) {
                return Command::Bad(UsageError::UnknownFlag(copy_str(args[i].as_str())));
            }
            r.spawn.push(copy_str(args[i].as_str()));
            assert(r@ =~= (Run { spawn: before.spawn.push(c@), ..before }));
            i = i + 1;
        }
    }
    assert(r@.spawn.len() == r.spawn.len());
    if r.spawn.len() == 0 {
        Command::Bad(UsageError::NoCommand)
    } else {
        Command::Run(r)
    }
}

/// Reads a command line, without the program's name.
pub fn parse_args(args: &Vec<String>) -> (c: Command)
    requires
        args@.len() < usize::MAX - 1,
    ensures
        c@ == asked(texts(args@)),
{
    let sub: Vec<char> = if args.len() > 0 {
        chars_of(args[0].as_str())
    } else {
        Vec::new()
    };
    let c: &[char] = sub.as_slice();
    assert(c@ =~= (if texts(args@).len() > 0 {
        texts(args@)[0]
    } else {
        Seq::empty()
    }));
    if is_str(c, "-v") || is_str(c, "--version") {
        Command::Version
    } else if is_str(c, "--help") {
        Command::Help
    } else if is_str(c, "probe") {
        Command::Probe
    } else if is_str(c, "list-modes") {
        Command::ListModes
    } else if is_str(c, "stop") {
        Command::Stop
    } else if is_str(c, "run") {
        proof {
            reveal_strlit("run");
        }
        parse_run(args)
    } else {
        Command::Bad(UsageError::UnknownSubcommand(crate::text::string_of(c)))
    }
}

/// Everything after the command is handed to it as it stands: once a command
/// was read, no argument is a flag any more.
pub proof fn law_arguments_after_the_command_are_its_own(args: Seq<Seq<char>>, i: int, r: Run)
    requires
        0 <= i <= args.len(),
        r.spawn.len() > 0,
    ensures
        run_from(args, i, r) == Asked::Run(Run { spawn: r.spawn + args.skip(i), ..r }),
    decreases args.len() - i,
{
    if i >= args.len() {
        assert(r.spawn + args.skip(i) =~= r.spawn);
        assert((Run { spawn: r.spawn + args.skip(i), ..r }) =~= r);
    } else {
        let next = Run { spawn: r.spawn.push(args[i]), ..r };
        law_arguments_after_the_command_are_its_own(args, i + 1, next);
        assert(next.spawn + args.skip(i + 1) =~= r.spawn + args.skip(i));
    }
}

/// The size of the output: the one given, else the terminal's in pixels, else
/// 8×16 pixels for each of its cells.
pub fn output_size(r: &RunArgs, pixels: Option<(u32, u32)>, cols: u16, rows: u16) -> (s: (
    u32,
    u32,
))
    ensures
        s == (if r.explicit_size {
            (r.width, r.height)
        } else {
            match pixels {
                Some(p) => p,
                None => ((cols * 8) as u32, (rows * 16) as u32),
            }
        }),
{
    if r.explicit_size {
        (r.width, r.height)
    } else {
        match pixels {
            Some(p) => p,
            None => (cols as u32 * 8, rows as u32 * 16),
        }
    }
}

/// The pixel size that a terminal reports, where it knows it.
pub fn pixel_size(ok: bool, xpixel: u16, ypixel: u16) -> (r: Option<(u32, u32)>)
    ensures
        r == (if ok && xpixel > 0 && ypixel > 0 {
            Some((xpixel as u32, ypixel as u32))
        } else {
            None
        }),
{
    if ok && xpixel > 0 && ypixel > 0 {
        Some((xpixel as u32, ypixel as u32))
    } else {
        None
    }
}

/// How the host is started for `run`.
pub fn host_config(r: RunArgs, size: (u32, u32)) -> (c: HostConfig)
    ensures
        c.socket_name@ == (match r.socket {
            Some(s) => s@,
            None => "wayland-veil-0"@,
        }),
        c.width == size.0,
        c.height == size.1,
        c.wayland_debug == r.debug,
        c.spawn == Some(r.spawn),
{
    let socket_name: String = match r.socket {
        Some(s) => s,
        None => copy_str("wayland-veil-0"),
    };
    HostConfig {
        socket_name,
        width: size.0,
        height: size.1,
        spawn: Some(r.spawn),
        wayland_debug: r.debug,
    }
}

/// One row of the list of modes.
pub struct ModeRow {
    pub mode: TerminalMode,
    pub description: &'static str,
    pub requires_text: &'static str,
    /// This mode would be chosen.
    pub chosen: bool,
}

/// What a mode draws.
pub open spec fn mode_description(m: TerminalMode) -> Seq<char> {
    match m {
        TerminalMode::Kitty => "Kitty Graphics Protocol — native pixel images, best quality"@,
        TerminalMode::Halfblock => "Unicode ▀ half-blocks with 24-bit truecolor, 2× vertical res"@,
        TerminalMode::Ascii => "Luma-mapped ASCII characters, works in any terminal"@,
        TerminalMode::AsciiEdge => "Luma with hysteresis edge-detection, sharper than ascii"@,
    }
}

/// What a mode asks of the terminal.
pub open spec fn mode_needs(m: TerminalMode) -> Seq<char> {
    match m {
        TerminalMode::Kitty => "$TERM=xterm-kitty or WezTerm"@,
        TerminalMode::Halfblock => "$COLORTERM=truecolor or 24bit"@,
        _ => "any"@,
    }
}

/// The render modes, best first, with the one that would be chosen marked.
pub fn list_modes(chosen: TerminalMode) -> (rows: Vec<ModeRow>)
    ensures
        rows@.len() == 4,
        rows@[0].mode == TerminalMode::Kitty,
        rows@[1].mode == TerminalMode::Halfblock,
        rows@[2].mode == TerminalMode::Ascii,
        rows@[3].mode == TerminalMode::AsciiEdge,
        forall|i: int|
            0 <= i < 4 ==> {
                let row = #[trigger] rows@[i];
                &&& row.chosen == (row.mode == chosen)
                &&& row.description@ == mode_description(row.mode)
                &&& row.requires_text@ == mode_needs(row.mode)
            },
{
    let mut rows: Vec<ModeRow> = Vec::new();
    rows.push(
        ModeRow {
            mode: TerminalMode::Kitty,
            description: "Kitty Graphics Protocol — native pixel images, best quality",
            requires_text: "$TERM=xterm-kitty or WezTerm",
            chosen: chosen == TerminalMode::Kitty,
        },
    );
    rows.push(
        ModeRow {
            mode: TerminalMode::Halfblock,
            description: "Unicode ▀ half-blocks with 24-bit truecolor, 2× vertical res",
            requires_text: "$COLORTERM=truecolor or 24bit",
            chosen: chosen == TerminalMode::Halfblock,
        },
    );
    rows.push(
        ModeRow {
            mode: TerminalMode::Ascii,
            description: "Luma-mapped ASCII characters, works in any terminal",
            requires_text: "any",
            chosen: chosen == TerminalMode::Ascii,
        },
    );
    rows.push(
        ModeRow {
            mode: TerminalMode::AsciiEdge,
            description: "Luma with hysteresis edge-detection, sharper than ascii",
            requires_text: "any",
            chosen: chosen == TerminalMode::AsciiEdge,
        },
    );
    rows
}

proof fn lemma_flags_differ()
    ensures
        "--help"@.len() == 6 && "--help"@[2] == 'h',
        "-a"@.len() == 2 && "-a"@[1] == 'a',
        "--append"@.len() == 8 && "--append"@[2] == 'a',
        "-O"@.len() == 2 && "-O"@[1] == 'O',
        "--override"@.len() == 10,
        "-d"@.len() == 2 && "-d"@[1] == 'd',
        "--debug"@.len() == 7 && "--debug"@[2] == 'd',
        "--stats"@.len() == 7 && "--stats"@[2] == 's' && "--stats"@[3] == 't',
        "-w"@.len() == 2 && "-w"@[1] == 'w',
        "--width"@.len() == 7 && "--width"@[2] == 'w',
        "-h"@.len() == 2 && "-h"@[1] == 'h',
        "--height"@.len() == 8 && "--height"@[2] == 'h',
        "-s"@.len() == 2 && "-s"@[1] == 's',
        "--socket"@.len() == 8 && "--socket"@[2] == 's',
        "-m"@.len() == 2 && "-m"@[1] == 'm',
        "--mode"@.len() == 6 && "--mode"@[2] == 'm',
        "-a"@[0] == '-' && "-O"@[0] == '-' && "-d"@[0] == '-' && "-w"@[0] == '-' && "-h"@[0] == '-'
            && "-s"@[0] == '-' && "-m"@[0] == '-',
        "--help"@[0] == '-' && "--append"@[0] == '-' && "--override"@[0] == '-' && "--debug"@[0]
            == '-' && "--stats"@[0] == '-' && "--width"@[0] == '-' && "--height"@[0] == '-'
            && "--socket"@[0] == '-' && "--mode"@[0] == '-',
{
    reveal_strlit("--help");
    reveal_strlit("-a");
    reveal_strlit("--append");
    reveal_strlit("-O");
    reveal_strlit("--override");
    reveal_strlit("-d");
    reveal_strlit("--debug");
    reveal_strlit("--stats");
    reveal_strlit("-w");
    reveal_strlit("--width");
    reveal_strlit("-h");
    reveal_strlit("--height");
    reveal_strlit("-s");
    reveal_strlit("--socket");
    reveal_strlit("-m");
    reveal_strlit("--mode");
}

/// What is run is the end of the command line, from the first argument that is
/// neither a flag nor a flag's value; no setting that was made is lost on the
/// way there.
pub proof fn law_command_is_the_end_of_the_line(args: Seq<Seq<char>>, i: int, r: Run)
    requires
        0 <= i <= args.len(),
        r.spawn.len() == 0,
    ensures
        run_from(args, i, r) matches Asked::Run(x) ==> {
            &&& exists|k: int|
                i <= k < args.len() && #[trigger] args.skip(k) == x.spawn && !(args[k].len() > 0
                    && args[k][0] == '-')
            &&& r.append ==> x.append
            &&& r.override_lock ==> x.override_lock
            &&& r.debug ==> x.debug
            &&& r.stats ==> x.stats
            &&& r.explicit_size ==> x.explicit_size
            &&& r.socket is Some ==> x.socket is Some
            &&& r.mode is Some ==> x.mode is Some
            &&& !x.explicit_size ==> x.width == r.width && x.height == r.height
        },
    decreases args.len() - i,
{
    if i < args.len() {
        let a = args[i];
        if a == "--help"@ {
        } else if flag(a, "-a"@, "--append"@) {
            law_command_is_the_end_of_the_line(args, i + 1, Run { append: true, ..r });
        } else if flag(a, "-O"@, "--override"@) {
            law_command_is_the_end_of_the_line(args, i + 1, Run { override_lock: true, ..r });
        } else if flag(a, "-d"@, "--debug"@) {
            law_command_is_the_end_of_the_line(args, i + 1, Run { debug: true, ..r });
        } else if a == "--stats"@ {
            law_command_is_the_end_of_the_line(args, i + 1, Run { stats: true, ..r });
        } else if flag(a, "-w"@, "--width"@) {
            law_command_is_the_end_of_the_line(
                args,
                past_value(args, i),
                Run { width: number_or(args, i + 1, r.width), explicit_size: true, ..r },
            );
        } else if flag(a, "-h"@, "--height"@) {
            law_command_is_the_end_of_the_line(
                args,
                past_value(args, i),
                Run { height: number_or(args, i + 1, r.height), explicit_size: true, ..r },
            );
        } else if flag(a, "-s"@, "--socket"@) {
            if i + 1 < args.len() {
                law_command_is_the_end_of_the_line(
                    args,
                    i + 2,
                    Run { socket: Some(args[i + 1]), ..r },
                );
            }
        } else if flag(a, "-m"@, "--mode"@) {
            if i + 1 < args.len() && mode_named(args[i + 1]) is Some {
                law_command_is_the_end_of_the_line(
                    args,
                    i + 2,
                    Run { mode: mode_named(args[i + 1]), ..r },
                );
            }
        } else if !starts_with(a, seq!['-']) {
            law_arguments_after_the_command_are_its_own(
                args,
                i + 1,
                Run { spawn: r.spawn.push(a), ..r },
            );
            assert(r.spawn.push(a) + args.skip(i + 1) =~= args.skip(i));
            if a.len() > 0 && a[0] == '-' {
                assert(a.subrange(0, 1) =~= seq!['-']);
            }
        }
    }
}

/// A flag in front of a command makes its own setting and no other; sizes are
/// read as they are written.
pub proof fn law_flags_make_their_settings(
    args: Seq<Seq<char>>,
    i: int,
    r: Run,
    n: u32,
)
    requires
        0 <= i,
        i + 2 < args.len(),
        r.spawn.len() == 0,
        args[i + 1].len() == 0 || args[i + 1][0] != '-',
        args[i + 2].len() == 0 || args[i + 2][0] != '-',
    ensures
        ({
            let one = args.skip(i + 1);
            let two = args.skip(i + 2);
            let got = run_from(args, i, r);
            let a = args[i];
            &&& a == "-a"@ || a == "--append"@ ==> got == Asked::Run(
                Run { append: true, spawn: one, ..r },
            )
            &&& a == "-O"@ || a == "--override"@ ==> got == Asked::Run(
                Run { override_lock: true, spawn: one, ..r },
            )
            &&& a == "-d"@ || a == "--debug"@ ==> got == Asked::Run(
                Run { debug: true, spawn: one, ..r },
            )
            &&& a == "--stats"@ ==> got == Asked::Run(Run { stats: true, spawn: one, ..r })
            &&& (a == "-w"@ || a == "--width"@) && args[i + 1] == crate::text::decimal(n as nat)
                ==> got == Asked::Run(Run { width: n, explicit_size: true, spawn: two, ..r })
            &&& (a == "-h"@ || a == "--height"@) && args[i + 1] == crate::text::decimal(n as nat)
                ==> got == Asked::Run(Run { height: n, explicit_size: true, spawn: two, ..r })
            &&& a == "-s"@ || a == "--socket"@ ==> got == Asked::Run(
                Run { socket: Some(args[i + 1]), spawn: two, ..r },
            )
            &&& (a == "-m"@ || a == "--mode"@) && mode_named(args[i + 1]) is Some ==> got
                == Asked::Run(Run { mode: mode_named(args[i + 1]), spawn: two, ..r })
            &&& (a == "-m"@ || a == "--mode"@) && mode_named(args[i + 1]) is None ==> got
                == Asked::Bad(Usage::UnknownMode(args[i + 1]))
            &&& a == "--help"@ ==> got == Asked::Help
            &&& a.len() == 0 || a[0] != '-' ==> got == Asked::Run(Run { spawn: args.skip(i), ..r })
        }),
{
    lemma_flags_differ();
    crate::text::law_decimal_reads_back(n as nat);
    lemma_plain_command(args, i, r);
    lemma_plain_command(args, i + 1, Run { append: true, ..r });
    lemma_plain_command(args, i + 1, Run { override_lock: true, ..r });
    lemma_plain_command(args, i + 1, Run { debug: true, ..r });
    lemma_plain_command(args, i + 1, Run { stats: true, ..r });
    lemma_plain_command(args, i + 2, Run { width: n, explicit_size: true, ..r });
    lemma_plain_command(args, i + 2, Run { height: n, explicit_size: true, ..r });
    lemma_plain_command(args, i + 2, Run { socket: Some(args[i + 1]), ..r });
    lemma_plain_command(args, i + 2, Run { mode: mode_named(args[i + 1]), ..r });
}

proof fn lemma_plain_command(args: Seq<Seq<char>>, i: int, r: Run)
    requires
        0 <= i < args.len(),
        r.spawn.len() == 0,
    ensures
        args[i].len() == 0 || args[i][0] != '-' ==> run_from(args, i, r) == Asked::Run(
            Run { spawn: args.skip(i), ..r },
        ),
{
    let a = args[i];
    if a.len() == 0 || a[0] != '-' {
        lemma_flags_differ();
        law_arguments_after_the_command_are_its_own(
            args,
            i + 1,
            Run { spawn: r.spawn.push(a), ..r },
        );
        assert(r.spawn.push(a) + args.skip(i + 1) =~= args.skip(i));
        if starts_with(a, seq!['-']) {
            assert(a.subrange(0, 1)[0] == '-');
        }
    }
}

/// `run` needs a command, and an unknown flag in its place is refused by name.
pub proof fn law_run_needs_a_command(args: Seq<Seq<char>>, r: Run)
    requires
        args.len() > 0,
        r.spawn.len() == 0,
    ensures
        run_from(args, args.len() as int, r) == Asked::Bad(Usage::NoCommand),
        args.last() == "-x"@ ==> run_from(args, args.len() - 1, r) == Asked::Bad(
            Usage::UnknownFlag("-x"@),
        ),
        args.last() == "-s"@ || args.last() == "--socket"@ ==> run_from(args, args.len() - 1, r)
            == Asked::Bad(Usage::MissingValue("--socket"@)),
        args.last() == "-m"@ || args.last() == "--mode"@ ==> run_from(args, args.len() - 1, r)
            == Asked::Bad(Usage::MissingValue("--mode"@)),
{
    lemma_flags_differ();
    reveal_strlit("-x");
    let x = "-x"@;
    assert(x.len() == 2 && x[1] == 'x');
    assert(x.subrange(0, 1) =~= seq!['-']);
}

} // verus!
