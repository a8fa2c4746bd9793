use veil::args::{
    host_config, list_modes, output_size, parse_args, pixel_size, Command, HostConfig, RunArgs,
    UsageError,
};
use veil::terminal::TerminalMode;

fn args(v: &[&str]) -> Vec<String> {
    v.iter().map(|s| s.to_string()).collect()
}

fn run(v: &[&str]) -> RunArgs {
    match parse_args(&args(v)) {
        Command::Run(r) => r,
        other => panic!("{other:?}"),
    }
}

#[test]
fn subcommands() {
    assert!(matches!(parse_args(&args(&["-v"])), Command::Version));
    assert!(matches!(parse_args(&args(&["--version"])), Command::Version));
    assert!(matches!(parse_args(&args(&["--help"])), Command::Help));
    assert!(matches!(parse_args(&args(&["probe"])), Command::Probe));
    assert!(matches!(parse_args(&args(&["list-modes"])), Command::ListModes));
    assert!(matches!(parse_args(&args(&["stop"])), Command::Stop));
}

#[test]
fn run_takes_a_command() {
    let r = run(&["run", "thunar"]);
    assert_eq!(r.spawn, vec!["thunar"]);
    assert_eq!((r.width, r.height), (1280, 720));
    assert!(!r.explicit_size && !r.debug && !r.append && !r.override_lock && !r.stats);
    assert!(r.mode.is_none() && r.socket.is_none());
}

#[test]
fn run_takes_flags() {
    let r = run(&["run", "-d", "-m", "halfblock", "-w", "1920", "-h", "1080", "-O", "--stats", "foot"]);
    assert!(r.debug && r.override_lock && r.stats && r.explicit_size);
    assert_eq!(r.mode, Some(TerminalMode::Halfblock));
    assert_eq!((r.width, r.height), (1920, 1080));
    let a = run(&["run", "-a", "-s", "wayland-veil-1", "dolphin"]);
    assert!(a.append);
    assert_eq!(a.socket.as_deref(), Some("wayland-veil-1"));
}

#[test]
fn arguments_after_the_command_are_its_own() {
    let r = run(&["run", "firefox", "-d", "--help", "-w"]);
    assert_eq!(r.spawn, vec!["firefox", "-d", "--help", "-w"]);
    assert!(!r.debug);
}

#[test]
fn a_bad_size_keeps_the_default() {
    let r = run(&["run", "-w", "wide", "-h", "-1", "foot"]);
    assert_eq!((r.width, r.height), (1280, 720));
    assert!(r.explicit_size);
    assert_eq!(run(&["run", "-w", "+5", "foot"]).width, 5);
}

#[test]
fn usage_errors() {
    let bad = |v: &[&str]| match parse_args(&args(v)) {
        Command::Bad(e) => e,
        other => panic!("{other:?}"),
    };
    assert!(matches!(bad(&[]), UsageError::UnknownSubcommand(s) if s.is_empty()));
    assert!(matches!(bad(&["fly"]), UsageError::UnknownSubcommand(s) if s == "fly"));
    assert!(matches!(bad(&["run"]), UsageError::NoCommand));
    assert!(matches!(bad(&["run", "-d"]), UsageError::NoCommand));
    assert!(matches!(bad(&["run", "-w"]), UsageError::NoCommand));
    assert!(matches!(bad(&["run", "-x", "foot"]), UsageError::UnknownFlag(s) if s == "-x"));
    assert!(matches!(bad(&["run", "-s"]), UsageError::MissingValue(s) if s == "--socket"));
    assert!(matches!(bad(&["run", "-m"]), UsageError::MissingValue(s) if s == "--mode"));
    assert!(matches!(bad(&["run", "-m", "blurry", "foot"]), UsageError::UnknownMode(s) if s == "blurry"));
    assert!(matches!(parse_args(&args(&["run", "--help"])), Command::Help));
}

#[test]
fn sizes() {
    let r = run(&["run", "foot"]);
    assert_eq!(output_size(&r, Some((900, 700)), 80, 24), (900, 700));
    assert_eq!(output_size(&r, None, 80, 24), (640, 384));
    let e = run(&["run", "-w", "10", "foot"]);
    assert_eq!(output_size(&e, Some((900, 700)), 80, 24), (10, 720));
    assert_eq!(pixel_size(true, 900, 700), Some((900, 700)));
    assert_eq!(pixel_size(true, 0, 700), None);
    assert_eq!(pixel_size(false, 900, 700), None);
}

#[test]
fn the_host_is_configured_from_the_command_line() {
    let d = HostConfig::default();
    assert_eq!(d.socket_name, "wayland-veil-0");
    assert_eq!((d.width, d.height), (1280, 720));
    assert!(d.spawn.is_none() && !d.wayland_debug);
    let c = host_config(run(&["run", "-d", "-s", "w1", "foot", "-e"]), (640, 384));
    assert_eq!(c.socket_name, "w1");
    assert_eq!((c.width, c.height), (640, 384));
    assert_eq!(c.spawn, Some(args(&["foot", "-e"])));
    assert!(c.wayland_debug);
}

#[test]
fn the_chosen_mode_is_marked() {
    let rows = list_modes(TerminalMode::Ascii);
    let names: Vec<&str> = rows.iter().map(|r| r.mode.name()).collect();
    assert_eq!(names, ["kitty", "halfblock", "ascii", "ascii-edge"]);
    let marks: Vec<bool> = rows.iter().map(|r| r.chosen).collect();
    assert_eq!(marks, [false, false, true, false]);
    assert_eq!(rows[2].requires_text, "any");
    assert!(rows[0].description.starts_with("Kitty Graphics Protocol"));
}
