use veil::environment::{EnvVar, Environment};
use veil::login::{
    avatar_file, avatar_query, check_prerequisites, chosen_session, env_strings, group_room, helper_argv, helper_request,
    lingering_fds, load_avatar, load_image, login_shell, path_has, pop_char, runtime_dir, seat_settings, session_argv,
    session_environment, session_index, user_initial, vt_number, wait_again, Attempts, LaunchError,
    Login,
};
use veil::session::{detect, from_desktop_file, index_of, ini_get, DesktopFile, SessionEntry};
use veil::state::{
    avatar_candidate, avatar_path, last_session, last_user, save_last_session, save_last_user, wallpaper_candidates,
    wallpaper_path,
};

fn var(k: &str, v: &[u8]) -> EnvVar {
    EnvVar { key: k.as_bytes().to_vec(), value: v.to_vec() }
}

fn login() -> Login {
    Login {
        username: "ann".to_string(),
        home: "/home/ann".to_string(),
        shell: "/bin/bash".to_string(),
        uid: 1000,
        vt: Some(2),
        has_runtime_dir: true,
    }
}

fn lines(e: &Environment) -> Vec<String> {
    env_strings(e).iter().map(|b| String::from_utf8_lossy(b).into_owned()).collect()
}

#[test]
fn an_empty_shell_is_the_usual_one() {
    assert_eq!(login_shell(b""), b"/bin/sh");
    assert_eq!(login_shell(b"/bin/z\xff"), b"/bin/z\xff");
}

#[test]
fn terminals_have_numbers() {
    assert_eq!(vt_number(Some("/dev/tty1")), Some(1));
    assert_eq!(vt_number(Some("/dev/tty/dev/tty12")), Some(12));
    assert_eq!(vt_number(Some("3")), Some(3));
    assert_eq!(vt_number(Some("/dev/pts/3")), None);
    assert_eq!(vt_number(Some("/dev/tty")), None);
    assert_eq!(vt_number(None), None);
}

#[test]
fn the_seat_is_announced_with_the_terminal() {
    let s = seat_settings(Some(4));
    assert_eq!(s.tty.as_deref(), Some("tty4"));
    assert_eq!(s.variables, ["XDG_VTNR=4", "XDG_SEAT=seat0", "XDG_SESSION_CLASS=user"]);
    let n = seat_settings(None);
    assert!(n.tty.is_none());
    assert_eq!(n.variables, ["XDG_SEAT=seat0", "XDG_SESSION_CLASS=user"]);
}

#[test]
fn the_session_gets_what_is_missing() {
    let e = session_environment(&vec![], &login());
    assert_eq!(
        lines(&e),
        [
            "HOME=/home/ann",
            "LOGNAME=ann",
            "PATH=/usr/local/sbin:/usr/local/bin:/usr/bin:/usr/sbin:/bin:/sbin:/home/ann/.local/bin",
            "SHELL=/bin/bash",
            "TERM=linux",
            "USER=ann",
            "XDG_RUNTIME_DIR=/run/user/1000",
            "XDG_SEAT=seat0",
            "XDG_SESSION_CLASS=user",
            "XDG_SESSION_TYPE=wayland",
            "XDG_VTNR=2",
        ]
    );
}

#[test]
fn what_the_stack_set_stays() {
    let mut l = login();
    l.vt = None;
    l.has_runtime_dir = false;
    let pam = vec![
        var("TERM", b"dumb"),
        var("PATH", b"/bin:/home/ann/.local/bin"),
        var("TERM", b"vt52"),
        var("A", b"x\0y"),
        var("B", b"\xff"),
    ];
    let e = session_environment(&pam, &l);
    assert_eq!(e.get(&b"TERM".to_vec()).unwrap(), b"vt52");
    assert_eq!(e.get(&b"PATH".to_vec()).unwrap(), b"/bin:/home/ann/.local/bin");
    assert_eq!(e.get(&b"A".to_vec()).unwrap(), b"x\0y");
    assert!(e.get(&b"XDG_VTNR".to_vec()).is_none());
    assert!(e.get(&b"XDG_RUNTIME_DIR".to_vec()).is_none());
    assert!(!lines(&e).iter().any(|s| s.starts_with("A=")));
    assert!(env_strings(&e).contains(&b"B=\xff".to_vec()));
}

#[test]
fn a_search_path_that_is_no_text_is_only_added_to() {
    let e = session_environment(&vec![var("PATH", b"/home/ann/.local/bin:\xff")], &login());
    assert_eq!(
        e.get(&b"PATH".to_vec()).unwrap(),
        b"/home/ann/.local/bin:\xff:/home/ann/.local/bin"
    );
    let dir: Vec<char> = "/b".chars().collect();
    assert!(path_has(b"/a:/b:/c", &dir));
    assert!(!path_has(b"/a:/bb", &dir));
    assert!(!path_has(b"\xff:/b", &dir));
    assert!(path_has("ä:/b".as_bytes(), &dir));
}

#[test]
fn variables_are_kept_in_order() {
    let mut e = Environment::new();
    for k in ["b", "a", "ab", "", "aa", "b"] {
        e.insert(k.as_bytes().to_vec(), b"1".to_vec());
    }
    e.set_default(b"a".to_vec(), b"2".to_vec());
    e.set_default(b"c".to_vec(), b"2".to_vec());
    let keys: Vec<&[u8]> = e.vars.iter().map(|v| v.key.as_slice()).collect();
    let want: [&[u8]; 6] = [b"", b"a", b"aa", b"ab", b"b", b"c"];
    assert_eq!(keys, want);
    assert_eq!(e.get(&b"a".to_vec()).unwrap(), b"1");
    assert_eq!(e.get(&b"c".to_vec()).unwrap(), b"2");
}

#[test]
fn the_shell_is_a_login_shell() {
    assert_eq!(session_argv(b"/bin/bash", "bash", "", "ann", b"/home/ann").unwrap(), ["-bash"]);
    assert_eq!(
        session_argv(b"/bin/bash", "bash", "niri --session", "ann", b"/home/ann").unwrap(),
        ["-bash", "-c", "exec niri --session"]
    );
}

#[test]
fn no_field_may_hold_a_nul() {
    let bad = |r: Result<Vec<String>, LaunchError>| matches!(r, Err(LaunchError::BadString));
    assert!(bad(session_argv(b"/bin\0", "bash", "", "ann", b"/")));
    assert!(bad(session_argv(b"/bin", "b\0", "", "ann", b"/")));
    assert!(bad(session_argv(b"/bin", "b", "x\0", "ann", b"/")));
    assert!(bad(session_argv(b"/bin", "b", "", "a\0", b"/")));
    assert!(bad(session_argv(b"/bin", "b", "", "a", b"\0")));
}

#[test]
fn the_helper_reads_back_what_the_greeter_wrote() {
    let entry = SessionEntry { name: "Niri".to_string(), command: "niri --session".to_string() };
    let argv = helper_argv("ann", &entry, 3).unwrap();
    assert_eq!(argv, ["velogin", "--session", "ann", "Niri", "niri --session", "3"]);
    let r = helper_request(&argv).unwrap();
    assert_eq!(r.username, "ann");
    assert_eq!(r.entry.name, "Niri");
    assert_eq!(r.entry.command, "niri --session");
    assert_eq!(r.password_fd, 3);
    assert!(helper_argv("a\0", &entry, 3).is_none());
}

#[test]
fn a_short_command_line_is_filled_up() {
    let v = |a: &[&str]| a.iter().map(|s| s.to_string()).collect::<Vec<_>>();
    assert!(helper_request(&v(&["velogin"])).is_none());
    assert!(helper_request(&v(&["velogin", "x"])).is_none());
    let r = helper_request(&v(&["velogin", "--session", "ann"])).unwrap();
    assert_eq!((r.username.as_str(), r.entry.name.as_str(), r.password_fd), ("ann", "", -1));
    let r = helper_request(&v(&["velogin", "--session", "ann", "n", "c", "x"])).unwrap();
    assert_eq!(r.password_fd, -1);
}

#[test]
fn descriptors_above_the_standard_ones_linger() {
    let v: Vec<String> = ["0", "1", "2", "3", "17", "x", "-4"].iter().map(|s| s.to_string()).collect();
    assert_eq!(lingering_fds(&v), [3, 17]);
}

#[test]
fn rooms_and_waits() {
    assert_eq!(group_room(100, 32), 100);
    assert_eq!(group_room(1, 32), 64);
    assert!(wait_again(-1, true) && !wait_again(-1, false) && !wait_again(7, true));
    assert_eq!(runtime_dir(0), "/run/user/0");
}

#[test]
fn failures_lengthen_the_wait() {
    let mut a = Attempts::new();
    assert_eq!(a.fail(true).cooldown, None);
    assert_eq!(a.fail(true).cooldown, None);
    let f = a.fail(false);
    assert_eq!(f.cooldown, Some(3));
    assert_eq!(f.message, "missing /etc/pam.d/velogin");
    assert_eq!(a.fail(true).cooldown, Some(6));
    assert_eq!(a.fail(true).message, "authentication failed");
    a.succeed();
    assert_eq!(a.fail(true).cooldown, None);
}

#[test]
fn prerequisites_are_warned_of() {
    assert!(check_prerequisites(true, false, false, false).is_empty());
    assert!(check_prerequisites(false, true, true, true).is_empty());
    assert_eq!(check_prerequisites(false, false, false, false).len(), 6);
    assert_eq!(
        check_prerequisites(false, true, true, false)[1],
        "systemctl enable --now seatd.service"
    );
}

#[test]
fn initials_and_editing() {
    assert_eq!(user_initial(" ann"), "A");
    assert_eq!(user_initial("ßa"), "SS");
    assert_eq!(user_initial("  "), "?");
    assert_eq!(pop_char("naïve"), "naïv");
    assert_eq!(pop_char("é"), "");
    assert_eq!(pop_char(""), "");
}

#[test]
fn sessions_are_found_in_order() {
    let file = |stem: &str, content: &str| DesktopFile {
        stem: stem.to_string(),
        content: content.to_string(),
    };
    let s = detect(&vec![
        file("niri", "[Desktop Entry]\nName=Niri\nExec=niri-session\n"),
        file("copy", "[Desktop Entry]\nName=Niri\nExec=other\n"),
        file("plain", "[Desktop Entry]\nExec = sway\n"),
        file("bad", "[Desktop Entry]\nName=Nothing\n"),
    ]);
    let names: Vec<&str> = s.iter().map(|e| e.name.as_str()).collect();
    assert_eq!(names, ["Veil", "Shell", "Niri", "plain"]);
    assert_eq!(s[0].command, "veil-host start");
    assert_eq!(s[1].command, "");
    assert_eq!(s[2].command, "niri-session");
    assert_eq!(index_of(&s, "plain"), Some(3));
    assert_eq!(index_of(&s, "gone"), None);
    assert_eq!(chosen_session(&s, 2).name, "Niri");
    assert_eq!(chosen_session(&s, 99).name, "Veil");
    assert_eq!(session_index(-1), 0);
    assert_eq!(session_index(5), 5);
}

#[test]
fn sections_have_their_own_values() {
    let text = "[A]\nx=1\n[B]\nx = 2 \nx=3\n";
    assert_eq!(ini_get(text, "B", "x").as_deref(), Some("2"));
    assert_eq!(ini_get(text, "A", "x").as_deref(), Some("1"));
    assert_eq!(ini_get(text, "A", "y"), None);
    assert_eq!(ini_get(text, "C", "x"), None);
    assert!(from_desktop_file("Exec=x", "s").is_none());
}

#[test]
fn names_are_remembered() {
    let f = save_last_user("ann");
    assert_eq!(last_user(Some(&f.content)).as_deref(), Some("ann"));
    let g = save_last_session("Niri");
    assert_eq!(last_session(Some(&g.content)).as_deref(), Some("Niri"));
    assert_ne!(f.path, g.path);
    assert_eq!(last_user(None), None);
    assert_eq!(last_user(Some(" \n")), None);
}

#[test]
fn pictures_and_wallpapers() {
    assert_eq!(avatar_path("ann", true).as_deref(), Some("/var/lib/AccountsService/icons/ann"));
    assert_eq!(avatar_path("ann", false), None);
    assert_eq!(avatar_candidate("ann"), avatar_path("ann", true));
    for name in ["../etc", "a/b", "..", ""] {
        assert_eq!(avatar_path(name, true), None);
        assert_eq!(avatar_candidate(name), None);
    }
    let c = wallpaper_candidates();
    assert_eq!(wallpaper_path([false, true, true]).as_deref(), Some(c[1]));
    assert_eq!(wallpaper_path([false, false, false]), None);
}

#[test]
fn pictures_are_decoded() {
    let img = image::RgbaImage::from_pixel(2, 1, image::Rgba([1, 2, 3, 4]));
    let mut file = std::io::Cursor::new(Vec::new());
    img.write_to(&mut file, image::ImageFormat::Png).unwrap();
    let bytes = file.into_inner();
    let p = load_image(Some(&bytes)).unwrap();
    assert_eq!((p.width, p.height), (2, 1));
    assert_eq!(p.rgba, [1, 2, 3, 4, 1, 2, 3, 4]);
    assert!(load_image(Some(b"no picture")).is_none());
    assert!(load_image(None).is_none());
    let a = load_avatar(" ann ", Some(&bytes));
    assert_eq!(a.initial, "A");
    assert_eq!(a.picture.unwrap().rgba.len(), 8);
    assert!(load_avatar("", None).picture.is_none());
    assert_eq!(avatar_file(" ann ", true).as_deref(), Some("/var/lib/AccountsService/icons/ann"));
    assert_eq!(avatar_file(" ann ", false), None);
    assert_eq!(avatar_query(" ann "), avatar_file(" ann ", true));
    assert_eq!(avatar_file("../ann", true), None);
    assert_eq!(avatar_query("  "), None);
}
