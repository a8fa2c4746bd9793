use veil::json::{Leaf, Number, Pair};
use veil::paths::{config_candidates, default_config_path, join_path, log_path};
use veil::windows::{
    compositor_name, detect_compositor, find_cage_socket, hyprland_window, is_pid_descendant,
    list_windows, log_errors, new_socket, new_window, niri_window, query_atspi, sibling_candidates,
    snapshot_pids, socket_inode, text_cell, wayland_sockets, CompositorKind, Geo, HyprlandItem,
    NiriItem, RuntimeEntry, TextItem, WindowInfo,
};

#[test]
fn compositors_are_known_by_their_variables() {
    assert_eq!(detect_compositor(true, true), CompositorKind::Niri);
    assert_eq!(detect_compositor(false, true), CompositorKind::Hyprland);
    assert_eq!(detect_compositor(false, false), CompositorKind::Unknown);
    assert_eq!(compositor_name(CompositorKind::Niri), "Niri");
    assert_eq!(compositor_name(CompositorKind::Hyprland), "Hyprland");
    assert_eq!(compositor_name(CompositorKind::Unknown), "unknown");
}

fn place(w: &WindowInfo) -> (u32, &str, &str, i32, i32, u32, u32) {
    (w.pid, &w.app_id, &w.title, w.x, w.y, w.w, w.h)
}

#[test]
fn niri_windows() {
    let json = br#"[
        {"pid": 7, "app_id": "foot", "title": "~", "layout": {
            "window_size": [800, 600], "tile_size": [810.9, 620.5],
            "tile_pos_in_workspace_view": [2, -1], "window_offset_in_tile": [5.7, -3.2]}},
        {"pid": 8, "layout": {"window_size": [10, 20]}},
        {"pid": 9, "layout": {"window_size": [0, 20]}},
        {"app_id": "none", "layout": {"window_size": [10, 20]}},
        {"pid": 10, "layout": {"window_size": {"0": 1, "1": 2}}},
        {"pid": 11, "layout": {"window_size": [10]}},
        {"pid": -1, "layout": {"window_size": [10, 20]}},
        17
    ]"#;
    let w = list_windows(CompositorKind::Niri, json);
    assert_eq!(w.len(), 2);
    assert_eq!(place(&w[0]), (7, "foot", "~", 1625, -623, 800, 600));
    assert_eq!(place(&w[1]), (8, "", "", 0, 0, 10, 20));
}

#[test]
fn hyprland_windows() {
    let json = br#"[
        {"mapped": true, "pid": 1, "class": "a", "title": "b", "at": [-3, 4], "size": [5, 6]},
        {"mapped": false, "pid": 2, "at": [0, 0], "size": [5, 6]},
        {"pid": 3, "at": ["x", 4.5], "size": [5, 6]},
        {"pid": 4, "at": [0, 0], "size": [-5, 6]},
        {"pid": 5, "size": [5, 6]},
        {"pid": 6, "at": [0, 0], "size": [5, 0]}
    ]"#;
    let w = list_windows(CompositorKind::Hyprland, json);
    assert_eq!(w.len(), 2);
    assert_eq!(place(&w[0]), (1, "a", "b", -3, 4, 5, 6));
    assert_eq!(place(&w[1]), (3, "", "", 0, 0, 5, 6));
    assert_eq!(snapshot_pids(&w), vec![1, 3]);
}

#[test]
fn what_is_no_list_has_no_windows() {
    assert!(list_windows(CompositorKind::Niri, b"{}").is_empty());
    assert!(list_windows(CompositorKind::Niri, b"").is_empty());
    assert!(list_windows(CompositorKind::Hyprland, b"[1,").is_empty());
    assert!(list_windows(CompositorKind::Unknown, b"[{\"pid\": 1}]").is_empty());
}

fn number(n: i64) -> Option<Leaf> {
    Some(Leaf::Number(Number {
        unsigned: if n < 0 { None } else { Some(n as u64) },
        signed: Some(n),
        whole: n as i32,
    }))
}

fn pair(a: i64, b: i64) -> Pair {
    Pair { list: Some(Leaf::Array(2)), first: number(a), second: number(b) }
}

fn no_pair() -> Pair {
    Pair { list: None, first: None, second: None }
}

#[test]
fn windows_by_their_fields() {
    let mut n = NiriItem {
        pid: number(4),
        app_id: Some(Leaf::Text("x".to_string())),
        title: Some(Leaf::Null),
        window_size: pair(3, 4),
        tile_size: pair(10, 20),
        tile_pos: pair(2, 3),
        window_offset: pair(1, 1),
    };
    assert_eq!(place(&niri_window(&n).unwrap()), (4, "x", "", 21, 61, 3, 4));
    n.tile_pos = no_pair();
    assert_eq!(place(&niri_window(&n).unwrap()), (4, "x", "", 0, 0, 3, 4));
    n.window_size = pair(0x1_0000_0000, 4);
    assert!(niri_window(&n).is_none());
    let mut h = HyprlandItem {
        mapped: Some(Leaf::Bool(true)),
        pid: number(4),
        class: None,
        title: None,
        at: pair(1, 2),
        size: pair(3, 4),
    };
    assert_eq!(place(&hyprland_window(&h).unwrap()), (4, "", "", 1, 2, 3, 4));
    h.mapped = Some(Leaf::Bool(false));
    assert!(hyprland_window(&h).is_none());
}

fn info(pid: u32, w: u32) -> WindowInfo {
    WindowInfo { pid, app_id: String::new(), title: String::new(), x: 0, y: 0, w, h: 1 }
}

#[test]
fn the_awaited_window_is_new_or_a_child() {
    let ws = vec![info(1, 5), info(2, 0), info(3, 5), info(4, 5)];
    let no = vec![false; 4];
    assert_eq!(new_window(&vec![1, 3], &ws, &no), Some(3));
    assert_eq!(new_window(&vec![1, 3, 4], &ws, &no), None);
    assert_eq!(new_window(&vec![1, 3, 4], &ws, &vec![false, true, true, false]), Some(2));
}

#[test]
fn children_are_known_by_their_status() {
    let status = "Name:\tfoot\nPid:\t9\nPPid:\t5\n";
    assert!(is_pid_descendant(5, 9, Some(status)));
    assert!(!is_pid_descendant(6, 9, Some(status)));
    assert!(is_pid_descendant(9, 9, None));
    assert!(!is_pid_descendant(5, 9, None));
    assert!(!is_pid_descendant(5, 9, Some("PPid:\n")));
    assert!(!is_pid_descendant(5, 9, Some("PPid: x\nPPid: 5\n")));
}

fn entry(name: &str, is_socket: bool) -> RuntimeEntry {
    RuntimeEntry { name: name.to_string(), is_socket }
}

#[test]
fn sockets_of_displays() {
    let dir = vec![
        entry("wayland-0", true), entry("wayland-0.lock", false), entry("bus", true),
        entry("wayland-1", true), entry("wayland-2", true),
    ];
    assert_eq!(wayland_sockets(&dir), ["wayland-0", "wayland-1", "wayland-2"]);
    assert_eq!(new_socket(&vec!["wayland-0".to_string()], &dir).as_deref(), Some("wayland-1"));
    assert_eq!(new_socket(&wayland_sockets(&dir), &dir), None);
}

#[test]
fn the_socket_a_process_serves() {
    assert_eq!(socket_inode("socket:[4711]"), Some(4711));
    assert_eq!(socket_inode("socket:[]"), None);
    assert_eq!(socket_inode("pipe:[4711]"), None);
    assert_eq!(socket_inode("socket:[4711"), None);
    let table = "Num RefCount Protocol Flags Type St Inode Path\n\
        0: 2 0 0 1 1 10 /run/user/1000/bus\n\
        0: 2 0 0 1 1 11 /run/user/1000/wayland-1\n\
        0: 2 0 0 1 1 12\n\
        0: 2 0 0 1 1 13 /run/user/1000/wayland-2\n";
    let links = |v: &[&str]| v.iter().map(|s| s.to_string()).collect::<Vec<_>>();
    let dir = "/run/user/1000";
    assert_eq!(
        find_cage_socket(&links(&["/dev/null", "socket:[10]", "socket:[13]"]), Some(table), dir).as_deref(),
        Some("/run/user/1000/wayland-2")
    );
    assert_eq!(find_cage_socket(&links(&["socket:[10]"]), Some(table), dir), None);
    assert_eq!(find_cage_socket(&links(&[]), Some(table), dir), None);
    assert_eq!(find_cage_socket(&links(&["socket:[11]"]), None, dir), None);
    assert_eq!(find_cage_socket(&links(&["socket:[11]"]), Some(""), dir), None);
}

#[test]
fn errors_in_a_log() {
    assert_eq!(
        log_errors("fine\n[ERROR] bad\nFailed to x\nok"),
        ["[ERROR] bad", "Failed to x"]
    );
}

#[test]
fn parts_are_looked_for_in_order() {
    assert_eq!(
        sibling_candidates("cage", Some("/opt/veil"), Some("/home/ann")),
        ["/opt/veil/cage", "/usr/local/lib/veil/cage", "/home/ann/.local/lib/veil/cage"]
    );
    assert_eq!(sibling_candidates("cage", None, None), ["/usr/local/lib/veil/cage"]);
}

#[test]
fn paths() {
    for (d, n) in [("/a", "b"), ("/a/", "b"), ("a", "/b"), ("", "b"), ("/", "b")] {
        let want = std::path::Path::new(d).join(n);
        assert_eq!(join_path(d, n), want.to_string_lossy());
    }
    assert_eq!(log_path(Some("/s"), Some("/h")), "/s/veil/veil.log");
    assert_eq!(log_path(None, Some("/h")), "/h/.local/state/veil/veil.log");
    assert_eq!(log_path(None, None), "./.local/state/veil/veil.log");
    assert_eq!(config_candidates(None, Some("/h")), ["config.lua", "/h/.config/veil/config.lua"]);
    assert_eq!(config_candidates(Some("/c"), None)[1], "/c/veil/config.lua");
    assert_eq!(default_config_path(Some("/h")), "/h/.config/veil-config.lua");
    assert_eq!(default_config_path(None), "veil-config.lua");
}

#[test]
fn texts_are_placed_on_the_grid() {
    let geo = Geo { x: 100, y: 50, w: 800, h: 240 };
    let json = br#"[
        {"text": "  hello ", "x": 500, "y": 170},
        {"text": " ", "x": 1, "y": 1},
        {"text": "left", "x": 0, "y": 9999},
        {"x": 1, "y": 1},
        {"text": "nowhere", "x": 1.5, "y": 1}
    ]"#;
    let cells = query_atspi(json, &geo, 80, 24).unwrap();
    assert_eq!(cells.len(), 2);
    assert_eq!((cells[0].col, cells[0].row, cells[0].text.as_str()), (40, 12, "hello"));
    assert_eq!((cells[1].col, cells[1].row, cells[1].text.as_str()), (0, 23, "left"));
    assert!(query_atspi(b"", &geo, 80, 24).is_none());
    assert!(query_atspi(b"no", &geo, 80, 24).is_none());
    let item = TextItem {
        text: Some(Leaf::Text("a".to_string())),
        x: number(100),
        y: number(50),
    };
    let c = text_cell(&item, &Geo { w: 0, ..geo }, 80, 24).unwrap();
    assert_eq!((c.col, c.row), (0, 0));
    // Sizes and places are signed 32-bit numbers.
    let item = TextItem {
        text: Some(Leaf::Text("a".to_string())),
        x: number(-20_000_000),
        y: number(30_000_000),
    };
    let wide = Geo { x: 0, y: 0, w: 3_000_000_000, h: 1_000_000_000 };
    let c = text_cell(&item, &wide, 100, 100).unwrap();
    assert_eq!((c.col, c.row), (1, 0));
}
