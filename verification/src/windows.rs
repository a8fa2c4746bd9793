//! Finding what to capture: the windows another compositor lists, the socket
//! of a nested one, and the texts an accessibility query finds.

use vstd::prelude::*;
use crate::json::{leaf_at, list_there, pair_at, parse_list, signed_of, text_or_empty, unsigned_of, whole_of};
use crate::json::{Leaf, Pair};
use crate::json::{at, contents, is_list, listed, said, signed_in, text_in, unsigned_in, whole_in, PairSaid, Scalar};
use crate::paths::join_path;
use crate::paths::path_join;
use crate::render::TextCell;
use crate::text::{
    append_str, chars_of, copy_str, has_part, has_prefix, has_suffix, lines_of, parse_unsigned,
    string_of, trimmed, words_of,
};
use crate::text::{bounded_number, decimal, ends_with, lines, starts_with, texts, trim, views, words};

verus! {

// ── Which compositor ─────────────────────────────────────────────────────

/// The compositor that runs the desktop.
#[derive(Debug, Clone, Copy, PartialEq, Eq, Structural)]
pub enum CompositorKind {
    Niri,
    Hyprland,
    Unknown,
}

/// The compositor whose variable is set in the environment.
pub fn detect_compositor(niri_socket: bool, hyprland_signature: bool) -> (k: CompositorKind)
    ensures
        k == (if niri_socket {
            CompositorKind::Niri
        } else if hyprland_signature {
            CompositorKind::Hyprland
        } else {
            CompositorKind::Unknown
        }),
{
    if niri_socket {
        CompositorKind::Niri
    } else if hyprland_signature {
        CompositorKind::Hyprland
    } else {
        CompositorKind::Unknown
    }
}

pub fn compositor_name(k: CompositorKind) -> (s: &'static str)
    ensures
        s@ == (match k {
            CompositorKind::Niri => "Niri"@,
            CompositorKind::Hyprland => "Hyprland"@,
            CompositorKind::Unknown => "unknown"@,
        }),
{
    match k {
        CompositorKind::Niri => "Niri",
        CompositorKind::Hyprland => "Hyprland",
        CompositorKind::Unknown => "unknown",
    }
}

// ── Its windows ──────────────────────────────────────────────────────────

/// A window as the compositor lists it.
#[derive(Debug)]
pub struct WindowInfo {
    pub pid: u32,
    pub app_id: String,
    pub title: String,
    pub x: i32,
    pub y: i32,
    pub w: u32,
    pub h: u32,
}

/// What a `WindowInfo` says.
#[verifier::ext_equal]
pub struct Listed {
    pub pid: u32,
    pub app_id: Seq<char>,
    pub title: Seq<char>,
    pub x: i32,
    pub y: i32,
    pub w: u32,
    pub h: u32,
}

impl View for WindowInfo {
    type V = Listed;

    open spec fn view(&self) -> Listed {
        Listed {
            pid: self.pid,
            app_id: self.app_id@,
            title: self.title@,
            x: self.x,
            y: self.y,
            w: self.w,
            h: self.h,
        }
    }
}

pub open spec fn listed_windows(v: Seq<WindowInfo>) -> Seq<Listed> {
    Seq::new(v.len(), |i: int| v[i]@)
}

pub open spec fn or_nothing(t: Option<Seq<char>>) -> Seq<char> {
    match t {
        Some(s) => s,
        None => Seq::empty(),
    }
}

pub open spec fn or_zero(n: Option<i64>) -> i64 {
    match n {
        Some(k) => k,
        None => 0,
    }
}

/// The fields of a window that Niri lists.
#[derive(Debug)]
pub struct NiriItem {
    pub pid: Option<Leaf>,
    pub app_id: Option<Leaf>,
    pub title: Option<Leaf>,
    pub window_size: Pair,
    pub tile_size: Pair,
    pub tile_pos: Pair,
    pub window_offset: Pair,
}

/// What a `NiriItem` says.
pub struct NiriSaid {
    pub pid: Option<Scalar>,
    pub app_id: Option<Scalar>,
    pub title: Option<Scalar>,
    pub window_size: PairSaid,
    pub tile_size: PairSaid,
    pub tile_pos: PairSaid,
    pub window_offset: PairSaid,
}

impl View for NiriItem {
    type V = NiriSaid;

    open spec fn view(&self) -> NiriSaid {
        NiriSaid {
            pid: said(self.pid),
            app_id: said(self.app_id),
            title: said(self.title),
            window_size: self.window_size@,
            tile_size: self.tile_size@,
            tile_pos: self.tile_pos@,
            window_offset: self.window_offset@,
        }
    }
}

/// A coordinate of a window: its tile's, and its own inside the tile.
pub open spec fn tile_coordinate(
    size: Option<Scalar>,
    pos: Option<Scalar>,
    offset: Option<Scalar>,
) -> i32 {
    (or_zero(signed_in(pos)) as i32).wrapping_mul(whole_in(size)).wrapping_add(whole_in(offset))
}

/// The window of an item, where it has a process and a size that is not
/// empty. It stands at the origin where its tile is not known.
pub open spec fn niri_window_of(n: NiriSaid) -> Option<Listed> {
    match (
        unsigned_in(n.pid),
        is_list(n.window_size.list),
        signed_in(n.window_size.first),
        signed_in(n.window_size.second),
    ) {
        (Some(pid), true, Some(w), Some(h)) => if w as u32 == 0 || h as u32 == 0 {
            None
        } else {
            let placed = is_list(n.tile_size.list) && is_list(n.tile_pos.list) && is_list(
                n.window_offset.list,
            );
            Some(
                Listed {
                    pid: pid as u32,
                    app_id: or_nothing(text_in(n.app_id)),
                    title: or_nothing(text_in(n.title)),
                    x: if placed {
                        tile_coordinate(
                            n.tile_size.first,
                            n.tile_pos.first,
                            n.window_offset.first,
                        )
                    } else {
                        0
                    },
                    y: if placed {
                        tile_coordinate(
                            n.tile_size.second,
                            n.tile_pos.second,
                            n.window_offset.second,
                        )
                    } else {
                        0
                    },
                    w: w as u32,
                    h: h as u32,
                },
            )
        },
        _ => None,
    }
}

fn coordinate(size: &Option<Leaf>, pos: &Option<Leaf>, offset: &Option<Leaf>) -> (r: i32)
    ensures
        r == tile_coordinate(said(*size), said(*pos), said(*offset)),
{
    let p: i64 = match signed_of(pos) {
        Some(k) => k,
        None => 0,
    };
    let at_tile: i32 = #[verifier::truncate] (p as i32);
    at_tile.wrapping_mul(whole_of(size)).wrapping_add(whole_of(offset))
}

/// The window of an item that Niri lists.
pub fn niri_window(n: &NiriItem) -> (r: Option<WindowInfo>)
    ensures
        match r {
            Some(w) => niri_window_of(n@) == Some(w@),
            None => niri_window_of(n@) is None,
        },
{
    let pid: u64 = match unsigned_of(&n.pid) {
        Some(p) => p,
        None => {
            return None;
        },
    };
    if !list_there(&n.window_size.list) {
        return None;
    }
    let w: i64 = match signed_of(&n.window_size.first) {
        Some(k) => k,
        None => {
            return None;
        },
    };
    let h: i64 = match signed_of(&n.window_size.second) {
        Some(k) => k,
        None => {
            return None;
        },
    };
    let ww: u32 = #[verifier::truncate] (w as u32);
    let wh: u32 = #[verifier::truncate] (h as u32);
    if ww == 0 || wh == 0 {
        return None;
    }
    let placed: bool = list_there(&n.tile_size.list) && list_there(&n.tile_pos.list) && list_there(
        &n.window_offset.list,
    );
    let x: i32 = if placed {
        coordinate(&n.tile_size.first, &n.tile_pos.first, &n.window_offset.first)
    } else {
        0
    };
    let y: i32 = if placed {
        coordinate(&n.tile_size.second, &n.tile_pos.second, &n.window_offset.second)
    } else {
        0
    };
    let short_pid: u32 = #[verifier::truncate] (pid as u32);
    let info: WindowInfo = WindowInfo {
        pid: short_pid,
        app_id: text_or_empty(&n.app_id),
        title: text_or_empty(&n.title),
        x,
        y,
        w: ww,
        h: wh,
    };
    assert(niri_window_of(n@)->0 =~= info@);
    Some(info)
}

/// The fields of an item by their places.
pub open spec fn niri_said(item: Map<Seq<char>, Scalar>) -> NiriSaid {
    NiriSaid {
        pid: at(item, "/pid"@),
        app_id: at(item, "/app_id"@),
        title: at(item, "/title"@),
        window_size: PairSaid {
            list: at(item, "/layout/window_size"@),
            first: at(item, "/layout/window_size/0"@),
            second: at(item, "/layout/window_size/1"@),
        },
        tile_size: PairSaid {
            list: at(item, "/layout/tile_size"@),
            first: at(item, "/layout/tile_size/0"@),
            second: at(item, "/layout/tile_size/1"@),
        },
        tile_pos: PairSaid {
            list: at(item, "/layout/tile_pos_in_workspace_view"@),
            first: at(item, "/layout/tile_pos_in_workspace_view/0"@),
            second: at(item, "/layout/tile_pos_in_workspace_view/1"@),
        },
        window_offset: PairSaid {
            list: at(item, "/layout/window_offset_in_tile"@),
            first: at(item, "/layout/window_offset_in_tile/0"@),
            second: at(item, "/layout/window_offset_in_tile/1"@),
        },
    }
}

fn niri_item(v: &serde_json::Value) -> (n: NiriItem)
    ensures
        n@ == niri_said(contents(*v)),
{
    NiriItem {
        pid: leaf_at(v, "/pid"),
        app_id: leaf_at(v, "/app_id"),
        title: leaf_at(v, "/title"),
        window_size: pair_at(
            v,
            "/layout/window_size",
            "/layout/window_size/0",
            "/layout/window_size/1",
        ),
        tile_size: pair_at(v, "/layout/tile_size", "/layout/tile_size/0", "/layout/tile_size/1"),
        tile_pos: pair_at(
            v,
            "/layout/tile_pos_in_workspace_view",
            "/layout/tile_pos_in_workspace_view/0",
            "/layout/tile_pos_in_workspace_view/1",
        ),
        window_offset: pair_at(
            v,
            "/layout/window_offset_in_tile",
            "/layout/window_offset_in_tile/0",
            "/layout/window_offset_in_tile/1",
        ),
    }
}

/// The fields of a window that Hyprland lists.
#[derive(Debug)]
pub struct HyprlandItem {
    pub mapped: Option<Leaf>,
    pub pid: Option<Leaf>,
    pub class: Option<Leaf>,
    pub title: Option<Leaf>,
    pub at: Pair,
    pub size: Pair,
}

/// What a `HyprlandItem` says.
pub struct HyprlandSaid {
    pub mapped: Option<Scalar>,
    pub pid: Option<Scalar>,
    pub class: Option<Scalar>,
    pub title: Option<Scalar>,
    pub at: PairSaid,
    pub size: PairSaid,
}

impl View for HyprlandItem {
    type V = HyprlandSaid;

    open spec fn view(&self) -> HyprlandSaid {
        HyprlandSaid {
            mapped: said(self.mapped),
            pid: said(self.pid),
            class: said(self.class),
            title: said(self.title),
            at: self.at@,
            size: self.size@,
        }
    }
}

/// The window of an item, where it is not known to be unmapped and has a
/// process, a place and a size that is not empty.
pub open spec fn hyprland_window_of(n: HyprlandSaid) -> Option<Listed> {
    if n.mapped == Some(Scalar::Bool(false)) {
        None
    } else {
        match (
            unsigned_in(n.pid),
            is_list(n.at.list) && is_list(n.size.list),
            unsigned_in(n.size.first),
            unsigned_in(n.size.second),
        ) {
            (Some(pid), true, Some(w), Some(h)) => if w as u32 == 0 || h as u32 == 0 {
                None
            } else {
                Some(
                    Listed {
                        pid: pid as u32,
                        app_id: or_nothing(text_in(n.class)),
                        title: or_nothing(text_in(n.title)),
                        x: or_zero(signed_in(n.at.first)) as i32,
                        y: or_zero(signed_in(n.at.second)) as i32,
                        w: w as u32,
                        h: h as u32,
                    },
                )
            },
            _ => None,
        }
    }
}

fn unmapped(l: &Option<Leaf>) -> (r: bool)
    ensures
        r == (said(*l) == Some(Scalar::Bool(false))),
{
    match l {
        Some(Leaf::Bool(b)) => !*b,
        _ => false,
    }
}

fn short_or_zero(l: &Option<Leaf>) -> (r: i32)
    ensures
        r == or_zero(signed_in(said(*l))) as i32,
{
    let k: i64 = match signed_of(l) {
        Some(k) => k,
        None => 0,
    };
    #[verifier::truncate]
    (k as i32)
}

/// The window of an item that Hyprland lists.
pub fn hyprland_window(n: &HyprlandItem) -> (r: Option<WindowInfo>)
    ensures
        match r {
            Some(w) => hyprland_window_of(n@) == Some(w@),
            None => hyprland_window_of(n@) is None,
        },
{
    if unmapped(&n.mapped) {
        return None;
    }
    let pid: u64 = match unsigned_of(&n.pid) {
        Some(p) => p,
        None => {
            return None;
        },
    };
    if !(list_there(&n.at.list) && list_there(&n.size.list)) {
        return None;
    }
    let w: u64 = match unsigned_of(&n.size.first) {
        Some(k) => k,
        None => {
            return None;
        },
    };
    let h: u64 = match unsigned_of(&n.size.second) {
        Some(k) => k,
        None => {
            return None;
        },
    };
    let ww: u32 = #[verifier::truncate] (w as u32);
    let wh: u32 = #[verifier::truncate] (h as u32);
    if ww == 0 || wh == 0 {
        return None;
    }
    let short_pid: u32 = #[verifier::truncate] (pid as u32);
    let info: WindowInfo = WindowInfo {
        pid: short_pid,
        app_id: text_or_empty(&n.class),
        title: text_or_empty(&n.title),
        x: short_or_zero(&n.at.first),
        y: short_or_zero(&n.at.second),
        w: ww,
        h: wh,
    };
    assert(hyprland_window_of(n@)->0 =~= info@);
    Some(info)
}

/// The fields of an item by their places.
pub open spec fn hyprland_said(item: Map<Seq<char>, Scalar>) -> HyprlandSaid {
    HyprlandSaid {
        mapped: at(item, "/mapped"@),
        pid: at(item, "/pid"@),
        class: at(item, "/class"@),
        title: at(item, "/title"@),
        at: PairSaid {
            list: at(item, "/at"@),
            first: at(item, "/at/0"@),
            second: at(item, "/at/1"@),
        },
        size: PairSaid {
            list: at(item, "/size"@),
            first: at(item, "/size/0"@),
            second: at(item, "/size/1"@),
        },
    }
}

fn hyprland_item(v: &serde_json::Value) -> (n: HyprlandItem)
    ensures
        n@ == hyprland_said(contents(*v)),
{
    HyprlandItem {
        mapped: leaf_at(v, "/mapped"),
        pid: leaf_at(v, "/pid"),
        class: leaf_at(v, "/class"),
        title: leaf_at(v, "/title"),
        at: pair_at(v, "/at", "/at/0", "/at/1"),
        size: pair_at(v, "/size", "/size/0", "/size/1"),
    }
}

/// The window of an item that a compositor of this kind lists.
pub open spec fn window_of(kind: CompositorKind, item: Map<Seq<char>, Scalar>) -> Option<Listed> {
    match kind {
        CompositorKind::Niri => niri_window_of(niri_said(item)),
        CompositorKind::Hyprland => hyprland_window_of(hyprland_said(item)),
        CompositorKind::Unknown => None,
    }
}

/// The windows of items, in order.
pub open spec fn windows_of(
    kind: CompositorKind,
    items: Seq<Map<Seq<char>, Scalar>>,
) -> Seq<Listed>
    decreases items.len(),
{
    if items.len() == 0 {
        Seq::empty()
    } else {
        let head = windows_of(kind, items.drop_last());
        match window_of(kind, items.last()) {
            Some(w) => head.push(w),
            None => head,
        }
    }
}

/// The windows in what a compositor of this kind prints; none where that is
/// no list.
pub open spec fn windows_in(kind: CompositorKind, printed: Seq<u8>) -> Seq<Listed> {
    match listed(printed) {
        Some(items) => windows_of(kind, items),
        None => Seq::empty(),
    }
}

fn window(kind: CompositorKind, v: &serde_json::Value) -> (r: Option<WindowInfo>)
    ensures
        match r {
            Some(w) => window_of(kind, contents(*v)) == Some(w@),
            None => window_of(kind, contents(*v)) is None,
        },
{
    match kind {
        CompositorKind::Niri => niri_window(&niri_item(v)),
        CompositorKind::Hyprland => hyprland_window(&hyprland_item(v)),
        CompositorKind::Unknown => None,
    }
}

/// The windows in what the compositor prints.
pub fn list_windows(kind: CompositorKind, printed: &[u8]) -> (r: Vec<WindowInfo>)
    ensures
        listed_windows(r@) == windows_in(kind, printed@),
{
    let mut out: Vec<WindowInfo> = Vec::new();
    assert(listed_windows(out@) =~= Seq::<Listed>::empty());
    let values: Vec<serde_json::Value> = match parse_list(printed) {
        Some(v) => v,
        None => {
            return out;
        },
    };
    let ghost items = values@.map_values(|x: serde_json::Value| contents(x));
    assert(items.take(0) =~= Seq::<Map<Seq<char>, Scalar>>::empty());
    for i in 0..values.len()
        invariant
            items == values@.map_values(|x: serde_json::Value| contents(x)),
            listed_windows(out@) == windows_of(kind, items.take(i as int)),
    {
        assert(items.take(i + 1).drop_last() =~= items.take(i as int));
        assert(items.take(i + 1).last() == contents(values@[i as int]));
        if let Some(w) = window(kind, &values[i]) {
            let ghost before = out@;
            let ghost x = w@;
            out.push(w);
            assert(listed_windows(out@) =~= listed_windows(before).push(x));
        }
    }
    assert(items.take(items.len() as int) =~= items);
    out
}

/// No window without a size is listed.
pub proof fn law_listed_windows_have_a_size(kind: CompositorKind, items: Seq<Map<Seq<char>, Scalar>>)
    ensures
        windows_of(kind, items).len() <= items.len(),
        forall|i: int|
            0 <= i < windows_of(kind, items).len() ==> (#[trigger] windows_of(kind, items)[i]).w > 0
                && windows_of(kind, items)[i].h > 0,
    decreases items.len(),
{
    if items.len() > 0 {
        law_listed_windows_have_a_size(kind, items.drop_last());
    }
}

/// The processes of windows.
pub fn snapshot_pids(windows: &Vec<WindowInfo>) -> (r: Vec<u32>)
    ensures
        r@ == Seq::new(windows@.len(), |i: int| windows@[i].pid),
{
    let mut out: Vec<u32> = Vec::new();
    for i in 0..windows.len()
        invariant
            out@ =~= Seq::new(i as nat, |j: int| windows@[j].pid),
    {
        out.push(windows[i].pid);
    }
    out
}

/// A window is the one that was waited for: it has a size, and its process is
/// new or descends from the one that was started.
pub open spec fn awaited(w: WindowInfo, known: Seq<u32>, descends: bool) -> bool {
    (!known.contains(w.pid) || descends) && w.w > 0 && w.h > 0
}

fn knows(known: &Vec<u32>, pid: u32) -> (r: bool)
    ensures
        r == known@.contains(pid),
{
    for i in 0..known.len()
        invariant
            forall|j: int| 0 <= j < i ==> known@[j] != pid,
    {
        if known[i] == pid {
            return true;
        }
    }
    false
}

/// The first window that was waited for. `descends` says of each window
/// whether its process descends from the one that was started.
pub fn new_window(known: &Vec<u32>, windows: &Vec<WindowInfo>, descends: &Vec<bool>) -> (r: Option<
    usize,
>)
    requires
        descends@.len() == windows@.len(),
    ensures
        match r {
            Some(i) => i < windows@.len() && awaited(
                windows@[i as int],
                known@,
                descends@[i as int],
            ) && (forall|j: int|
                0 <= j < i ==> !awaited(#[trigger] windows@[j], known@, descends@[j])),
            None => forall|j: int|
                0 <= j < windows@.len() ==> !awaited(#[trigger] windows@[j], known@, descends@[j]),
        },
{
    for i in 0..windows.len()
        invariant
            descends@.len() == windows@.len(),
            forall|j: int| 0 <= j < i ==> !awaited(#[trigger] windows@[j], known@, descends@[j]),
    {
        if !knows(known, windows[i].pid) || descends[i] {
            if windows[i].w > 0 && windows[i].h > 0 {
                return Some(i);
            }
        }
    }
    None
}

// ── Processes and sockets ────────────────────────────────────────────────

/// The first line that starts with `prefix`.
pub open spec fn line_with(ls: Seq<Seq<char>>, prefix: Seq<char>) -> Option<Seq<char>>
    decreases ls.len(),
{
    if ls.len() == 0 {
        None
    } else if starts_with(ls[0], prefix) {
        Some(ls[0])
    } else {
        line_with(ls.skip(1), prefix)
    }
}

/// The parent that the status of a process names.
pub open spec fn parent_in(status: Seq<char>) -> Option<int> {
    match line_with(lines(status), "PPid:"@) {
        Some(l) => if words(l).len() > 1 {
            bounded_number(words(l)[1], false, 0, u32::MAX as int)
        } else {
            None
        },
        None => None,
    }
}

fn parent_of(status: &str) -> (r: Option<u32>)
    ensures
        match r {
            Some(n) => parent_in(status@) == Some(n as int),
            None => parent_in(status@) is None,
        },
{
    let c: Vec<char> = chars_of(status);
    let prefix: Vec<char> = chars_of("PPid:");
    let ls: Vec<&[char]> = lines_of(c.as_slice());
    let ghost all = lines(c@);
    assert(all.skip(0) =~= all);
    for i in 0..ls.len()
        invariant
            views(ls@) == all,
            all == lines(status@),
            prefix@ == "PPid:"@,
            line_with(all, prefix@) == line_with(all.skip(i as int), prefix@),
    {
        assert(all[i as int] == ls@[i as int]@);
        assert(all.skip(i as int)[0] == all[i as int]);
        assert(all.skip(i as int).skip(1) =~= all.skip(i + 1));
        if has_prefix(ls[i], prefix.as_slice()) {
            let ws: Vec<&[char]> = words_of(ls[i]);
            assert(words(ls@[i as int]@) == views(ws@));
            if ws.len() > 1 {
                assert(views(ws@)[1] == ws@[1]@);
                return match parse_unsigned(ws[1], 0xffff_ffff) {
                    Some(n) => Some(n as u32),
                    None => None,
                };
            }
            return None;
        }
    }
    None
}

/// A process is another or its child. `status` is what the system says of it.
pub fn is_pid_descendant(parent: u32, candidate: u32, status: Option<&str>) -> (r: bool)
    ensures
        r == (candidate == parent || (status is Some && parent_in(status->0@) == Some(
            parent as int,
        ))),
{
    if candidate == parent {
        return true;
    }
    match status {
        Some(s) => match parent_of(s) {
            Some(p) => p == parent,
            None => false,
        },
        None => false,
    }
}

/// An entry of a directory.
pub struct RuntimeEntry {
    pub name: String,
    pub is_socket: bool,
}

/// The entry is the socket of a display.
pub open spec fn display_socket(e: RuntimeEntry) -> bool {
    starts_with(e.name@, "wayland-"@) && e.is_socket
}

fn is_display_socket(e: &RuntimeEntry) -> (r: bool)
    ensures
        r == display_socket(*e),
{
    let name: Vec<char> = chars_of(e.name.as_str());
    let prefix: Vec<char> = chars_of("wayland-");
    has_prefix(name.as_slice(), prefix.as_slice()) && e.is_socket
}

/// The sockets of displays among entries, in order.
pub open spec fn display_sockets(entries: Seq<RuntimeEntry>) -> Seq<Seq<char>>
    decreases entries.len(),
{
    if entries.len() == 0 {
        Seq::empty()
    } else {
        let head = display_sockets(entries.drop_last());
        if display_socket(entries.last()) {
            head.push(entries.last().name@)
        } else {
            head
        }
    }
}

/// The sockets of displays in the runtime directory.
pub fn wayland_sockets(entries: &Vec<RuntimeEntry>) -> (r: Vec<String>)
    ensures
        texts(r@) == display_sockets(entries@),
{
    let mut out: Vec<String> = Vec::new();
    assert(entries@.take(0) =~= Seq::<RuntimeEntry>::empty());
    assert(texts(out@) =~= Seq::<Seq<char>>::empty());
    for i in 0..entries.len()
        invariant
            texts(out@) == display_sockets(entries@.take(i as int)),
    {
        assert(entries@.take(i + 1).drop_last() =~= entries@.take(i as int));
        if is_display_socket(&entries[i]) {
            let ghost before = out@;
            out.push(copy_str(entries[i].name.as_str()));
            assert(texts(out@) =~= texts(before).push(entries@[i as int].name@));
        }
    }
    assert(entries@.take(entries.len() as int) =~= entries@);
    out
}

/// The entry is the socket of a display that was not there before.
pub open spec fn fresh_socket(e: RuntimeEntry, existing: Seq<Seq<char>>) -> bool {
    display_socket(e) && !existing.contains(e.name@)
}

fn named_in(names: &Vec<String>, name: &String) -> (r: bool)
    ensures
        r == texts(names@).contains(name@),
{
    for i in 0..names.len()
        invariant
            forall|j: int| 0 <= j < i ==> (#[trigger] names@[j])@ != name@,
    {
        if names[i] == *name {
            assert(texts(names@)[i as int] == name@);
            return true;
        }
    }
    assert forall|j: int| 0 <= j < texts(names@).len() implies #[trigger] texts(names@)[j]
        != name@ by {
        assert(names@[j]@ != name@);
    }
    false
}

/// The first socket of a display that was not there before.
pub fn new_socket(existing: &Vec<String>, entries: &Vec<RuntimeEntry>) -> (r: Option<String>)
    ensures
        match r {
            Some(s) => exists|i: int|
                0 <= i < entries@.len() && fresh_socket(#[trigger] entries@[i], texts(existing@))
                    && s@ == entries@[i].name@ && (forall|j: int|
                    0 <= j < i ==> !fresh_socket(#[trigger] entries@[j], texts(existing@))),
            None => forall|j: int|
                0 <= j < entries@.len() ==> !fresh_socket(
                    #[trigger] entries@[j],
                    texts(existing@),
                ),
        },
{
    for i in 0..entries.len()
        invariant
            forall|j: int|
                0 <= j < i ==> !fresh_socket(#[trigger] entries@[j], texts(existing@)),
    {
        if is_display_socket(&entries[i]) && !named_in(existing, &entries[i].name) {
            assert(fresh_socket(entries@[i as int], texts(existing@)));
            return Some(copy_str(entries[i].name.as_str()));
        }
    }
    None
}

/// The number of the socket that the link of an open file names
/// (`socket:[4711]`).
pub open spec fn inode_in(link: Seq<char>) -> Option<int> {
    let p = "socket:["@;
    if starts_with(link, p) && ends_with(link.skip(p.len() as int), "]"@) {
        let rest = link.skip(p.len() as int);
        bounded_number(rest.take(rest.len() - 1), false, 0, u64::MAX as int)
    } else {
        None
    }
}

pub fn socket_inode(link: &str) -> (r: Option<u64>)
    ensures
        match r {
            Some(n) => inode_in(link@) == Some(n as int),
            None => inode_in(link@) is None,
        },
{
    let c: Vec<char> = chars_of(link);
    let prefix: Vec<char> = chars_of("socket:[");
    let suffix: Vec<char> = chars_of("]");
    proof {
        reveal_strlit("]");
    }
    if !has_prefix(c.as_slice(), prefix.as_slice()) {
        return None;
    }
    let rest: &[char] = vstd::slice::slice_subrange(c.as_slice(), prefix.len(), c.len());
    assert(rest@ =~= link@.skip(prefix@.len() as int));
    if !has_suffix(rest, suffix.as_slice()) {
        return None;
    }
    let digits: &[char] = vstd::slice::slice_subrange(rest, 0, rest.len() - 1);
    assert(digits@ =~= rest@.take(rest@.len() - 1));
    parse_unsigned(digits, 0xffff_ffff_ffff_ffff)
}

/// The sockets that links name.
pub open spec fn inodes_in(links: Seq<Seq<char>>) -> Set<int> {
    Set::new(|n: int| exists|i: int| 0 <= i < links.len() && inode_in(#[trigger] links[i]) == Some(n))
}

/// The path in a line of the system's table of sockets, where its socket is
/// one of these and its path is a display's.
pub open spec fn path_in(line: Seq<char>, inodes: Set<int>, prefix: Seq<char>) -> Option<Seq<char>> {
    let ws = words(line);
    if ws.len() < 8 {
        None
    } else {
        let n = match bounded_number(ws[6], false, 0, u64::MAX as int) {
            Some(k) => k,
            None => 0,
        };
        if inodes.contains(n) && starts_with(ws[7], prefix) {
            Some(ws[7])
        } else {
            None
        }
    }
}

/// The first such path in lines.
pub open spec fn first_path(ls: Seq<Seq<char>>, inodes: Set<int>, prefix: Seq<char>) -> Option<
    Seq<char>,
>
    decreases ls.len(),
{
    if ls.len() == 0 {
        None
    } else {
        match path_in(ls[0], inodes, prefix) {
            Some(p) => Some(p),
            None => first_path(ls.skip(1), inodes, prefix),
        }
    }
}

/// The socket of the display that a process with these open files serves. The
/// first line of the table is its heading.
pub open spec fn served_socket(
    links: Seq<Seq<char>>,
    table: Option<Seq<char>>,
    runtime_dir: Seq<char>,
) -> Option<Seq<char>> {
    match table {
        Some(t) => if lines(t).len() == 0 {
            None
        } else {
            first_path(lines(t).skip(1), inodes_in(links), runtime_dir + "/wayland-"@)
        },
        None => None,
    }
}

fn holds(inodes: &Vec<u64>, n: u64) -> (r: bool)
    ensures
        r == inodes@.contains(n),
{
    for i in 0..inodes.len()
        invariant
            forall|j: int| 0 <= j < i ==> inodes@[j] != n,
    {
        if inodes[i] == n {
            return true;
        }
    }
    false
}

fn socket_inodes(links: &Vec<String>) -> (r: Vec<u64>)
    ensures
        forall|n: u64| r@.contains(n) <==> inodes_in(texts(links@)).contains(n as int),
{
    let mut out: Vec<u64> = Vec::new();
    let ghost all = texts(links@);
    for i in 0..links.len()
        invariant
            all == texts(links@),
            forall|n: u64|
                out@.contains(n) <==> exists|j: int|
                    0 <= j < i && inode_in(#[trigger] all[j]) == Some(n as int),
    {
        let ghost before = out@;
        assert(all[i as int] == links@[i as int]@);
        if let Some(n) = socket_inode(links[i].as_str()) {
            out.push(n);
            assert(out@ == before.push(n));
            assert forall|m: u64|
                out@.contains(m) <==> exists|j: int|
                    0 <= j < i + 1 && inode_in(#[trigger] all[j]) == Some(m as int) by {
                if out@.contains(m) {
                    if m == n {
                        assert(inode_in(all[i as int]) == Some(m as int));
                    } else {
                        let k = choose|k: int| 0 <= k < out@.len() && out@[k] == m;
                        assert(before[k] == m);
                        assert(before.contains(m));
                    }
                }
                if exists|j: int| 0 <= j < i + 1 && inode_in(#[trigger] all[j]) == Some(m as int) {
                    let j = choose|j: int|
                        0 <= j < i + 1 && inode_in(#[trigger] all[j]) == Some(m as int);
                    if j < i {
                        assert(before.contains(m));
                        let k = choose|k: int| 0 <= k < before.len() && before[k] == m;
                        assert(out@[k] == m);
                    } else {
                        assert(out@[before.len() as int] == m);
                    }
                }
            }
        }
    }
    out
}

/// The path of the display's socket in a line of the table.
fn path_of(line: &[char], inodes: &Vec<u64>, prefix: &[char], Ghost(set): Ghost<Set<int>>) -> (r:
    Option<String>)
    requires
        forall|n: u64| inodes@.contains(n) <==> set.contains(n as int),
    ensures
        match r {
            Some(p) => path_in(line@, set, prefix@) == Some(p@),
            None => path_in(line@, set, prefix@) is None,
        },
{
    let ws: Vec<&[char]> = words_of(line);
    if ws.len() < 8 {
        return None;
    }
    assert(views(ws@)[6] == ws@[6]@ && views(ws@)[7] == ws@[7]@);
    let n: u64 = match parse_unsigned(ws[6], 0xffff_ffff_ffff_ffff) {
        Some(k) => k,
        None => 0,
    };
    if holds(inodes, n) && has_prefix(ws[7], prefix) {
        Some(string_of(ws[7]))
    } else {
        None
    }
}

/// Finds the socket of the display that a nested compositor serves, from the
/// links of its open files and the system's table of sockets.
pub fn find_cage_socket(links: &Vec<String>, table: Option<&str>, runtime_dir: &str) -> (r: Option<
    String,
>)
    ensures
        ({
            let t = match table {
                Some(t) => Some(t@),
                None => None,
            };
            match r {
                Some(p) => served_socket(texts(links@), t, runtime_dir@) == Some(p@),
                None => served_socket(texts(links@), t, runtime_dir@) is None,
            }
        }),
{
    let inodes: Vec<u64> = socket_inodes(links);
    let ghost set = inodes_in(texts(links@));
    let t: &str = match table {
        Some(t) => t,
        None => {
            return None;
        },
    };
    let mut prefix: Vec<char> = chars_of(runtime_dir);
    append_str(&mut prefix, "/wayland-");
    let c: Vec<char> = chars_of(t);
    let ls: Vec<&[char]> = lines_of(c.as_slice());
    let ghost all = lines(c@);
    if ls.len() == 0 {
        return None;
    }
    let mut i: usize = 1;
    while i < ls.len()
        invariant
            1 <= i <= ls@.len(),
            views(ls@) == all,
            table == Some(t),
            all == lines(t@),
            set == inodes_in(texts(links@)),
            prefix@ == runtime_dir@ + "/wayland-"@,
            forall|n: u64| inodes@.contains(n) <==> set.contains(n as int),
            first_path(all.skip(1), set, prefix@) == first_path(all.skip(i as int), set, prefix@),
        ensures
            first_path(all.skip(1), set, prefix@) is None,
        decreases ls.len() - i,
    {
        assert(all[i as int] == ls@[i as int]@);
        assert(all.skip(i as int)[0] == all[i as int]);
        assert(all.skip(i as int).skip(1) =~= all.skip(i + 1));
        match path_of(ls[i], &inodes, prefix.as_slice(), Ghost(set)) {
            Some(p) => {
                return Some(p);
            },
            None => {},
        }
        i = i + 1;
    }
    None
}

/// The lines of a log that report an error.
pub open spec fn error_lines(ls: Seq<Seq<char>>) -> Seq<Seq<char>>
    decreases ls.len(),
{
    if ls.len() == 0 {
        Seq::empty()
    } else {
        let head = error_lines(ls.drop_last());
        if crate::text::contains(ls.last(), "[ERROR]"@) || crate::text::contains(
            ls.last(),
            "Failed"@,
        ) {
            head.push(ls.last())
        } else {
            head
        }
    }
}

pub fn log_errors(log: &str) -> (r: Vec<String>)
    ensures
        texts(r@) == error_lines(lines(log@)),
{
    let c: Vec<char> = chars_of(log);
    let ls: Vec<&[char]> = lines_of(c.as_slice());
    let error: Vec<char> = chars_of("[ERROR]");
    let failed: Vec<char> = chars_of("Failed");
    let ghost all = lines(c@);
    let mut out: Vec<String> = Vec::new();
    assert(all.take(0) =~= Seq::<Seq<char>>::empty());
    assert(texts(out@) =~= Seq::<Seq<char>>::empty());
    for i in 0..ls.len()
        invariant
            views(ls@) == all,
            error@ == "[ERROR]"@,
            failed@ == "Failed"@,
            texts(out@) == error_lines(all.take(i as int)),
    {
        assert(all[i as int] == ls@[i as int]@);
        assert(all.take(i + 1).drop_last() =~= all.take(i as int));
        if has_part(ls[i], error.as_slice()) || has_part(ls[i], failed.as_slice()) {
            let ghost before = out@;
            out.push(string_of(ls[i]));
            assert(texts(out@) =~= texts(before).push(all[i as int]));
        }
    }
    assert(all.take(all.len() as int) =~= all);
    out
}

// ── Where the parts of the program are ───────────────────────────────────

/// Where a part of the program may be, in order: next to the program, in the
/// system's library directory, in the user's.
pub open spec fn sibling_places(
    name: Seq<char>,
    exe_dir: Option<Seq<char>>,
    home: Option<Seq<char>>,
) -> Seq<Seq<char>> {
    (match exe_dir {
        Some(d) => seq![path_join(d, name)],
        None => Seq::<Seq<char>>::empty(),
    }) + seq![path_join("/usr/local/lib/veil"@, name)] + (match home {
        Some(h) => seq![path_join(path_join(h, ".local/lib/veil"@), name)],
        None => Seq::<Seq<char>>::empty(),
    })
}

pub fn sibling_candidates(name: &str, exe_dir: Option<&str>, home: Option<&str>) -> (r: Vec<String>)
    ensures
        texts(r@) == sibling_places(
            name@,
            match exe_dir {
                Some(d) => Some(d@),
                None => None,
            },
            match home {
                Some(h) => Some(h@),
                None => None,
            },
        ),
{
    let mut out: Vec<String> = Vec::new();
    if let Some(d) = exe_dir {
        out.push(join_path(d, name));
    }
    out.push(join_path("/usr/local/lib/veil", name));
    if let Some(h) = home {
        let lib: String = join_path(h, ".local/lib/veil");
        out.push(join_path(lib.as_str(), name));
    }
    assert(texts(out@) =~= sibling_places(
        name@,
        match exe_dir {
            Some(d) => Some(d@),
            None => None,
        },
        match home {
            Some(h) => Some(h@),
            None => None,
        },
    ));
    out
}

// ── Texts ────────────────────────────────────────────────────────────────

/// The place of a captured window.
#[derive(Debug, Clone, Copy)]
pub struct Geo {
    pub x: i32,
    pub y: i32,
    pub w: u32,
    pub h: u32,
}

/// A size as a signed 32-bit number, at least one where it has no more than 31
/// bits.
pub open spec fn signed_size(size: u32) -> int {
    if size < 1 {
        1
    } else if size <= i32::MAX {
        size as int
    } else {
        size - 0x1_0000_0000
    }
}

pub open spec fn magnitude(n: int) -> int {
    if n < 0 {
        -n
    } else {
        n
    }
}

/// The cell of `cells` in which a place lies, in a window of `size` that
/// starts at `origin`, in signed 32-bit arithmetic; what lies outside goes to
/// the nearest cell.
pub open spec fn cell_at(place: i32, origin: i32, size: u32, cells: u16) -> int {
    let s = signed_size(size);
    let d = place.wrapping_sub(origin).wrapping_mul(cells as i32);
    if (d < 0) != (s < 0) {
        0
    } else if magnitude(d as int) / magnitude(s) > cells - 1 {
        cells - 1
    } else {
        magnitude(d as int) / magnitude(s)
    }
}

fn cell_of(place: i32, origin: i32, size: u32, cells: u16) -> (r: u16)
    requires
        cells > 0,
    ensures
        r == cell_at(place, origin, size, cells),
{
    let s: i64 = if size < 1 {
        1
    } else if size <= 0x7fff_ffff {
        size as i64
    } else {
        size as i64 - 0x1_0000_0000
    };
    let d: i32 = place.wrapping_sub(origin).wrapping_mul(cells as i32);
    if (d < 0) != (s < 0) {
        return 0;
    }
    let q: i64 = if d < 0 {
        (-(d as i64)) / (-s)
    } else {
        d as i64 / s
    };
    proof {
        let m = magnitude(d as int);
        let n = magnitude(s as int);
        assert(0 <= m / n) by (nonlinear_arith)
            requires
                m >= 0,
                n >= 1,
        ;
    }
    if q > cells as i64 - 1 {
        cells - 1
    } else {
        q as u16
    }
}

/// The fields of a text that the accessibility query lists.
#[derive(Debug)]
pub struct TextItem {
    pub text: Option<Leaf>,
    pub x: Option<Leaf>,
    pub y: Option<Leaf>,
}

/// What a text cell says.
pub struct CellSaid {
    pub col: u16,
    pub row: u16,
    pub text: Seq<char>,
}

pub open spec fn cell_said(c: TextCell) -> CellSaid {
    CellSaid { col: c.col, row: c.row, text: c.text@ }
}

/// The text of an item in the grid over a window: trimmed, where there is any,
/// at the cell of its place.
pub open spec fn text_cell_of(
    text: Option<Scalar>,
    x: Option<Scalar>,
    y: Option<Scalar>,
    geo: Geo,
    cols: u16,
    rows: u16,
) -> Option<CellSaid> {
    match (text_in(text), signed_in(x), signed_in(y)) {
        (Some(t), Some(tx), Some(ty)) => if trim(t).len() == 0 {
            None
        } else {
            Some(
                CellSaid {
                    col: cell_at(tx as i32, geo.x, geo.w, cols) as u16,
                    row: cell_at(ty as i32, geo.y, geo.h, rows) as u16,
                    text: trim(t),
                },
            )
        },
        _ => None,
    }
}

/// The text of an item in the grid over a window.
pub fn text_cell(item: &TextItem, geo: &Geo, cols: u16, rows: u16) -> (r: Option<TextCell>)
    requires
        cols > 0,
        rows > 0,
    ensures
        ({
            let want = text_cell_of(
                said(item.text),
                said(item.x),
                said(item.y),
                *geo,
                cols,
                rows,
            );
            match r {
                Some(c) => want == Some(cell_said(c)),
                None => want is None,
            }
        }),
{
    let raw: &String = match &item.text {
        Some(Leaf::Text(t)) => t,
        _ => {
            return None;
        },
    };
    let c: Vec<char> = chars_of(raw.as_str());
    let t: &[char] = trimmed(c.as_slice());
    if t.len() == 0 {
        return None;
    }
    let tx: i64 = match signed_of(&item.x) {
        Some(k) => k,
        None => {
            return None;
        },
    };
    let ty: i64 = match signed_of(&item.y) {
        Some(k) => k,
        None => {
            return None;
        },
    };
    let px: i32 = #[verifier::truncate] (tx as i32);
    let py: i32 = #[verifier::truncate] (ty as i32);
    Some(
        TextCell {
            col: cell_of(px, geo.x, geo.w, cols),
            row: cell_of(py, geo.y, geo.h, rows),
            text: string_of(t),
        },
    )
}

/// The texts of items, in order.
pub open spec fn text_cells_of(
    items: Seq<Map<Seq<char>, Scalar>>,
    geo: Geo,
    cols: u16,
    rows: u16,
) -> Seq<CellSaid>
    decreases items.len(),
{
    if items.len() == 0 {
        Seq::empty()
    } else {
        let head = text_cells_of(items.drop_last(), geo, cols, rows);
        let e = items.last();
        match text_cell_of(at(e, "/text"@), at(e, "/x"@), at(e, "/y"@), geo, cols, rows) {
            Some(c) => head.push(c),
            None => head,
        }
    }
}

pub open spec fn cells_said(v: Seq<TextCell>) -> Seq<CellSaid> {
    Seq::new(v.len(), |i: int| cell_said(v[i]))
}

/// The texts in what the accessibility query prints; `None` where that is no
/// list.
pub fn query_atspi(printed: &[u8], geo: &Geo, cols: u16, rows: u16) -> (r: Option<Vec<TextCell>>)
    requires
        cols > 0,
        rows > 0,
    ensures
        r is Some <==> printed@.len() > 0 && listed(printed@) is Some,
        r matches Some(cells) ==> cells_said(cells@) == text_cells_of(
            listed(printed@)->0,
            *geo,
            cols,
            rows,
        ),
{
    if printed.len() == 0 {
        return None;
    }
    let values: Vec<serde_json::Value> = match parse_list(printed) {
        Some(v) => v,
        None => {
            return None;
        },
    };
    let ghost items = values@.map_values(|x: serde_json::Value| contents(x));
    let mut out: Vec<TextCell> = Vec::new();
    assert(items.take(0) =~= Seq::<Map<Seq<char>, Scalar>>::empty());
    assert(cells_said(out@) =~= Seq::<CellSaid>::empty());
    for i in 0..values.len()
        invariant
            cols > 0,
            rows > 0,
            items == values@.map_values(|x: serde_json::Value| contents(x)),
            cells_said(out@) == text_cells_of(items.take(i as int), *geo, cols, rows),
    {
        assert(items.take(i + 1).drop_last() =~= items.take(i as int));
        assert(items.take(i + 1).last() == contents(values@[i as int]));
        let v: &serde_json::Value = &values[i];
        let item: TextItem = TextItem {
            text: leaf_at(v, "/text"),
            x: leaf_at(v, "/x"),
            y: leaf_at(v, "/y"),
        };
        if let Some(c) = text_cell(&item, geo, cols, rows) {
            let ghost before = out@;
            let ghost x = cell_said(c);
            out.push(c);
            assert(cells_said(out@) =~= cells_said(before).push(x));
        }
    }
    assert(items.take(items.len() as int) =~= items);
    Some(out)
}

/// Every text lies on the grid.
pub proof fn law_texts_lie_on_the_grid(place: i32, origin: i32, size: u32, cells: u16)
    requires
        cells > 0,
    ensures
        0 <= cell_at(place, origin, size, cells) < cells,
{
    let m = magnitude(place.wrapping_sub(origin).wrapping_mul(cells as i32) as int);
    let n = magnitude(signed_size(size));
    assert(0 <= m / n) by (nonlinear_arith)
        requires
            m >= 0,
            n >= 1,
    ;
}

/// Lists are read item by item: two parts of a list give their windows one
/// after the other; an unknown compositor lists none.
pub proof fn law_items_are_read_in_order(
    kind: CompositorKind,
    a: Seq<Map<Seq<char>, Scalar>>,
    b: Seq<Map<Seq<char>, Scalar>>,
)
    ensures
        windows_of(kind, a + b) == windows_of(kind, a) + windows_of(kind, b),
        windows_of(CompositorKind::Unknown, b).len() == 0,
    decreases b.len(),
{
    if b.len() == 0 {
        assert(a + b =~= a);
        assert(windows_of(kind, a) + windows_of(kind, b) =~= windows_of(kind, a));
    } else {
        law_items_are_read_in_order(kind, a, b.drop_last());
        assert((a + b).drop_last() =~= a + b.drop_last());
        assert((a + b).last() == b.last());
        assert(windows_of(kind, a + b) =~= windows_of(kind, a) + windows_of(kind, b));
    }
}

/// A Hyprland window is listed with its process, names, place and size as they
/// stand, unless it is unmapped or empty.
pub proof fn law_hyprland_windows_are_listed(n: HyprlandSaid, pid: u32, x: i32, y: i32, w: u32, h: u32)
    requires
        is_list(n.at.list),
        is_list(n.size.list),
        unsigned_in(n.pid) == Some(pid as u64),
        signed_in(n.at.first) == Some(x as i64),
        signed_in(n.at.second) == Some(y as i64),
        unsigned_in(n.size.first) == Some(w as u64),
        unsigned_in(n.size.second) == Some(h as u64),
    ensures
        n.mapped == Some(Scalar::Bool(false)) || w == 0 || h == 0 <==> hyprland_window_of(n) is None,
        hyprland_window_of(n) matches Some(l) ==> l.pid == pid && l.x == x && l.y == y && l.w == w
            && l.h == h && l.app_id == or_nothing(text_in(n.class)) && l.title == or_nothing(
            text_in(n.title),
        ),
{
}

/// A Niri window stands at its tile's place, counted in tiles of its size, and
/// at its offset in the tile; at the origin where the tile is not known. A
/// window without a size is not listed.
pub proof fn law_niri_windows_stand_in_their_tiles(
    n: NiriSaid,
    pid: u32,
    w: u32,
    h: u32,
    column: i32,
    row: i32,
)
    requires
        is_list(n.window_size.list),
        unsigned_in(n.pid) == Some(pid as u64),
        signed_in(n.window_size.first) == Some(w as i64),
        signed_in(n.window_size.second) == Some(h as i64),
        signed_in(n.tile_pos.first) == Some(column as i64),
        signed_in(n.tile_pos.second) == Some(row as i64),
        i32::MIN <= column * whole_in(n.tile_size.first) <= i32::MAX,
        i32::MIN <= row * whole_in(n.tile_size.second) <= i32::MAX,
        i32::MIN <= column * whole_in(n.tile_size.first) + whole_in(n.window_offset.first)
            <= i32::MAX,
        i32::MIN <= row * whole_in(n.tile_size.second) + whole_in(n.window_offset.second)
            <= i32::MAX,
    ensures
        w == 0 || h == 0 <==> niri_window_of(n) is None,
        niri_window_of(n) matches Some(l) ==> {
            let placed = is_list(n.tile_size.list) && is_list(n.tile_pos.list) && is_list(
                n.window_offset.list,
            );
            &&& l.pid == pid && l.w == w && l.h == h
            &&& l.app_id == or_nothing(text_in(n.app_id)) && l.title == or_nothing(text_in(n.title))
            &&& placed ==> l.x == column * whole_in(n.tile_size.first) + whole_in(
                n.window_offset.first,
            ) && l.y == row * whole_in(n.tile_size.second) + whole_in(n.window_offset.second)
            &&& !placed ==> l.x == 0 && l.y == 0
        },
{
}

/// The parent of a process is the number in the first line that names it.
pub proof fn law_parents_are_read(n: u32, rest: Seq<char>)
    ensures
        parent_in("PPid:"@ + seq!['\t'] + decimal(n as nat) + seq!['\n'] + rest) == Some(n as int),
        parent_in(Seq::<char>::empty()) is None,
{
    reveal_strlit("PPid:");
    let p = "PPid:"@;
    let d = decimal(n as nat);
    crate::text::law_decimal_reads_back(n as nat);
    let line = p + seq!['\t'] + d;
    assert(crate::text::is_digit(d[d.len() - 1]));
    assert forall|i: int| 0 <= i < line.len() implies line[i] != '\n' by {
        if i >= 6 {
            assert(line[i] == d[i - 6]);
            assert(crate::text::is_digit(d[i - 6]));
        }
    }
    assert(line.last() == d.last());
    crate::text::law_lines_end_at_line_feeds(line, rest);
    let status = p + seq!['\t'] + d + seq!['\n'] + rest;
    assert(status =~= line + seq!['\n'] + rest);
    assert(lines(status)[0] == line);
    assert(line.subrange(0, 5) =~= p);
    crate::text::law_words_are_parted_by_white_space(p, '\t', d);
    assert forall|k: int| 0 <= k < d.len() implies !crate::text::white(#[trigger] d[k]) by {
        assert(crate::text::is_digit(d[k]));
    }
    crate::text::law_words_are_parted_by_white_space(d, '\t', p);
    assert(words(line) == words(p) + words(d));
    assert(words(line)[1] == d);
    crate::text::law_lines_end_at_line_feeds(Seq::<char>::empty(), rest);
}

/// The number of a socket is read from the link of an open file.
pub proof fn law_socket_links_are_read(n: u64)
    ensures
        inode_in("socket:["@ + decimal(n as nat) + "]"@) == Some(n as int),
        inode_in("socket:["@ + decimal(n as nat)) is None,
        inode_in(decimal(n as nat) + "]"@) is None,
{
    reveal_strlit("socket:[");
    reveal_strlit("]");
    let p = "socket:["@;
    let d = decimal(n as nat);
    crate::text::law_decimal_reads_back(n as nat);
    let link = p + d + "]"@;
    assert(link.subrange(0, 8) =~= p);
    let rest = link.skip(8);
    assert(rest =~= d + "]"@);
    assert(rest.subrange(rest.len() - 1, rest.len() as int) =~= "]"@);
    assert(rest.take(rest.len() - 1) =~= d);
    let open = p + d;
    assert(open.skip(8) =~= d);
    assert(crate::text::is_digit(d[d.len() - 1]));
    if ends_with(d, "]"@) {
        assert(d.subrange(d.len() - 1, d.len() as int)[0] == ']');
    }
    let bare = d + "]"@;
    assert(crate::text::is_digit(d[0]));
    if starts_with(bare, p) {
        assert(bare.subrange(0, 8)[0] == 's');
        assert(bare[0] == d[0]);
    }
}

/// A socket that is found is a display's in the runtime directory, and stands
/// in the table beside the number of one of the open sockets.
pub proof fn law_found_sockets_are_served(ls: Seq<Seq<char>>, inodes: Set<int>, prefix: Seq<char>)
    ensures
        first_path(ls, inodes, prefix) matches Some(p) ==> starts_with(p, prefix) && exists|i: int|
            0 <= i < ls.len() && words(#[trigger] ls[i]).len() >= 8 && words(ls[i])[7] == p
                && path_in(ls[i], inodes, prefix) == Some(p),
        first_path(ls, inodes, prefix) is None <==> forall|i: int|
            0 <= i < ls.len() ==> path_in(#[trigger] ls[i], inodes, prefix) is None,
    decreases ls.len(),
{
    if ls.len() > 0 {
        let t = ls.skip(1);
        law_found_sockets_are_served(t, inodes, prefix);
        if path_in(ls[0], inodes, prefix) is None {
            if let Some(p) = first_path(t, inodes, prefix) {
                let i = choose|i: int|
                    0 <= i < t.len() && words(#[trigger] t[i]).len() >= 8 && words(t[i])[7] == p
                        && path_in(t[i], inodes, prefix) == Some(p);
                assert(ls[i + 1] == t[i]);
                assert(path_in(ls[i + 1], inodes, prefix) == Some(p));
            } else {
                assert forall|i: int| 0 <= i < ls.len() implies path_in(
                    #[trigger] ls[i],
                    inodes,
                    prefix,
                ) is None by {
                    if i > 0 {
                        assert(t[i - 1] == ls[i]);
                    }
                }
            }
        }
    }
}

/// The sockets of displays are those entries that are sockets and are named
/// so, in order.
pub proof fn law_display_sockets_are_listed(entries: Seq<RuntimeEntry>, e: RuntimeEntry)
    ensures
        display_sockets(entries.push(e)) == (if e.is_socket && e.name@.len() >= 8 && e.name@.take(8)
            == "wayland-"@ {
            display_sockets(entries).push(e.name@)
        } else {
            display_sockets(entries)
        }),
{
    reveal_strlit("wayland-");
    assert(entries.push(e).drop_last() =~= entries);
    if e.name@.len() >= 8 {
        assert(e.name@.take(8) =~= e.name@.subrange(0, 8));
    }
}

/// A place inside a window lies in the cell that covers its share of the
/// window; a place before it lies in the first cell, one behind it in the last.
pub proof fn law_cells_cover_their_share(place: i32, origin: i32, size: u32, cells: u16)
    requires
        cells > 0,
        1 <= size <= i32::MAX,
        i32::MIN <= place - origin <= i32::MAX,
        i32::MIN <= (place - origin) * cells <= i32::MAX,
    ensures
        ({
            let c = cell_at(place, origin, size, cells);
            let d = place - origin;
            &&& 0 <= d < size ==> c * size <= d * cells < (c + 1) * size
            &&& d < 0 ==> c == 0
            &&& d >= size ==> c == cells - 1
        }),
{
    let d = place - origin;
    let m = d * cells;
    let n = size as int;
    let k = cells as int;
    assert(place.wrapping_sub(origin) == d);
    assert(place.wrapping_sub(origin).wrapping_mul(cells as i32) == m);
    assert(d < 0 <==> m < 0) by (nonlinear_arith)
        requires
            m == d * k,
            k > 0,
    ;
    if d >= 0 {
        assert(m / n * n <= m < (m / n + 1) * n && (d < n ==> m / n <= k - 1) && (d >= n ==> m / n
            >= k)) by (nonlinear_arith)
            requires
                m == d * k,
                d >= 0,
                n >= 1,
                k > 0,
        ;
    }
}

/// The lines of a log that report an error are those with one of the two
/// marks, in order.
pub proof fn law_marked_lines_are_errors(ls: Seq<Seq<char>>, a: Seq<char>, b: Seq<char>)
    ensures
        error_lines(ls.push(a + "[ERROR]"@ + b)) == error_lines(ls).push(a + "[ERROR]"@ + b),
        error_lines(ls.push(a + "Failed"@ + b)) == error_lines(ls).push(a + "Failed"@ + b),
        error_lines(ls.push(Seq::empty())) == error_lines(ls),
{
    reveal_strlit("[ERROR]");
    reveal_strlit("Failed");
    let x = a + "[ERROR]"@ + b;
    let y = a + "Failed"@ + b;
    assert(ls.push(x).drop_last() =~= ls);
    assert(ls.push(y).drop_last() =~= ls);
    assert(ls.push(Seq::<char>::empty()).drop_last() =~= ls);
    let n = a.len() as int;
    assert(x.subrange(n, n + 7) =~= "[ERROR]"@);
    assert(crate::text::occurs_at(x, "[ERROR]"@, n));
    assert(y.subrange(n, n + 6) =~= "Failed"@);
    assert(crate::text::occurs_at(y, "Failed"@, n));
}

} // verus!
