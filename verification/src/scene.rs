//! Compositing: all windows, their popups, the cursor and the overlays become
//! one RGBA frame.

use vstd::prelude::*;
use std::collections::HashMap;
use crate::canvas::{fits, lemma_painted_nothing, lemma_painted_same, lemma_painted_twice, painted};
use crate::canvas::{lemma_pixel_painted, pixel};
use crate::canvas::put_pixel;
use crate::config::{Action, Keybinds, ModKey};
use crate::launcher::{entries_of, Launcher};
use crate::layout::Rect;
use crate::overlay::{draw_help_overlay, draw_launcher_overlay};
use crate::overlay::{box_fits, help_drawn, help_lines, launcher_drawn, launcher_fits};
use crate::surface::{blit, SurfaceBuf};
use crate::surface::{blitted, law_surface_covers_its_rectangle};
use crate::text::chars_of;

verus! {

/// One rendered frame of the hosted scene.
///
/// `rgba` is tightly packed `width * height * 4` bytes, R-G-B-A order.
pub struct Frame {
    pub rgba: Vec<u8>,
    pub width: u32,
    pub height: u32,
    /// Monotonic frame counter. Useful for skip detection.
    pub serial: u64,
}

// ── Surface trees ────────────────────────────────────────────────────────

/// One surface of a tree, in drawing order: every surface stands behind its
/// parent. `dx` and `dy` place it relative to the parent; the first is the
/// root, placed where the tree is drawn.
#[derive(Clone, Copy, Debug, PartialEq, Eq, Structural)]
pub struct TreeNode {
    pub surface: u64,
    pub parent: usize,
    pub dx: i32,
    pub dy: i32,
}

/// Parents come first.
pub open spec fn tree_wf(t: Seq<TreeNode>) -> bool {
    forall|i: int| 0 < i < t.len() ==> (#[trigger] t[i]).parent < i
}

/// The offsets from the root, added up.
pub open spec fn offset_x(t: Seq<TreeNode>, i: int) -> int
    decreases i,
{
    if 0 < i < t.len() && 0 <= t[i].parent < i {
        offset_x(t, t[i].parent as int) + t[i].dx
    } else {
        0
    }
}

pub open spec fn offset_y(t: Seq<TreeNode>, i: int) -> int
    decreases i,
{
    if 0 < i < t.len() && 0 <= t[i].parent < i {
        offset_y(t, t[i].parent as int) + t[i].dy
    } else {
        0
    }
}

pub open spec fn in_i32(v: int) -> bool {
    i32::MIN <= v <= i32::MAX
}

/// Drawn at `(x, y)`, every surface of the tree has 32-bit coordinates.
pub open spec fn tree_fits(t: Seq<TreeNode>, x: int, y: int) -> bool {
    &&& in_i32(x) && in_i32(y)
    &&& forall|i: int|
        0 <= i < t.len() ==> in_i32(x + #[trigger] offset_x(t, i)) && in_i32(y + offset_y(t, i))
}

/// The first `n` surfaces of the tree drawn with its root at `(x, y)`. A
/// surface without a cached buffer draws nothing.
pub open spec fn tree_drawn(
    back: Seq<u8>,
    w: u32,
    h: u32,
    cache: Map<u64, SurfaceBuf>,
    t: Seq<TreeNode>,
    x: int,
    y: int,
    n: int,
) -> Seq<u8>
    decreases n,
{
    if n <= 0 {
        back
    } else {
        let b = tree_drawn(back, w, h, cache, t, x, y, n - 1);
        let id = t[n - 1].surface;
        if cache.dom().contains(id) {
            blitted(b, w, h, cache[id], x + offset_x(t, n - 1), y + offset_y(t, n - 1))
        } else {
            b
        }
    }
}

/// Every cached buffer holds its pixels.
pub open spec fn cache_wf(cache: Map<u64, SurfaceBuf>) -> bool {
    forall|id: u64| #[trigger] cache.dom().contains(id) ==> cache[id].wf()
}

proof fn lemma_tree_len(
    back: Seq<u8>,
    w: u32,
    h: u32,
    cache: Map<u64, SurfaceBuf>,
    t: Seq<TreeNode>,
    x: int,
    y: int,
    n: int,
)
    ensures
        tree_drawn(back, w, h, cache, t, x, y, n).len() == back.len(),
    decreases n,
{
    if n > 0 {
        lemma_tree_len(back, w, h, cache, t, x, y, n - 1);
    }
}

/// Draws a surface tree, each surface's cached buffer at its accumulated
/// offset from `(x, y)`.
pub fn blit_subtree(
    back: &mut [u8],
    w: u32,
    h: u32,
    cache: &HashMap<u64, SurfaceBuf>,
    tree: &Vec<TreeNode>,
    x: i32,
    y: i32,
)
    requires
        fits(old(back)@.len(), w, h),
        cache_wf(cache@),
        tree_wf(tree@),
        tree_fits(tree@, x as int, y as int),
    ensures
        final(back)@ == tree_drawn(
            old(back)@,
            w,
            h,
            cache@,
            tree@,
            x as int,
            y as int,
            tree@.len() as int,
        ),
        final(back)@.len() == old(back)@.len(),
{
    broadcast use vstd::std_specs::hash::group_hash_axioms;

    let ghost start = back@;
    let mut places: Vec<(i32, i32)> = Vec::new();
    for i in 0..tree.len()
        invariant
            fits(start.len(), w, h),
            back.len() == start.len(),
            cache_wf(cache@),
            tree_wf(tree@),
            tree_fits(tree@, x as int, y as int),
            places.len() == i,
            forall|j: int|
                0 <= j < i ==> (#[trigger] places@[j]).0 == x + offset_x(tree@, j) && places@[j].1
                    == y + offset_y(tree@, j),
            back@ == tree_drawn(start, w, h, cache@, tree@, x as int, y as int, i as int),
    {
        let node: TreeNode = tree[i];
        assert(in_i32(x + offset_x(tree@, i as int)));
        let here: (i32, i32) = if i == 0 {
            (x, y)
        } else {
            let p: (i32, i32) = places[node.parent];
            (p.0 + node.dx, p.1 + node.dy)
        };
        places.push(here);
        if let Some(buf) = cache.get(&node.surface) {
            blit(back, w, h, buf, here.0, here.1);
        }
    }
}

/// The tree is in order, and drawn at `(x, y)` every surface of it has 32-bit
/// coordinates.
pub fn tree_can_be_drawn(tree: &Vec<TreeNode>, x: i64, y: i64) -> (r: bool)
    ensures
        r == (tree_wf(tree@) && tree_fits(tree@, x as int, y as int)),
{
    if !(is_i32(x) && is_i32(y)) {
        return false;
    }
    let mut places: Vec<(i64, i64)> = Vec::new();
    for i in 0..tree.len()
        invariant
            in_i32(x as int) && in_i32(y as int),
            places@.len() == i,
            forall|j: int| 0 < j < i ==> (#[trigger] tree@[j]).parent < j,
            forall|j: int|
                0 <= j < i ==> (#[trigger] places@[j]).0 == x + offset_x(tree@, j) && places@[j].1
                    == y + offset_y(tree@, j) && in_i32(places@[j].0 as int) && in_i32(
                    places@[j].1 as int,
                ),
    {
        let node: TreeNode = tree[i];
        let here: (i64, i64) = if i == 0 {
            (x, y)
        } else {
            if node.parent >= i {
                assert(!tree_wf(tree@)) by {
                    assert(tree@[i as int].parent >= i);
                }
                return false;
            }
            let p: (i64, i64) = places[node.parent];
            (p.0 + node.dx as i64, p.1 + node.dy as i64)
        };
        if !(is_i32(here.0) && is_i32(here.1)) {
            proof {
                let ox = offset_x(tree@, i as int);
                let oy = offset_y(tree@, i as int);
                assert(!(in_i32(x + ox) && in_i32(y + oy)));
                assert(!tree_fits(tree@, x as int, y as int));
            }
            return false;
        }
        places.push(here);
    }
    assert forall|j: int| 0 <= j < tree@.len() implies in_i32(x + #[trigger] offset_x(tree@, j))
        && in_i32(y + offset_y(tree@, j)) by {
        assert(in_i32(places@[j].0 as int));
    }
    assert(tree_wf(tree@));
    assert(tree_fits(tree@, x as int, y as int));
    true
}

fn is_i32(v: i64) -> (r: bool)
    ensures
        r == in_i32(v as int),
{
    -0x8000_0000 <= v && v <= 0x7fff_ffff
}

// ── Cursor ───────────────────────────────────────────────────────────────

/// Rows of the built-in arrow: `#` is white, `.` is black, anything else is
/// clear. The hotspot is the top left corner.
pub open spec fn arrow_row(dy: int) -> Seq<char> {
    if dy == 0 {
        "#           "@
    } else if dy == 1 {
        "##          "@
    } else if dy == 2 {
        "#.#         "@
    } else if dy == 3 {
        "#..#        "@
    } else if dy == 4 {
        "#...#       "@
    } else if dy == 5 {
        "#....#      "@
    } else if dy == 6 {
        "#.....#     "@
    } else if dy == 7 {
        "#......#    "@
    } else if dy == 8 {
        "#.......#   "@
    } else if dy == 9 {
        "#........#  "@
    } else if dy == 10 {
        "#.....#####."@
    } else if dy == 11 {
        "#..#..#     "@
    } else if dy == 12 {
        "#.# #..#    "@
    } else if dy == 13 {
        "##  #..#    "@
    } else if dy == 14 {
        "#    #..#   "@
    } else if dy == 15 {
        "     ####   "@
    } else {
        Seq::empty()
    }
}

fn arrow_text(dy: usize) -> (r: &'static str)
    requires
        dy < 16,
    ensures
        r@ == arrow_row(dy as int),
        r@.len() == 12,
{
    proof {
        reveal_strlit("#           ");
        reveal_strlit("##          ");
        reveal_strlit("#.#         ");
        reveal_strlit("#..#        ");
        reveal_strlit("#...#       ");
        reveal_strlit("#....#      ");
        reveal_strlit("#.....#     ");
        reveal_strlit("#......#    ");
        reveal_strlit("#.......#   ");
        reveal_strlit("#........#  ");
        reveal_strlit("#.....#####.");
        reveal_strlit("#..#..#     ");
        reveal_strlit("#.# #..#    ");
        reveal_strlit("##  #..#    ");
        reveal_strlit("#    #..#   ");
        reveal_strlit("     ####   ");
    }
    if dy == 0 {
        "#           "
    } else if dy == 1 {
        "##          "
    } else if dy == 2 {
        "#.#         "
    } else if dy == 3 {
        "#..#        "
    } else if dy == 4 {
        "#...#       "
    } else if dy == 5 {
        "#....#      "
    } else if dy == 6 {
        "#.....#     "
    } else if dy == 7 {
        "#......#    "
    } else if dy == 8 {
        "#.......#   "
    } else if dy == 9 {
        "#........#  "
    } else if dy == 10 {
        "#.....#####."
    } else if dy == 11 {
        "#..#..#     "
    } else if dy == 12 {
        "#.# #..#    "
    } else if dy == 13 {
        "##  #..#    "
    } else if dy == 14 {
        "#    #..#   "
    } else {
        "     ####   "
    }
}

/// The arrow with its tip at `(x, y)` has `ink` on the pixel `(px, py)`.
pub open spec fn arrow_inks(ink: char, x: int, y: int, px: int, py: int) -> bool {
    &&& 0 <= py - y < 16
    &&& 0 <= px - x < arrow_row(py - y).len()
    &&& arrow_row(py - y)[px - x] == ink
}

/// `b` with the arrow drawn at `(x, y)`, clipped.
pub open spec fn arrow_drawn(b: Seq<u8>, w: u32, h: u32, x: int, y: int) -> Seq<u8> {
    painted(
        painted(
            b,
            w,
            h,
            |px: int, py: int| arrow_inks('#', x, y, px, py),
            [255, 255, 255, 255],
        ),
        w,
        h,
        |px: int, py: int| arrow_inks('.', x, y, px, py),
        [0, 0, 0, 255],
    )
}

fn ink_arrow(back: &mut [u8], w: u32, h: u32, x: i32, y: i32, ink: char, color: [u8; 4])
    requires
        fits(old(back)@.len(), w, h),
    ensures
        final(back)@ == painted(
            old(back)@,
            w,
            h,
            |px: int, py: int| arrow_inks(ink, x as int, y as int, px, py),
            color,
        ),
{
    let ghost start = back@;
    proof {
        lemma_painted_nothing(
            start,
            w,
            h,
            |a: int, b: int| b - y < 0 && arrow_inks(ink, x as int, y as int, a, b),
            color,
        );
    }
    for dy in 0..16usize
        invariant
            fits(start.len(), w, h),
            back@ == painted(
                start,
                w,
                h,
                |a: int, b: int| b - y < dy && arrow_inks(ink, x as int, y as int, a, b),
                color,
            ),
    {
        let row: Vec<char> = chars_of(arrow_text(dy));
        let py: i64 = y as i64 + dy as i64;
        proof {
            lemma_painted_same(
                start,
                w,
                h,
                |a: int, b: int| b - y < dy && arrow_inks(ink, x as int, y as int, a, b),
                |a: int, b: int|
                    (b - y < dy || (b - y == dy && a - x < 0)) && arrow_inks(
                        ink,
                        x as int,
                        y as int,
                        a,
                        b,
                    ),
                color,
            );
        }
        for dx in 0..row.len()
            invariant
                fits(start.len(), w, h),
                dy < 16,
                row@ == arrow_row(dy as int),
                row.len() == 12,
                py == y + dy,
                back@ == painted(
                    start,
                    w,
                    h,
                    |a: int, b: int|
                        (b - y < dy || (b - y == dy && a - x < dx)) && arrow_inks(
                            ink,
                            x as int,
                            y as int,
                            a,
                            b,
                        ),
                    color,
                ),
        {
            let px: i64 = x as i64 + dx as i64;
            let ghost done = |a: int, b: int|
                (b - y < dy || (b - y == dy && a - x < dx)) && arrow_inks(
                    ink,
                    x as int,
                    y as int,
                    a,
                    b,
                );
            let ghost next = |a: int, b: int|
                (b - y < dy || (b - y == dy && a - x < dx + 1)) && arrow_inks(
                    ink,
                    x as int,
                    y as int,
                    a,
                    b,
                );
            if row[dx] == ink {
                put_pixel(back, w, h, px, py, color);
                proof {
                    lemma_painted_twice(
                        start,
                        w,
                        h,
                        done,
                        |a: int, b: int| a == px && b == py,
                        next,
                        color,
                    );
                }
            } else {
                proof {
                    lemma_painted_same(start, w, h, done, next, color);
                }
            }
        }
        proof {
            lemma_painted_same(
                start,
                w,
                h,
                |a: int, b: int|
                    (b - y < dy || (b - y == dy && a - x < row.len())) && arrow_inks(
                        ink,
                        x as int,
                        y as int,
                        a,
                        b,
                    ),
                |a: int, b: int| b - y < dy + 1 && arrow_inks(ink, x as int, y as int, a, b),
                color,
            );
        }
    }
    proof {
        lemma_painted_same(
            start,
            w,
            h,
            |a: int, b: int| b - y < 16 && arrow_inks(ink, x as int, y as int, a, b),
            |a: int, b: int| arrow_inks(ink, x as int, y as int, a, b),
            color,
        );
    }
}

/// Draws the built-in arrow, for a client that wants a themed cursor.
pub fn draw_fallback_cursor(back: &mut [u8], back_w: u32, back_h: u32, x: i32, y: i32)
    requires
        fits(old(back)@.len(), back_w, back_h),
    ensures
        final(back)@ == arrow_drawn(old(back)@, back_w, back_h, x as int, y as int),
{
    let white: [u8; 4] = [255, 255, 255, 255];
    let black: [u8; 4] = [0, 0, 0, 255];
    assert(white@ =~= [255u8, 255u8, 255u8, 255u8]@);
    assert(black@ =~= [0u8, 0u8, 0u8, 255u8]@);
    ink_arrow(back, back_w, back_h, x, y, '#', white);
    ink_arrow(back, back_w, back_h, x, y, '.', black);
}

// ── The frame ────────────────────────────────────────────────────────────

/// A popup: its surface tree, placed relative to its window.
pub struct Popup {
    pub dx: i32,
    pub dy: i32,
    pub tree: Vec<TreeNode>,
}

/// A live window with its popups, in stacking order.
pub struct Window {
    /// Its number in the list of windows.
    pub id: u64,
    pub tree: Vec<TreeNode>,
    pub popups: Vec<Popup>,
}

/// What the pointer looks like.
pub enum Cursor {
    Hidden,
    /// A themed cursor; no themes are loaded, the built-in arrow stands for it.
    Named,
    /// A client surface with its hotspot.
    Surface { tree: Vec<TreeNode>, hot_x: i32, hot_y: i32 },
}

/// The rect of window `i`: its tile, or the whole output where it has none.
pub open spec fn window_rect(rects: Seq<Rect>, i: int, w: u32, h: u32) -> Rect {
    if i < rects.len() {
        rects[i]
    } else {
        Rect { x: 0, y: 0, w, h }
    }
}

pub open spec fn popups_drawn(
    b: Seq<u8>,
    w: u32,
    h: u32,
    cache: Map<u64, SurfaceBuf>,
    popups: Seq<Popup>,
    r: Rect,
    n: int,
) -> Seq<u8>
    decreases n,
{
    if n <= 0 {
        b
    } else {
        let p = popups[n - 1];
        tree_drawn(
            popups_drawn(b, w, h, cache, popups, r, n - 1),
            w,
            h,
            cache,
            p.tree@,
            r.x + p.dx,
            r.y + p.dy,
            p.tree@.len() as int,
        )
    }
}

/// The first `n` windows drawn at their rects, each followed by its popups.
pub open spec fn windows_drawn(
    b: Seq<u8>,
    w: u32,
    h: u32,
    cache: Map<u64, SurfaceBuf>,
    windows: Seq<Window>,
    rects: Seq<Rect>,
    n: int,
) -> Seq<u8>
    decreases n,
{
    if n <= 0 {
        b
    } else {
        let win = windows[n - 1];
        let r = window_rect(rects, n - 1, w, h);
        let root = tree_drawn(
            windows_drawn(b, w, h, cache, windows, rects, n - 1),
            w,
            h,
            cache,
            win.tree@,
            r.x as int,
            r.y as int,
            win.tree@.len() as int,
        );
        popups_drawn(root, w, h, cache, win.popups@, r, win.popups@.len() as int)
    }
}

pub open spec fn cursor_drawn(
    b: Seq<u8>,
    w: u32,
    h: u32,
    cache: Map<u64, SurfaceBuf>,
    cursor: Cursor,
    px: int,
    py: int,
) -> Seq<u8> {
    match cursor {
        Cursor::Hidden => b,
        Cursor::Named => arrow_drawn(b, w, h, px, py),
        Cursor::Surface { tree, hot_x, hot_y } => tree_drawn(
            b,
            w,
            h,
            cache,
            tree@,
            px - hot_x,
            py - hot_y,
            tree@.len() as int,
        ),
    }
}

/// A `w`×`h` image of one color.
pub open spec fn plain(w: u32, h: u32, color: [u8; 4]) -> Seq<u8> {
    Seq::new((4 * (w * h)) as nat, |k: int| color@[k % 4])
}

/// The windows can be drawn: trees in order, coordinates within 32 bits.
pub open spec fn windows_fit(windows: Seq<Window>, rects: Seq<Rect>, w: u32, h: u32) -> bool {
    forall|i: int|
        0 <= i < windows.len() ==> {
            let win = #[trigger] windows[i];
            let r = window_rect(rects, i, w, h);
            &&& tree_wf(win.tree@)
            &&& tree_fits(win.tree@, r.x as int, r.y as int)
            &&& forall|j: int|
                0 <= j < win.popups@.len() ==> {
                    let p = #[trigger] win.popups@[j];
                    &&& tree_wf(p.tree@)
                    &&& tree_fits(p.tree@, r.x + p.dx, r.y + p.dy)
                }
        }
}

pub open spec fn cursor_fits(cursor: Cursor, px: int, py: int) -> bool {
    match cursor {
        Cursor::Surface { tree, hot_x, hot_y } => tree_wf(tree@) && tree_fits(
            tree@,
            px - hot_x,
            py - hot_y,
        ),
        _ => true,
    }
}

fn popups_can_be_drawn(popups: &Vec<Popup>, r: Rect) -> (ok: bool)
    ensures
        ok == (forall|j: int|
            0 <= j < popups@.len() ==> {
                let p = #[trigger] popups@[j];
                &&& tree_wf(p.tree@)
                &&& tree_fits(p.tree@, r.x + p.dx, r.y + p.dy)
            }),
{
    for j in 0..popups.len()
        invariant
            forall|k: int|
                0 <= k < j ==> {
                    let p = #[trigger] popups@[k];
                    &&& tree_wf(p.tree@)
                    &&& tree_fits(p.tree@, r.x + p.dx, r.y + p.dy)
                },
    {
        let p: &Popup = &popups[j];
        if !tree_can_be_drawn(&p.tree, r.x as i64 + p.dx as i64, r.y as i64 + p.dy as i64) {
            assert(*p == popups@[j as int]);
            return false;
        }
    }
    true
}

/// The windows can be drawn at their rects.
pub fn windows_can_be_drawn(windows: &Vec<Window>, rects: &Vec<Rect>, w: u32, h: u32) -> (ok: bool)
    ensures
        ok == windows_fit(windows@, rects@, w, h),
{
    for i in 0..windows.len()
        invariant
            windows_fit(windows@.take(i as int), rects@, w, h),
    {
        let r: Rect = if i < rects.len() {
            rects[i]
        } else {
            Rect { x: 0, y: 0, w, h }
        };
        let win: &Window = &windows[i];
        assert(*win == windows@[i as int]);
        if !tree_can_be_drawn(&win.tree, r.x as i64, r.y as i64) || !popups_can_be_drawn(
            &win.popups,
            r,
        ) {
            assert(!windows_fit(windows@, rects@, w, h));
            return false;
        }
        proof {
            let next = windows@.take(i + 1);
            assert forall|k: int| 0 <= k < next.len() implies {
                let win = #[trigger] next[k];
                let r = window_rect(rects@, k, w, h);
                &&& tree_wf(win.tree@)
                &&& tree_fits(win.tree@, r.x as int, r.y as int)
                &&& forall|j: int|
                    0 <= j < win.popups@.len() ==> {
                        let p = #[trigger] win.popups@[j];
                        &&& tree_wf(p.tree@)
                        &&& tree_fits(p.tree@, r.x + p.dx, r.y + p.dy)
                    }
            } by {
                if k < i {
                    assert(next[k] == windows@.take(i as int)[k]);
                }
            }
        }
    }
    assert(windows@.take(windows.len() as int) =~= windows@);
    true
}

/// The cursor can be drawn at `(px, py)`.
pub fn cursor_can_be_drawn(cursor: &Cursor, px: i32, py: i32) -> (ok: bool)
    ensures
        ok == cursor_fits(*cursor, px as int, py as int),
{
    match cursor {
        Cursor::Surface { tree, hot_x, hot_y } => tree_can_be_drawn(
            tree,
            px as i64 - *hot_x as i64,
            py as i64 - *hot_y as i64,
        ),
        _ => true,
    }
}

/// The help box over `b` where it is shown.
pub open spec fn help_over(
    b: Seq<u8>,
    w: u32,
    h: u32,
    shown: bool,
    mod_key: ModKey,
    binds: Seq<(char, Action)>,
) -> Seq<u8> {
    if shown {
        help_drawn(b, w, h, mod_key, binds)
    } else {
        b
    }
}

/// The launcher over `b` where it is open.
pub open spec fn launcher_over(
    b: Seq<u8>,
    w: u32,
    h: u32,
    mod_key: ModKey,
    launcher: Option<Launcher>,
) -> Seq<u8> {
    match launcher {
        Some(l) => launcher_drawn(
            b,
            w,
            h,
            mod_key,
            entries_of(l.entries@),
            l.query@,
            l.selected as int,
        ),
        None => b,
    }
}

/// The whole frame: background, windows with popups, cursor, help, launcher.
pub open spec fn composed(
    w: u32,
    h: u32,
    background: [u8; 4],
    cache: Map<u64, SurfaceBuf>,
    windows: Seq<Window>,
    rects: Seq<Rect>,
    cursor: Cursor,
    px: int,
    py: int,
    show_help: bool,
    mod_key: ModKey,
    binds: Seq<(char, Action)>,
    launcher: Option<Launcher>,
) -> Seq<u8> {
    let tiled = windows_drawn(
        plain(w, h, background),
        w,
        h,
        cache,
        windows,
        rects,
        windows.len() as int,
    );
    let pointed = cursor_drawn(tiled, w, h, cache, cursor, px, py);
    let helped = help_over(pointed, w, h, show_help, mod_key, binds);
    launcher_over(helped, w, h, mod_key, launcher)
}

fn plain_image(w: u32, h: u32, color: [u8; 4]) -> (r: Vec<u8>)
    requires
        4 * (w * h) <= usize::MAX,
    ensures
        r@ == plain(w, h, color),
{
    let mut v: Vec<u8> = Vec::new();
    assert(0 <= w * h) by (nonlinear_arith)
        requires
            0 <= w,
            0 <= h,
    ;
    let n: u64 = w as u64 * h as u64;
    let mut i: u64 = 0;
    while i < n
        invariant
            n == w * h,
            i <= n,
            v.len() == 4 * i,
            4 * (w * h) <= usize::MAX,
            forall|k: int| 0 <= k < v.len() ==> v[k] == color@[k % 4],
        decreases n - i,
    {
        v.push(color[0]);
        v.push(color[1]);
        v.push(color[2]);
        v.push(color[3]);
        i = i + 1;
    }
    assert(v@ =~= plain(w, h, color));
    v
}

fn draw_popups(
    back: &mut [u8],
    w: u32,
    h: u32,
    cache: &HashMap<u64, SurfaceBuf>,
    popups: &Vec<Popup>,
    r: Rect,
)
    requires
        fits(old(back)@.len(), w, h),
        cache_wf(cache@),
        forall|j: int|
            0 <= j < popups@.len() ==> {
                let p = #[trigger] popups@[j];
                &&& tree_wf(p.tree@)
                &&& tree_fits(p.tree@, r.x + p.dx, r.y + p.dy)
            },
    ensures
        final(back)@ == popups_drawn(
            old(back)@,
            w,
            h,
            cache@,
            popups@,
            r,
            popups@.len() as int,
        ),
        final(back)@.len() == old(back)@.len(),
{
    let ghost start = back@;
    for j in 0..popups.len()
        invariant
            fits(start.len(), w, h),
            back.len() == start.len(),
            cache_wf(cache@),
            forall|j: int|
                0 <= j < popups@.len() ==> {
                    let p = #[trigger] popups@[j];
                    &&& tree_wf(p.tree@)
                    &&& tree_fits(p.tree@, r.x + p.dx, r.y + p.dy)
                },
            back@ == popups_drawn(start, w, h, cache@, popups@, r, j as int),
    {
        let p: &Popup = &popups[j];
        assert(popups@[j as int] == *p);
        blit_subtree(back, w, h, cache, &p.tree, r.x + p.dx, r.y + p.dy);
    }
}

/// Composite all live windows with their popups, the cursor and the overlays
/// into a single RGBA image.
pub fn compose(
    w: u32,
    h: u32,
    background: [u8; 4],
    cache: &HashMap<u64, SurfaceBuf>,
    windows: &Vec<Window>,
    rects: &Vec<Rect>,
    cursor: &Cursor,
    px: i32,
    py: i32,
    show_help: bool,
    keybinds: &Keybinds,
    launcher: &Option<Launcher>,
) -> (rgba: Vec<u8>)
    requires
        4 * (w * h) <= usize::MAX,
        cache_wf(cache@),
        windows_fit(windows@, rects@, w, h),
        cursor_fits(*cursor, px as int, py as int),
        show_help ==> box_fits(help_lines(keybinds.mod_key, keybinds.binds@), 0),
        launcher matches Some(l) ==> launcher_fits(
            h,
            keybinds.mod_key,
            entries_of(l.entries@),
            l.query@,
            l.selected as int,
        ),
    ensures
        rgba@ == composed(
            w,
            h,
            background,
            cache@,
            windows@,
            rects@,
            *cursor,
            px as int,
            py as int,
            show_help,
            keybinds.mod_key,
            keybinds.binds@,
            *launcher,
        ),
        rgba@.len() == 4 * (w * h),
{
    let mut rgba: Vec<u8> = plain_image(w, h, background);
    assert(0 <= w * h) by (nonlinear_arith)
        requires
            0 <= w,
            0 <= h,
    ;
    let ghost start = rgba@;
    for i in 0..windows.len()
        invariant
            4 * (w * h) == start.len(),
            rgba.len() == start.len(),
            cache_wf(cache@),
            windows_fit(windows@, rects@, w, h),
            rgba@ == windows_drawn(start, w, h, cache@, windows@, rects@, i as int),
    {
        let r: Rect = if i < rects.len() {
            rects[i]
        } else {
            Rect { x: 0, y: 0, w, h }
        };
        let win: &Window = &windows[i];
        assert(windows@[i as int] == *win);
        blit_subtree(rgba.as_mut_slice(), w, h, cache, &win.tree, r.x, r.y);
        draw_popups(rgba.as_mut_slice(), w, h, cache, &win.popups, r);
    }
    match cursor {
        Cursor::Hidden => {},
        Cursor::Named => {
            draw_fallback_cursor(rgba.as_mut_slice(), w, h, px, py);
        },
        Cursor::Surface { tree, hot_x, hot_y } => {
            blit_subtree(rgba.as_mut_slice(), w, h, cache, tree, px - *hot_x, py - *hot_y);
        },
    }
    if show_help {
        draw_help_overlay(keybinds, rgba.as_mut_slice(), w, h);
    }
    if let Some(l) = launcher {
        draw_launcher_overlay(l, keybinds.mod_key, rgba.as_mut_slice(), w, h);
    }
    rgba
}

/// With no window, no cursor and no overlay, the frame is the bare background.
pub proof fn law_bare_frame_is_background(
    w: u32,
    h: u32,
    background: [u8; 4],
    cache: Map<u64, SurfaceBuf>,
    rects: Seq<Rect>,
    px: int,
    py: int,
    mod_key: ModKey,
    binds: Seq<(char, Action)>,
)
    ensures
        composed(
            w,
            h,
            background,
            cache,
            Seq::empty(),
            rects,
            Cursor::Hidden,
            px,
            py,
            false,
            mod_key,
            binds,
            None,
        ) == plain(w, h, background),
{
}

// ── What lies on what ────────────────────────────────────────────────────

proof fn lemma_popups_len(
    b: Seq<u8>,
    w: u32,
    h: u32,
    cache: Map<u64, SurfaceBuf>,
    popups: Seq<Popup>,
    r: Rect,
    n: int,
)
    ensures
        popups_drawn(b, w, h, cache, popups, r, n).len() == b.len(),
    decreases n,
{
    if n > 0 {
        lemma_popups_len(b, w, h, cache, popups, r, n - 1);
        let p = popups[n - 1];
        lemma_tree_len(
            popups_drawn(b, w, h, cache, popups, r, n - 1),
            w,
            h,
            cache,
            p.tree@,
            r.x + p.dx,
            r.y + p.dy,
            p.tree@.len() as int,
        );
    }
}

proof fn lemma_windows_len(
    b: Seq<u8>,
    w: u32,
    h: u32,
    cache: Map<u64, SurfaceBuf>,
    windows: Seq<Window>,
    rects: Seq<Rect>,
    n: int,
)
    ensures
        windows_drawn(b, w, h, cache, windows, rects, n).len() == b.len(),
    decreases n,
{
    if n > 0 {
        lemma_windows_len(b, w, h, cache, windows, rects, n - 1);
        let win = windows[n - 1];
        let r = window_rect(rects, n - 1, w, h);
        let before = windows_drawn(b, w, h, cache, windows, rects, n - 1);
        lemma_tree_len(
            before,
            w,
            h,
            cache,
            win.tree@,
            r.x as int,
            r.y as int,
            win.tree@.len() as int,
        );
        let root = tree_drawn(
            before,
            w,
            h,
            cache,
            win.tree@,
            r.x as int,
            r.y as int,
            win.tree@.len() as int,
        );
        lemma_popups_len(root, w, h, cache, win.popups@, r, win.popups@.len() as int);
    }
}

pub proof fn lemma_plain_pixel(w: u32, h: u32, color: [u8; 4], x: int, y: int)
    requires
        0 <= x < w,
        0 <= y < h,
    ensures
        plain(w, h, color).len() == 4 * (w * h),
        pixel(plain(w, h, color), w, x, y) == color@,
{
    crate::canvas::lemma_position(x, y, w as int, h as int);
    assert(0 <= w * h) by (nonlinear_arith)
        requires
            0 <= w,
            0 <= h,
    ;
    assert(pixel(plain(w, h, color), w, x, y) =~= color@);
}

/// The sides of an output and of every cached buffer are signed 32-bit
/// numbers, and every buffer holds its pixels.
pub open spec fn sides_fit(w: u32, h: u32, cache: Map<u64, SurfaceBuf>) -> bool {
    &&& w <= i32::MAX
    &&& h <= i32::MAX
    &&& forall|id: u64| #[trigger]
        cache.dom().contains(id) ==> cache[id].wf() && cache[id].w <= i32::MAX && cache[id].h
            <= i32::MAX
}

/// The pixel `(dx, dy)` of a surface is opaque.
pub open spec fn opaque_at(cache: Map<u64, SurfaceBuf>, id: u64, dx: int, dy: int) -> bool {
    &&& cache.dom().contains(id)
    &&& 0 <= dx < cache[id].w
    &&& 0 <= dy < cache[id].h
    &&& pixel(cache[id].rgba@, cache[id].w, dx, dy)[3] == 255
}

/// The last surface of a tree lies over the rest of it.
proof fn lemma_last_surface_shows(
    back: Seq<u8>,
    w: u32,
    h: u32,
    cache: Map<u64, SurfaceBuf>,
    t: Seq<TreeNode>,
    x: int,
    y: int,
    dx: int,
    dy: int,
)
    requires
        fits(back.len(), w, h),
        sides_fit(w, h, cache),
        t.len() > 0,
        opaque_at(cache, t.last().surface, dx, dy),
        0 <= x + offset_x(t, t.len() - 1) + dx < w,
        0 <= y + offset_y(t, t.len() - 1) + dy < h,
    ensures
        pixel(
            tree_drawn(back, w, h, cache, t, x, y, t.len() as int),
            w,
            x + offset_x(t, t.len() - 1) + dx,
            y + offset_y(t, t.len() - 1) + dy,
        ) == pixel(cache[t.last().surface].rgba@, cache[t.last().surface].w, dx, dy),
{
    let n = t.len() as int;
    lemma_tree_len(back, w, h, cache, t, x, y, n - 1);
    let ox = x + offset_x(t, n - 1);
    let oy = y + offset_y(t, n - 1);
    law_surface_covers_its_rectangle(
        tree_drawn(back, w, h, cache, t, x, y, n - 1),
        w,
        h,
        cache[t.last().surface],
        ox,
        oy,
        ox + dx,
        oy + dy,
    );
}

/// The cursor lies over windows and popups: where neither the help nor the
/// launcher is shown, the tip of the arrow is white at the pointer, whatever
/// lies there, and so is its left edge below it.
pub proof fn law_arrow_lies_on_top(
    w: u32,
    h: u32,
    background: [u8; 4],
    cache: Map<u64, SurfaceBuf>,
    windows: Seq<Window>,
    rects: Seq<Rect>,
    px: int,
    py: int,
    mod_key: ModKey,
    binds: Seq<(char, Action)>,
    down: int,
)
    requires
        0 <= px < w,
        0 <= py,
        0 <= down < 15,
        py + down < h,
    ensures
        pixel(
            composed(
                w,
                h,
                background,
                cache,
                windows,
                rects,
                Cursor::Named,
                px,
                py,
                false,
                mod_key,
                binds,
                None,
            ),
            w,
            px,
            py + down,
        ) == seq![255u8, 255, 255, 255],
{
    lemma_plain_pixel(w, h, background, px, py + down);
    let tiled = windows_drawn(
        plain(w, h, background),
        w,
        h,
        cache,
        windows,
        rects,
        windows.len() as int,
    );
    lemma_windows_len(
        plain(w, h, background),
        w,
        h,
        cache,
        windows,
        rects,
        windows.len() as int,
    );
    let white = |a: int, b: int| arrow_inks('#', px, py, a, b);
    let black = |a: int, b: int| arrow_inks('.', px, py, a, b);
    lemma_pixel_painted(tiled, w, h, white, [255, 255, 255, 255], px, py + down);
    let inked = painted(tiled, w, h, white, [255, 255, 255, 255]);
    lemma_pixel_painted(inked, w, h, black, [0, 0, 0, 255], px, py + down);
    reveal_strlit("#           ");
    reveal_strlit("##          ");
    reveal_strlit("#.#         ");
    reveal_strlit("#..#        ");
    reveal_strlit("#...#       ");
    reveal_strlit("#....#      ");
    reveal_strlit("#.....#     ");
    reveal_strlit("#......#    ");
    reveal_strlit("#.......#   ");
    reveal_strlit("#........#  ");
    reveal_strlit("#.....#####.");
    reveal_strlit("#..#..#     ");
    reveal_strlit("#.# #..#    ");
    reveal_strlit("##  #..#    ");
    reveal_strlit("#    #..#   ");
    assert(arrow_row(down)[0] == '#');
    assert([255u8, 255, 255, 255]@ =~= seq![255u8, 255, 255, 255]);
}

/// A cursor that a client draws lies over windows and popups too, with its
/// hotspot at the pointer.
pub proof fn law_client_cursor_lies_on_top(
    w: u32,
    h: u32,
    background: [u8; 4],
    cache: Map<u64, SurfaceBuf>,
    windows: Seq<Window>,
    rects: Seq<Rect>,
    tree: Vec<TreeNode>,
    hot_x: i32,
    hot_y: i32,
    px: int,
    py: int,
    mod_key: ModKey,
    binds: Seq<(char, Action)>,
    dx: int,
    dy: int,
)
    requires
        sides_fit(w, h, cache),
        tree@.len() == 1,
        opaque_at(cache, tree@[0].surface, dx, dy),
        0 <= px - hot_x + dx < w,
        0 <= py - hot_y + dy < h,
    ensures
        pixel(
            composed(
                w,
                h,
                background,
                cache,
                windows,
                rects,
                Cursor::Surface { tree, hot_x, hot_y },
                px,
                py,
                false,
                mod_key,
                binds,
                None,
            ),
            w,
            px - hot_x + dx,
            py - hot_y + dy,
        ) == pixel(cache[tree@[0].surface].rgba@, cache[tree@[0].surface].w, dx, dy),
{
    lemma_plain_pixel(w, h, background, px - hot_x + dx, py - hot_y + dy);
    let b = plain(w, h, background);
    lemma_windows_len(b, w, h, cache, windows, rects, windows.len() as int);
    lemma_last_surface_shows(
        windows_drawn(b, w, h, cache, windows, rects, windows.len() as int),
        w,
        h,
        cache,
        tree@,
        px - hot_x,
        py - hot_y,
        dx,
        dy,
    );
}

/// The last window lies over the ones before it, with its corner at the corner
/// of its own tile.
pub proof fn law_last_window_lies_on_top(
    w: u32,
    h: u32,
    background: [u8; 4],
    cache: Map<u64, SurfaceBuf>,
    windows: Seq<Window>,
    rects: Seq<Rect>,
    px: int,
    py: int,
    mod_key: ModKey,
    binds: Seq<(char, Action)>,
    dx: int,
    dy: int,
)
    requires
        sides_fit(w, h, cache),
        windows.len() > 0,
        rects.len() == windows.len(),
        windows.last().popups@.len() == 0,
        windows.last().tree@.len() == 1,
        opaque_at(cache, windows.last().tree@[0].surface, dx, dy),
        0 <= rects.last().x + dx < w,
        0 <= rects.last().y + dy < h,
    ensures
        ({
            let id = windows.last().tree@[0].surface;
            pixel(
                composed(
                    w,
                    h,
                    background,
                    cache,
                    windows,
                    rects,
                    Cursor::Hidden,
                    px,
                    py,
                    false,
                    mod_key,
                    binds,
                    None,
                ),
                w,
                rects.last().x + dx,
                rects.last().y + dy,
            ) == pixel(cache[id].rgba@, cache[id].w, dx, dy)
        }),
{
    let b = plain(w, h, background);
    let n = windows.len() as int;
    lemma_plain_pixel(w, h, background, rects.last().x + dx, rects.last().y + dy);
    lemma_windows_len(b, w, h, cache, windows, rects, n - 1);
    lemma_last_surface_shows(
        windows_drawn(b, w, h, cache, windows, rects, n - 1),
        w,
        h,
        cache,
        windows.last().tree@,
        rects.last().x as int,
        rects.last().y as int,
        dx,
        dy,
    );
}

/// The newest popup of the last window lies over that window, over its older
/// popups and over all other windows, at its offset from the window's tile.
pub proof fn law_newest_popup_lies_on_top(
    w: u32,
    h: u32,
    background: [u8; 4],
    cache: Map<u64, SurfaceBuf>,
    windows: Seq<Window>,
    rects: Seq<Rect>,
    px: int,
    py: int,
    mod_key: ModKey,
    binds: Seq<(char, Action)>,
    dx: int,
    dy: int,
)
    requires
        sides_fit(w, h, cache),
        windows.len() > 0,
        rects.len() == windows.len(),
        windows.last().popups@.len() > 0,
        windows.last().popups@.last().tree@.len() == 1,
        opaque_at(cache, windows.last().popups@.last().tree@[0].surface, dx, dy),
        0 <= rects.last().x + windows.last().popups@.last().dx + dx < w,
        0 <= rects.last().y + windows.last().popups@.last().dy + dy < h,
    ensures
        ({
            let p = windows.last().popups@.last();
            let id = p.tree@[0].surface;
            pixel(
                composed(
                    w,
                    h,
                    background,
                    cache,
                    windows,
                    rects,
                    Cursor::Hidden,
                    px,
                    py,
                    false,
                    mod_key,
                    binds,
                    None,
                ),
                w,
                rects.last().x + p.dx + dx,
                rects.last().y + p.dy + dy,
            ) == pixel(cache[id].rgba@, cache[id].w, dx, dy)
        }),
{
    let b = plain(w, h, background);
    let n = windows.len() as int;
    let win = windows.last();
    let r = rects.last();
    let p = win.popups@.last();
    lemma_plain_pixel(w, h, background, r.x + p.dx + dx, r.y + p.dy + dy);
    lemma_windows_len(b, w, h, cache, windows, rects, n - 1);
    let before = windows_drawn(b, w, h, cache, windows, rects, n - 1);
    let k = win.tree@.len() as int;
    lemma_tree_len(before, w, h, cache, win.tree@, r.x as int, r.y as int, k);
    let root = tree_drawn(before, w, h, cache, win.tree@, r.x as int, r.y as int, k);
    lemma_popups_len(root, w, h, cache, win.popups@, r, win.popups@.len() - 1);
    lemma_last_surface_shows(
        popups_drawn(root, w, h, cache, win.popups@, r, win.popups@.len() - 1),
        w,
        h,
        cache,
        p.tree@,
        r.x + p.dx,
        r.y + p.dy,
        dx,
        dy,
    );
}

/// A subsurface lies over the surfaces before it in its tree, placed from its
/// parent: below the root by its own offset, and further down by the offsets of
/// all that it hangs from together.
pub proof fn law_subsurface_hangs_from_its_parent(
    back: Seq<u8>,
    w: u32,
    h: u32,
    cache: Map<u64, SurfaceBuf>,
    t: Seq<TreeNode>,
    x: int,
    y: int,
    dx: int,
    dy: int,
)
    requires
        fits(back.len(), w, h),
        sides_fit(w, h, cache),
        tree_wf(t),
        t.len() > 1,
        opaque_at(cache, t.last().surface, dx, dy),
    ensures
        ({
            let whole = tree_drawn(back, w, h, cache, t, x, y, t.len() as int);
            let n = t.last();
            let own = pixel(cache[n.surface].rgba@, cache[n.surface].w, dx, dy);
            let p = t[n.parent as int];
            &&& n.parent == 0 && 0 <= x + n.dx + dx < w && 0 <= y + n.dy + dy < h ==> pixel(
                whole,
                w,
                x + n.dx + dx,
                y + n.dy + dy,
            ) == own
            &&& n.parent > 0 && p.parent == 0 && 0 <= x + p.dx + n.dx + dx < w && 0 <= y + p.dy
                + n.dy + dy < h ==> pixel(whole, w, x + p.dx + n.dx + dx, y + p.dy + n.dy + dy)
                == own
        }),
{
    let n = t.last();
    let k = t.len() - 1;
    reveal_with_fuel(offset_x, 4);
    reveal_with_fuel(offset_y, 4);
    assert(t[k].parent < k);
    if n.parent == 0 {
        assert(offset_x(t, k) == n.dx && offset_y(t, k) == n.dy);
        if 0 <= x + n.dx + dx < w && 0 <= y + n.dy + dy < h {
            lemma_last_surface_shows(back, w, h, cache, t, x, y, dx, dy);
        }
    } else if t[n.parent as int].parent == 0 {
        let p = t[n.parent as int];
        assert(offset_x(t, n.parent as int) == p.dx && offset_y(t, n.parent as int) == p.dy);
        assert(offset_x(t, k) == p.dx + n.dx && offset_y(t, k) == p.dy + n.dy);
        if 0 <= x + p.dx + n.dx + dx < w && 0 <= y + p.dy + n.dy + dy < h {
            lemma_last_surface_shows(back, w, h, cache, t, x, y, dx, dy);
        }
    }
}

/// The frame shows surfaces of a window's tree as that tree is drawn: with one
/// window, the frame is its tree drawn over the background from the corner of
/// its tile.
pub proof fn law_one_window_fills_its_tile(
    w: u32,
    h: u32,
    background: [u8; 4],
    cache: Map<u64, SurfaceBuf>,
    win: Window,
    r: Rect,
    px: int,
    py: int,
    mod_key: ModKey,
    binds: Seq<(char, Action)>,
)
    requires
        win.popups@.len() == 0,
    ensures
        composed(
            w,
            h,
            background,
            cache,
            seq![win],
            seq![r],
            Cursor::Hidden,
            px,
            py,
            false,
            mod_key,
            binds,
            None,
        ) == tree_drawn(
            plain(w, h, background),
            w,
            h,
            cache,
            win.tree@,
            r.x as int,
            r.y as int,
            win.tree@.len() as int,
        ),
{
    reveal_with_fuel(windows_drawn, 2);
    reveal_with_fuel(popups_drawn, 1);
}

/// The help lies over everything but the launcher, and the launcher over all:
/// showing one draws it over the frame that there would be without it.
pub proof fn law_overlays_lie_over_the_frame(
    w: u32,
    h: u32,
    background: [u8; 4],
    cache: Map<u64, SurfaceBuf>,
    windows: Seq<Window>,
    rects: Seq<Rect>,
    cursor: Cursor,
    px: int,
    py: int,
    help: bool,
    mod_key: ModKey,
    binds: Seq<(char, Action)>,
    l: Launcher,
)
    ensures
        ({
            let frame = |help: bool, launcher: Option<Launcher>|
                composed(
                    w,
                    h,
                    background,
                    cache,
                    windows,
                    rects,
                    cursor,
                    px,
                    py,
                    help,
                    mod_key,
                    binds,
                    launcher,
                );
            &&& frame(true, None) == help_drawn(frame(false, None), w, h, mod_key, binds)
            &&& frame(help, Some(l)) == launcher_drawn(
                frame(help, None),
                w,
                h,
                mod_key,
                entries_of(l.entries@),
                l.query@,
                l.selected as int,
            )
        }),
{
}

/// A pixel that no surface of a tree reaches stays as it was.
proof fn lemma_untouched_by_tree(
    back: Seq<u8>,
    w: u32,
    h: u32,
    cache: Map<u64, SurfaceBuf>,
    t: Seq<TreeNode>,
    x: int,
    y: int,
    n: int,
    px: int,
    py: int,
)
    requires
        fits(back.len(), w, h),
        sides_fit(w, h, cache),
        0 <= px < w,
        0 <= py < h,
        0 <= n <= t.len(),
        forall|i: int| 0 <= i < n ==> !reaches(cache, t, x, y, #[trigger] t[i], i, px, py),
    ensures
        pixel(tree_drawn(back, w, h, cache, t, x, y, n), w, px, py) == pixel(back, w, px, py),
    decreases n,
{
    if n > 0 {
        lemma_untouched_by_tree(back, w, h, cache, t, x, y, n - 1, px, py);
        lemma_tree_len(back, w, h, cache, t, x, y, n - 1);
        assert(!reaches(cache, t, x, y, t[n - 1], n - 1, px, py));
        let id = t[n - 1].surface;
        if cache.dom().contains(id) {
            law_surface_covers_its_rectangle(
                tree_drawn(back, w, h, cache, t, x, y, n - 1),
                w,
                h,
                cache[id],
                x + offset_x(t, n - 1),
                y + offset_y(t, n - 1),
                px,
                py,
            );
        }
    }
}

/// Surface `i` of a tree drawn at `(x, y)` reaches the pixel.
pub open spec fn reaches(
    cache: Map<u64, SurfaceBuf>,
    t: Seq<TreeNode>,
    x: int,
    y: int,
    node: TreeNode,
    i: int,
    px: int,
    py: int,
) -> bool {
    &&& cache.dom().contains(node.surface)
    &&& 0 <= px - (x + offset_x(t, i)) < cache[node.surface].w
    &&& 0 <= py - (y + offset_y(t, i)) < cache[node.surface].h
}

/// The background shows wherever no surface of a window reaches, for windows
/// without popups.
pub proof fn law_background_shows_between_windows(
    w: u32,
    h: u32,
    background: [u8; 4],
    cache: Map<u64, SurfaceBuf>,
    windows: Seq<Window>,
    rects: Seq<Rect>,
    px: int,
    py: int,
    mod_key: ModKey,
    binds: Seq<(char, Action)>,
    x: int,
    y: int,
)
    requires
        sides_fit(w, h, cache),
        rects.len() == windows.len(),
        0 <= x < w,
        0 <= y < h,
        forall|k: int|
            0 <= k < windows.len() ==> (#[trigger] windows[k]).popups@.len() == 0 && forall|i: int|
                0 <= i < windows[k].tree@.len() ==> !reaches(
                    cache,
                    windows[k].tree@,
                    rects[k].x as int,
                    rects[k].y as int,
                    #[trigger] windows[k].tree@[i],
                    i,
                    x,
                    y,
                ),
    ensures
        pixel(
            composed(
                w,
                h,
                background,
                cache,
                windows,
                rects,
                Cursor::Hidden,
                px,
                py,
                false,
                mod_key,
                binds,
                None,
            ),
            w,
            x,
            y,
        ) == background@,
{
    lemma_plain_pixel(w, h, background, x, y);
    lemma_untouched_by_windows(
        plain(w, h, background),
        w,
        h,
        cache,
        windows,
        rects,
        windows.len() as int,
        x,
        y,
    );
}

proof fn lemma_untouched_by_windows(
    b: Seq<u8>,
    w: u32,
    h: u32,
    cache: Map<u64, SurfaceBuf>,
    windows: Seq<Window>,
    rects: Seq<Rect>,
    n: int,
    x: int,
    y: int,
)
    requires
        fits(b.len(), w, h),
        sides_fit(w, h, cache),
        rects.len() == windows.len(),
        0 <= n <= windows.len(),
        0 <= x < w,
        0 <= y < h,
        forall|k: int|
            0 <= k < windows.len() ==> (#[trigger] windows[k]).popups@.len() == 0 && forall|i: int|
                0 <= i < windows[k].tree@.len() ==> !reaches(
                    cache,
                    windows[k].tree@,
                    rects[k].x as int,
                    rects[k].y as int,
                    #[trigger] windows[k].tree@[i],
                    i,
                    x,
                    y,
                ),
    ensures
        pixel(windows_drawn(b, w, h, cache, windows, rects, n), w, x, y) == pixel(b, w, x, y),
    decreases n,
{
    if n > 0 {
        lemma_untouched_by_windows(b, w, h, cache, windows, rects, n - 1, x, y);
        lemma_windows_len(b, w, h, cache, windows, rects, n - 1);
        let win = windows[n - 1];
        let r = rects[n - 1];
        assert(win.popups@.len() == 0);
        lemma_untouched_by_tree(
            windows_drawn(b, w, h, cache, windows, rects, n - 1),
            w,
            h,
            cache,
            win.tree@,
            r.x as int,
            r.y as int,
            win.tree@.len() as int,
            x,
            y,
        );
    }
}

/// The arrow shows its own picture and nothing else: white and black where its
/// rows say so, counted from the pointer, and what lies under it elsewhere.
pub proof fn law_arrow_shows_its_ink(
    w: u32,
    h: u32,
    background: [u8; 4],
    cache: Map<u64, SurfaceBuf>,
    windows: Seq<Window>,
    rects: Seq<Rect>,
    px: int,
    py: int,
    mod_key: ModKey,
    binds: Seq<(char, Action)>,
    dx: int,
    dy: int,
)
    requires
        0 <= px + dx < w,
        0 <= py + dy < h,
    ensures
        ({
            let frame = |c: Cursor|
                pixel(
                    composed(
                        w,
                        h,
                        background,
                        cache,
                        windows,
                        rects,
                        c,
                        px,
                        py,
                        false,
                        mod_key,
                        binds,
                        None,
                    ),
                    w,
                    px + dx,
                    py + dy,
                );
            let row = arrow_row(dy);
            &&& 0 <= dx < row.len() && row[dx] == '#' ==> frame(Cursor::Named) == seq![
                255u8,
                255,
                255,
                255,
            ]
            &&& 0 <= dx < row.len() && row[dx] == '.' ==> frame(Cursor::Named) == seq![
                0u8,
                0,
                0,
                255,
            ]
            &&& 0 <= dx < row.len() && row[dx] == ' ' || dx < 0 || dx >= row.len() ==> frame(
                Cursor::Named,
            ) == frame(Cursor::Hidden)
        }),
{
    lemma_plain_pixel(w, h, background, px + dx, py + dy);
    let b = plain(w, h, background);
    let tiled = windows_drawn(b, w, h, cache, windows, rects, windows.len() as int);
    lemma_windows_len(b, w, h, cache, windows, rects, windows.len() as int);
    let white = |a: int, c: int| arrow_inks('#', px, py, a, c);
    let black = |a: int, c: int| arrow_inks('.', px, py, a, c);
    lemma_pixel_painted(tiled, w, h, white, [255, 255, 255, 255], px + dx, py + dy);
    let inked = painted(tiled, w, h, white, [255, 255, 255, 255]);
    lemma_pixel_painted(inked, w, h, black, [0, 0, 0, 255], px + dx, py + dy);
    assert([255u8, 255, 255, 255]@ =~= seq![255u8, 255, 255, 255]);
    assert([0u8, 0, 0, 255]@ =~= seq![0u8, 0, 0, 255]);
}

/// The arrow is closed: every row that has black in it has white to the left
/// of it, and its first row is the tip alone.
pub proof fn law_arrow_is_outlined(dy: int, dx: int)
    requires
        0 <= dx < arrow_row(dy).len(),
    ensures
        0 <= dy < 16,
        arrow_row(dy).len() == 12,
        arrow_row(dy)[dx] == '.' ==> exists|k: int| 0 <= k < dx && #[trigger] arrow_row(dy)[k] == '#',
        dy == 0 ==> (arrow_row(dy)[dx] == '#' <==> dx == 0) && arrow_row(dy)[dx] != '.',
{
    reveal_strlit("#           ");
    reveal_strlit("##          ");
    reveal_strlit("#.#         ");
    reveal_strlit("#..#        ");
    reveal_strlit("#...#       ");
    reveal_strlit("#....#      ");
    reveal_strlit("#.....#     ");
    reveal_strlit("#......#    ");
    reveal_strlit("#.......#   ");
    reveal_strlit("#........#  ");
    reveal_strlit("#.....#####.");
    reveal_strlit("#..#..#     ");
    reveal_strlit("#.# #..#    ");
    reveal_strlit("##  #..#    ");
    reveal_strlit("#    #..#   ");
    reveal_strlit("     ####   ");
    if arrow_row(dy)[dx] == '.' {
        assert(arrow_row(dy)[0] == '#');
    }
}

/// However deep a tree is, a surface stands at its own offset from its parent,
/// and the root at the tree's place.
pub proof fn law_surfaces_stand_by_their_parents(t: Seq<TreeNode>, i: int)
    requires
        tree_wf(t),
        0 <= i < t.len(),
    ensures
        i > 0 ==> offset_x(t, i) - offset_x(t, t[i].parent as int) == t[i].dx,
        i > 0 ==> offset_y(t, i) - offset_y(t, t[i].parent as int) == t[i].dy,
        i == 0 ==> offset_x(t, i) == 0 && offset_y(t, i) == 0,
{
    if i > 0 {
        assert(t[i].parent < i);
    }
}

} // verus!
