//! Dwindle tiling layout.
//!
//! Up to four windows are tiled. The window *order* is owned by the window
//! list; this module owns only what cannot be derived from that list (which
//! window has focus, whether the primary split is flipped, and the primary
//! pane's share) plus the pure geometry that turns `(count, width, height)`
//! into rects.
//!
//! The dwindle progression (capped at 4):
//!   1 → fullscreen
//!   2 → left / right split          (flip: top / bottom)
//!   3 → left half + right column halved   (flip: top half + bottom row halved)
//!   4 → 2×2 grid
//! A fifth or later window stacks on the last cell.

use vstd::prelude::*;
use crate::ratio::{scale, round_to_24, HALF};
use crate::ratio::{lemma_scaled_fits, lemma_scaled_monotone};
use crate::ratio::{scaled, round24};

verus! {

/// A window rectangle in compositor pixel space.
#[derive(Clone, Copy, Debug, PartialEq, Eq, Structural)]
pub struct Rect {
    pub x: i32,
    pub y: i32,
    pub w: u32,
    pub h: u32,
}

/// Half of `v`, taken as a signed 32-bit number and rounded toward zero.
pub open spec fn signed_half(v: u32) -> int {
    let s = v as i32;
    if s >= 0 {
        s as int / 2
    } else {
        -((-s) as int / 2)
    }
}

impl Rect {
    /// Horizontal center.
    pub open spec fn center_x(self) -> int {
        self.x + signed_half(self.w)
    }

    /// Vertical center.
    pub open spec fn center_y(self) -> int {
        self.y + signed_half(self.h)
    }

    /// Both coordinates of the center are 32-bit numbers.
    pub open spec fn center_fits(self) -> bool {
        &&& i32::MIN <= self.center_x() <= i32::MAX
        &&& i32::MIN <= self.center_y() <= i32::MAX
    }

    /// The pixel `(px, py)` lies inside.
    pub open spec fn holds(self, px: int, py: int) -> bool {
        &&& self.x <= px < self.x + self.w
        &&& self.y <= py < self.y + self.h
    }

    fn center(&self) -> (c: (i32, i32))
        requires
            self.center_fits(),
        ensures
            c.0 == self.center_x(),
            c.1 == self.center_y(),
    {
        (self.x + half_of(self.w), self.y + half_of(self.h))
    }
}

fn half_of(v: u32) -> (r: i32)
    ensures
        r == signed_half(v),
        -0x4000_0000 <= r <= 0x3fff_ffff,
{
    let s: i32 = v as i32;
    if s >= 0 {
        s / 2
    } else if s == i32::MIN {
        -0x4000_0000
    } else {
        -((-s) / 2)
    }
}

/// Direction for spatial focus movement.
#[derive(Clone, Copy, Debug, PartialEq, Eq, Structural)]
pub enum Dir {
    Left,
    Right,
    Up,
    Down,
}

/// Least share of the primary pane: the single-precision number nearest 0.1,
/// in units of 2^-28.
pub const MIN_RATIO: u32 = 26_843_546;

/// Greatest share of the primary pane: the single-precision number nearest
/// 0.9, in units of 2^-28.
pub const MAX_RATIO: u32 = 241_591_904;

/// Per-keypress adjustment for `resize_grow`/`resize_shrink`: the
/// single-precision number nearest 0.05, in units of 2^-28.
pub const RESIZE_STEP: u32 = 13_421_773;

/// Tiling state not derivable from the window list.
#[derive(Clone, Copy, Debug, PartialEq, Eq, Structural)]
pub struct Layout {
    /// Index (into the live-window order) of the focused window.
    pub focused: usize,
    /// `rotate_split` toggles this: it flips the primary split axis.
    pub flip: bool,
    /// Primary pane's share of the outermost split only, in units of 2^-28;
    /// adjusted by `resize_grow`/`resize_shrink`. The secondary split always
    /// stays a fixed 50/50.
    pub split_ratio: u32,
}

/// `share` kept between `MIN_RATIO` and `MAX_RATIO`.
pub open spec fn clamped(share: u32) -> u32 {
    if share < MIN_RATIO {
        MIN_RATIO
    } else if share > MAX_RATIO {
        MAX_RATIO
    } else {
        share
    }
}

/// The primary part of a side of length `side`.
pub open spec fn primary_part(side: u32, share: u32) -> u32 {
    scaled(side as nat, clamped(share) as nat) as u32
}

/// The distinct cells for `n` windows on a `w`×`h` output.
pub open spec fn cells(flip: bool, share: u32, n: nat, w: u32, h: u32) -> Seq<Rect> {
    let pw = primary_part(w, share);
    let ph = primary_part(h, share);
    let sw = (w - pw) as u32;
    let sh = (h - ph) as u32;
    let hw = (w / 2) as u32;
    let hh = (h / 2) as u32;
    let hw2 = (w - hw) as u32;
    let hh2 = (h - hh) as u32;
    if n == 0 {
        Seq::empty()
    } else if n == 1 {
        seq![Rect { x: 0, y: 0, w, h }]
    } else if n == 2 && flip {
        seq![Rect { x: 0, y: 0, w, h: ph }, Rect { x: 0, y: ph as i32, w, h: sh }]
    } else if n == 2 {
        seq![Rect { x: 0, y: 0, w: pw, h }, Rect { x: pw as i32, y: 0, w: sw, h }]
    } else if n == 3 && flip {
        seq![
            Rect { x: 0, y: 0, w, h: ph },
            Rect { x: 0, y: ph as i32, w: hw, h: sh },
            Rect { x: hw as i32, y: ph as i32, w: hw2, h: sh },
        ]
    } else if n == 3 {
        seq![
            Rect { x: 0, y: 0, w: pw, h },
            Rect { x: pw as i32, y: 0, w: sw, h: hh },
            Rect { x: pw as i32, y: hh as i32, w: sw, h: hh2 },
        ]
    } else {
        seq![
            Rect { x: 0, y: 0, w: hw, h: hh },
            Rect { x: hw as i32, y: 0, w: hw2, h: hh },
            Rect { x: 0, y: hh as i32, w: hw, h: hh2 },
            Rect { x: hw as i32, y: hh as i32, w: hw2, h: hh2 },
        ]
    }
}

/// One rect per window: the cells in order, then the last cell again for
/// every window past them.
pub open spec fn tiles(flip: bool, share: u32, n: nat, w: u32, h: u32) -> Seq<Rect> {
    let c = cells(flip, share, n, w, h);
    Seq::new(n, |i: int| if i < c.len() { c[i] } else { c.last() })
}

/// `r` lies predominantly in direction `dir` of `cur`, by their centers.
pub open spec fn lies_toward(cur: Rect, r: Rect, dir: Dir) -> bool {
    let dx = r.center_x() - cur.center_x();
    let dy = r.center_y() - cur.center_y();
    match dir {
        Dir::Left => dx < 0 && magnitude(dx) >= magnitude(dy),
        Dir::Right => dx > 0 && magnitude(dx) >= magnitude(dy),
        Dir::Up => dy < 0 && magnitude(dy) >= magnitude(dx),
        Dir::Down => dy > 0 && magnitude(dy) >= magnitude(dx),
    }
}

pub open spec fn magnitude(v: int) -> int {
    if v < 0 {
        -v
    } else {
        v
    }
}

/// Squared distance between the centers.
pub open spec fn distance2(cur: Rect, r: Rect) -> int {
    let dx = r.center_x() - cur.center_x();
    let dy = r.center_y() - cur.center_y();
    dx * dx + dy * dy
}

/// The rect that focus moves from: the focused one, or the last where the
/// index is past the end.
pub open spec fn focus_origin(rects: Seq<Rect>, focused: int) -> Rect {
    rects[if focused < rects.len() {
        focused
    } else {
        rects.len() - 1
    }]
}

/// Window `i` may take focus on a move toward `dir`.
pub open spec fn focus_candidate(rects: Seq<Rect>, focused: int, dir: Dir, i: int) -> bool {
    &&& 0 <= i < rects.len()
    &&& i != focused
    &&& lies_toward(focus_origin(rects, focused), rects[i], dir)
}

/// Window `i` is the nearest candidate, the first of them where several are
/// equally near.
pub open spec fn focus_target(rects: Seq<Rect>, focused: int, dir: Dir, i: int) -> bool {
    let cur = focus_origin(rects, focused);
    &&& focus_candidate(rects, focused, dir, i)
    &&& forall|j: int| #[trigger]
        focus_candidate(rects, focused, dir, j) ==> distance2(cur, rects[i]) <= distance2(
            cur,
            rects[j],
        ) && (j < i ==> distance2(cur, rects[i]) < distance2(cur, rects[j]))
}

/// The centers involved in a focus move, and their differences, are 32-bit
/// numbers.
pub open spec fn focus_fits(rects: Seq<Rect>, focused: int) -> bool {
    rects.len() > 0 ==> {
        let cur = focus_origin(rects, focused);
        &&& cur.center_fits()
        &&& forall|i: int|
            0 <= i < rects.len() && i != focused ==> {
                let r = #[trigger] rects[i];
                &&& r.center_fits()
                &&& i32::MIN <= r.center_x() - cur.center_x() <= i32::MAX
                &&& i32::MIN <= r.center_y() - cur.center_y() <= i32::MAX
            }
    }
}

/// The share after one step up.
pub open spec fn grown(share: u32) -> u32 {
    let s = round24((share + RESIZE_STEP) as nat);
    if s < MAX_RATIO {
        s as u32
    } else {
        MAX_RATIO
    }
}

/// The share after one step down.
pub open spec fn shrunk(share: u32) -> u32 {
    if share < RESIZE_STEP || round24((share - RESIZE_STEP) as nat) < MIN_RATIO {
        MIN_RATIO
    } else {
        round24((share - RESIZE_STEP) as nat) as u32
    }
}

impl Default for Layout {
    fn default() -> (l: Self)
        ensures
            l.focused == 0,
            !l.flip,
            l.split_ratio == HALF,
            l.wf(),
    {
        Self { focused: 0, flip: false, split_ratio: HALF }
    }
}

impl Layout {
    /// The share is within its bounds.
    pub open spec fn wf(self) -> bool {
        MIN_RATIO <= self.split_ratio <= MAX_RATIO
    }

    /// Compute a rect for each of `n` windows filling `w`×`h`. Always returns
    /// exactly `n` rects; windows past the 4th reuse the last cell.
    pub fn rects(&self, n: usize, w: u32, h: u32) -> (r: Vec<Rect>)
        ensures
            r@ == tiles(self.flip, self.split_ratio, n as nat, w, h),
    {
        if n == 0 {
            return Vec::new();
        }
        let ratio: u32 = if self.split_ratio < MIN_RATIO {
            MIN_RATIO
        } else if self.split_ratio > MAX_RATIO {
            MAX_RATIO
        } else {
            self.split_ratio
        };
        let pw: u32 = scale(w, ratio);
        let sw: u32 = w - pw;
        let ph: u32 = scale(h, ratio);
        let sh: u32 = h - ph;
        let hw: u32 = w / 2;
        let hw2: u32 = w - hw;
        let hh: u32 = h / 2;
        let hh2: u32 = h - hh;

        let mut base: Vec<Rect> = Vec::new();
        if n == 1 {
            base.push(Rect { x: 0, y: 0, w, h });
        } else if n == 2 && self.flip {
            base.push(Rect { x: 0, y: 0, w, h: ph });
            base.push(Rect { x: 0, y: ph as i32, w, h: sh });
        } else if n == 2 {
            base.push(Rect { x: 0, y: 0, w: pw, h });
            base.push(Rect { x: pw as i32, y: 0, w: sw, h });
        } else if n == 3 && self.flip {
            base.push(Rect { x: 0, y: 0, w, h: ph });
            base.push(Rect { x: 0, y: ph as i32, w: hw, h: sh });
            base.push(Rect { x: hw as i32, y: ph as i32, w: hw2, h: sh });
        } else if n == 3 {
            base.push(Rect { x: 0, y: 0, w: pw, h });
            base.push(Rect { x: pw as i32, y: 0, w: sw, h: hh });
            base.push(Rect { x: pw as i32, y: hh as i32, w: sw, h: hh2 });
        } else {
            base.push(Rect { x: 0, y: 0, w: hw, h: hh });
            base.push(Rect { x: hw as i32, y: 0, w: hw2, h: hh });
            base.push(Rect { x: 0, y: hh as i32, w: hw, h: hh2 });
            base.push(Rect { x: hw as i32, y: hh as i32, w: hw2, h: hh2 });
        }
        let ghost c = cells(self.flip, self.split_ratio, n as nat, w, h);
        assert(base@ =~= c);

        // Pad so every window gets a rect (extras reuse the last cell).
        let last: Rect = base[base.len() - 1];
        while base.len() < n
            invariant
                c.len() <= base.len() <= n,
                last == c.last(),
                forall|i: int|
                    0 <= i < base.len() ==> base[i] == (if i < c.len() {
                        c[i]
                    } else {
                        c.last()
                    }),
            decreases n - base.len(),
        {
            base.push(last);
        }
        base
    }

    /// Grow the primary pane's share of the outermost split.
    pub fn resize_grow(&mut self)
        ensures
            *final(self) == (Layout { split_ratio: grown(old(self).split_ratio), ..*old(self) }),
            final(self).split_ratio <= MAX_RATIO,
            old(self).wf() ==> final(self).wf() && final(self).split_ratio >= old(self).split_ratio,
    {
        proof {
            lemma_grown(self.split_ratio);
        }
        let s: u64 = round_to_24(self.split_ratio as u64 + RESIZE_STEP as u64);
        self.split_ratio = if s < MAX_RATIO as u64 {
            s as u32
        } else {
            MAX_RATIO
        };
    }

    /// Shrink the primary pane's share of the outermost split.
    pub fn resize_shrink(&mut self)
        ensures
            *final(self) == (Layout { split_ratio: shrunk(old(self).split_ratio), ..*old(self) }),
            final(self).split_ratio >= MIN_RATIO,
            old(self).wf() ==> final(self).wf() && final(self).split_ratio <= old(self).split_ratio,
    {
        proof {
            lemma_shrunk(self.split_ratio);
        }
        self.split_ratio = if self.split_ratio < RESIZE_STEP {
            MIN_RATIO
        } else {
            let s: u64 = round_to_24((self.split_ratio - RESIZE_STEP) as u64);
            if s < MIN_RATIO as u64 {
                MIN_RATIO
            } else {
                s as u32
            }
        };
    }

    /// Move focus to the nearest window in `dir`, using rect centers. No-op if
    /// there is no window that way.
    pub fn focus(&mut self, rects: &[Rect], dir: Dir)
        requires
            focus_fits(rects@, old(self).focused as int),
        ensures
            final(self).flip == old(self).flip,
            final(self).split_ratio == old(self).split_ratio,
            (exists|i: int| focus_candidate(rects@, old(self).focused as int, dir, i))
                ==> focus_target(
                rects@,
                old(self).focused as int,
                dir,
                final(self).focused as int,
            ),
            (forall|i: int| !focus_candidate(rects@, old(self).focused as int, dir, i))
                ==> final(self).focused == old(self).focused,
    {
        if rects.len() == 0 {
            return;
        }
        let origin: usize = if self.focused < rects.len() {
            self.focused
        } else {
            rects.len() - 1
        };
        let cur: Rect = rects[origin];
        let (cx, cy) = cur.center();
        let mut best: Option<(usize, u64)> = None;
        let ghost f = self.focused as int;
        for i in 0..rects.len()
            invariant
                f == self.focused as int,
                *self == *old(self),
                rects.len() > 0,
                focus_fits(rects@, f),
                cur == focus_origin(rects@, f),
                cx == cur.center_x(),
                cy == cur.center_y(),
                match best {
                    None => forall|j: int| j < i ==> !#[trigger] focus_candidate(rects@, f, dir, j),
                    Some((b, d)) => {
                        &&& 0 <= b < i
                        &&& focus_candidate(rects@, f, dir, b as int)
                        &&& d == distance2(cur, rects@[b as int])
                        &&& forall|j: int|
                            j < i && #[trigger] focus_candidate(rects@, f, dir, j) ==> d
                                <= distance2(cur, rects@[j]) && (j < b ==> d < distance2(
                                cur,
                                rects@[j],
                            ))
                    },
                },
        {
            if i != self.focused {
                let r: Rect = rects[i];
                let (rx, ry) = r.center();
                let dx: i64 = (rx - cx) as i64;
                let dy: i64 = (ry - cy) as i64;
                let ax: i64 = if dx < 0 { -dx } else { dx };
                let ay: i64 = if dy < 0 { -dy } else { dy };
                let ok: bool = match dir {
                    Dir::Left => dx < 0 && ax >= ay,
                    Dir::Right => dx > 0 && ax >= ay,
                    Dir::Up => dy < 0 && ay >= ax,
                    Dir::Down => dy > 0 && ay >= ax,
                };
                assert(ok == focus_candidate(rects@, f, dir, i as int));
                if ok {
                    assert(dx * dx == ax * ax && 0 <= ax * ax <= 0x4000_0000_0000_0000)
                        by (nonlinear_arith)
                        requires
                            ax == dx || ax == -dx,
                            0 <= ax <= 0x8000_0000,
                    ;
                    assert(dy * dy == ay * ay && 0 <= ay * ay <= 0x4000_0000_0000_0000)
                        by (nonlinear_arith)
                        requires
                            ay == dy || ay == -dy,
                            0 <= ay <= 0x8000_0000,
                    ;
                    let dist: u64 = (ax * ax) as u64 + (ay * ay) as u64;
                    let nearer: bool = match best {
                        None => true,
                        Some((_, bd)) => dist < bd,
                    };
                    if nearer {
                        best = Some((i, dist));
                    }
                }
            }
        }
        if let Some((i, _)) = best {
            self.focused = i;
        }
    }

    /// Indices to swap so the focused window trades places with the next one
    /// (wrapping). Focus follows the moved window. Returns `None` for fewer
    /// than two windows.
    pub fn swap_next(&mut self, n: usize) -> (r: Option<(usize, usize)>)
        ensures
            n < 2 ==> r is None && *final(self) == *old(self),
            n >= 2 ==> {
                let a = if old(self).focused < n {
                    old(self).focused as int
                } else {
                    n - 1
                };
                let b = (a + 1) % (n as int);
                &&& r == Some((a as usize, b as usize))
                &&& *final(self) == (Layout { focused: b as usize, ..*old(self) })
            },
    {
        if n < 2 {
            return None;
        }
        let a: usize = if self.focused < n - 1 {
            self.focused
        } else {
            n - 1
        };
        let b: usize = if a == n - 1 {
            0
        } else {
            a + 1
        };
        assert(b == (a + 1) % (n as int)) by (nonlinear_arith)
            requires
                0 <= a < n,
                a == n - 1 ==> b == 0,
                a != n - 1 ==> b == a + 1,
        ;
        self.focused = b;
        Some((a, b))
    }

    /// Flip the primary split axis (left/right ↔ top/bottom).
    pub fn rotate_split(&mut self)
        ensures
            *final(self) == (Layout { flip: !old(self).flip, ..*old(self) }),
    {
        self.flip = !self.flip;
    }
}

proof fn lemma_grown(share: u32)
    ensures
        share <= MAX_RATIO ==> grown(share) >= share,
        grown(share) <= MAX_RATIO,
{
    if share + RESIZE_STEP < 16_777_216 {
        reveal_with_fuel(crate::ratio::spacing, 2);
    }
    crate::ratio::lemma_round24_error((share + RESIZE_STEP) as nat);
}

proof fn lemma_shrunk(share: u32)
    ensures
        share >= MIN_RATIO ==> shrunk(share) <= share,
        shrunk(share) >= MIN_RATIO,
        round24((share - RESIZE_STEP) as nat) <= u32::MAX || share < RESIZE_STEP,
{
    if share >= RESIZE_STEP {
        crate::ratio::lemma_round24_error((share - RESIZE_STEP) as nat);
    }
}

/// The cells cover the output without gaps and without overlap: every pixel
/// of a `w`×`h` output lies in exactly one of them.
pub proof fn law_cells_tile_the_output(
    flip: bool,
    share: u32,
    n: nat,
    w: u32,
    h: u32,
    px: int,
    py: int,
)
    requires
        n >= 1,
        w <= i32::MAX,
        h <= i32::MAX,
        0 <= px < w,
        0 <= py < h,
    ensures
        exists|i: int|
            0 <= i < cells(flip, share, n, w, h).len() && (#[trigger] cells(
                flip,
                share,
                n,
                w,
                h,
            )[i]).holds(px, py),
        forall|i: int, j: int|
            0 <= i < cells(flip, share, n, w, h).len() && 0 <= j < cells(
                flip,
                share,
                n,
                w,
                h,
            ).len() && (#[trigger] cells(flip, share, n, w, h)[i]).holds(px, py)
                && (#[trigger] cells(flip, share, n, w, h)[j]).holds(px, py) ==> i == j,
{
    lemma_scaled_fits(w as nat, clamped(share) as nat);
    lemma_scaled_fits(h as nat, clamped(share) as nat);
    let c = cells(flip, share, n, w, h);
    assert(c[0].holds(px, py) || c[1].holds(px, py) || c[2].holds(px, py) || c[3].holds(px, py));
    if c[0].holds(px, py) {
    } else if n > 1 && c[1].holds(px, py) {
    } else if n > 2 && c[2].holds(px, py) {
    } else {
        assert(n > 3 && c[3].holds(px, py));
    }
}

/// `r` lies inside a `w`×`h` output.
pub open spec fn inside(r: Rect, w: u32, h: u32) -> bool {
    &&& 0 <= r.x && r.x + r.w <= w
    &&& 0 <= r.y && r.y + r.h <= h
}

proof fn lemma_cells_inside(flip: bool, share: u32, n: nat, w: u32, h: u32)
    requires
        w <= i32::MAX,
        h <= i32::MAX,
    ensures
        n >= 1 ==> cells(flip, share, n, w, h).len() >= 1,
        forall|i: int|
            0 <= i < cells(flip, share, n, w, h).len() ==> inside(
                #[trigger] cells(flip, share, n, w, h)[i],
                w,
                h,
            ),
{
    lemma_scaled_fits(w as nat, clamped(share) as nat);
    lemma_scaled_fits(h as nat, clamped(share) as nat);
}

/// Every rect of a layout lies inside the output, so a focus move over the
/// rects never leaves the 32-bit range.
pub proof fn law_tiles_allow_focus(
    flip: bool,
    share: u32,
    n: nat,
    w: u32,
    h: u32,
    focused: int,
)
    requires
        w <= i32::MAX,
        h <= i32::MAX,
        0 <= focused,
    ensures
        focus_fits(tiles(flip, share, n, w, h), focused),
        forall|i: int| 0 <= i < n ==> inside(#[trigger] tiles(flip, share, n, w, h)[i], w, h),
{
    lemma_cells_inside(flip, share, n, w, h);
    let t = tiles(flip, share, n, w, h);
    assert forall|i: int| 0 <= i < n implies inside(#[trigger] t[i], w, h) by {
        let c = cells(flip, share, n, w, h);
        assert(t[i] == if i < c.len() { c[i] } else { c[c.len() - 1] });
    }
    assert(t.len() == n);
    if n > 0 {
        let cur = focus_origin(t, focused);
        assert(inside(cur, w, h));
        assert(cur.center_fits());
    }
}

/// The 2×2 grid, and the internal split of the second pane of three windows,
/// do not depend on the primary share.
pub proof fn law_share_moves_primary_split_only(
    flip: bool,
    a: u32,
    b: u32,
    n: nat,
    w: u32,
    h: u32,
)
    ensures
        n != 2 && n != 3 ==> tiles(flip, a, n, w, h) == tiles(flip, b, n, w, h),
        !flip ==> tiles(flip, a, 3, w, h)[1].h == tiles(flip, b, 3, w, h)[1].h && tiles(
            flip,
            a,
            3,
            w,
            h,
        )[2].h == tiles(flip, b, 3, w, h)[2].h,
        flip ==> tiles(flip, a, 3, w, h)[1].w == tiles(flip, b, 3, w, h)[1].w && tiles(
            flip,
            a,
            3,
            w,
            h,
        )[2].w == tiles(flip, b, 3, w, h)[2].w,
{
    if n != 2 && n != 3 {
        assert(cells(flip, a, n, w, h) =~= cells(flip, b, n, w, h));
        assert(tiles(flip, a, n, w, h) =~= tiles(flip, b, n, w, h));
    }
}

/// Growing the share never narrows the primary pane of two windows, and
/// shrinking it never widens it.
pub proof fn law_growing_never_narrows(flip: bool, share: u32, w: u32, h: u32)
    requires
        MIN_RATIO <= share <= MAX_RATIO,
    ensures
        tiles(flip, grown(share), 2, w, h)[0].w >= tiles(flip, share, 2, w, h)[0].w,
        tiles(flip, grown(share), 2, w, h)[0].h >= tiles(flip, share, 2, w, h)[0].h,
        tiles(flip, shrunk(share), 2, w, h)[0].w <= tiles(flip, share, 2, w, h)[0].w,
        tiles(flip, shrunk(share), 2, w, h)[0].h <= tiles(flip, share, 2, w, h)[0].h,
{
    lemma_grown(share);
    lemma_shrunk(share);
    let g = grown(share);
    let s = shrunk(share);
    lemma_scaled_fits(w as nat, g as nat);
    lemma_scaled_fits(h as nat, g as nat);
    lemma_scaled_fits(w as nat, share as nat);
    lemma_scaled_fits(h as nat, share as nat);
    lemma_scaled_monotone(w as nat, share as nat, g as nat);
    lemma_scaled_monotone(h as nat, share as nat, g as nat);
    lemma_scaled_monotone(w as nat, s as nat, share as nat);
    lemma_scaled_monotone(h as nat, s as nat, share as nat);
}

/// Of two windows side by side, each is reached from the other, and there is
/// nothing beyond them: moving right then left comes back.
pub proof fn law_focus_right_then_left(share: u32, w: u32, h: u32)
    requires
        2 <= w <= i32::MAX,
        h <= i32::MAX,
    ensures
        focus_candidate(tiles(false, share, 2, w, h), 0, Dir::Right, 1),
        focus_candidate(tiles(false, share, 2, w, h), 1, Dir::Left, 0),
        !focus_candidate(tiles(false, share, 2, w, h), 0, Dir::Left, 1),
        !focus_candidate(tiles(false, share, 2, w, h), 1, Dir::Right, 0),
{
    lemma_scaled_fits(w as nat, clamped(share) as nat);
}

/// A fifth window, and every one after it, stacks on the last cell.
pub proof fn law_extra_windows_stack(flip: bool, share: u32, n: nat, w: u32, h: u32, i: int)
    requires
        4 <= i < n,
    ensures
        tiles(flip, share, n, w, h)[i] == tiles(flip, share, n, w, h)[3],
        tiles(flip, share, n, w, h)[3] == tiles(flip, share, 4, w, h)[3],
{
}

/// `r` with its two axes exchanged.
pub open spec fn transposed(r: Rect) -> Rect {
    Rect { x: r.y, y: r.x, w: r.h, h: r.w }
}

/// The first window has the top left corner, for every number of windows and
/// either orientation, and there is one tile for each window.
pub proof fn law_first_window_has_the_corner(flip: bool, share: u32, n: nat, w: u32, h: u32)
    ensures
        tiles(flip, share, n, w, h).len() == n,
        n > 0 ==> tiles(flip, share, n, w, h)[0].x == 0 && tiles(flip, share, n, w, h)[0].y == 0,
        n == 1 ==> tiles(flip, share, n, w, h)[0] == (Rect { x: 0, y: 0, w, h }),
{
}

/// For up to three windows, flipping exchanges the two axes: the tiles of a
/// flipped `w`×`h` layout are the tiles of an unflipped `h`×`w` one,
/// transposed. For more windows it changes nothing.
pub proof fn law_flipping_exchanges_the_axes(share: u32, n: nat, w: u32, h: u32)
    ensures
        n <= 3 ==> forall|i: int|
            0 <= i < n ==> #[trigger] tiles(true, share, n, w, h)[i] == transposed(
                tiles(false, share, n, h, w)[i],
            ),
        n > 3 ==> tiles(true, share, n, w, h) == tiles(false, share, n, w, h),
{
    if n > 3 {
        assert(cells(true, share, n, w, h) =~= cells(false, share, n, w, h));
        assert(tiles(true, share, n, w, h) =~= tiles(false, share, n, w, h));
    }
}

/// Unflipped, two and three windows share the output left to right: the first
/// one takes the whole height on the left, the others the rest of the width,
/// one below the other where they are two, the lower one no less high than the
/// upper and at most one pixel higher.
pub proof fn law_unflipped_order(share: u32, w: u32, h: u32)
    requires
        w <= i32::MAX,
        h <= i32::MAX,
    ensures
        ({
            let t = tiles(false, share, 2, w, h);
            &&& t[0].h == h && t[1].h == h && t[1].y == 0
            &&& t[1].x == t[0].w && t[0].w + t[1].w == w
        }),
        ({
            let t = tiles(false, share, 3, w, h);
            &&& t[0] == tiles(false, share, 2, w, h)[0]
            &&& t[1].x == t[0].w && t[2].x == t[0].w
            &&& t[0].w + t[1].w == w && t[2].w == t[1].w
            &&& t[1].y == 0 && t[2].y == t[1].h && t[1].h + t[2].h == h
            &&& t[1].h <= t[2].h <= t[1].h + 1
        }),
{
    lemma_scaled_fits(w as nat, clamped(share) as nat);
    lemma_scaled_fits(h as nat, clamped(share) as nat);
}

/// Four windows are a grid read line by line, halves that differ by at most one
/// pixel, whatever the share and the orientation.
pub proof fn law_four_windows_are_a_grid(flip: bool, share: u32, n: nat, w: u32, h: u32)
    requires
        n >= 4,
        w <= i32::MAX,
        h <= i32::MAX,
    ensures
        ({
            let t = tiles(flip, share, n, w, h);
            &&& t[1].x == t[0].w && t[1].y == 0
            &&& t[2].x == 0 && t[2].y == t[0].h
            &&& t[3].x == t[1].x && t[3].y == t[2].y
            &&& t[0].w + t[1].w == w && t[0].h + t[2].h == h
            &&& t[2].w == t[0].w && t[3].w == t[1].w
            &&& t[1].h == t[0].h && t[3].h == t[2].h
            &&& t[0].w <= t[1].w <= t[0].w + 1 && t[0].h <= t[2].h <= t[0].h + 1
        }),
{
}

/// The primary pane takes its share of the side, to within a pixel: half of it
/// at the start, and never less than a tenth or more than nine tenths by more
/// than that.
pub proof fn law_primary_pane_has_its_share(share: u32, w: u32, h: u32)
    requires
        w <= 0x80_0000,
        MIN_RATIO <= share <= MAX_RATIO,
    ensures
        (tiles(false, share, 2, w, h)[0].w - 1) * 0x1000_0000 <= w * share,
        w * share <= (tiles(false, share, 2, w, h)[0].w + 1) * 0x1000_0000,
{
    crate::ratio::lemma_scaled_near(w as nat, share as nat);
    lemma_scaled_fits(w as nat, share as nat);
}

/// A step moves the share by a twentieth, up to the last place of its
/// rounding, and stops at the bounds: below the upper bound growing widens, and
/// above the lower one shrinking narrows.
pub proof fn law_steps_are_a_twentieth(share: u32)
    requires
        MIN_RATIO <= share <= MAX_RATIO,
    ensures
        grown(share) == MAX_RATIO || share + 13_421_757 <= grown(share) <= share + 13_421_789,
        shrunk(share) == MIN_RATIO || share - 13_421_789 <= shrunk(share) <= share - 13_421_757,
        grown(share) == MAX_RATIO ==> share + 13_421_789 >= MAX_RATIO,
        shrunk(share) == MIN_RATIO ==> share <= MIN_RATIO + 13_421_789,
        share < MAX_RATIO ==> share < grown(share),
        MIN_RATIO < share ==> shrunk(share) < share,
{
    crate::ratio::lemma_round24_error((share + RESIZE_STEP) as nat);
    if share >= RESIZE_STEP {
        crate::ratio::lemma_round24_error((share - RESIZE_STEP) as nat);
    }
}

/// The focus goes where it is told: a window that may take it on a move to the
/// left has its center to the left, no further up or down than to the side, and
/// so on for each direction.
pub proof fn law_focus_goes_the_way_it_is_told(
    rects: Seq<Rect>,
    f: int,
    i: int,
    w: u32,
    h: u32,
)
    requires
        w <= i32::MAX,
        h <= i32::MAX,
        0 <= f < rects.len(),
        0 <= i < rects.len(),
        forall|k: int| 0 <= k < rects.len() ==> inside(#[trigger] rects[k], w, h),
    ensures
        ({
            let dx = (rects[i].x + rects[i].w / 2) - (rects[f].x + rects[f].w / 2);
            let dy = (rects[i].y + rects[i].h / 2) - (rects[f].y + rects[f].h / 2);
            &&& focus_candidate(rects, f, Dir::Left, i) <==> i != f && dx < 0 && dx <= dy <= -dx
            &&& focus_candidate(rects, f, Dir::Right, i) <==> i != f && dx > 0 && -dx <= dy <= dx
            &&& focus_candidate(rects, f, Dir::Up, i) <==> i != f && dy < 0 && dy <= dx <= -dy
            &&& focus_candidate(rects, f, Dir::Down, i) <==> i != f && dy > 0 && -dy <= dx <= dy
        }),
{
    assert(inside(rects[i], w, h) && inside(rects[f], w, h));
}

/// What lies to the right of a window has that window to its left, and what
/// lies below it has it above.
pub proof fn law_directions_are_mutual(rects: Seq<Rect>, f: int, i: int)
    requires
        0 <= f < rects.len(),
        0 <= i < rects.len(),
    ensures
        focus_candidate(rects, f, Dir::Left, i) == focus_candidate(rects, i, Dir::Right, f),
        focus_candidate(rects, f, Dir::Up, i) == focus_candidate(rects, i, Dir::Down, f),
        !focus_candidate(rects, f, Dir::Left, f) && !focus_candidate(rects, f, Dir::Up, f),
{
}

/// No window that may take the focus has its center nearer than the one that
/// does, and of two equally near ones the earlier takes it: there is only one.
pub proof fn law_nearest_window_takes_the_focus(
    rects: Seq<Rect>,
    f: int,
    dir: Dir,
    i: int,
    j: int,
)
    requires
        0 <= f < rects.len(),
        focus_target(rects, f, dir, i),
        focus_candidate(rects, f, dir, j),
    ensures
        ({
            let far = |k: int|
                {
                    let dx = rects[k].center_x() - rects[f].center_x();
                    let dy = rects[k].center_y() - rects[f].center_y();
                    dx * dx + dy * dy
                };
            &&& far(i) <= far(j)
            &&& j < i ==> far(i) < far(j)
        }),
        focus_target(rects, f, dir, j) ==> i == j,
        focus_candidate(rects, f, dir, i),
{
}

} // verus!
