use veil::layout::{Dir, Layout, Rect, MAX_RATIO, MIN_RATIO};
use veil::ratio::{scale, HALF, ONE};

#[test]
fn one_window_is_fullscreen() {
    let l = Layout::default();
    assert_eq!(l.rects(1, 100, 80), vec![Rect { x: 0, y: 0, w: 100, h: 80 }]);
}

#[test]
fn two_windows_split_left_right() {
    let l = Layout::default();
    let r = l.rects(2, 100, 80);
    assert_eq!(r[0], Rect { x: 0, y: 0, w: 50, h: 80 });
    assert_eq!(r[1], Rect { x: 50, y: 0, w: 50, h: 80 });
}

#[test]
fn flip_splits_top_bottom() {
    let l = Layout { focused: 0, flip: true, ..Default::default() };
    let r = l.rects(2, 100, 80);
    assert_eq!(r[0], Rect { x: 0, y: 0, w: 100, h: 40 });
    assert_eq!(r[1], Rect { x: 0, y: 40, w: 100, h: 40 });
}

#[test]
fn three_windows_corner() {
    let l = Layout::default();
    let r = l.rects(3, 100, 80);
    assert_eq!(r[0], Rect { x: 0, y: 0, w: 50, h: 80 });
    assert_eq!(r[1], Rect { x: 50, y: 0, w: 50, h: 40 });
    assert_eq!(r[2], Rect { x: 50, y: 40, w: 50, h: 40 });
}

#[test]
fn four_windows_grid() {
    let l = Layout::default();
    let r = l.rects(4, 100, 80);
    assert_eq!(r[0], Rect { x: 0, y: 0, w: 50, h: 40 });
    assert_eq!(r[1], Rect { x: 50, y: 0, w: 50, h: 40 });
    assert_eq!(r[2], Rect { x: 0, y: 40, w: 50, h: 40 });
    assert_eq!(r[3], Rect { x: 50, y: 40, w: 50, h: 40 });
}

#[test]
fn odd_dimensions_tile_without_gaps() {
    // 101×81: halves must cover the full extent (no lost row/column).
    let l = Layout::default();
    let r = l.rects(2, 101, 81);
    assert_eq!(r[0].w + r[1].w, 101);
    assert_eq!(r[1].x, r[0].w as i32);
}

#[test]
fn extras_reuse_last_cell() {
    let l = Layout::default();
    let r = l.rects(6, 100, 80);
    assert_eq!(r.len(), 6);
    assert_eq!(r[5], r[3]); // stacks on bottom-right
}

#[test]
fn focus_moves_right_then_left() {
    let mut l = Layout::default();
    let r = l.rects(2, 100, 80); // [left, right]
    l.focus(&r, Dir::Right);
    assert_eq!(l.focused, 1);
    l.focus(&r, Dir::Left);
    assert_eq!(l.focused, 0);
}

#[test]
fn focus_noop_when_nothing_that_way() {
    let mut l = Layout::default();
    let r = l.rects(2, 100, 80);
    l.focus(&r, Dir::Left); // already leftmost
    assert_eq!(l.focused, 0);
}

#[test]
fn swap_next_wraps_and_follows_focus() {
    let mut l = Layout::default();
    assert_eq!(l.swap_next(3), Some((0, 1)));
    assert_eq!(l.focused, 1);
    l.focused = 2;
    assert_eq!(l.swap_next(3), Some((2, 0)));
    assert_eq!(l.focused, 0);
    assert_eq!(l.swap_next(1), None);
}

#[test]
fn resize_grows_and_shrinks_primary_pane() {
    let mut l = Layout::default();
    l.resize_grow();
    let r = l.rects(2, 100, 80);
    assert!(r[0].w > 50); // primary pane bigger than default 50/50
    assert_eq!(r[0].w + r[1].w, 100); // still covers the full width

    let mut l = Layout::default();
    l.resize_shrink();
    let r = l.rects(2, 100, 80);
    assert!(r[0].w < 50);
    assert_eq!(r[0].w + r[1].w, 100);
}

#[test]
fn resize_clamps_at_bounds() {
    let mut l = Layout::default();
    for _ in 0..50 {
        l.resize_grow();
    }
    assert_eq!(l.split_ratio, MAX_RATIO);

    let mut l = Layout::default();
    for _ in 0..50 {
        l.resize_shrink();
    }
    assert_eq!(l.split_ratio, MIN_RATIO);
}

#[test]
fn resize_does_not_affect_2x2_grid() {
    let mut l = Layout::default();
    l.resize_grow();
    let r = l.rects(4, 100, 80);
    assert_eq!(r[0], Rect { x: 0, y: 0, w: 50, h: 40 });
    assert_eq!(r[1], Rect { x: 50, y: 0, w: 50, h: 40 });
}

#[test]
fn resize_affects_primary_split_only_in_three_window_layout() {
    let mut l = Layout::default();
    l.resize_grow();
    let r = l.rects(3, 100, 80);
    assert!(r[0].w > 50); // primary column grew
    // secondary (stacked) column's internal top/bottom split stays 50/50
    assert_eq!(r[1].h, 40);
    assert_eq!(r[2].h, 40);
}

#[test]
fn no_windows_have_no_rects() {
    assert_eq!(Layout::default().rects(0, 100, 80), vec![]);
}

#[test]
fn cells_cover_every_pixel_once() {
    for n in 1..5usize {
        for flip in [false, true] {
            let mut l = Layout { focused: 0, flip, split_ratio: HALF };
            for step in 0..12 {
                let r = l.rects(n, 37, 23);
                for y in 0..23i32 {
                    for x in 0..37i32 {
                        let mut hits = 0;
                        for c in &r {
                            let right = c.x + c.w as i32;
                            let bottom = c.y + c.h as i32;
                            if x >= c.x && x < right && y >= c.y && y < bottom {
                                hits += 1;
                            }
                        }
                        assert_eq!(hits, 1, "n={n} flip={flip} step={step} at {x},{y}");
                    }
                }
                l.resize_grow();
            }
        }
    }
}

#[test]
fn focus_past_the_end_starts_from_the_last_window() {
    let mut l = Layout { focused: 9, ..Default::default() };
    let r = l.rects(2, 100, 80);
    l.focus(&r, Dir::Left);
    assert_eq!(l.focused, 0);
}

#[test]
fn focus_up_and_down_in_the_grid() {
    let mut l = Layout::default();
    let r = l.rects(4, 100, 80);
    l.focus(&r, Dir::Down);
    assert_eq!(l.focused, 2);
    l.focus(&r, Dir::Right);
    assert_eq!(l.focused, 3);
    l.focus(&r, Dir::Up);
    assert_eq!(l.focused, 1);
}

#[test]
fn rotating_twice_changes_nothing() {
    let mut l = Layout::default();
    l.rotate_split();
    assert!(l.flip);
    l.rotate_split();
    assert_eq!(l, Layout::default());
}

/// Shares are exact binary fractions, so that they can be held against the
/// single-precision arithmetic they stand for.
fn as_f32(share: u32) -> f32 {
    (share as f64 / ONE as f64) as f32
}

#[test]
fn shares_step_like_single_precision() {
    let mut l = Layout::default();
    let mut f = 0.5f32;
    for _ in 0..12 {
        assert_eq!(as_f32(l.split_ratio), f);
        l.resize_grow();
        f = (f + 0.05).clamp(0.1, 0.9);
    }
    for _ in 0..24 {
        assert_eq!(as_f32(l.split_ratio), f);
        l.resize_shrink();
        f = (f - 0.05).clamp(0.1, 0.9);
    }
    for _ in 0..40 {
        assert_eq!(as_f32(l.split_ratio), f);
        l.resize_grow();
        f = (f + 0.05).clamp(0.1, 0.9);
    }
}

#[test]
fn shares_of_a_side_like_single_precision() {
    let mut shares = vec![MIN_RATIO, MAX_RATIO, HALF];
    let mut l = Layout::default();
    for _ in 0..9 {
        l.resize_grow();
        shares.push(l.split_ratio);
    }
    for _ in 0..20 {
        l.resize_shrink();
        shares.push(l.split_ratio);
    }
    let mut totals: Vec<u32> = (0..3000).collect();
    for k in 0..31u32 {
        let p = 1u32 << k;
        totals.push(p - 1);
        totals.push(p);
        totals.push(p + 1);
        totals.push(p.wrapping_mul(3) & 0x7fff_ffff);
    }
    totals.push(i32::MAX as u32);
    for s in &shares {
        for t in &totals {
            assert_eq!(scale(*t, *s), (*t as f32 * as_f32(*s)).round() as u32, "{t} * {s}");
        }
    }
}
