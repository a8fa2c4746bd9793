//! Client surfaces: importing their pixels, and blitting them into a frame.

use vstd::prelude::*;
use crate::canvas::{fits, lemma_coordinates, lemma_position, pixel};

verus! {

/// Per-surface RGBA cache entry. These are re-blit for every frame.
pub struct SurfaceBuf {
    pub rgba: Vec<u8>,
    pub w: u32,
    pub h: u32,
}

impl SurfaceBuf {
    /// The pixels are there.
    pub open spec fn wf(self) -> bool {
        fits(self.rgba@.len(), self.w, self.h)
    }
}

/// Pixel formats that clients hand over, by their names in memory order of a
/// little-endian word.
#[derive(Clone, Copy, Debug, PartialEq, Eq, Structural)]
pub enum PixelFormat {
    Argb8888,
    Xrgb8888,
    Abgr8888,
    Xbgr8888,
    Other,
}

/// Blue comes first in memory.
pub open spec fn blue_first(f: PixelFormat) -> bool {
    f == PixelFormat::Argb8888 || f == PixelFormat::Xrgb8888
}

/// Byte `c` (red, green, blue, alpha) of the RGBA pixel made from the four
/// bytes of `raw` at `at`. The alpha is always opaque.
pub open spec fn channel(raw: Seq<u8>, at: int, blue: bool, c: int) -> u8 {
    if c == 3 {
        255
    } else if blue {
        raw[at + 2 - c]
    } else {
        raw[at + c]
    }
}

/// `w`×`h` RGBA pixels read from `raw`, rows `stride` bytes apart from `start`.
pub open spec fn converted(
    raw: Seq<u8>,
    start: int,
    stride: int,
    w: int,
    h: int,
    blue: bool,
) -> Seq<u8> {
    Seq::new(
        (4 * (w * h)) as nat,
        |k: int|
            channel(raw, start + ((k / 4) / w) * stride + 4 * ((k / 4) % w), blue, k % 4),
    )
}

/// Every row of the image lies inside `raw`.
pub open spec fn rows_inside(len: int, start: int, stride: int, w: int, h: int) -> bool {
    h > 0 ==> start + (h - 1) * stride + 4 * w <= len
}

fn convert(raw: &[u8], start: usize, stride: usize, w: usize, h: usize, blue: bool) -> (out: Vec<
    u8,
>)
    requires
        rows_inside(raw.len() as int, start as int, stride as int, w as int, h as int),
        4 * w <= stride,
    ensures
        out@ == converted(raw@, start as int, stride as int, w as int, h as int, blue),
{
    let mut out: Vec<u8> = Vec::new();
    let mut row: usize = start;
    assert(0 * stride == 0 && 0 * w == 0) by (nonlinear_arith);
    for y in 0..h
        invariant
            rows_inside(raw.len() as int, start as int, stride as int, w as int, h as int),
            4 * w <= stride,
            y < h ==> row == start + y * stride,
            out.len() == 4 * (y * w),
            forall|k: int|
                0 <= k < out.len() ==> out[k] == #[trigger] channel(
                    raw@,
                    start + ((k / 4) / (w as int)) * stride + 4 * ((k / 4) % (w as int)),
                    blue,
                    k % 4,
                ),
    {
        assert(y * stride <= (h - 1) * stride) by (nonlinear_arith)
            requires
                y <= h - 1,
                0 <= stride,
        ;
        for x in 0..w
            invariant
                y < h,
                4 * w <= stride,
                row == start + y * stride,
                row + 4 * w <= raw.len(),
                out.len() == 4 * (y * w + x),
                forall|k: int|
                    0 <= k < out.len() ==> out[k] == #[trigger] channel(
                        raw@,
                        start + ((k / 4) / (w as int)) * stride + 4 * ((k / 4) % (w as int)),
                        blue,
                        k % 4,
                    ),
        {
            let at: usize = row + 4 * x;
            let ghost before = out@;
            if blue {
                out.push(raw[at + 2]);
                out.push(raw[at + 1]);
                out.push(raw[at]);
            } else {
                out.push(raw[at]);
                out.push(raw[at + 1]);
                out.push(raw[at + 2]);
            }
            out.push(255);
            proof {
                lemma_position(x as int, y as int, w as int, h as int);
                assert forall|k: int| 0 <= k < out.len() implies out[k] == #[trigger] channel(
                    raw@,
                    start + ((k / 4) / (w as int)) * stride + 4 * ((k / 4) % (w as int)),
                    blue,
                    k % 4,
                ) by {
                    if k < before.len() {
                        assert(out[k] == before[k]);
                    } else {
                        assert(k / 4 == y * w + x);
                    }
                }
            }
        }
        assert((y + 1) * w == y * w + w) by (nonlinear_arith);
        if y + 1 < h {
            assert((y + 1) * stride == y * stride + stride && (y + 1) * stride <= (h - 1) * stride)
                by (nonlinear_arith)
                requires
                    y + 1 <= h - 1,
                    0 <= stride,
            ;
            row = row + stride;
        }
    }
    assert(h * w == w * h) by (nonlinear_arith);
    assert(out@ =~= converted(raw@, start as int, stride as int, w as int, h as int, blue));
    out
}

/// Where a shared-memory buffer lies in its pool, and what it holds.
#[derive(Clone, Copy, Debug, PartialEq, Eq, Structural)]
pub struct BufferData {
    pub offset: i32,
    pub width: i32,
    pub height: i32,
    pub stride: i32,
    pub format: PixelFormat,
}

/// The rows are as wide as the image, and the pool as long as the rows.
pub open spec fn shm_sound(len: int, d: BufferData) -> bool {
    d.stride >= 4 * d.width && len >= d.stride * d.height
}

/// An image without pixels needs no known format.
pub open spec fn readable(f: PixelFormat, w: int, h: int) -> bool {
    f != PixelFormat::Other || w == 0 || h == 0
}

/// Converts a shared-memory buffer to RGBA with its width and height. `None`
/// where rows or pool are too short, or the format is not known.
pub fn shm_to_rgba(raw: &[u8], data: &BufferData) -> (r: Option<(Vec<u8>, u32, u32)>)
    requires
        data.offset >= 0,
        data.width >= 0,
        data.height >= 0,
        data.stride >= 0,
        shm_sound(raw.len() as int, *data) ==> rows_inside(
            raw.len() as int,
            data.offset as int,
            data.stride as int,
            data.width as int,
            data.height as int,
        ),
    ensures
        r is Some <==> shm_sound(raw.len() as int, *data) && readable(
            data.format,
            data.width as int,
            data.height as int,
        ),
        r matches Some((rgba, w, h)) ==> {
            &&& w == data.width
            &&& h == data.height
            &&& rgba@ == converted(
                raw@,
                data.offset as int,
                data.stride as int,
                data.width as int,
                data.height as int,
                blue_first(data.format),
            )
        },
{
    let w: usize = data.width as usize;
    let h: usize = data.height as usize;
    let stride: usize = data.stride as usize;
    assert(0 <= data.stride * data.height <= 0x7fff_ffff * 0x7fff_ffff) by (nonlinear_arith)
        requires
            0 <= data.stride <= 0x7fff_ffff,
            0 <= data.height <= 0x7fff_ffff,
    ;
    let needed: u64 = data.stride as u64 * data.height as u64;
    if (data.stride as i64) < 4 * (data.width as i64) || (raw.len() as u64) < needed {
        return None;
    }
    if data.format == PixelFormat::Other && w > 0 && h > 0 {
        return None;
    }
    let blue: bool = match data.format {
        PixelFormat::Argb8888 => true,
        PixelFormat::Xrgb8888 => true,
        _ => false,
    };
    let out: Vec<u8> = convert(raw, data.offset as usize, stride, w, h, blue);
    Some((out, data.width as u32, data.height as u32))
}

/// Converts a mapped linear buffer to RGBA with its width and height. Only
/// 32-bit formats are read. `None` where rows or mapping are too short, or the
/// format is not known.
pub fn linear_to_rgba(
    raw: &[u8],
    offset: u32,
    stride: u32,
    width: u32,
    height: u32,
    format: PixelFormat,
) -> (r: Option<(Vec<u8>, u32, u32)>)
    ensures
        r is Some <==> {
            &&& stride >= 4 * width
            &&& raw.len() >= offset + stride * height
            &&& readable(format, width as int, height as int)
        },
        r matches Some((rgba, w, h)) ==> {
            &&& w == width
            &&& h == height
            &&& rgba@ == converted(
                raw@,
                offset as int,
                stride as int,
                width as int,
                height as int,
                blue_first(format),
            )
        },
{
    assert(0 <= stride * height <= 0xffff_ffff * 0xffff_ffff) by (nonlinear_arith)
        requires
            0 <= stride <= 0xffff_ffff,
            0 <= height <= 0xffff_ffff,
    ;
    let needed: u64 = stride as u64 * height as u64;
    if (stride as u64) < 4 * (width as u64) {
        return None;
    }
    if (raw.len() as u64) < offset as u64 || (raw.len() as u64) - (offset as u64) < needed {
        return None;
    }
    if format == PixelFormat::Other && width > 0 && height > 0 {
        return None;
    }
    let blue: bool = match format {
        PixelFormat::Argb8888 => true,
        PixelFormat::Xrgb8888 => true,
        _ => false,
    };
    proof {
        if height > 0 {
            assert((height - 1) * stride + stride == stride * height) by (nonlinear_arith);
        }
    }
    if height == 0 {
        let out: Vec<u8> = Vec::new();
        assert(width * height == 0) by (nonlinear_arith)
            requires
                height == 0,
        ;
        assert(out@ =~= converted(
            raw@,
            offset as int,
            stride as int,
            width as int,
            height as int,
            blue_first(format),
        ));
        return Some((out, width, height));
    }
    let out: Vec<u8> = convert(
        raw,
        offset as usize,
        stride as usize,
        width as usize,
        height as usize,
        blue,
    );
    Some((out, width, height))
}

// ── Blitting ─────────────────────────────────────────────────────────────

/// Source over destination for one color byte.
pub open spec fn blend(s: u8, b: u8, a: u8) -> u8 {
    ((s * a + b * (255 - a)) / 255) as u8
}

/// Byte `c` of the source pixel at `si` laid over the destination pixel at
/// `di`.
pub open spec fn over(src: Seq<u8>, si: int, back: Seq<u8>, di: int, c: int) -> u8 {
    let a = src[si + 3];
    if a == 255 {
        src[si + c]
    } else if a == 0 {
        back[di + c]
    } else if c == 3 {
        255
    } else {
        blend(src[si + c], back[di + c], a)
    }
}

/// The image `w`×`h` at `(x, y)` covers the pixel `(px, py)` of a frame
/// `bw`×`bh`. Sides are taken as signed 32-bit numbers.
pub open spec fn image_covers(
    w: u32,
    h: u32,
    x: int,
    y: int,
    bw: u32,
    bh: u32,
    px: int,
    py: int,
) -> bool {
    &&& 0 <= px - x < w as i32
    &&& 0 <= py - y < h as i32
    &&& px < bw as i32
    &&& py < bh as i32
}

/// `back` with `src` laid over it at `(x, y)`, clipped.
pub open spec fn blitted(
    back: Seq<u8>,
    bw: u32,
    bh: u32,
    src: SurfaceBuf,
    x: int,
    y: int,
) -> Seq<u8> {
    Seq::new(
        back.len(),
        |k: int|
            {
                let px = (k / 4) % (bw as int);
                let py = (k / 4) / (bw as int);
                if k / 4 < bw * bh && image_covers(src.w, src.h, x, y, bw, bh, px, py) {
                    over(
                        src.rgba@,
                        4 * ((py - y) * src.w + (px - x)),
                        back,
                        4 * (k / 4),
                        k % 4,
                    )
                } else {
                    back[k]
                }
            },
    )
}

fn blend_byte(s: u8, b: u8, a: u8) -> (r: u8)
    ensures
        r == blend(s, b, a),
{
    assert(0 <= s * a + b * (255 - a) <= 255 * 255) by (nonlinear_arith)
        requires
            0 <= s <= 255,
            0 <= a <= 255,
            0 <= b <= 255,
    ;
    assert(s * a >= 0 && b * (255 - a) >= 0 && s * a <= 65025 && b * (255 - a) <= 65025)
        by (nonlinear_arith)
        requires
            0 <= s <= 255,
            0 <= a <= 255,
            0 <= b <= 255,
    ;
    let inv: u32 = 255 - a as u32;
    ((s as u32 * a as u32 + b as u32 * inv) / 255) as u8
}

/// Lays one source pixel over one destination pixel.
fn blit_pixel(back: &mut [u8], di: usize, src: &SurfaceBuf, si: usize)
    requires
        di + 4 <= old(back).len(),
        si + 4 <= src.rgba.len(),
    ensures
        final(back)@.len() == old(back)@.len(),
        forall|k: int|
            0 <= k < old(back)@.len() ==> #[trigger] final(back)@[k] == (if di <= k < di + 4 {
                over(src.rgba@, si as int, old(back)@, di as int, k - di)
            } else {
                old(back)@[k]
            }),
{
    let a: u8 = src.rgba[si + 3];
    if a == 255 {
        back[di] = src.rgba[si];
        back[di + 1] = src.rgba[si + 1];
        back[di + 2] = src.rgba[si + 2];
        back[di + 3] = src.rgba[si + 3];
    } else if a > 0 {
        let r: u8 = blend_byte(src.rgba[si], back[di], a);
        let g: u8 = blend_byte(src.rgba[si + 1], back[di + 1], a);
        let b: u8 = blend_byte(src.rgba[si + 2], back[di + 2], a);
        back[di] = r;
        back[di + 1] = g;
        back[di + 2] = b;
        back[di + 3] = 255;
    }
}

/// What is laid over a pixel depends on that pixel only.
proof fn lemma_over_local(src: Seq<u8>, si: int, a: Seq<u8>, b: Seq<u8>, di: int)
    requires
        forall|c: int| 0 <= c < 4 ==> #[trigger] a[di + c] == b[di + c],
    ensures
        forall|c: int| 0 <= c < 4 ==> #[trigger] over(src, si, a, di, c) == over(src, si, b, di, c),
{
    assert forall|c: int| 0 <= c < 4 implies #[trigger] over(src, si, a, di, c) == over(
        src,
        si,
        b,
        di,
        c,
    ) by {
        assert(a[di + c] == b[di + c]);
    }
}

/// The pixels done so far: rows above `py`, and left of `px` in row `py`.
spec fn pixel_done(k: int, bw: u32, px: int, py: int) -> bool {
    let x = (k / 4) % (bw as int);
    let y = (k / 4) / (bw as int);
    y < py || (y == py && x < px)
}

spec fn partly(
    start: Seq<u8>,
    bw: u32,
    bh: u32,
    src: SurfaceBuf,
    x: int,
    y: int,
    px: int,
    py: int,
) -> Seq<u8> {
    Seq::new(
        start.len(),
        |k: int|
            if pixel_done(k, bw, px, py) {
                blitted(start, bw, bh, src, x, y)[k]
            } else {
                start[k]
            },
    )
}

/// Alpha-over blit `src` onto `back` at `(x, y)`. Clips to back bounds.
pub fn blit(back: &mut [u8], back_w: u32, back_h: u32, src: &SurfaceBuf, x: i32, y: i32)
    requires
        fits(old(back)@.len(), back_w, back_h),
        src.wf(),
    ensures
        final(back)@ == blitted(old(back)@, back_w, back_h, *src, x as int, y as int),
{
    let ghost start = back@;
    let ghost len = start.len();
    let bw: i64 = (back_w as i32) as i64;
    let bh: i64 = (back_h as i32) as i64;
    let sw: i64 = (src.w as i32) as i64;
    let sh: i64 = (src.h as i32) as i64;
    let x0: i64 = if x > 0 { x as i64 } else { 0 };
    let y0: i64 = if y > 0 { y as i64 } else { 0 };
    let x1: i64 = if x as i64 + sw < bw { x as i64 + sw } else { bw };
    let y1: i64 = if y as i64 + sh < bh { y as i64 + sh } else { bh };
    if x0 >= x1 || y0 >= y1 {
        proof {
            assert forall|k: int| 0 <= k < len implies blitted(
                start,
                back_w,
                back_h,
                *src,
                x as int,
                y as int,
            )[k] == start[k] by {
                if k / 4 < back_w * back_h {
                    lemma_coordinates(k / 4, back_w as int, back_h as int);
                }
            }
            assert(start =~= blitted(start, back_w, back_h, *src, x as int, y as int));
        }
        return;
    }
    proof {
        crate::canvas::lemma_signed(back_w);
        crate::canvas::lemma_signed(back_h);
        crate::canvas::lemma_signed(src.w);
        crate::canvas::lemma_signed(src.h);
    }
    proof {
        assert forall|k: int| 0 <= k < len implies partly(
            start,
            back_w,
            back_h,
            *src,
            x as int,
            y as int,
            x0 as int,
            y0 as int,
        )[k] == start[k] by {
            if k / 4 < back_w * back_h {
                lemma_coordinates(k / 4, back_w as int, back_h as int);
            }
        }
        assert(start =~= partly(
            start,
            back_w,
            back_h,
            *src,
            x as int,
            y as int,
            x0 as int,
            y0 as int,
        ));
    }
    let mut dy: i64 = y0;
    while dy < y1
        invariant
            fits(len, back_w, back_h),
            len == start.len(),
            back.len() == len,
            src.wf(),
            bw == back_w,
            bh == back_h,
            sw == src.w,
            sh == src.h,
            0 <= bw <= i32::MAX,
            0 <= bh <= i32::MAX,
            0 <= sw <= i32::MAX,
            0 <= sh <= i32::MAX,
            bw == back_w as i32,
            bh == back_h as i32,
            sw == src.w as i32,
            sh == src.h as i32,
            x0 == (if x > 0 { x as int } else { 0 }),
            y0 == (if y > 0 { y as int } else { 0 }),
            x1 == (if x + sw < bw { x + sw } else { bw as int }),
            y1 == (if y + sh < bh { y + sh } else { bh as int }),
            x0 < x1,
            y0 <= dy <= y1,
            back@ == partly(
                start,
                back_w,
                back_h,
                *src,
                x as int,
                y as int,
                x0 as int,
                dy as int,
            ),
        decreases y1 - dy,
    {
        let mut dx: i64 = x0;
        while dx < x1
            invariant
                fits(len, back_w, back_h),
                len == start.len(),
                back.len() == len,
                src.wf(),
                bw == back_w,
                bh == back_h,
                sw == src.w,
                sh == src.h,
                0 <= bw <= i32::MAX,
                0 <= bh <= i32::MAX,
                0 <= sw <= i32::MAX,
                0 <= sh <= i32::MAX,
                bw == back_w as i32,
                bh == back_h as i32,
                sw == src.w as i32,
                sh == src.h as i32,
                x0 == (if x > 0 { x as int } else { 0 }),
                y0 == (if y > 0 { y as int } else { 0 }),
                x1 == (if x + sw < bw { x + sw } else { bw as int }),
                y1 == (if y + sh < bh { y + sh } else { bh as int }),
                x0 <= dx <= x1,
                y0 <= dy < y1,
                back@ == partly(
                    start,
                    back_w,
                    back_h,
                    *src,
                    x as int,
                    y as int,
                    dx as int,
                    dy as int,
                ),
            decreases x1 - dx,
        {
            let ghost mid = back@;
            let sx: i64 = dx - x as i64;
            let sy: i64 = dy - y as i64;
            proof {
                lemma_position(dx as int, dy as int, back_w as int, back_h as int);
                lemma_position(sx as int, sy as int, src.w as int, src.h as int);
                lemma_position_words(dx as int, dy as int, back_w as int);
                lemma_position_words(sx as int, sy as int, src.w as int);
            }
            let ghost p = dy * back_w + dx;
            let ghost q = sy * src.w + sx;
            assert(4 * (back_w * back_h) <= back.len());
            assert(4 * (src.w * src.h) <= src.rgba.len());
            let di: usize = (dy as usize * back_w as usize + dx as usize) * 4;
            let si: usize = (sy as usize * src.w as usize + sx as usize) * 4;
            assert(di == 4 * p && si == 4 * q);
            blit_pixel(back, di, src, si);
            proof {
                assert forall|c: int| 0 <= c < 4 implies #[trigger] mid[di + c] == start[di + c] by {
                    assert((di + c) / 4 == p);
                }
                lemma_over_local(src.rgba@, si as int, mid, start, di as int);
            }
            proof {
                let want = partly(
                    start,
                    back_w,
                    back_h,
                    *src,
                    x as int,
                    y as int,
                    dx + 1,
                    dy as int,
                );
                assert(image_covers(
                    src.w,
                    src.h,
                    x as int,
                    y as int,
                    back_w,
                    back_h,
                    dx as int,
                    dy as int,
                ));
                assert forall|k: int| 0 <= k < len implies back@[k] == #[trigger] want[k] by {
                    if k / 4 == p {
                        let c = k % 4;
                        assert(k == di + c);
                        assert(back@[k] == over(src.rgba@, si as int, mid, di as int, c));
                        assert(back@[k] == over(src.rgba@, si as int, start, di as int, c));
                    } else {
                        assert(back@[k] == mid[k]);
                        if k / 4 < back_w * back_h {
                            lemma_coordinates(k / 4, back_w as int, back_h as int);
                        } else {
                            assert(mid[k] == start[k]);
                            assert(blitted(start, back_w, back_h, *src, x as int, y as int)[k]
                                == start[k]);
                        }
                    }
                }
                assert(back@ =~= want);
            }
            dx = dx + 1;
        }
        proof {
            let have = partly(
                start,
                back_w,
                back_h,
                *src,
                x as int,
                y as int,
                dx as int,
                dy as int,
            );
            let want = partly(
                start,
                back_w,
                back_h,
                *src,
                x as int,
                y as int,
                x0 as int,
                dy + 1,
            );
            assert forall|k: int| 0 <= k < len implies have[k] == #[trigger] want[k] by {
                if k / 4 < back_w * back_h {
                    lemma_coordinates(k / 4, back_w as int, back_h as int);
                }
            }
            assert(have =~= want);
        }
        dy = dy + 1;
    }
    proof {
        let want = blitted(start, back_w, back_h, *src, x as int, y as int);
        assert forall|k: int| 0 <= k < len implies back@[k] == #[trigger] want[k] by {
            if k / 4 < back_w * back_h {
                lemma_coordinates(k / 4, back_w as int, back_h as int);
            }
        }
        assert(back@ =~= want);
    }
}

/// The products that make up a position are no larger than it.
proof fn lemma_position_words(px: int, py: int, w: int)
    requires
        0 <= px < w,
        0 <= py,
    ensures
        0 <= py * w <= py * w + px,
{
    assert(0 <= py * w) by (nonlinear_arith)
        requires
            0 <= py,
            0 <= w,
    ;
}

/// A surface without transparent pixels hides what lies under it, and one
/// that is wholly transparent shows it unchanged.
pub proof fn law_blit_opaque_and_clear(
    back: Seq<u8>,
    bw: u32,
    bh: u32,
    src: SurfaceBuf,
    x: int,
    y: int,
    k: int,
)
    requires
        0 <= k < back.len(),
        k / 4 < bw * bh,
        image_covers(
            src.w,
            src.h,
            x,
            y,
            bw,
            bh,
            (k / 4) % (bw as int),
            (k / 4) / (bw as int),
        ),
    ensures
        ({
            let px = (k / 4) % (bw as int);
            let py = (k / 4) / (bw as int);
            let si = 4 * ((py - y) * src.w + (px - x));
            &&& src.rgba@[si + 3] == 255 ==> blitted(back, bw, bh, src, x, y)[k] == src.rgba@[si
                + k % 4]
            &&& src.rgba@[si + 3] == 0 ==> blitted(back, bw, bh, src, x, y)[k] == back[k]
        }),
{
}

/// The pixel of a frame under a surface laid at `(x, y)`: the surface's own
/// pixel at that distance from its corner where that is opaque, and what was
/// there before where it is clear or where the surface does not reach.
pub proof fn law_surface_covers_its_rectangle(
    back: Seq<u8>,
    bw: u32,
    bh: u32,
    src: SurfaceBuf,
    x: int,
    y: int,
    px: int,
    py: int,
)
    requires
        fits(back.len(), bw, bh),
        src.wf(),
        bw <= i32::MAX,
        bh <= i32::MAX,
        src.w <= i32::MAX,
        src.h <= i32::MAX,
        0 <= px < bw,
        0 <= py < bh,
    ensures
        ({
            let after = blitted(back, bw, bh, src, x, y);
            let here = 0 <= px - x < src.w && 0 <= py - y < src.h;
            let own = pixel(src.rgba@, src.w, px - x, py - y);
            &&& after.len() == back.len()
            &&& here && own[3] == 255 ==> pixel(after, bw, px, py) == own
            &&& here && own[3] == 0 ==> pixel(after, bw, px, py) == pixel(back, bw, px, py)
            &&& !here ==> pixel(after, bw, px, py) == pixel(back, bw, px, py)
            &&& here && 0 < own[3] < 255 ==> pixel(after, bw, px, py)[3] == 255 && forall|c: int|
                0 <= c < 3 ==> {
                    let s = own[c] as int;
                    let b = pixel(back, bw, px, py)[c] as int;
                    let r = #[trigger] pixel(after, bw, px, py)[c] as int;
                    255 * r <= s * own[3] + b * (255 - own[3]) < 255 * (r + 1)
                }
        }),
{
    lemma_position(px, py, bw as int, bh as int);
    let at = 4 * (py * bw + px);
    let after = blitted(back, bw, bh, src, x, y);
    let here = 0 <= px - x < src.w && 0 <= py - y < src.h;
    let si = 4 * ((py - y) * src.w + (px - x));
    if here {
        lemma_position(px - x, py - y, src.w as int, src.h as int);
    }
    assert forall|c: int| 0 <= c < 4 implies after[at + c] == (if here {
        over(src.rgba@, si, back, at, c)
    } else {
        back[at + c]
    }) by {
        assert((at + c) / 4 == py * bw + px && (at + c) % 4 == c);
    }
    let own = pixel(src.rgba@, src.w, px - x, py - y);
    if !here || own[3] == 0 {
        assert(pixel(after, bw, px, py) =~= pixel(back, bw, px, py));
    } else if own[3] == 255 {
        assert(pixel(after, bw, px, py) =~= own);
    } else {
        assert forall|c: int| 0 <= c < 3 implies {
            let s = own[c] as int;
            let b = pixel(back, bw, px, py)[c] as int;
            let r = #[trigger] pixel(after, bw, px, py)[c] as int;
            255 * r <= s * own[3] + b * (255 - own[3]) < 255 * (r + 1)
        } by {
            law_blend_lies_between(own[c], pixel(back, bw, px, py)[c], own[3]);
        }
    }
}

/// A blend of two shades lies between them, closer to the upper one the more
/// opaque that is; blending the other way round gives the rest of their sum, up
/// to rounding.
pub proof fn law_blend_lies_between(s: u8, b: u8, a: u8)
    ensures
        255 * blend(s, b, a) <= s * a + b * (255 - a) < 255 * (blend(s, b, a) + 1),
        s <= b ==> s <= blend(s, b, a) <= b,
        b <= s ==> b <= blend(s, b, a) <= s,
        blend(s, b, 255) == s,
        blend(s, b, 0) == b,
        s + b - 1 <= blend(s, b, a) + blend(b, s, a) <= s + b,
{
    let n = s * a + b * (255 - a);
    let m = b * a + s * (255 - a);
    assert(0 <= n <= 255 * 255 && 0 <= m <= 255 * 255 && n + m == 255 * (s + b)) by (nonlinear_arith)
        requires
            n == s * a + b * (255 - a),
            m == b * a + s * (255 - a),
            0 <= s <= 255,
            0 <= b <= 255,
            0 <= a <= 255,
    ;
    assert((s <= b ==> 255 * s <= n <= 255 * b) && (b <= s ==> 255 * b <= n <= 255 * s))
        by (nonlinear_arith)
        requires
            n == s * a + b * (255 - a),
            0 <= s <= 255,
            0 <= b <= 255,
            0 <= a <= 255,
    ;
    assert(s * 255 + b * (255 - 255) == 255 * s && s * 0 + b * (255 - 0) == 255 * b);
}

/// A converted pixel has the color of the raw one in its row and column: red,
/// green and blue in that order and always opaque, from bytes that come in the
/// other order where blue is first.
pub proof fn law_conversion_orders_the_channels(
    raw: Seq<u8>,
    start: int,
    stride: int,
    w: u32,
    h: u32,
    format: PixelFormat,
    x: int,
    y: int,
)
    requires
        0 <= x < w,
        0 <= y < h,
    ensures
        ({
            let r = start + y * stride + 4 * x;
            let out = pixel(
                converted(raw, start, stride, w as int, h as int, blue_first(format)),
                w,
                x,
                y,
            );
            &&& format == PixelFormat::Argb8888 || format == PixelFormat::Xrgb8888 ==> out == seq![
                raw[r + 2],
                raw[r + 1],
                raw[r],
                255,
            ]
            &&& format == PixelFormat::Abgr8888 || format == PixelFormat::Xbgr8888 ==> out == seq![
                raw[r],
                raw[r + 1],
                raw[r + 2],
                255,
            ]
        }),
{
    lemma_position(x, y, w as int, h as int);
    let all = converted(raw, start, stride, w as int, h as int, blue_first(format));
    let at = 4 * (y * w + x);
    let r = start + y * stride + 4 * x;
    assert forall|c: int| 0 <= c < 4 implies all[at + c] == channel(
        raw,
        r,
        blue_first(format),
        c,
    ) by {
        assert((at + c) / 4 == y * w + x && (at + c) % 4 == c);
    }
    let out = pixel(all, w, x, y);
    assert(out.len() == 4);
    assert(out[0] == all[at + 0] && out[1] == all[at + 1] && out[2] == all[at + 2] && out[3]
        == all[at + 3]);
    if blue_first(format) {
        assert(out =~= seq![raw[r + 2], raw[r + 1], raw[r], 255]);
    } else {
        assert(out =~= seq![raw[r], raw[r + 1], raw[r + 2], 255]);
    }
}

} // verus!
