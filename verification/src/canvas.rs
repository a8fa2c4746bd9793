//! RGBA pixel buffers: four bytes a pixel, rows top to bottom.

use vstd::prelude::*;

verus! {

/// The buffer holds at least the pixels of a `w`×`h` image.
pub open spec fn fits(len: nat, w: u32, h: u32) -> bool {
    4 * (w * h) <= len
}

/// `b` with `color` on every pixel of a `w`×`h` image that `covers` names by
/// its coordinates.
pub open spec fn painted(
    b: Seq<u8>,
    w: u32,
    h: u32,
    covers: spec_fn(int, int) -> bool,
    color: [u8; 4],
) -> Seq<u8> {
    Seq::new(
        b.len(),
        |k: int|
            if k / 4 < w * h && covers((k / 4) % (w as int), (k / 4) / (w as int)) {
                color@[k % 4]
            } else {
                b[k]
            },
    )
}

/// Row-major positions and coordinates correspond.
pub proof fn lemma_position(px: int, py: int, w: int, h: int)
    requires
        0 <= px < w,
        0 <= py < h,
    ensures
        0 <= py * w + px < w * h,
        (py * w + px) % w == px,
        (py * w + px) / w == py,
{
    assert(0 <= py * w + px) by (nonlinear_arith)
        requires
            0 <= px,
            0 <= py,
            0 <= w,
    ;
    assert(py * w + px < w * h) by (nonlinear_arith)
        requires
            0 <= px < w,
            0 <= py < h,
    ;
    vstd::arithmetic::div_mod::lemma_fundamental_div_mod_converse(py * w + px, w, py, px);
}

/// A position inside the image has coordinates inside it.
pub proof fn lemma_coordinates(p: int, w: int, h: int)
    requires
        0 <= p < w * h,
        0 <= w,
    ensures
        w > 0,
        0 <= p % w < w,
        0 <= p / w < h,
        p == (p / w) * w + p % w,
{
    assert(w > 0) by (nonlinear_arith)
        requires
            0 <= p < w * h,
            0 <= w,
    ;
    assert(p == (p / w) * w + p % w && 0 <= p % w < w) by (nonlinear_arith)
        requires
            w > 0,
    ;
    assert(0 <= p / w < h) by (nonlinear_arith)
        requires
            0 <= p < w * h,
            w > 0,
    ;
}

/// A side that is positive as a signed number keeps its value as one.
pub proof fn lemma_signed(v: u32)
    ensures
        v as i32 > 0 ==> v as i32 == v,
{
    assert(v as i32 > 0 ==> v <= 0x7fff_ffff) by (bit_vector);
}

/// Painting one region and then another in the same color is painting both.
pub proof fn lemma_painted_twice(
    b: Seq<u8>,
    w: u32,
    h: u32,
    f: spec_fn(int, int) -> bool,
    g: spec_fn(int, int) -> bool,
    all: spec_fn(int, int) -> bool,
    color: [u8; 4],
)
    requires
        forall|x: int, y: int|
            0 <= x < w && 0 <= y < h ==> #[trigger] all(x, y) == (f(x, y) || g(x, y)),
    ensures
        painted(painted(b, w, h, f, color), w, h, g, color) == painted(b, w, h, all, color),
{
    let once = painted(b, w, h, f, color);
    let twice = painted(once, w, h, g, color);
    let whole = painted(b, w, h, all, color);
    assert forall|k: int| 0 <= k < b.len() implies twice[k] == whole[k] by {
        if k / 4 < w * h {
            lemma_coordinates(k / 4, w as int, h as int);
            let x = (k / 4) % (w as int);
            let y = (k / 4) / (w as int);
            assert(all(x, y) == (f(x, y) || g(x, y)));
        }
    }
    assert(twice =~= whole);
}

/// Regions that agree inside the image paint alike.
pub proof fn lemma_painted_same(
    b: Seq<u8>,
    w: u32,
    h: u32,
    f: spec_fn(int, int) -> bool,
    g: spec_fn(int, int) -> bool,
    color: [u8; 4],
)
    requires
        forall|x: int, y: int| 0 <= x < w && 0 <= y < h ==> #[trigger] f(x, y) == g(x, y),
    ensures
        painted(b, w, h, f, color) == painted(b, w, h, g, color),
{
    assert forall|k: int| 0 <= k < b.len() implies painted(b, w, h, f, color)[k] == painted(
        b,
        w,
        h,
        g,
        color,
    )[k] by {
        if k / 4 < w * h {
            lemma_coordinates(k / 4, w as int, h as int);
            let x = (k / 4) % (w as int);
            let y = (k / 4) / (w as int);
            assert(f(x, y) == g(x, y));
        }
    }
    assert(painted(b, w, h, f, color) =~= painted(b, w, h, g, color));
}

/// Painting nothing changes nothing.
pub proof fn lemma_painted_nothing(
    b: Seq<u8>,
    w: u32,
    h: u32,
    f: spec_fn(int, int) -> bool,
    color: [u8; 4],
)
    requires
        forall|x: int, y: int| 0 <= x < w && 0 <= y < h ==> !#[trigger] f(x, y),
    ensures
        painted(b, w, h, f, color) == b,
{
    assert forall|k: int| 0 <= k < b.len() implies painted(b, w, h, f, color)[k] == b[k] by {
        if k / 4 < w * h {
            lemma_coordinates(k / 4, w as int, h as int);
            assert(!f((k / 4) % (w as int), (k / 4) / (w as int)));
        }
    }
    assert(painted(b, w, h, f, color) =~= b);
}

/// Sets one pixel; a pixel outside the image is clipped.
pub fn put_pixel(back: &mut [u8], w: u32, h: u32, px: i64, py: i64, color: [u8; 4])
    requires
        fits(old(back)@.len(), w, h),
    ensures
        final(back)@ == painted(
            old(back)@,
            w,
            h,
            |x: int, y: int| x == px && y == py,
            color,
        ),
{
    let ghost start = back@;
    let ghost here = |x: int, y: int| x == px && y == py;
    if px < 0 || py < 0 || px >= w as i64 || py >= h as i64 {
        proof {
            lemma_painted_nothing(start, w, h, here, color);
        }
        return;
    }
    proof {
        lemma_position(px as int, py as int, w as int, h as int);
    }
    let (x, y, stride): (usize, usize, usize) = (px as usize, py as usize, w as usize);
    assert(y * stride == py * w) by (nonlinear_arith)
        requires
            y == py,
            stride == w,
    ;
    assert(4 * (w * h) <= back.len());
    let at: usize = (y * stride + x) * 4;
    back[at] = color[0];
    back[at + 1] = color[1];
    back[at + 2] = color[2];
    back[at + 3] = color[3];
    proof {
        let p = py * w + px;
        assert(at == 4 * p);
        let want = painted(start, w, h, here, color);
        assert forall|k: int| 0 <= k < start.len() implies back@[k] == want[k] by {
            if k / 4 < w * h {
                lemma_coordinates(k / 4, w as int, h as int);
                let x = (k / 4) % (w as int);
                let y = (k / 4) / (w as int);
                if here(x, y) {
                    assert(k / 4 == p);
                }
            }
            if k / 4 == p {
                assert(here((k / 4) % (w as int), (k / 4) / (w as int)));
            }
        }
        assert(back@ =~= want);
    }
}

/// The four bytes of the pixel in column `x` and row `y` of an image `w` pixels
/// wide.
pub open spec fn pixel(b: Seq<u8>, w: u32, x: int, y: int) -> Seq<u8> {
    b.subrange(4 * (y * w + x), 4 * (y * w + x) + 4)
}

/// A painted pixel has the color where it is covered, and is as before
/// elsewhere.
pub proof fn lemma_pixel_painted(
    b: Seq<u8>,
    w: u32,
    h: u32,
    covers: spec_fn(int, int) -> bool,
    color: [u8; 4],
    x: int,
    y: int,
)
    requires
        fits(b.len(), w, h),
        0 <= x < w,
        0 <= y < h,
    ensures
        painted(b, w, h, covers, color).len() == b.len(),
        covers(x, y) ==> pixel(painted(b, w, h, covers, color), w, x, y) == color@,
        !covers(x, y) ==> pixel(painted(b, w, h, covers, color), w, x, y) == pixel(b, w, x, y),
{
    lemma_position(x, y, w as int, h as int);
    let at = 4 * (y * w + x);
    let p = painted(b, w, h, covers, color);
    assert forall|c: int| 0 <= c < 4 implies p[at + c] == (if covers(x, y) {
        color@[c]
    } else {
        b[at + c]
    }) by {
        assert((at + c) / 4 == y * w + x && (at + c) % 4 == c);
    }
    if covers(x, y) {
        assert(pixel(p, w, x, y) =~= color@);
    } else {
        assert(pixel(p, w, x, y) =~= pixel(b, w, x, y));
    }
}

/// Setting one pixel gives it its color and leaves every other one as it was.
pub proof fn law_one_pixel_is_set(
    b: Seq<u8>,
    w: u32,
    h: u32,
    px: int,
    py: int,
    color: [u8; 4],
    x: int,
    y: int,
)
    requires
        fits(b.len(), w, h),
        0 <= x < w,
        0 <= y < h,
    ensures
        ({
            let after = painted(b, w, h, |a: int, c: int| a == px && c == py, color);
            &&& x == px && y == py ==> pixel(after, w, x, y) == color@
            &&& x != px || y != py ==> pixel(after, w, x, y) == pixel(b, w, x, y)
        }),
{
    lemma_pixel_painted(b, w, h, |a: int, c: int| a == px && c == py, color, x, y);
}

} // verus!
