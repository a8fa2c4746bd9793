//! Copying the screen of another compositor: the requests, the events that
//! answer them, and the pixels that come back.

use vstd::prelude::*;
use crate::text::{chars_of, is_str};

verus! {

// ── Pixels ───────────────────────────────────────────────────────────────

/// The bytes of pixels stored as blue, green, red and one unused byte, as red,
/// green, blue and full opacity. Bytes that make no whole pixel are dropped.
pub open spec fn opaque_rgba(src: Seq<u8>) -> Seq<u8> {
    Seq::new(
        src.len() / 4 * 4,
        |i: int|
            if i % 4 == 0 {
                src[i + 2]
            } else if i % 4 == 1 {
                src[i]
            } else if i % 4 == 2 {
                src[i - 2]
            } else {
                0xffu8
            },
    )
}

pub fn xrgb_to_rgba(src: &[u8]) -> (r: Vec<u8>)
    ensures
        r@ == opaque_rgba(src@),
{
    let mut out: Vec<u8> = Vec::new();
    let len: usize = src.len();
    let n: usize = len / 4;
    for p in 0..n
        invariant
            len == src@.len(),
            n == len / 4,
            out@ =~= opaque_rgba(src@).take(p * 4),
    {
        let at: usize = p * 4;
        let ghost before = out@;
        out.push(src[at + 2]);
        out.push(src[at + 1]);
        out.push(src[at]);
        out.push(0xff);
        assert(out@ =~= before + seq![
            src@[at + 2],
            src@[at + 1],
            src@[at as int],
            0xffu8,
        ]);
    }
    assert(opaque_rgba(src@).take(n * 4) =~= opaque_rgba(src@));
    out
}

/// A part of a picture, in pixels.
pub struct Region {
    pub x: int,
    pub y: int,
    pub w: int,
    pub h: int,
}

pub open spec fn least(a: int, b: int) -> int {
    if a < b {
        a
    } else {
        b
    }
}

pub open spec fn at_least(a: int, low: int) -> int {
    if a < low {
        low
    } else {
        a
    }
}

/// The pixels of a window in a picture: its place and size times the scale,
/// cut off at the edges of the picture.
pub open spec fn window_region(
    src_w: int,
    src_h: int,
    x: int,
    y: int,
    w: int,
    h: int,
    scale: int,
) -> Region {
    let s = at_least(scale, 1);
    let px = at_least(x, 0) * s;
    let py = at_least(y, 0) * s;
    Region {
        x: px,
        y: py,
        w: least(w * s, at_least(src_w - px, 0)),
        h: least(h * s, at_least(src_h - py, 0)),
    }
}

/// The bytes of one row of a region; none where the picture is too short.
pub open spec fn region_row(src: Seq<u8>, src_w: int, g: Region, row: int) -> Seq<u8> {
    let s = ((g.y + row) * src_w + g.x) * 4;
    let e = s + g.w * 4;
    if e <= src.len() {
        src.subrange(s, e)
    } else {
        Seq::empty()
    }
}

/// The bytes of the first `n` rows of a region.
pub open spec fn region_rows(src: Seq<u8>, src_w: int, g: Region, n: int) -> Seq<u8>
    decreases n,
{
    if n <= 0 {
        Seq::empty()
    } else {
        region_rows(src, src_w, g, n - 1) + region_row(src, src_w, g, n - 1)
    }
}

fn scaled_up(v: i32, s: u64) -> (r: u64)
    requires
        1 <= s <= 0x7fff_ffff,
    ensures
        r == at_least(v as int, 0) * s,
        r <= 0x7fff_ffff * 0x7fff_ffff,
{
    let k: u64 = if v < 0 {
        0
    } else {
        v as u64
    };
    assert(0 <= k * s <= 0x7fff_ffff * 0x7fff_ffff) by (nonlinear_arith)
        requires
            0 <= k <= 0x7fff_ffff,
            1 <= s <= 0x7fff_ffff,
    ;
    k * s
}

fn side(size: u32, s: u64, total: u32, from: u64) -> (r: u64)
    requires
        1 <= s <= 0x7fff_ffff,
    ensures
        r == least(size * s, at_least(total - from, 0)),
        r <= total,
        r > 0 ==> from + r <= total,
{
    assert(0 <= size * s <= 0xffff_ffff * 0x7fff_ffff) by (nonlinear_arith)
        requires
            0 <= size <= 0xffff_ffff,
            1 <= s <= 0x7fff_ffff,
    ;
    let want: u64 = size as u64 * s;
    let room: u64 = if from >= total as u64 {
        0
    } else {
        total as u64 - from
    };
    if want < room {
        want
    } else {
        room
    }
}

fn append_bytes(out: &mut Vec<u8>, tail: &[u8])
    ensures
        final(out)@ == old(out)@ + tail@,
{
    let ghost start = out@;
    for i in 0..tail.len()
        invariant
            out@ == start + tail@.take(i as int),
    {
        out.push(tail[i]);
        assert(tail@.take(i + 1) =~= tail@.take(i as int).push(tail@[i as int]));
    }
    assert(tail@.take(tail.len() as int) =~= tail@);
}

/// Cuts a window out of a picture: the width, height and bytes of what is
/// left of it, all empty where nothing is.
pub fn crop_rgba(
    src: &[u8],
    src_w: u32,
    src_h: u32,
    x: i32,
    y: i32,
    w: u32,
    h: u32,
    scale: i32,
) -> (r: (u32, u32, Vec<u8>))
    ensures
        ({
            let g = window_region(
                src_w as int,
                src_h as int,
                x as int,
                y as int,
                w as int,
                h as int,
                scale as int,
            );
            if g.w == 0 || g.h == 0 {
                r.0 == 0 && r.1 == 0 && r.2@.len() == 0
            } else {
                r.0 == g.w && r.1 == g.h && r.2@ == region_rows(src@, src_w as int, g, g.h)
            }
        }),
{
    let s: u64 = if scale < 1 {
        1
    } else {
        scale as u64
    };
    let px: u64 = scaled_up(x, s);
    let py: u64 = scaled_up(y, s);
    let pw: u64 = side(w, s, src_w, px);
    let ph: u64 = side(h, s, src_h, py);
    let mut out: Vec<u8> = Vec::new();
    if pw == 0 || ph == 0 {
        return (0, 0, out);
    }
    let ghost g = Region { x: px as int, y: py as int, w: pw as int, h: ph as int };
    let pixels: u64 = src.len() as u64 / 4;
    for row in 0..ph
        invariant
            py + ph <= src_h,
            px + pw <= src_w,
            pixels == src@.len() / 4,
            src@.len() <= usize::MAX,
            g == (Region { x: px as int, y: py as int, w: pw as int, h: ph as int }),
            out@ == region_rows(src@, src_w as int, g, row as int),
    {
        assert(0 <= (py + row) * src_w <= 0xffff_fffe * 0xffff_ffff) by (nonlinear_arith)
            requires
                0 <= py + row <= 0xffff_fffe,
                0 <= src_w <= 0xffff_ffff,
        ;
        let first: u64 = (py + row) * src_w as u64 + px;
        let last: u64 = first + pw;
        let ghost part = region_row(src@, src_w as int, g, row as int);
        if last <= pixels {
            let line: &[u8] = vstd::slice::slice_subrange(
                src,
                (first * 4) as usize,
                (last * 4) as usize,
            );
            assert(line@ =~= part);
            append_bytes(&mut out, line);
        } else {
            assert(part =~= Seq::<u8>::empty());
            assert(out@ + part =~= out@);
        }
    }
    (pw as u32, ph as u32, out)
}

// ── Requests and events ──────────────────────────────────────────────────

/// The version of an interface to bind, where it is one that is needed.
pub open spec fn version_for(interface: Seq<char>, offered: u32) -> Option<u32> {
    if interface == "wl_shm"@ {
        Some(1)
    } else if interface == "zwlr_screencopy_manager_v1"@ {
        Some(
            if offered < 3 {
                offered
            } else {
                3
            },
        )
    } else if interface == "wl_output"@ {
        Some(
            if offered < 2 {
                2
            } else if offered > 4 {
                4
            } else {
                offered
            },
        )
    } else {
        None
    }
}

pub fn bind_version(interface: &str, offered: u32) -> (r: Option<u32>)
    ensures
        r == version_for(interface@, offered),
{
    let c: Vec<char> = chars_of(interface);
    if is_str(c.as_slice(), "wl_shm") {
        Some(1)
    } else if is_str(c.as_slice(), "zwlr_screencopy_manager_v1") {
        Some(
            if offered < 3 {
                offered
            } else {
                3
            },
        )
    } else if is_str(c.as_slice(), "wl_output") {
        Some(
            if offered < 2 {
                2
            } else if offered > 4 {
                4
            } else {
                offered
            },
        )
    } else {
        None
    }
}

/// The frame that the compositor announced.
#[derive(Clone, Copy, Debug, PartialEq, Eq, Structural)]
pub struct FrameInfo {
    pub width: u32,
    pub height: u32,
    pub stride: u32,
}

/// Why no capture can be made.
#[derive(Clone, Copy, Debug, PartialEq, Eq, Structural)]
pub enum ConnectError {
    NoManager,
    NoOutput,
}

/// A capture of one output, frame by frame.
#[derive(Clone, Copy, Debug, PartialEq, Eq, Structural)]
pub struct WaylandCapture {
    pub scale: i32,
    pub target: usize,
    pub pending: Option<FrameInfo>,
    pub ready: bool,
    pub failed: bool,
}

impl WaylandCapture {
    /// A capture of output `index`, the first where there is no such output.
    pub fn connect_output(manager: bool, outputs: usize, index: usize, scale: i32) -> (r: Result<
        Self,
        ConnectError,
    >)
        ensures
            r == (if !manager {
                Err(ConnectError::NoManager)
            } else if outputs == 0 {
                Err(ConnectError::NoOutput)
            } else {
                Ok(
                    WaylandCapture {
                        scale,
                        target: if index < outputs {
                            index
                        } else {
                            0
                        },
                        pending: None,
                        ready: false,
                        failed: false,
                    },
                )
            }),
    {
        if !manager {
            return Err(ConnectError::NoManager);
        }
        if outputs == 0 {
            return Err(ConnectError::NoOutput);
        }
        let target: usize = if index < outputs {
            index
        } else {
            0
        };
        Ok(WaylandCapture { scale, target, pending: None, ready: false, failed: false })
    }

    /// A capture of the first output.
    pub fn connect(manager: bool, outputs: usize, scale: i32) -> (r: Result<Self, ConnectError>)
        ensures
            r == (if !manager {
                Err(ConnectError::NoManager)
            } else if outputs == 0 {
                Err(ConnectError::NoOutput)
            } else {
                Ok(
                    WaylandCapture {
                        scale,
                        target: 0,
                        pending: None,
                        ready: false,
                        failed: false,
                    },
                )
            }),
    {
        WaylandCapture::connect_output(manager, outputs, 0, scale)
    }

    /// Pixels of the output for one of the desktop's.
    pub open spec fn factor(self) -> int {
        at_least(self.scale as int, 1)
    }

    pub fn output_scale(&self) -> (r: i32)
        ensures
            r == self.factor(),
    {
        if self.scale < 1 {
            1
        } else {
            self.scale
        }
    }

    /// A part of the desktop fits the protocol once it is scaled.
    pub open spec fn region_fits(self, x: i32, y: i32, w: u32, h: u32) -> bool {
        &&& i32::MIN <= x * self.factor() <= i32::MAX
        &&& i32::MIN <= y * self.factor() <= i32::MAX
        &&& w <= i32::MAX && w * self.factor() <= i32::MAX
        &&& h <= i32::MAX && h * self.factor() <= i32::MAX
    }

    /// Starts a capture of a part of the desktop: the part in the output's
    /// pixels.
    pub fn capture_region(&mut self, x: i32, y: i32, w: u32, h: u32) -> (r: (i32, i32, i32, i32))
        requires
            old(self).region_fits(x, y, w, h),
        ensures
            r.0 == x * old(self).factor(),
            r.1 == y * old(self).factor(),
            r.2 == w * old(self).factor(),
            r.3 == h * old(self).factor(),
            *final(self) == (WaylandCapture { ready: false, failed: false, ..*old(self) }),
    {
        let s: i32 = self.output_scale();
        self.ready = false;
        self.failed = false;
        (x * s, y * s, w as i32 * s, h as i32 * s)
    }

    /// Starts a capture of the whole output.
    pub fn capture_full(&mut self)
        ensures
            *final(self) == (WaylandCapture { ready: false, failed: false, ..*old(self) }),
    {
        self.ready = false;
        self.failed = false;
    }

    /// The output told its scale.
    pub fn scale_event(&mut self, factor: i32)
        ensures
            *final(self) == (WaylandCapture { scale: factor, ..*old(self) }),
    {
        self.scale = factor;
    }

    /// The compositor announced the buffer of a frame. The bytes to share with
    /// it, where the frame is taken: it is in the one format that is read, the
    /// first that was announced, and not empty.
    pub fn buffer_event(&mut self, xrgb: bool, memory: bool, info: FrameInfo) -> (r: Option<u32>)
        requires
            xrgb && memory && old(self).pending is None ==> info.stride * info.height <= u32::MAX,
        ensures
            r == (if xrgb && memory && old(self).pending is None && info.stride * info.height > 0 {
                Some((info.stride * info.height) as u32)
            } else {
                None
            }),
            *final(self) == (WaylandCapture {
                pending: if r is Some {
                    Some(info)
                } else {
                    old(self).pending
                },
                ..*old(self)
            }),
    {
        if !xrgb || self.pending.is_some() || !memory {
            return None;
        }
        let len: u32 = info.stride * info.height;
        if len == 0 {
            return None;
        }
        self.pending = Some(info);
        Some(len)
    }

    /// The bytes could not be shared: the frame is not taken after all.
    pub fn allocation_failed(&mut self)
        ensures
            *final(self) == (WaylandCapture { pending: None, ..*old(self) }),
    {
        self.pending = None;
    }

    /// The frame was copied.
    pub fn ready_event(&mut self)
        ensures
            *final(self) == (WaylandCapture { ready: true, ..*old(self) }),
    {
        self.ready = true;
    }

    /// The frame could not be copied; its buffer is given up.
    pub fn failed_event(&mut self) -> (r: Option<FrameInfo>)
        ensures
            r == old(self).pending,
            *final(self) == (WaylandCapture { failed: true, pending: None, ..*old(self) }),
    {
        let p: Option<FrameInfo> = self.pending;
        self.failed = true;
        self.pending = None;
        p
    }

    /// There is nothing more to wait for.
    pub fn done(&self) -> (r: bool)
        ensures
            r == (self.ready || self.failed),
    {
        self.ready || self.failed
    }

    /// The frame that was copied, once.
    pub fn take_frame(&mut self) -> (r: Option<FrameInfo>)
        ensures
            r == (if old(self).failed {
                None
            } else {
                old(self).pending
            }),
            *final(self) == (WaylandCapture {
                pending: if old(self).failed {
                    old(self).pending
                } else {
                    None
                },
                ..*old(self)
            }),
    {
        if self.failed {
            return None;
        }
        let p: Option<FrameInfo> = self.pending;
        self.pending = None;
        p
    }
}

proof fn lemma_rows_len(src: Seq<u8>, src_w: int, g: Region, n: int)
    requires
        0 <= n <= g.h,
        0 <= g.x && 0 <= g.y && 0 <= g.w && g.x + g.w <= src_w,
        4 * (src_w * (g.y + g.h)) <= src.len(),
    ensures
        region_rows(src, src_w, g, n).len() == n * (g.w * 4),
        forall|row: int| 0 <= row < n ==> (#[trigger] region_row(src, src_w, g, row)).len() == g.w
            * 4,
    decreases n,
{
    if n > 0 {
        lemma_rows_len(src, src_w, g, n - 1);
        assert(0 <= ((g.y + n - 1) * src_w + g.x) * 4 && ((g.y + n - 1) * src_w + g.x) * 4 + g.w * 4
            <= 4 * (src_w * (g.y + g.h))) by (nonlinear_arith)
            requires
                1 <= n <= g.h,
                0 <= g.x && 0 <= g.y && 0 <= g.w && g.x + g.w <= src_w,
        ;
        assert((n - 1) * (g.w * 4) + g.w * 4 == n * (g.w * 4)) by (nonlinear_arith);
        assert(g.y + (n - 1) == g.y + n - 1);
    }
}

/// A cut-out holds the pixels of the picture: byte `k` of row `row` is that of
/// the picture's row `y + row` from pixel `x` on.
pub proof fn law_cut_out_is_the_window(src: Seq<u8>, src_w: int, g: Region, row: int, k: int, n: int)
    requires
        0 <= row < n <= g.h,
        0 <= k < g.w * 4,
        0 <= g.x && 0 <= g.y && 0 <= g.w && g.x + g.w <= src_w,
        4 * (src_w * (g.y + g.h)) <= src.len(),
    ensures
        region_rows(src, src_w, g, n).len() == n * (g.w * 4),
        region_rows(src, src_w, g, n)[row * (g.w * 4) + k] == src[((g.y + row) * src_w + g.x) * 4
            + k],
    decreases n,
{
    lemma_rows_len(src, src_w, g, n);
    lemma_rows_len(src, src_w, g, n - 1);
    if row < n - 1 {
        law_cut_out_is_the_window(src, src_w, g, row, k, n - 1);
        assert(0 <= row * (g.w * 4) + k < (n - 1) * (g.w * 4)) by (nonlinear_arith)
            requires
                0 <= row < n - 1,
                0 <= k < g.w * 4,
        ;
    } else {
        assert(row == n - 1);
        assert(region_row(src, src_w, g, row).len() == g.w * 4);
        assert(row * (g.w * 4) >= 0) by (nonlinear_arith)
            requires
                0 <= row,
                0 <= g.w,
        ;
    }
}

/// A picture that comes blue first turns into red first, pixel by pixel, and
/// opaque; a rest that is no whole pixel is dropped.
pub proof fn law_pixels_turn_around(src: Seq<u8>, p: int)
    requires
        0 <= p < src.len() / 4,
    ensures
        opaque_rgba(src).len() == src.len() - src.len() % 4,
        opaque_rgba(src)[4 * p] == src[4 * p + 2],
        opaque_rgba(src)[4 * p + 1] == src[4 * p + 1],
        opaque_rgba(src)[4 * p + 2] == src[4 * p],
        opaque_rgba(src)[4 * p + 3] == 255,
{
}

/// A window's pixels start at its place times the scale, and are as many as it
/// is large, as far as the picture reaches; none of them lies outside.
pub proof fn law_regions_lie_in_the_picture(
    src_w: int,
    src_h: int,
    x: int,
    y: int,
    w: int,
    h: int,
    scale: int,
)
    requires
        0 <= src_w,
        0 <= src_h,
        0 <= w,
        0 <= h,
    ensures
        ({
            let g = window_region(src_w, src_h, x, y, w, h, scale);
            &&& 0 <= g.x && 0 <= g.y
            &&& g.w > 0 ==> g.x + g.w <= src_w
            &&& g.h > 0 ==> g.y + g.h <= src_h
            &&& x >= 0 && y >= 0 && scale >= 1 ==> g.x == x * scale && g.y == y * scale
            &&& x >= 0 && scale >= 1 && (x + w) * scale <= src_w ==> g.w == w * scale
            &&& y >= 0 && scale >= 1 && (y + h) * scale <= src_h ==> g.h == h * scale
            &&& x < 0 ==> g.x == 0
            &&& y < 0 ==> g.y == 0
            &&& scale < 1 && x >= 0 && y >= 0 ==> g.x == x && g.y == y
        }),
{
    let s = at_least(scale, 1);
    let (a, b) = (at_least(x, 0), at_least(y, 0));
    assert(0 <= a * s && 0 <= b * s && 0 <= w * s && 0 <= h * s && (a + w) * s == a * s + w * s && (b
        + h) * s == b * s + h * s) by (nonlinear_arith)
        requires
            0 <= a,
            0 <= b,
            0 <= w,
            0 <= h,
            1 <= s,
    ;
    assert(0 * s == 0) by (nonlinear_arith);
    assert(a * 1 == a && b * 1 == b);
}

/// Nothing is bound beyond the version that is used, and nothing but the three
/// interfaces.
pub proof fn law_bound_versions_are_used(interface: Seq<char>, offered: u32)
    ensures
        version_for(interface, offered) matches Some(v) ==> v <= 4 && (interface == "wl_shm"@
            || interface == "zwlr_screencopy_manager_v1"@ || interface == "wl_output"@),
        interface == "zwlr_screencopy_manager_v1"@ && offered <= 3 ==> version_for(
            interface,
            offered,
        ) == Some(offered),
        interface == "wl_output"@ && 2 <= offered <= 4 ==> version_for(interface, offered) == Some(
            offered,
        ),
{
    reveal_strlit("wl_shm");
    reveal_strlit("zwlr_screencopy_manager_v1");
    reveal_strlit("wl_output");
    assert("wl_shm"@.len() == 6 && "zwlr_screencopy_manager_v1"@.len() == 26 && "wl_output"@.len()
        == 9);
}

} // verus!
