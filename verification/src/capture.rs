//! Frames captured from another compositor.

use vstd::prelude::*;

verus! {

/// Header of a frame in shared memory.
#[derive(Clone, Copy, Debug, PartialEq, Eq, Structural)]
pub struct VeilFrameHeader {
    pub magic: u32,
    pub frame_id: u64,
    pub width: u32,
    pub height: u32,
    pub stride: u32,
    pub format: u32,
    pub timestamp: u64,
}

/// A ring of frames in shared memory. Its layout belongs to the writer.
pub struct VeilFrameRing {
    _opaque: [u8; 0],
}

/// The number that marks a capture buffer.
pub const MAGIC: u32 = 0x5645_4C43;

/// Bytes before the pixels.
pub const HEADER_SIZE: usize = 32;

/// The little-endian 32-bit word at `at`.
pub open spec fn word_at(b: Seq<u8>, at: int) -> u32 {
    (b[at] + b[at + 1] * 0x100 + b[at + 2] * 0x1_0000 + b[at + 3] * 0x100_0000) as u32
}

/// The little-endian 64-bit word at `at`.
pub open spec fn long_at(b: Seq<u8>, at: int) -> u64 {
    (word_at(b, at) + word_at(b, at + 4) * 0x1_0000_0000) as u64
}

pub fn read_word(b: &[u8], at: usize) -> (r: u32)
    requires
        at + 4 <= b.len(),
    ensures
        r == word_at(b@, at as int),
{
    b[at] as u32 + b[at + 1] as u32 * 0x100 + b[at + 2] as u32 * 0x1_0000 + b[at + 3] as u32
        * 0x100_0000
}

pub fn read_long(b: &[u8], at: usize) -> (r: u64)
    requires
        at + 8 <= b.len(),
    ensures
        r == long_at(b@, at as int),
{
    read_word(b, at) as u64 + read_word(b, at + 4) as u64 * 0x1_0000_0000
}

/// Reads frames from a capture buffer in shared memory. The fields lie where
/// a C compiler puts them: magic at 0, frame number at 8, then width, height,
/// stride and format from 16.
#[derive(Clone, Copy, Debug, PartialEq, Eq, Structural)]
pub struct ShmCapture {
    pub last_frame_id: u64,
}

/// The buffer holds a frame other than the last one read.
pub open spec fn new_frame(b: Seq<u8>, last: u64) -> bool {
    word_at(b, 0) == MAGIC && long_at(b, 8) != last
}

/// All pixels of the frame lie in the buffer.
pub open spec fn frame_inside(b: Seq<u8>) -> bool {
    32 + word_at(b, 20) * word_at(b, 24) <= b.len()
}

impl ShmCapture {
    /// A reader for a buffer of `size` bytes; `None` where it is too short for
    /// a header.
    pub fn open(size: usize) -> (r: Option<Self>)
        ensures
            r is Some <==> size >= 32,
            r matches Some(c) ==> c.last_frame_id == 0,
    {
        if size < HEADER_SIZE {
            return None;
        }
        Some(Self { last_frame_id: 0 })
    }

    /// Width, height, stride and pixels of the frame in the buffer. `None`
    /// where the buffer is not one, has no new frame, or is too short for the
    /// frame. A new frame counts as read even where it is too long.
    pub fn read_frame(&mut self, buffer: &[u8]) -> (r: Option<(u32, u32, u32, Vec<u8>)>)
        requires
            buffer.len() >= 32,
        ensures
            r is Some <==> new_frame(buffer@, old(self).last_frame_id) && frame_inside(buffer@),
            r matches Some((w, h, stride, pixels)) ==> {
                &&& w == word_at(buffer@, 16)
                &&& h == word_at(buffer@, 20)
                &&& stride == word_at(buffer@, 24)
                &&& pixels@ == buffer@.subrange(32, 32 + h * stride)
            },
            final(self).last_frame_id == (if new_frame(buffer@, old(self).last_frame_id) {
                long_at(buffer@, 8)
            } else {
                old(self).last_frame_id
            }),
    {
        let magic: u32 = read_word(buffer, 0);
        let frame_id: u64 = read_long(buffer, 8);
        if magic != MAGIC || frame_id == self.last_frame_id {
            return None;
        }
        self.last_frame_id = frame_id;
        let width: u32 = read_word(buffer, 16);
        let height: u32 = read_word(buffer, 20);
        let stride: u32 = read_word(buffer, 24);
        assert(0 <= height * stride <= 0xffff_ffff * 0xffff_ffff) by (nonlinear_arith)
            requires
                0 <= height <= 0xffff_ffff,
                0 <= stride <= 0xffff_ffff,
        ;
        let pixel_size: u64 = height as u64 * stride as u64;
        if (buffer.len() as u64) - 32 < pixel_size {
            return None;
        }
        let pixels: Vec<u8> = vstd::slice::slice_to_vec(
            vstd::slice::slice_subrange(buffer, 32, 32 + pixel_size as usize),
        );
        Some((width, height, stride, pixels))
    }
}

/// A frame that was read is not read again until its number changes.
pub proof fn law_frame_is_read_once(b: Seq<u8>, last: u64)
    requires
        new_frame(b, last),
    ensures
        !new_frame(b, long_at(b, 8)),
{
}

/// A buffer that a compositor copies its screen into.
pub struct ScreencopyCapture {
    bytes: Vec<u8>,
    width: u32,
    height: u32,
    stride: u32,
}

impl ScreencopyCapture {
    pub closed spec fn spec_width(self) -> u32 {
        self.width
    }

    pub closed spec fn spec_height(self) -> u32 {
        self.height
    }

    pub closed spec fn spec_stride(self) -> u32 {
        self.stride
    }

    /// The contents.
    pub closed spec fn contents(self) -> Seq<u8> {
        self.bytes@
    }

    /// One row of `stride` bytes for each line.
    pub open spec fn wf(self) -> bool {
        self.contents().len() == self.spec_height() * self.spec_stride()
    }

    /// A buffer of zero bytes; `None` for one without any.
    pub fn new(width: u32, height: u32, stride: u32) -> (r: Option<Self>)
        requires
            height * stride <= u32::MAX,
        ensures
            r is Some <==> height * stride > 0,
            r matches Some(c) ==> {
                &&& c.wf()
                &&& c.spec_width() == width
                &&& c.spec_height() == height
                &&& c.spec_stride() == stride
                &&& forall|i: int| 0 <= i < c.contents().len() ==> c.contents()[i] == 0
            },
    {
        let size: usize = (height * stride) as usize;
        if size == 0 {
            return None;
        }
        let mut bytes: Vec<u8> = Vec::new();
        for i in 0..size
            invariant
                bytes.len() == i,
                forall|j: int| 0 <= j < i ==> bytes[j] == 0,
        {
            bytes.push(0);
        }
        Some(Self { bytes, width, height, stride })
    }

    pub fn as_bytes(&self) -> (r: &[u8])
        ensures
            r@ == self.contents(),
    {
        self.bytes.as_slice()
    }

    pub fn as_bytes_mut(&mut self) -> (r: &mut [u8])
        ensures
            r@ == old(self).contents(),
            final(self).contents() == final(r)@,
            final(self).spec_width() == old(self).spec_width(),
            final(self).spec_height() == old(self).spec_height(),
            final(self).spec_stride() == old(self).spec_stride(),
    {
        self.bytes.as_mut_slice()
    }

    pub fn width(&self) -> (r: u32)
        ensures
            r == self.spec_width(),
    {
        self.width
    }

    pub fn height(&self) -> (r: u32)
        ensures
            r == self.spec_height(),
    {
        self.height
    }

    pub fn stride(&self) -> (r: u32)
        ensures
            r == self.spec_stride(),
    {
        self.stride
    }
}

/// Words are little-endian: each byte counts for 256 times the one before it.
pub proof fn law_words_are_little_endian(b: Seq<u8>, at: int)
    ensures
        word_at(b, at) % 0x100 == b[at],
        word_at(b, at) / 0x100 % 0x100 == b[at + 1],
        word_at(b, at) / 0x1_0000 % 0x100 == b[at + 2],
        word_at(b, at) / 0x100_0000 == b[at + 3],
        long_at(b, at) % 0x1_0000_0000 == word_at(b, at),
        long_at(b, at) / 0x1_0000_0000 == word_at(b, at + 4),
{
}

/// A frame is only taken where all its rows lie in the buffer, behind the 32
/// bytes of its header.
pub proof fn law_frames_lie_behind_the_header(b: Seq<u8>)
    ensures
        frame_inside(b) <==> word_at(b, 20) * word_at(b, 24) <= b.len() - 32,
        new_frame(b, long_at(b, 8)) == false,
        word_at(b, 0) != 0x5645_4c43 ==> !new_frame(b, 0),
{
}

} // verus!
