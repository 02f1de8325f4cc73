//! Frames handed over as one flat buffer of RGB bytes, frame after frame, as
//! a browser delivers decoded video.
use vstd::prelude::*;

use crate::detect::Rgb8;

verus! {

/// Pixel `i` of the frame that starts at byte `offset`.
pub open spec fn pixel_at(data: Seq<u8>, offset: int, i: int) -> Rgb8 {
    Rgb8 { r: data[offset + 3 * i], g: data[offset + 3 * i + 1], b: data[offset + 3 * i + 2] }
}

/// The pixels of frame `index` of frames of `frame_size` bytes each.
pub open spec fn frame_pixels(data: Seq<u8>, frame_size: int, index: int) -> Seq<Rgb8> {
    Seq::new((frame_size / 3) as nat, |i: int| pixel_at(data, index * frame_size, i))
}

/// `frame_count` frames of `width` x `height` RGB pixels, stored back to
/// back in `data`, read one at a time.
#[derive(Debug)]
pub struct RawFrameSource {
    data: Vec<u8>,
    width: u32,
    height: u32,
    frame_count: usize,
    index: usize,
}

impl RawFrameSource {
    /// The bytes.
    pub closed spec fn spec_data(&self) -> Seq<u8> {
        self.data@
    }

    /// Bytes per frame.
    pub closed spec fn spec_frame_size(&self) -> int {
        self.width * self.height * 3
    }

    /// Number of frames announced.
    pub closed spec fn spec_frame_count(&self) -> usize {
        self.frame_count
    }

    /// Index of the next frame.
    pub closed spec fn spec_index(&self) -> usize {
        self.index
    }

    /// Frame width in pixels.
    pub closed spec fn spec_width(&self) -> u32 {
        self.width
    }

    /// Frame height in pixels.
    pub closed spec fn spec_height(&self) -> u32 {
        self.height
    }

    /// The next frame, if announced, lies inside the buffer.
    pub open spec fn next_in_bounds(&self) -> bool {
        self.spec_index() < self.spec_frame_count() ==> (self.spec_index() + 1)
            * self.spec_frame_size() <= self.spec_data().len()
    }

    /// A source positioned before its first frame.
    pub fn new(data: Vec<u8>, width: u32, height: u32, frame_count: usize) -> (r: Self)
        ensures
            r.spec_data() == data@,
            r.spec_width() == width,
            r.spec_height() == height,
            r.spec_frame_count() == frame_count,
            r.spec_index() == 0,
            r.spec_frame_size() == width * height * 3,
    {
        RawFrameSource { data, width, height, frame_count, index: 0 }
    }

    /// Number of frames announced.
    pub fn frame_count(&self) -> (r: usize)
        ensures
            r == self.spec_frame_count(),
    {
        self.frame_count
    }

    /// Frame width in pixels.
    pub fn width(&self) -> (r: u32)
        ensures
            r == self.spec_width(),
    {
        self.width
    }

    /// Frame height in pixels.
    pub fn height(&self) -> (r: u32)
        ensures
            r == self.spec_height(),
    {
        self.height
    }

    /// The next frame's pixels, or `None` once all announced frames have
    /// been read.
    pub fn next_frame(&mut self) -> (r: Option<Vec<Rgb8>>)
        requires
            old(self).spec_width() * old(self).spec_height() * 3 <= u32::MAX,
            old(self).next_in_bounds(),
        ensures
            final(self).spec_data() == old(self).spec_data(),
            final(self).spec_width() == old(self).spec_width(),
            final(self).spec_height() == old(self).spec_height(),
            final(self).spec_frame_count() == old(self).spec_frame_count(),
            old(self).spec_index() >= old(self).spec_frame_count() ==> (r is None
                && final(self).spec_index() == old(self).spec_index()),
            old(self).spec_index() < old(self).spec_frame_count() ==> (r matches Some(f) && f@
                == frame_pixels(
                old(self).spec_data(),
                old(self).spec_frame_size(),
                old(self).spec_index() as int,
            ) && final(self).spec_index() == old(self).spec_index() + 1),
    {
        if self.index >= self.frame_count {
            return None;
        }
        let frame_size = (self.width * self.height * 3) as usize;
        let len = self.data.len();
        proof {
            assert(self.index * frame_size + frame_size == (self.index + 1) * frame_size)
                by (nonlinear_arith);
        }
        let offset = self.index * frame_size;
        let n = frame_size / 3;
        let mut pixels: Vec<Rgb8> = Vec::with_capacity(n);
        let mut i: usize = 0;
        while i < n
            invariant
                n == frame_size / 3,
                offset + frame_size <= self.data@.len(),
                len == self.data@.len(),
                i <= n,
                pixels@ == frame_pixels(self.data@, frame_size as int, self.index as int).take(
                    i as int,
                ),
                offset == self.index * frame_size,
            decreases n - i,
        {
            let k = offset + 3 * i;
            pixels.push(Rgb8 { r: self.data[k], g: self.data[k + 1], b: self.data[k + 2] });
            i = i + 1;
            assert(pixels@ =~= frame_pixels(self.data@, frame_size as int, self.index as int).take(
                i as int,
            ));
        }
        assert(pixels@ =~= frame_pixels(self.data@, frame_size as int, self.index as int));
        self.index = self.index + 1;
        Some(pixels)
    }
}


/// Frame `index` is the `frame_size` bytes that follow the `index` frames
/// before it, read three bytes to a pixel: pixel `i` holds, as red, green
/// and blue, the bytes at `index * frame_size + 3 * i` and the two after.
pub proof fn lemma_frame_pixels_are_consecutive_bytes(
    data: Seq<u8>,
    frame_size: int,
    index: int,
    i: int,
)
    requires
        0 <= frame_size,
        0 <= i < frame_size / 3,
        0 <= index * frame_size + 3 * i,
        index * frame_size + 3 * i + 3 <= data.len(),
    ensures
        frame_pixels(data, frame_size, index).len() == frame_size / 3,
        ({
            let p = frame_pixels(data, frame_size, index)[i];
            seq![p.r, p.g, p.b] == data.subrange(
                index * frame_size + 3 * i,
                index * frame_size + 3 * i + 3,
            )
        }),
{
    let p = frame_pixels(data, frame_size, index)[i];
    assert(seq![p.r, p.g, p.b] =~= data.subrange(
        index * frame_size + 3 * i,
        index * frame_size + 3 * i + 3,
    ));
}

} // verus!
