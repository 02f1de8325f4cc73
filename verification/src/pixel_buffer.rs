//! Packed RGB8 pixel data with its dimensions.
use vstd::prelude::*;

use crate::error::TvaError;

verus! {

/// The image crate's dynamic image, carried through opaque.
#[verifier::external_type_specification]
#[verifier::external_body]
pub struct ExDynamicImage(image::DynamicImage);

/// The raw bytes of the RGB8 image that `DynamicImage::to_rgb8` makes of
/// `img`, as `ImageBuffer::into_raw` hands them out.
pub uninterp spec fn rgb8_raw(img: image::DynamicImage) -> Seq<u8>;

/// The `(width, height)` of the RGB8 image that `DynamicImage::to_rgb8`
/// makes of `img`.
pub uninterp spec fn rgb8_dimensions(img: image::DynamicImage) -> (u32, u32);

/// The byte at offset `c` (0 = red, 1 = green, 2 = blue) of every whole
/// three-byte pixel of `bytes`, in order.
pub open spec fn channel(bytes: Seq<u8>, c: int) -> Seq<u8> {
    Seq::new(bytes.len() / 3, |i: int| bytes[3 * i + c])
}

/// Interleaved RGB bytes, three per pixel, row by row.
///
/// A buffer holds at least `width * height * 3` bytes: exactly that many
/// when made by `new`, and possibly more when taken over from an image whose
/// raw buffer runs past its last pixel.
#[derive(Debug)]
pub struct PixelBuffer {
    data: Vec<u8>,
    width: u32,
    height: u32,
}

impl View for PixelBuffer {
    type V = Seq<u8>;

    closed spec fn view(&self) -> Seq<u8> {
        self.data@
    }
}

impl Clone for PixelBuffer {
    fn clone(&self) -> (r: Self)
        ensures
            r@ == self@,
            r.spec_width() == self.spec_width(),
            r.spec_height() == self.spec_height(),
    {
        proof {
            use_type_invariant(self);
        }
        let data = self.data.clone();
        assert(data@ =~= self.data@);
        PixelBuffer { data, width: self.width, height: self.height }
    }
}

impl PixelBuffer {
    /// Width in pixels.
    pub closed spec fn spec_width(&self) -> u32 {
        self.width
    }

    /// Height in pixels.
    pub closed spec fn spec_height(&self) -> u32 {
        self.height
    }

    /// For a well-formed buffer the pixels fit in the byte count.
    proof fn lemma_sizes(w: u32, h: u32, len: int)
        requires
            len >= w * h * 3,
        ensures
            w * h <= len / 3,
            w * h <= len,
    {
        assert(w * h * 3 == 3 * (w * h)) by (nonlinear_arith);
        assert(w * h >= 0) by (nonlinear_arith);
    }

    #[verifier::type_invariant]
    pub(crate) closed spec fn inv(&self) -> bool {
        self.data@.len() >= self.width * self.height * 3
    }

    /// Wraps `data` as a `width` x `height` image; refuses a byte count that
    /// is not `width * height * 3`.
    pub fn new(data: Vec<u8>, width: u32, height: u32) -> (r: Result<Self, TvaError>)
        requires
            width * height * 3 <= u32::MAX,
        ensures
            data@.len() == width * height * 3 ==> (r matches Ok(b) && b@ == data@
                && b.spec_width() == width && b.spec_height() == height),
            data@.len() != width * height * 3 ==> (r matches Err(TvaError::SizeMismatch {
                expected,
                got,
            }) && expected == width * height * 3 && got == data@.len()),
    {
        let exp = (width as usize) * (height as usize) * 3;
        if data.len() != exp {
            return Err(TvaError::SizeMismatch { expected: exp, got: data.len() });
        }
        Ok(PixelBuffer { data, width, height })
    }

    /// The interleaved bytes.
    #[must_use]
    pub fn as_bytes(&self) -> (r: &[u8])
        ensures
            r@ == self@,
            r@.len() >= self.spec_width() * self.spec_height() * 3,
    {
        proof {
            use_type_invariant(self);
        }
        self.data.as_slice()
    }

    /// Gives up the buffer, returning its bytes.
    #[must_use]
    pub fn into_bytes(self) -> (r: Vec<u8>)
        ensures
            r@ == self@,
    {
        self.data
    }

    /// Width in pixels.
    #[must_use]
    pub fn width(&self) -> (r: u32)
        ensures
            r == self.spec_width(),
    {
        self.width
    }

    /// Height in pixels.
    #[must_use]
    pub fn height(&self) -> (r: u32)
        ensures
            r == self.spec_height(),
    {
        self.height
    }

    /// Number of pixels, `width * height`.
    #[must_use]
    pub fn pixel_count(&self) -> (r: usize)
        ensures
            r == self.spec_width() * self.spec_height(),
    {
        let len = self.data.len();
        proof {
            use_type_invariant(self);
            Self::lemma_sizes(self.width, self.height, len as int);
        }
        (self.width as usize) * (self.height as usize)
    }

    /// Bytes per row, `width * 3`.
    #[must_use]
    pub fn row_bytes(&self) -> (r: usize)
        requires
            self.spec_width() * 3 <= usize::MAX,
        ensures
            r == self.spec_width() * 3,
    {
        self.width as usize * 3
    }

    /// The red, green and blue planes, one byte per whole three-byte group
    /// of the data each.
    pub fn split_rgb(&self) -> (r: (Vec<u8>, Vec<u8>, Vec<u8>))
        ensures
            r.0@ == channel(self@, 0),
            r.1@ == channel(self@, 1),
            r.2@ == channel(self@, 2),
    {
        proof {
            use_type_invariant(self);
        }
        let len = self.data.len();
        let n = len / 3;
        let mut r: Vec<u8> = Vec::with_capacity(n);
        let mut g: Vec<u8> = Vec::with_capacity(n);
        let mut b: Vec<u8> = Vec::with_capacity(n);
        let ghost bytes = self.data@;
        let mut i: usize = 0;
        while i < n
            invariant
                n == bytes.len() / 3,
                bytes == self.data@,
                bytes.len() == len,
                i <= n,
                r@ == channel(bytes, 0).take(i as int),
                g@ == channel(bytes, 1).take(i as int),
                b@ == channel(bytes, 2).take(i as int),
            decreases n - i,
        {
            assert(3 * i + 2 < bytes.len());
            r.push(self.data[3 * i]);
            g.push(self.data[3 * i + 1]);
            b.push(self.data[3 * i + 2]);
            i = i + 1;
            assert(r@ =~= channel(bytes, 0).take(i as int));
            assert(g@ =~= channel(bytes, 1).take(i as int));
            assert(b@ =~= channel(bytes, 2).take(i as int));
        }
        assert(r@ =~= channel(bytes, 0));
        assert(g@ =~= channel(bytes, 1));
        assert(b@ =~= channel(bytes, 2));
        (r, g, b)
    }

    /// The buffer as an image-crate RGB8 image: same size, same bytes.
    #[must_use]
    pub fn to_dynamic_image(&self) -> (r: image::DynamicImage)
        ensures
            rgb8_raw(r) == self@,
            rgb8_dimensions(r) == (self.spec_width(), self.spec_height()),
    {
        proof {
            use_type_invariant(self);
            assert(self.width * self.height * 3 == 3 * self.width * self.height) by (nonlinear_arith);
        }
        let data = self.data.clone();
        proof {
            assert(data@ =~= self.data@);
        }
        let img = rgb8_image_from_raw(self.width, self.height, data);
        img.unwrap()
    }

    /// Converts any image-crate image to RGB8 and keeps its pixels: the
    /// size of the converted image and its whole raw buffer.
    #[must_use]
    pub fn from_dynamic_image(img: &image::DynamicImage) -> (r: Self)
        ensures
            r@.len() >= r.spec_width() * r.spec_height() * 3,
            (r.spec_width(), r.spec_height()) == rgb8_dimensions(*img),
            r@ == rgb8_raw(*img),
    {
        let (data, width, height) = dynamic_image_rgb8_parts(img);
        proof {
            assert(3 * width * height == width * height * 3) by (nonlinear_arith);
        }
        PixelBuffer { data, width, height }
    }
}

/// Calls `image::RgbImage::from_raw` and wraps the buffer as
/// `DynamicImage::ImageRgb8`. The image crate builds the buffer exactly when
/// `3 * width * height` bytes fit in `data`, and keeps `data` as it is with
/// the given size; `to_rgb8` of an `ImageRgb8` is a clone of that buffer.
#[verifier::external_body]
fn rgb8_image_from_raw(width: u32, height: u32, data: Vec<u8>) -> (r: Option<image::DynamicImage>)
    ensures
        r is Some <==> 3 * width * height <= data@.len(),
        r matches Some(img) ==> rgb8_raw(img) == data@ && rgb8_dimensions(img) == (width, height),
{
    image::RgbImage::from_raw(width, height, data).map(image::DynamicImage::ImageRgb8)
}

/// Calls `image::DynamicImage::to_rgb8` and hands back the raw buffer and the
/// dimensions of the converted image. The image crate keeps an image buffer
/// at least `3 * width * height` bytes long. The pixel values are named, not
/// stated: the colour conversion from other pixel formats is the image
/// crate's.
#[verifier::external_body]
fn dynamic_image_rgb8_parts(img: &image::DynamicImage) -> (r: (Vec<u8>, u32, u32))
    ensures
        r.0@ == rgb8_raw(*img),
        (r.1, r.2) == rgb8_dimensions(*img),
        r.0@.len() >= 3 * r.1 * r.2,
{
    let rgb = img.to_rgb8();
    let (width, height) = rgb.dimensions();
    (rgb.into_raw(), width, height)
}


/// Splitting into channels loses nothing: every channel has one byte per
/// whole pixel, and interleaving the three channels' bytes for pixel `i`
/// gives back that pixel's three bytes, in the order red, green, blue.
pub proof fn lemma_channels_interleave_to_pixels(bytes: Seq<u8>, i: int)
    requires
        0 <= i < bytes.len() / 3,
    ensures
        channel(bytes, 0).len() == bytes.len() / 3,
        channel(bytes, 1).len() == bytes.len() / 3,
        channel(bytes, 2).len() == bytes.len() / 3,
        bytes.subrange(3 * i, 3 * i + 3) == seq![
            channel(bytes, 0)[i],
            channel(bytes, 1)[i],
            channel(bytes, 2)[i],
        ],
{
    assert(bytes.subrange(3 * i, 3 * i + 3) =~= seq![
        channel(bytes, 0)[i],
        channel(bytes, 1)[i],
        channel(bytes, 2)[i],
    ]);
}

} // verus!
