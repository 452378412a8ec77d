//! Decoded images as plain RGBA bytes, and their exchange with the `image`
//! crate's pixel buffers.
use vstd::prelude::*;

use crate::error::ProcessorError;
use crate::raster::raster_len;

verus! {

/// An RGBA image with 8 bits per channel as the `image` crate holds it
/// (`image::RgbaImage`).  Its width, height and channel bytes are known to
/// the library only through `rgba_width`, `rgba_height` and `rgba_samples`.
#[verifier::external_body]
pub struct RgbaPixels {
    pub image: image::RgbaImage,
}

/// The width of the image that `img` holds.
pub uninterp spec fn rgba_width(img: RgbaPixels) -> u32;

/// The height of the image that `img` holds.
pub uninterp spec fn rgba_height(img: RgbaPixels) -> u32;

/// The channel bytes that `img` holds, row after row, four per pixel.
pub uninterp spec fn rgba_samples(img: RgbaPixels) -> Seq<u8>;

/// `ImageBuffer::dimensions`: the width and height the buffer was made with.
#[verifier::external_body]
fn rgba_dimensions(img: &RgbaPixels) -> (r: (u32, u32))
    ensures
        r.0 == rgba_width(*img),
        r.1 == rgba_height(*img),
{
    img.image.dimensions()
}

/// `ImageBuffer::into_raw`: gives up the buffer's bytes, all of them.
#[verifier::external_body]
fn rgba_into_raw(img: RgbaPixels) -> (r: Vec<u8>)
    ensures
        r@ == rgba_samples(img),
{
    img.image.into_raw()
}

/// A buffer of `len` bytes can hold a `width` by `height` RGBA image:
/// `4 * width` and `4 * width * height` fit in a `usize` (the product is
/// formed in that order) and the latter is at most `len`.
pub open spec fn rgba_buffer_fits(width: u32, height: u32, len: int) -> bool {
    &&& 4 * width <= usize::MAX
    &&& raster_len(width as int, height as int) <= usize::MAX
    &&& raster_len(width as int, height as int) <= len
}

/// `ImageBuffer::from_raw`: wraps `buf` as a `width` by `height` RGBA image
/// when it can hold one (`rgba_buffer_fits`); the buffer is kept whole,
/// bytes past the image included.
#[verifier::external_body]
fn rgba_from_raw(width: u32, height: u32, buf: Vec<u8>) -> (r: Option<RgbaPixels>)
    ensures
        r is Some <==> rgba_buffer_fits(width, height, buf@.len() as int),
        r matches Some(img) ==> {
            &&& rgba_width(img) == width
            &&& rgba_height(img) == height
            &&& rgba_samples(img) == buf@
        },
{
    match image::RgbaImage::from_raw(width, height, buf) {
        Some(image) => Some(RgbaPixels { image }),
        None => None,
    }
}

/// A decoded image: its size and its RGBA bytes, row after row.
pub struct ImageData {
    pub width: u32,
    pub height: u32,
    pub pixels: Vec<u8>,
}

/// The outcome of checking a decoded image of `width` by `height` pixels
/// whose buffer holds `len` bytes: accepted when both sides are positive,
/// `4 * width * height` fits in a `u32` and the buffer holds exactly that
/// many bytes.
pub open spec fn image_parts_accepted(width: u32, height: u32, len: int) -> bool {
    &&& width > 0
    &&& height > 0
    &&& raster_len(width as int, height as int) <= u32::MAX
    &&& len == raster_len(width as int, height as int)
}

impl ImageData {
    /// Width and height are positive, the byte count fits in a `u32`, and
    /// the buffer holds exactly four bytes per pixel.
    pub open spec fn well_formed(&self) -> bool {
        image_parts_accepted(self.width, self.height, self.pixels@.len() as int)
    }

    /// Accepts the size and bytes of a decoded image: a side of 0 or a byte
    /// count beyond `u32` is `InvalidDimensions`, a buffer of another length
    /// than `4 * width * height` is `BufferSizeMismatch(expected, actual)`.
    pub fn from_raw_parts(width: u32, height: u32, pixels: Vec<u8>) -> (r: Result<
        ImageData,
        ProcessorError,
    >)
        ensures
            width == 0 || height == 0 || raster_len(width as int, height as int) > u32::MAX ==> r
                == Err::<ImageData, ProcessorError>(ProcessorError::InvalidDimensions(width, height)),
            width > 0 && height > 0 && raster_len(width as int, height as int) <= u32::MAX
                && pixels@.len() != raster_len(width as int, height as int) ==> r == Err::<
                ImageData,
                ProcessorError,
            >(
                ProcessorError::BufferSizeMismatch(
                    raster_len(width as int, height as int) as usize,
                    pixels@.len() as usize,
                ),
            ),
            image_parts_accepted(width, height, pixels@.len() as int) ==> (r matches Ok(d) && d.width
                == width && d.height == height && d.pixels@ == pixels@),
    {
        if width == 0 || height == 0 {
            return Err(ProcessorError::InvalidDimensions(width, height));
        }
        let expected_size = match width.checked_mul(height) {
            Some(count) => count.checked_mul(4),
            None => None,
        };
        let expected_size = match expected_size {
            Some(size) => size,
            None => {
                assert(raster_len(width as int, height as int) > u32::MAX) by (nonlinear_arith)
                    requires
                        width * height > u32::MAX || (width * height) * 4 > u32::MAX,
                        width > 0,
                        height > 0,
                ;
                return Err(ProcessorError::InvalidDimensions(width, height));
            },
        };
        assert(expected_size == raster_len(width as int, height as int));
        if pixels.len() != expected_size as usize {
            return Err(ProcessorError::BufferSizeMismatch(expected_size as usize, pixels.len()));
        }
        Ok(ImageData { width, height, pixels })
    }

    /// Takes over an image that the `image` crate decoded to RGBA and accepts
    /// it as `from_raw_parts` does its size and bytes.
    pub fn from_rgba(img: RgbaPixels) -> (r: Result<ImageData, ProcessorError>)
        ensures
            ({
                let w = rgba_width(img);
                let h = rgba_height(img);
                let samples = rgba_samples(img);
                &&& w == 0 || h == 0 || raster_len(w as int, h as int) > u32::MAX ==> r == Err::<
                    ImageData,
                    ProcessorError,
                >(ProcessorError::InvalidDimensions(w, h))
                &&& w > 0 && h > 0 && raster_len(w as int, h as int) <= u32::MAX && samples.len()
                    != raster_len(w as int, h as int) ==> r == Err::<ImageData, ProcessorError>(
                    ProcessorError::BufferSizeMismatch(
                        raster_len(w as int, h as int) as usize,
                        samples.len() as usize,
                    ),
                )
                &&& image_parts_accepted(w, h, samples.len() as int) ==> (r matches Ok(d) && d.width
                    == w && d.height == h && d.pixels@ == samples)
            }),
    {
        let (width, height) = rgba_dimensions(&img);
        let pixels = rgba_into_raw(img);
        ImageData::from_raw_parts(width, height, pixels)
    }

    /// Hands the image to the `image` crate as an RGBA buffer, for encoding;
    /// `InvalidDimensions` when the buffer cannot hold the image (see
    /// `rgba_buffer_fits`).
    pub fn to_rgba(&self) -> (r: Result<RgbaPixels, ProcessorError>)
        ensures
            rgba_buffer_fits(self.width, self.height, self.pixels@.len() as int) ==> (r matches Ok(img) && rgba_width(img)
                == self.width && rgba_height(img) == self.height && rgba_samples(img) == self.pixels@),
            !rgba_buffer_fits(self.width, self.height, self.pixels@.len() as int) ==> r == Err::<RgbaPixels, ProcessorError>(
                ProcessorError::InvalidDimensions(self.width, self.height),
            ),
    {
        let copy = self.pixels.clone();
        assert(copy@ =~= self.pixels@);
        match rgba_from_raw(self.width, self.height, copy) {
            Some(img) => Ok(img),
            None => Err(ProcessorError::InvalidDimensions(self.width, self.height)),
        }
    }

    /// The pixel bytes, for a plugin to change in place; the size stays.
    pub fn pixels_mut(&mut self) -> (r: &mut [u8])
        ensures
            r@ == old(self).pixels@,
            final(r)@ == final(self).pixels@,
            final(self).width == old(self).width,
            final(self).height == old(self).height,
    {
        &mut self.pixels
    }

    /// The number of bytes an RGBA buffer of this size holds: four per pixel.
    pub fn expected_buffer_size(&self) -> (r: usize)
        requires
            raster_len(self.width as int, self.height as int) <= usize::MAX,
        ensures
            r == raster_len(self.width as int, self.height as int),
    {
        assert((self.width as int) * (self.height as int) <= raster_len(
            self.width as int,
            self.height as int,
        )) by (nonlinear_arith);
        (self.width as usize) * (self.height as usize) * 4
    }
}

/// An image accepted from decoded parts holds exactly as many bytes as its
/// size calls for (so `expected_buffer_size` is the length of its buffer),
/// and can be handed back to the `image` crate whole: `to_rgba` succeeds on
/// it, and `from_rgba` accepts what comes out with the same size and bytes.
pub proof fn lemma_image_round_trip(width: u32, height: u32, len: int)
    requires
        image_parts_accepted(width, height, len),
    ensures
        rgba_buffer_fits(width, height, len),
        raster_len(width as int, height as int) == len,
{
    assert(4 * width <= raster_len(width as int, height as int)) by (nonlinear_arith)
        requires
            height > 0,
            width >= 0,
    ;
}

} // verus!
