//! Camera image buffers: image formats, image geometry and a byte buffer
//! sized for one image.

use vstd::prelude::*;
use crate::buffer::{BorrowedBuffer, BufferError, ZeroCopyBuffer};

verus! {

/// Supported image formats.
#[derive(Debug, Clone, Copy, PartialEq, Eq, Hash, Structural)]
pub enum ImageFormat {
    /// RGB image with 3 channels.
    RGB,
    /// BGR image with 3 channels.
    BGR,
    /// RGBA image with 4 channels.
    RGBA,
    /// BGRA image with 4 channels.
    BGRA,
    /// Grayscale single-channel image.
    Grayscale,
    /// Depth image (16-bit values).
    Depth,
}

/// Bytes one pixel takes in the given format.
pub open spec fn format_bytes_per_pixel(f: ImageFormat) -> nat {
    match f {
        ImageFormat::RGB => 3,
        ImageFormat::BGR => 3,
        ImageFormat::RGBA => 4,
        ImageFormat::BGRA => 4,
        ImageFormat::Grayscale => 1,
        ImageFormat::Depth => 2,
    }
}

/// Channels one pixel has in the given format.
pub open spec fn format_channels(f: ImageFormat) -> nat {
    match f {
        ImageFormat::RGB => 3,
        ImageFormat::BGR => 3,
        ImageFormat::RGBA => 4,
        ImageFormat::BGRA => 4,
        ImageFormat::Grayscale => 1,
        ImageFormat::Depth => 1,
    }
}

impl ImageFormat {
    /// Get the number of channels for this format.
    pub fn channels(self) -> (n: usize)
        ensures
            n == format_channels(self),
    {
        match self {
            ImageFormat::RGB => 3,
            ImageFormat::BGR => 3,
            ImageFormat::RGBA => 4,
            ImageFormat::BGRA => 4,
            ImageFormat::Grayscale => 1,
            ImageFormat::Depth => 1,
        }
    }
}

/// Metadata about an image (dimensions, format, stride).
#[derive(Debug, Clone, Copy)]
pub struct ImageMetadata {
    /// Image width in pixels.
    pub width: usize,
    /// Image height in pixels.
    pub height: usize,
    /// Image format (channels and interpretation).
    pub format: ImageFormat,
    /// Row stride in bytes (may be larger than width * bytes_per_pixel).
    pub stride: Option<usize>,
}

/// The row stride in bytes: the given one, or a packed row.
pub open spec fn row_bytes(m: ImageMetadata) -> nat {
    match m.stride {
        Some(s) => s as nat,
        None => m.width as nat * format_bytes_per_pixel(m.format),
    }
}

/// Bytes the whole image takes.
pub open spec fn image_bytes(m: ImageMetadata) -> nat {
    row_bytes(m) * m.height as nat
}

/// The image size can be computed without overflow.
pub open spec fn image_size_fits(m: ImageMetadata) -> bool {
    &&& m.width * format_bytes_per_pixel(m.format) <= usize::MAX
    &&& image_bytes(m) <= usize::MAX
}

impl ImageMetadata {
    /// Create new metadata with the given dimensions and format.
    ///
    /// Stride is computed as `width * bytes_per_pixel()`.
    pub fn new(width: usize, height: usize, format: ImageFormat) -> (m: Self)
        requires
            width * format_bytes_per_pixel(format) <= usize::MAX,
        ensures
            m.width == width,
            m.height == height,
            m.format == format,
            m.stride == Some((width * format_bytes_per_pixel(format)) as usize),
    {
        let stride = Some(width * bytes_per_pixel_of(format));
        ImageMetadata { width, height, format, stride }
    }

    /// Get the number of bytes per pixel for this format.
    pub fn bytes_per_pixel(&self) -> (n: usize)
        ensures
            n == format_bytes_per_pixel(self.format),
    {
        bytes_per_pixel_of(self.format)
    }

    /// Get the total number of bytes required to store this image.
    pub fn total_bytes(&self) -> (n: usize)
        requires
            image_size_fits(*self),
        ensures
            n == image_bytes(*self),
    {
        let stride = match self.stride {
            Some(s) => s,
            None => self.width * self.bytes_per_pixel(),
        };
        stride * self.height
    }

    /// Get the number of channels for this format.
    pub fn channels(&self) -> (n: usize)
        ensures
            n == format_channels(self.format),
    {
        self.format.channels()
    }

    /// Check if the image format has an alpha channel.
    pub fn has_alpha(&self) -> (b: bool)
        ensures
            b == (self.format == ImageFormat::RGBA || self.format == ImageFormat::BGRA),
    {
        match self.format {
            ImageFormat::RGBA | ImageFormat::BGRA => true,
            _ => false,
        }
    }

    /// Get the pixel depth in bits.
    pub fn pixel_depth(&self) -> (d: u8)
        ensures
            d == if self.format == ImageFormat::Depth {
                16u8
            } else {
                8u8
            },
    {
        match self.format {
            ImageFormat::Depth => 16,
            _ => 8,
        }
    }
}

fn bytes_per_pixel_of(format: ImageFormat) -> (n: usize)
    ensures
        n == format_bytes_per_pixel(format),
{
    match format {
        ImageFormat::RGB => 3,
        ImageFormat::BGR => 3,
        ImageFormat::RGBA => 4,
        ImageFormat::BGRA => 4,
        ImageFormat::Grayscale => 1,
        ImageFormat::Depth => 2,
    }
}

/// The bytes of channel `c` of an interleaved buffer with `n` channels: every
/// `n`-th byte, starting at byte `c`.
pub open spec fn deinterleave(s: Seq<u8>, c: nat, n: nat) -> Seq<u8>
    recommends
        n > 0,
{
    let count = if s.len() > c {
        ((s.len() - c + n - 1) / n as int) as nat
    } else {
        0
    };
    Seq::new(count, |k: int| s[c + n * k])
}

/// The format after relabelling RGB as BGR and back; other formats stay.
pub open spec fn swapped_format(f: ImageFormat) -> ImageFormat {
    match f {
        ImageFormat::RGB => ImageFormat::BGR,
        ImageFormat::BGR => ImageFormat::RGB,
        _ => f,
    }
}

/// Swapping the channel order twice gives back the format swapped.
pub proof fn lemma_swap_twice(f: ImageFormat)
    ensures
        swapped_format(swapped_format(f)) == f,
{
}

/// A camera image: a byte buffer sized for the image its metadata describes.
pub struct CameraBuffer {
    buffer: ZeroCopyBuffer<u8>,
    metadata: ImageMetadata,
}

impl CameraBuffer {
    /// The image metadata.
    pub closed spec fn meta(&self) -> ImageMetadata {
        self.metadata
    }

    /// The image bytes written so far.
    pub closed spec fn data(&self) -> Seq<u8> {
        self.buffer.initialized()
    }

    /// The bytes the image buffer can hold.
    pub closed spec fn capacity(&self) -> nat {
        self.buffer.capacity()
    }

    /// Create a new camera buffer with the given metadata.
    ///
    /// No image bytes are written yet; the buffer holds room for the whole image.
    pub fn new(metadata: ImageMetadata) -> (b: Self)
        requires
            image_size_fits(metadata),
        ensures
            b.meta() == metadata,
            b.data() == Seq::<u8>::empty(),
            b.capacity() == image_bytes(metadata),
    {
        let total_bytes = metadata.total_bytes();
        let buffer = ZeroCopyBuffer::new(total_bytes);
        CameraBuffer { buffer, metadata }
    }

    /// Create a camera buffer from existing byte data of exactly one image.
    pub fn from_vec(data: Vec<u8>, metadata: ImageMetadata) -> (b: Self)
        requires
            image_size_fits(metadata),
            data@.len() == image_bytes(metadata),
        ensures
            b.meta() == metadata,
            b.data() == data@,
            b.capacity() == image_bytes(metadata),
    {
        let buffer = ZeroCopyBuffer::from_vec(data);
        CameraBuffer { buffer, metadata }
    }

    /// Create a buffer from an existing zero-copy buffer of one image's capacity.
    pub fn from_buffer(buffer: ZeroCopyBuffer<u8>, metadata: ImageMetadata) -> (b: Self)
        requires
            image_size_fits(metadata),
            buffer.capacity() == image_bytes(metadata),
        ensures
            b.meta() == metadata,
            b.data() == buffer.initialized(),
            b.capacity() == buffer.capacity(),
    {
        CameraBuffer { buffer, metadata }
    }

    /// Get a borrowed view of the raw image bytes.
    pub fn bytes(&self) -> (v: BorrowedBuffer<'_, u8>)
        ensures
            v@ == self.data(),
    {
        BorrowedBuffer::new(self.buffer.initialized_slice())
    }

    /// A writable view of all the image's bytes: bytes not written yet read as
    /// zero, and what is written through the view becomes the image data.
    pub fn bytes_mut(&mut self) -> (v: &mut [u8])
        ensures
            v@ == old(self).data() + Seq::new(
                (if old(self).data().len() < old(self).capacity() {
                    old(self).capacity() - old(self).data().len()
                } else {
                    0
                }) as nat,
                |i: int| 0u8,
            ),
            final(self).data() == final(v)@,
            final(self).meta() == old(self).meta(),
            final(self).capacity() == old(self).capacity(),
    {
        self.buffer.as_mut_slice(0u8)
    }

    /// Get the image metadata.
    pub fn metadata(&self) -> (m: &ImageMetadata)
        ensures
            *m == self.meta(),
    {
        &self.metadata
    }

    /// Get the width of the image.
    pub fn width(&self) -> (w: usize)
        ensures
            w == self.meta().width,
    {
        self.metadata.width
    }

    /// Get the height of the image.
    pub fn height(&self) -> (h: usize)
        ensures
            h == self.meta().height,
    {
        self.metadata.height
    }

    /// Get the image format.
    pub fn format(&self) -> (f: ImageFormat)
        ensures
            f == self.meta().format,
    {
        self.metadata.format
    }

    /// Get the total number of pixels in the image.
    pub fn num_pixels(&self) -> (n: usize)
        requires
            self.meta().width * self.meta().height <= usize::MAX,
        ensures
            n == self.meta().width * self.meta().height,
    {
        self.metadata.width * self.metadata.height
    }

    /// Split an RGB or BGR image into its three colour planes, in byte order.
    ///
    /// Other formats give `None`.
    pub fn split_channels(&self) -> (res: Option<Vec<Vec<u8>>>)
        ensures
            (self.meta().format == ImageFormat::RGB || self.meta().format == ImageFormat::BGR)
                ==> res is Some && res->0@.len() == 3 && (forall|c: int|
                0 <= c < 3 ==> (#[trigger] res->0@[c])@ == deinterleave(self.data(), c as nat, 3)),
            !(self.meta().format == ImageFormat::RGB || self.meta().format == ImageFormat::BGR)
                ==> res is None,
    {
        match self.metadata.format {
            ImageFormat::RGB | ImageFormat::BGR => {
                let bytes = self.buffer.initialized_slice();
                let mut channels: Vec<Vec<u8>> = Vec::new();
                let mut c: usize = 0;
                while c < 3
                    invariant
                        c <= 3,
                        bytes@ == self.data(),
                        channels@.len() == c,
                        forall|k: int|
                            0 <= k < c ==> (#[trigger] channels@[k])@ == deinterleave(
                                self.data(),
                                k as nat,
                                3,
                            ),
                    decreases 3 - c,
                {
                    channels.push(channel_of(bytes, c));
                    c += 1;
                }
                Some(channels)
            },
            _ => None,
        }
    }

    /// Convert between RGB and BGR formats by relabelling the data.
    ///
    /// Other formats are left unchanged and give an error.
    pub fn swap_rgb_bgr(&mut self) -> (res: Result<(), BufferError>)
        ensures
            final(self).data() == old(self).data(),
            final(self).capacity() == old(self).capacity(),
            final(self).meta().width == old(self).meta().width,
            final(self).meta().height == old(self).meta().height,
            final(self).meta().stride == old(self).meta().stride,
            final(self).meta().format == swapped_format(old(self).meta().format),
            (old(self).meta().format == ImageFormat::RGB || old(self).meta().format
                == ImageFormat::BGR) ==> res is Ok,
            !(old(self).meta().format == ImageFormat::RGB || old(self).meta().format
                == ImageFormat::BGR) ==> (res matches Err(BufferError::UninitializedRead)),
    {
        match self.metadata.format {
            ImageFormat::RGB => {
                self.metadata.format = ImageFormat::BGR;
                Ok(())
            },
            ImageFormat::BGR => {
                self.metadata.format = ImageFormat::RGB;
                Ok(())
            },
            _ => Err(BufferError::UninitializedRead),
        }
    }
}

/// Every third byte of `bytes`, starting at byte `c`.
fn channel_of(bytes: &[u8], c: usize) -> (out: Vec<u8>)
    requires
        c < 3,
    ensures
        out@ == deinterleave(bytes@, c as nat, 3),
{
    let n = bytes.len();
    let mut out: Vec<u8> = Vec::new();
    let mut i: usize = c;
    if i < n {
        loop
            invariant_except_break
                i == c + 3 * out@.len(),
            invariant
                n == bytes@.len(),
                c < 3,
                i < n,
                forall|k: int| 0 <= k < out@.len() ==> out@[k] == bytes@[c + 3 * k],
            ensures
                out@.len() >= 1,
                c + 3 * (out@.len() - 1) < n,
                n <= c + 3 * out@.len(),
                forall|k: int| 0 <= k < out@.len() ==> out@[k] == bytes@[c + 3 * k],
            decreases n - i,
        {
            out.push(bytes[i]);
            if n - i <= 3 {
                break;
            }
            i = i + 3;
        }
    }
    proof {
        let spec_out = deinterleave(bytes@, c as nat, 3);
        if n > c {
            let m = out@.len() as int;
            assert(m == (n - c + 2) / 3) by (nonlinear_arith)
                requires
                    c + 3 * (m - 1) < n,
                    n <= c + 3 * m,
                    n > c,
            ;
        }
        assert(out@ =~= spec_out);
    }
    out
}

/// Creating a `CameraBuffer` from raw image data of a ROS2 message, with an
/// explicit row stride.
pub trait Ros2ImageExt {
    fn to_camera_buffer(
        data: Vec<u8>,
        width: usize,
        height: usize,
        format: ImageFormat,
        stride: Option<usize>,
    ) -> (b: CameraBuffer)
        requires
            image_size_fits(ImageMetadata { width, height, format, stride }),
            data@.len() == image_bytes(ImageMetadata { width, height, format, stride }),
        ensures
            b.meta() == (ImageMetadata { width, height, format, stride }),
            b.data() == data@,
    ;
}

impl Ros2ImageExt for CameraBuffer {
    fn to_camera_buffer(
        data: Vec<u8>,
        width: usize,
        height: usize,
        format: ImageFormat,
        stride: Option<usize>,
    ) -> (b: CameraBuffer) {
        CameraBuffer::from_vec(data, ImageMetadata { width, height, format, stride })
    }
}

/// A pixel takes one byte per channel, two for the 16-bit depth channel; and
/// relabelling RGB as BGR keeps both the channel count and the pixel size.
pub proof fn lemma_pixel_size_is_channels_times_depth(f: ImageFormat)
    ensures
        format_bytes_per_pixel(f) == format_channels(f) * (if f == ImageFormat::Depth {
            2nat
        } else {
            1nat
        }),
        format_channels(swapped_format(f)) == format_channels(f),
        format_bytes_per_pixel(swapped_format(f)) == format_bytes_per_pixel(f),
{
}

} // verus!
