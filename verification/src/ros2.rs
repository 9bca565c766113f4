//! Conversions between ROS2 sensor message fields and the camera and LiDAR
//! buffers.

use vstd::prelude::*;
use vstd::string::StringExecFns;
use crate::camera::{
    CameraBuffer, ImageFormat, ImageMetadata, format_bytes_per_pixel, image_bytes, image_size_fits,
};
use crate::lidar::{LidarBuffer, PointFormat};
use crate::text::str_eq;
use vstd::slice::slice_to_vec;

verus! {

/// The image format a ROS2 image encoding names, if any.
pub open spec fn encoding_format(e: Seq<char>) -> Option<ImageFormat> {
    if e == "rgb8"@ {
        Some(ImageFormat::RGB)
    } else if e == "rgba8"@ {
        Some(ImageFormat::RGBA)
    } else if e == "bgr8"@ {
        Some(ImageFormat::BGR)
    } else if e == "bgra8"@ {
        Some(ImageFormat::BGRA)
    } else if e == "mono8"@ {
        Some(ImageFormat::Grayscale)
    } else if e == "16UC1"@ {
        Some(ImageFormat::Depth)
    } else if e == "32FC1"@ {
        Some(ImageFormat::Depth)
    } else {
        None
    }
}

/// The ROS2 image encoding written for an image format.
pub open spec fn format_encoding(f: ImageFormat) -> Seq<char> {
    match f {
        ImageFormat::RGB => "rgb8"@,
        ImageFormat::BGR => "bgr8"@,
        ImageFormat::RGBA => "rgba8"@,
        ImageFormat::BGRA => "bgra8"@,
        ImageFormat::Grayscale => "mono8"@,
        ImageFormat::Depth => "16UC1"@,
    }
}

/// Bytes each pixel takes in a ROS2 image message of a supported encoding:
/// a 32-bit float depth pixel takes four.
pub open spec fn encoding_pixel_bytes(e: Seq<char>) -> nat {
    if e == "32FC1"@ {
        4
    } else {
        match encoding_format(e) {
            Some(f) => format_bytes_per_pixel(f),
            None => 0,
        }
    }
}

/// The metadata of a ROS2 image of a supported encoding: its rows are
/// `width` pixels of the encoding's size.
pub open spec fn message_metadata(width: usize, height: usize, e: Seq<char>) -> ImageMetadata {
    ImageMetadata {
        width,
        height,
        format: encoding_format(e)->0,
        stride: Some((width * encoding_pixel_bytes(e)) as usize),
    }
}

/// Bytes per pixel of a ROS2 image encoding (0 for encodings not listed).
pub open spec fn encoding_bytes_per_pixel(e: Seq<char>) -> nat {
    if e == "rgb8"@ || e == "bgr8"@ {
        3
    } else if e == "rgba8"@ || e == "bgra8"@ {
        4
    } else if e == "mono8"@ {
        1
    } else if e == "16UC1"@ {
        2
    } else {
        0
    }
}

/// Helper for conversion from a ROS2 Image message.
pub struct Ros2ImageConverter<'a> {
    data: &'a [u8],
    width: usize,
    height: usize,
    encoding: &'a str,
}

impl<'a> Ros2ImageConverter<'a> {
    pub closed spec fn spec_data(&self) -> Seq<u8> {
        self.data@
    }

    pub closed spec fn spec_width(&self) -> usize {
        self.width
    }

    pub closed spec fn spec_height(&self) -> usize {
        self.height
    }

    pub closed spec fn spec_encoding(&self) -> Seq<char> {
        self.encoding@
    }

    /// Create a converter from a ROS2 Image message's data.
    pub fn new(data: &'a [u8], width: usize, height: usize, encoding: &'a str) -> (c: Self)
        ensures
            c.spec_data() == data@,
            c.spec_width() == width,
            c.spec_height() == height,
            c.spec_encoding() == encoding@,
    {
        Ros2ImageConverter { data, width, height, encoding }
    }

    /// Determine the image format from ROS2 encoding string.
    pub fn format_from_encoding(encoding: &str) -> (f: Option<ImageFormat>)
        ensures
            f == encoding_format(encoding@),
    {
        if str_eq(encoding, "rgb8") {
            Some(ImageFormat::RGB)
        } else if str_eq(encoding, "rgba8") {
            Some(ImageFormat::RGBA)
        } else if str_eq(encoding, "bgr8") {
            Some(ImageFormat::BGR)
        } else if str_eq(encoding, "bgra8") {
            Some(ImageFormat::BGRA)
        } else if str_eq(encoding, "mono8") {
            Some(ImageFormat::Grayscale)
        } else if str_eq(encoding, "16UC1") {
            Some(ImageFormat::Depth)
        } else if str_eq(encoding, "32FC1") {
            Some(ImageFormat::Depth)
        } else {
            None
        }
    }

    /// Convert to a `CameraBuffer` holding a copy of the image data; its rows
    /// are the message's rows, each `width` pixels of the encoding's size.
    pub fn to_camera_buffer(&self) -> (b: CameraBuffer)
        requires
            encoding_format(self.spec_encoding()) is Some,
            self.spec_width() * encoding_pixel_bytes(self.spec_encoding()) <= usize::MAX,
            self.spec_width() * encoding_pixel_bytes(self.spec_encoding()) * self.spec_height()
                <= usize::MAX,
            self.spec_data().len() == self.spec_width() * encoding_pixel_bytes(self.spec_encoding())
                * self.spec_height(),
        ensures
            b.meta() == message_metadata(self.spec_width(), self.spec_height(), self.spec_encoding()),
            b.data() == self.spec_data(),
    {
        let format = Self::format_from_encoding(self.encoding).unwrap();
        let pixel_bytes: usize = if str_eq(self.encoding, "32FC1") {
            4
        } else {
            match format {
                ImageFormat::RGB | ImageFormat::BGR => 3,
                ImageFormat::RGBA | ImageFormat::BGRA => 4,
                ImageFormat::Grayscale => 1,
                ImageFormat::Depth => 2,
            }
        };
        let ghost w = self.width as int;
        let ghost h = self.height as int;
        let ghost pb = pixel_bytes as int;
        proof {
            reveal_strlit("32FC1");
            assert(pixel_bytes == encoding_pixel_bytes(self.encoding@));
            assert(format_bytes_per_pixel(format) <= pb);
            assert(w * format_bytes_per_pixel(format) <= w * pb) by (nonlinear_arith)
                requires
                    0 <= w,
                    format_bytes_per_pixel(format) <= pb,
            ;
        }
        let metadata = ImageMetadata {
            width: self.width,
            height: self.height,
            format,
            stride: Some(self.width * pixel_bytes),
        };
        CameraBuffer::from_vec(slice_to_vec(self.data), metadata)
    }
}

/// Helper for building a ROS2 Image message from an image.
pub struct Ros2ImageBuilder {
    width: usize,
    height: usize,
    encoding: String,
    data: Vec<u8>,
}

impl Ros2ImageBuilder {
    pub closed spec fn spec_width(&self) -> usize {
        self.width
    }

    pub closed spec fn spec_height(&self) -> usize {
        self.height
    }

    pub closed spec fn spec_encoding(&self) -> Seq<char> {
        self.encoding@
    }

    pub closed spec fn spec_data(&self) -> Seq<u8> {
        self.data@
    }

    /// Create a new builder with dimensions and format.
    pub fn new(width: usize, height: usize, format: ImageFormat) -> (b: Self)
        ensures
            b.spec_width() == width,
            b.spec_height() == height,
            b.spec_encoding() == format_encoding(format),
            b.spec_data() == Seq::<u8>::empty(),
    {
        let encoding = match format {
            ImageFormat::RGB => String::from_str("rgb8"),
            ImageFormat::BGR => String::from_str("bgr8"),
            ImageFormat::RGBA => String::from_str("rgba8"),
            ImageFormat::BGRA => String::from_str("bgra8"),
            ImageFormat::Grayscale => String::from_str("mono8"),
            ImageFormat::Depth => String::from_str("16UC1"),
        };
        Ros2ImageBuilder { width, height, encoding, data: Vec::new() }
    }

    /// Set the image data.
    pub fn with_data(self, data: Vec<u8>) -> (b: Self)
        ensures
            b.spec_width() == self.spec_width(),
            b.spec_height() == self.spec_height(),
            b.spec_encoding() == self.spec_encoding(),
            b.spec_data() == data@,
    {
        let mut s = self;
        s.data = data;
        s
    }

    /// Build the ROS2 Image message; the message itself is assembled by the
    /// ROS2 node that publishes it.
    pub fn build(&self) {
    }

    /// Get the expected data size for this image configuration.
    pub fn expected_data_size(&self) -> (n: usize)
        requires
            self.spec_width() * self.spec_height() * encoding_bytes_per_pixel(self.spec_encoding())
                <= usize::MAX,
        ensures
            n == self.spec_width() * self.spec_height() * encoding_bytes_per_pixel(
                self.spec_encoding(),
            ),
    {
        let e = self.encoding.as_str();
        let bytes_per_pixel: usize = if str_eq(e, "rgb8") || str_eq(e, "bgr8") {
            3
        } else if str_eq(e, "rgba8") || str_eq(e, "bgra8") {
            4
        } else if str_eq(e, "mono8") {
            1
        } else if str_eq(e, "16UC1") {
            2
        } else {
            0
        };
        if bytes_per_pixel == 0 {
            proof {
                assert(self.width * self.height * 0 == 0) by (nonlinear_arith);
            }
            return 0;
        }
        proof {
            let w = self.width as int;
            let h = self.height as int;
            let b = bytes_per_pixel as int;
            assert(w * h <= w * h * b) by (nonlinear_arith)
                requires
                    b >= 1,
                    w >= 0,
                    h >= 0,
            ;
        }
        self.width * self.height * bytes_per_pixel
    }
}

/// Data type for a point cloud field.
#[derive(Debug, Clone, Copy)]
pub enum PointDatatype {
    /// 32-bit float
    F32,
    /// 64-bit float
    F64,
    /// 8-bit signed integer
    I8,
    /// 8-bit unsigned integer
    U8,
    /// 16-bit signed integer
    I16,
    /// 16-bit unsigned integer
    U16,
    /// 32-bit signed integer
    I32,
    /// 32-bit unsigned integer
    U32,
}

/// Description of a field in a ROS2 PointCloud2 message.
#[derive(Debug, Clone, Copy)]
pub struct PointField<'a> {
    pub name: &'a str,
    pub offset: u32,
    pub datatype: PointDatatype,
    pub count: u32,
}

/// The offset of the first field with the given name.
pub open spec fn field_offset(fields: Seq<PointField>, name: Seq<char>) -> Option<u32>
    decreases fields.len(),
{
    if fields.len() == 0 {
        None
    } else if fields[0].name@ == name {
        Some(fields[0].offset)
    } else {
        field_offset(fields.drop_first(), name)
    }
}

/// The point layout of a PointCloud2 message: its point step as stride, the
/// offsets of its `x`, `y`, `z` and (if present) `intensity` fields.
pub open spec fn cloud_format(fields: Seq<PointField>, point_step: usize) -> PointFormat {
    PointFormat {
        stride: point_step,
        x_offset: field_offset(fields, "x"@)->0 as usize,
        y_offset: field_offset(fields, "y"@)->0 as usize,
        z_offset: field_offset(fields, "z"@)->0 as usize,
        intensity_offset: match field_offset(fields, "intensity"@) {
            Some(o) => Some(o as usize),
            None => None,
        },
        ring_offset: None,
        timestamp_offset: None,
    }
}

/// Helper for LiDAR point cloud conversion from ROS2 PointCloud2 messages.
pub struct Ros2PointCloudConverter<'a> {
    data: &'a [u8],
    num_points: usize,
    point_step: usize,
    fields: Vec<PointField<'a>>,
}

impl<'a> Ros2PointCloudConverter<'a> {
    pub closed spec fn spec_data(&self) -> Seq<u8> {
        self.data@
    }

    pub closed spec fn spec_num_points(&self) -> usize {
        self.num_points
    }

    pub closed spec fn spec_point_step(&self) -> usize {
        self.point_step
    }

    pub closed spec fn spec_fields(&self) -> Seq<PointField<'a>> {
        self.fields@
    }

    /// Create a converter from ROS2 PointCloud2 data.
    pub fn new(data: &'a [u8], num_points: usize, point_step: usize, fields: Vec<PointField<'a>>) -> (c:
        Self)
        ensures
            c.spec_data() == data@,
            c.spec_num_points() == num_points,
            c.spec_point_step() == point_step,
            c.spec_fields() == fields@,
    {
        Ros2PointCloudConverter { data, num_points, point_step, fields }
    }

    /// Convert to a `LidarBuffer` laid out as the message's fields describe.
    ///
    /// The message must have `x`, `y` and `z` fields.
    pub fn to_lidar_buffer(&self) -> (b: LidarBuffer)
        requires
            field_offset(self.spec_fields(), "x"@) is Some,
            field_offset(self.spec_fields(), "y"@) is Some,
            field_offset(self.spec_fields(), "z"@) is Some,
            self.spec_point_step() * self.spec_num_points() <= usize::MAX,
            self.spec_data().len() == self.spec_point_step() * self.spec_num_points(),
        ensures
            b.wf(),
            b.layout() == cloud_format(self.spec_fields(), self.spec_point_step()),
            b.data() == self.spec_data(),
            b.count() == self.spec_num_points(),
    {
        let x_offset = find_field(&self.fields, "x").unwrap() as usize;
        let y_offset = find_field(&self.fields, "y").unwrap() as usize;
        let z_offset = find_field(&self.fields, "z").unwrap() as usize;
        let intensity_offset = match find_field(&self.fields, "intensity") {
            Some(o) => Some(o as usize),
            None => None,
        };
        let format = PointFormat {
            stride: self.point_step,
            x_offset,
            y_offset,
            z_offset,
            intensity_offset,
            ring_offset: None,
            timestamp_offset: None,
        };
        LidarBuffer::from_bytes(slice_to_vec(self.data), self.num_points, format)
    }
}

/// The offset of the first field named `name`.
fn find_field(fields: &Vec<PointField>, name: &str) -> (o: Option<u32>)
    ensures
        o == field_offset(fields@, name@),
{
    let n = fields.len();
    let mut i: usize = 0;
    assert(fields@.subrange(0, n as int) =~= fields@);
    while i < n
        invariant
            n == fields@.len(),
            i <= n,
            field_offset(fields@, name@) == field_offset(fields@.subrange(i as int, n as int), name@),
        decreases n - i,
    {
        let ghost rest = fields@.subrange(i as int, n as int);
        assert(rest[0] == fields@[i as int]);
        assert(rest.drop_first() =~= fields@.subrange(i + 1, n as int));
        if str_eq(fields[i].name, name) {
            return Some(fields[i].offset);
        }
        i += 1;
    }
    assert(fields@.subrange(n as int, n as int).len() == 0);
    None
}

/// The encodings named here are pairwise different strings.
proof fn lemma_encodings_distinct()
    ensures
        "rgb8"@ != "rgba8"@,
        "rgb8"@ != "bgr8"@,
        "rgb8"@ != "bgra8"@,
        "rgb8"@ != "mono8"@,
        "rgb8"@ != "16UC1"@,
        "rgb8"@ != "32FC1"@,
        "rgba8"@ != "bgr8"@,
        "rgba8"@ != "bgra8"@,
        "rgba8"@ != "mono8"@,
        "rgba8"@ != "16UC1"@,
        "rgba8"@ != "32FC1"@,
        "bgr8"@ != "bgra8"@,
        "bgr8"@ != "mono8"@,
        "bgr8"@ != "16UC1"@,
        "bgr8"@ != "32FC1"@,
        "bgra8"@ != "mono8"@,
        "bgra8"@ != "16UC1"@,
        "bgra8"@ != "32FC1"@,
        "mono8"@ != "16UC1"@,
        "mono8"@ != "32FC1"@,
        "16UC1"@ != "32FC1"@,
{
    reveal_strlit("rgb8");
    reveal_strlit("rgba8");
    reveal_strlit("bgr8");
    reveal_strlit("bgra8");
    reveal_strlit("mono8");
    reveal_strlit("16UC1");
    reveal_strlit("32FC1");
    assert("rgb8"@.len() != "rgba8"@.len());
    assert("rgb8"@[0] != "bgr8"@[0]);
    assert("rgb8"@.len() != "bgra8"@.len());
    assert("rgb8"@.len() != "mono8"@.len());
    assert("rgb8"@.len() != "16UC1"@.len());
    assert("rgb8"@.len() != "32FC1"@.len());
    assert("rgba8"@.len() != "bgr8"@.len());
    assert("rgba8"@[0] != "bgra8"@[0]);
    assert("rgba8"@[0] != "mono8"@[0]);
    assert("rgba8"@[0] != "16UC1"@[0]);
    assert("rgba8"@[0] != "32FC1"@[0]);
    assert("bgr8"@.len() != "bgra8"@.len());
    assert("bgr8"@.len() != "mono8"@.len());
    assert("bgr8"@.len() != "16UC1"@.len());
    assert("bgr8"@.len() != "32FC1"@.len());
    assert("bgra8"@[0] != "mono8"@[0]);
    assert("bgra8"@[0] != "16UC1"@[0]);
    assert("bgra8"@[0] != "32FC1"@[0]);
    assert("mono8"@[0] != "16UC1"@[0]);
    assert("mono8"@[0] != "32FC1"@[0]);
    assert("16UC1"@[0] != "32FC1"@[0]);
}

/// Reading back the encoding a builder writes gives the builder's format.
pub proof fn lemma_encoding_roundtrip(f: ImageFormat)
    ensures
        encoding_format(format_encoding(f)) == Some(f),
{
    lemma_encodings_distinct();
}

/// The size a builder expects is the size of the image its format and
/// dimensions describe.
pub proof fn lemma_builder_size_matches_image(width: usize, height: usize, f: ImageFormat)
    requires
        width * format_bytes_per_pixel(f) <= usize::MAX,
    ensures
        width * height * encoding_bytes_per_pixel(format_encoding(f)) == image_bytes(
            ImageMetadata {
                width,
                height,
                format: f,
                stride: Some((width * format_bytes_per_pixel(f)) as usize),
            },
        ),
{
    lemma_encodings_distinct();
    let b = format_bytes_per_pixel(f) as int;
    assert(encoding_bytes_per_pixel(format_encoding(f)) == b);
    let w = width as int;
    let h = height as int;
    assert(w * h * b == (w * b) * h) by (nonlinear_arith);
}

/// Trait for types that can be converted back to ROS2 messages.
pub trait ToRos2Message: Sized {
    /// The associated ROS2 message type.
    type Message;

    /// Convert to a ROS2 message.
    fn to_ros2_message(&self) -> Self::Message;
}

/// Extension trait for ROS2 message senders to publish a byte buffer
/// without copying it.
pub trait Ros2PublisherExt {
    /// Publish a buffer directly if the sender supports it.
    fn publish_zero_copy(&self, buffer: &[u8]);
}

/// The unit sender publishes nothing.
impl Ros2PublisherExt for () {
    fn publish_zero_copy(&self, buffer: &[u8]) {
    }
}

/// A ROS2 encoding has the pixel size of the image format it names, and the
/// RGB and BGR orders of a depth have the same size.
pub proof fn lemma_encoding_sizes(f: ImageFormat)
    ensures
        encoding_bytes_per_pixel(format_encoding(f)) == format_bytes_per_pixel(f),
        encoding_pixel_bytes(format_encoding(f)) == format_bytes_per_pixel(f),
        encoding_bytes_per_pixel("bgr8"@) == encoding_bytes_per_pixel("rgb8"@),
        encoding_bytes_per_pixel("bgra8"@) == encoding_bytes_per_pixel("rgba8"@),
{
    lemma_encodings_distinct();
    lemma_encoding_roundtrip(f);
}

} // verus!
