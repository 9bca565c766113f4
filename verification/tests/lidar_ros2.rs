use edgebot::buffer::ZeroCopyBuffer;
use edgebot::camera::ImageFormat;
use edgebot::lidar::{LidarBuffer, PointFormat, RawPoint};
use edgebot::ros2::{PointDatatype, PointField, Ros2ImageBuilder, Ros2ImageConverter, Ros2PointCloudConverter};

fn xyz(x: f32, y: f32, z: f32) -> RawPoint {
    RawPoint {
        x: x.to_bits(),
        y: y.to_bits(),
        z: z.to_bits(),
        intensity: None,
        ring: None,
        timestamp: None,
    }
}

#[test]
fn test_point_format_sizes() {
    let format_xyz = PointFormat::xyz_float();
    assert_eq!(format_xyz.size_for_points(10), 120);

    let format_full = PointFormat::full_32byte();
    assert_eq!(format_full.size_for_points(10), 320);
}

#[test]
fn test_lidar_buffer_new() {
    let format = PointFormat::xyz_float();
    let buffer = LidarBuffer::new(100, format);
    assert_eq!(buffer.num_points(), 0);
    assert_eq!(buffer.format(), &format);
}

#[test]
fn test_lidar_buffer_from_bytes() {
    let mut data = Vec::new();
    for i in 0..3 {
        for v in [i as f32, (i + 1) as f32, (i + 2) as f32] {
            data.extend_from_slice(&v.to_le_bytes());
        }
    }
    let format = PointFormat::xyz_float();
    let buffer = LidarBuffer::from_bytes(data, 3, format);
    assert_eq!(buffer.num_points(), 3);

    let p0 = buffer.get_point(0);
    assert_eq!(f32::from_bits(p0.x), 0.0);
    assert_eq!(f32::from_bits(p0.y), 1.0);
    assert_eq!(f32::from_bits(p0.z), 2.0);
}

#[test]
fn test_lidar_buffer_push_point() {
    let format = PointFormat::xyz_float();
    let mut buffer = LidarBuffer::new(10, format);

    let p = xyz(1.0, 2.0, 3.0);
    assert!(buffer.push_point(p).is_ok());
    assert_eq!(buffer.num_points(), 1);

    let retrieved = buffer.get_point(0);
    assert_eq!(f32::from_bits(retrieved.x), 1.0);
    assert_eq!(f32::from_bits(retrieved.y), 2.0);
    assert_eq!(f32::from_bits(retrieved.z), 3.0);
}

#[test]
fn lidar_push_reads_back_every_field() {
    let format = PointFormat::full_32byte();
    let mut buffer = LidarBuffer::new(2, format);
    let p = RawPoint {
        x: 0x0102_0304,
        y: 5,
        z: 0xFFFF_FFFF,
        intensity: Some(77),
        ring: Some(9),
        timestamp: Some(123_456),
    };
    assert!(buffer.push_point(xyz_full(1)).is_ok());
    assert!(buffer.push_point(p).is_ok());
    assert_eq!(buffer.get_point(1), p);
    assert_eq!(buffer.bytes().len(), 64);
    assert_eq!(&buffer.bytes().as_slice()[32..36], &[4, 3, 2, 1]);
    assert_eq!(buffer.push_point(p), Err(p));
    assert_eq!(buffer.num_points(), 2);
}

fn xyz_full(v: u32) -> RawPoint {
    RawPoint { x: v, y: v, z: v, intensity: Some(v), ring: Some(0), timestamp: Some(v) }
}

#[test]
fn lidar_formats_and_channels() {
    assert_eq!(PointFormat::xyz_float().num_channels(), 3);
    assert_eq!(PointFormat::xyz_intensity_float().num_channels(), 4);
    assert_eq!(PointFormat::full_32byte().num_channels(), 6);
    assert_eq!(PointFormat::xyz_intensity_float().stride, 16);
}

#[test]
fn lidar_from_buffer_counts_points() {
    let format = PointFormat::xyz_float();
    let mut raw = ZeroCopyBuffer::<u8>::new(24);
    raw.extend_from_slice(&[0u8; 24]).unwrap();
    let buffer = LidarBuffer::from_buffer(raw, 2, format);
    assert_eq!(buffer.num_points(), 2);
    assert_eq!(buffer.get_point(1), xyz(0.0, 0.0, 0.0));
}

#[test]
fn test_ros2_image_converter_format_mapping() {
    assert_eq!(Ros2ImageConverter::format_from_encoding("rgb8"), Some(ImageFormat::RGB));
    assert_eq!(Ros2ImageConverter::format_from_encoding("bgra8"), Some(ImageFormat::BGRA));
    assert_eq!(Ros2ImageConverter::format_from_encoding("mono8"), Some(ImageFormat::Grayscale));
    assert_eq!(Ros2ImageConverter::format_from_encoding("unknown"), None);
}

#[test]
fn ros2_depth_encodings() {
    assert_eq!(Ros2ImageConverter::format_from_encoding("16UC1"), Some(ImageFormat::Depth));
    assert_eq!(Ros2ImageConverter::format_from_encoding("32FC1"), Some(ImageFormat::Depth));
    assert_eq!(Ros2ImageConverter::format_from_encoding("RGB8"), None);
}

#[test]
fn test_ros2_image_builder_expected_size() {
    let builder = Ros2ImageBuilder::new(640, 480, ImageFormat::RGB);
    assert_eq!(builder.expected_data_size(), 640 * 480 * 3);

    let builder = Ros2ImageBuilder::new(100, 100, ImageFormat::RGBA);
    assert_eq!(builder.expected_data_size(), 100 * 100 * 4);
}

#[test]
fn ros2_builder_depth_and_gray_sizes() {
    let builder = Ros2ImageBuilder::new(10, 10, ImageFormat::Depth).with_data(vec![0u8; 200]);
    assert_eq!(builder.expected_data_size(), 200);
    builder.build();
    let builder = Ros2ImageBuilder::new(7, 3, ImageFormat::Grayscale);
    assert_eq!(builder.expected_data_size(), 21);
}

#[test]
fn test_point_field() {
    let field = PointField { name: "x", offset: 0, datatype: PointDatatype::F32, count: 1 };
    assert_eq!(field.name, "x");
    assert_eq!(field.offset, 0);
}

#[test]
fn ros2_image_to_camera_buffer_copies() {
    let data = [1u8, 2, 3, 4, 5, 6];
    let conv = Ros2ImageConverter::new(&data, 2, 1, "bgr8");
    let cam = conv.to_camera_buffer();
    assert_eq!(cam.format(), ImageFormat::BGR);
    assert_eq!(cam.width(), 2);
    assert_eq!(cam.bytes().as_slice(), &data[..]);
}

#[test]
fn ros2_point_cloud_to_lidar_buffer() {
    let mut data = Vec::new();
    for v in [1.0f32, 2.0, 3.0, 0.5] {
        data.extend_from_slice(&v.to_le_bytes());
    }
    let fields = vec![
        PointField { name: "intensity", offset: 12, datatype: PointDatatype::F32, count: 1 },
        PointField { name: "x", offset: 0, datatype: PointDatatype::F32, count: 1 },
        PointField { name: "y", offset: 4, datatype: PointDatatype::F32, count: 1 },
        PointField { name: "z", offset: 8, datatype: PointDatatype::F32, count: 1 },
    ];
    let conv = Ros2PointCloudConverter::new(&data, 1, 16, fields);
    let lidar = conv.to_lidar_buffer();
    assert_eq!(lidar.num_points(), 1);
    assert_eq!(lidar.format(), &PointFormat::xyz_intensity_float());
    let p = lidar.get_point(0);
    assert_eq!(f32::from_bits(p.y), 2.0);
    assert_eq!(p.intensity.map(f32::from_bits), Some(0.5));
}

#[test]
fn lidar_custom_layout_reads_back_pushed_points() {
    let format = PointFormat {
        stride: 12,
        x_offset: 4,
        y_offset: 0,
        z_offset: 8,
        intensity_offset: None,
        ring_offset: None,
        timestamp_offset: None,
    };
    assert!(format.fits_stride());
    let mut buffer = LidarBuffer::new(2, format);
    buffer.push_point(xyz(1.0, 2.0, 3.0)).unwrap();
    buffer.push_point(xyz(4.0, 5.0, 6.0)).unwrap();
    assert!(buffer.is_packed());
    assert_eq!(buffer.get_point(0), xyz(1.0, 2.0, 3.0));
    assert_eq!(buffer.get_point(1), xyz(4.0, 5.0, 6.0));
    assert_eq!(&buffer.bytes().as_slice()[0..4], &2.0f32.to_le_bytes());
}

#[test]
fn lidar_intensity_before_coordinates() {
    let format = PointFormat {
        stride: 20,
        x_offset: 8,
        y_offset: 12,
        z_offset: 16,
        intensity_offset: Some(0),
        ring_offset: Some(4),
        timestamp_offset: None,
    };
    let mut buffer = LidarBuffer::new(1, format);
    let p = RawPoint { x: 1, y: 2, z: 3, intensity: Some(40), ring: Some(5), timestamp: None };
    buffer.push_point(p).unwrap();
    assert_eq!(buffer.get_point(0), p);
}

#[test]
fn lidar_format_checks() {
    assert!(PointFormat::full_32byte().fits_stride());
    let bad = PointFormat { stride: 10, ..PointFormat::xyz_float() };
    assert!(!bad.fits_stride());
    let raw = ZeroCopyBuffer::<u8>::new(24);
    let buffer = LidarBuffer::from_buffer(raw, 2, PointFormat::xyz_float());
    assert!(!buffer.is_packed());
}

#[test]
fn ros2_float_depth_image_converts() {
    let data = vec![0u8; 16];
    let conv = Ros2ImageConverter::new(&data, 2, 2, "32FC1");
    let b = conv.to_camera_buffer();
    assert_eq!(b.format(), ImageFormat::Depth);
    assert_eq!((b.width(), b.height()), (2, 2));
    assert_eq!(b.metadata().stride, Some(8));
    assert_eq!(b.bytes().as_slice(), &data[..]);
    let d16 = vec![1u8; 8];
    let b = Ros2ImageConverter::new(&d16, 2, 2, "16UC1").to_camera_buffer();
    assert_eq!(b.metadata().stride, Some(4));
    assert_eq!(b.bytes().len(), 8);
}
