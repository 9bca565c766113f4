use edgebot::buffer::{shape_len, BorrowedBuffer, BufferError, ZeroCopyBuffer};
use edgebot::camera::{CameraBuffer, ImageFormat, ImageMetadata, Ros2ImageExt};

#[test]
fn test_zero_copy_buffer_new() {
    let buffer = ZeroCopyBuffer::<i32>::new(10);
    assert_eq!(buffer.total_len(), 10);
    assert_eq!(buffer.initialized_len(), 0);
    assert_eq!(buffer.uninitialized_len(), 10);
}

#[test]
fn test_zero_copy_buffer_push() {
    let mut buffer = ZeroCopyBuffer::<i32>::new(5);
    assert!(buffer.push(1).is_ok());
    assert!(buffer.push(2).is_ok());
    assert_eq!(buffer.initialized_len(), 2);
    assert_eq!(buffer.uninitialized_len(), 3);

    let slice = buffer.initialized_slice();
    assert_eq!(slice, &[1, 2]);
}

#[test]
fn test_zero_copy_buffer_from_vec() {
    let vec = vec![1, 2, 3, 4, 5];
    let buffer = ZeroCopyBuffer::from_vec(vec);
    assert_eq!(buffer.total_len(), 5);
    assert_eq!(buffer.initialized_len(), 5);
    assert_eq!(buffer.initialized_slice(), &[1, 2, 3, 4, 5]);
}

#[test]
fn test_zero_copy_buffer_extend() {
    let mut buffer = ZeroCopyBuffer::<i32>::new(10);
    let values = vec![1, 2, 3];
    assert!(buffer.extend_from_slice(&values).is_ok());
    assert_eq!(buffer.initialized_len(), 3);
    assert_eq!(buffer.initialized_slice(), &[1, 2, 3]);
}

#[test]
fn test_zero_copy_buffer_extend_fails_when_full() {
    let mut buffer = ZeroCopyBuffer::<i32>::new(3);
    buffer.push(1).unwrap();
    buffer.push(2).unwrap();
    buffer.push(3).unwrap();

    let values = vec![4, 5];
    let result = buffer.extend_from_slice(&values);
    assert!(matches!(result, Err(BufferError::BufferTooSmall { .. })));
}

#[test]
fn test_borrowed_buffer() {
    let vec = vec![1, 2, 3, 4, 5];
    let borrowed = BorrowedBuffer::new(&vec);
    assert_eq!(borrowed.len(), 5);
    assert_eq!(borrowed.as_slice(), &[1, 2, 3, 4, 5]);
    assert!(Iterator::all(&mut borrowed.iter(), |&x| x > 0));
}

#[test]
fn push_into_full_buffer_hands_value_back() {
    let mut buffer = ZeroCopyBuffer::<i32>::new(1);
    assert!(buffer.push(7).is_ok());
    assert_eq!(buffer.push(8), Err(8));
    assert_eq!(buffer.initialized_slice(), &[7]);
}

#[test]
fn extend_too_small_reports_sizes_and_keeps_contents() {
    let mut buffer = ZeroCopyBuffer::<u8>::new(4);
    buffer.push(1).unwrap();
    match buffer.extend_from_slice(&[2, 3, 4, 5]) {
        Err(BufferError::BufferTooSmall { needed, have }) => {
            assert_eq!(needed, 4);
            assert_eq!(have, 3);
        }
        _ => panic!("expected BufferTooSmall"),
    }
    assert_eq!(buffer.initialized_slice(), &[1]);
}

#[test]
fn buffer_clear_and_into_inner() {
    let mut buffer = ZeroCopyBuffer::from_vec(vec![4u8, 5, 6]);
    buffer.clear();
    assert_eq!(buffer.initialized_len(), 0);
    assert_eq!(buffer.total_len(), 3);
    buffer.push(9).unwrap();
    assert_eq!(buffer.into_inner(), vec![9]);
}

#[test]
fn buffer_into_boxed_slice_keeps_order() {
    let mut buffer = ZeroCopyBuffer::<u16>::new(3);
    buffer.extend_from_slice(&[10, 20, 30]).unwrap();
    let boxed = buffer.into_boxed_slice();
    assert_eq!(&*boxed, &[10u16, 20, 30][..]);
}

#[test]
fn borrowed_buffer_empty() {
    let v: Vec<u8> = Vec::new();
    let b = BorrowedBuffer::new(&v);
    assert!(b.is_empty());
    assert_eq!(b.len(), 0);
}

#[test]
fn test_image_metadata() {
    let meta = ImageMetadata::new(640, 480, ImageFormat::RGB);
    assert_eq!(meta.total_bytes(), 640 * 480 * 3);
    assert_eq!(meta.channels(), 3);
    assert!(!meta.has_alpha());
}

#[test]
fn test_camera_buffer_new() {
    let meta = ImageMetadata::new(2, 2, ImageFormat::RGB);
    let buffer = CameraBuffer::new(meta);
    assert_eq!(buffer.width(), 2);
    assert_eq!(buffer.height(), 2);
    assert!(buffer.bytes().is_empty());
}

#[test]
fn test_camera_buffer_from_vec() {
    let data = vec![0u8; 4 * 4 * 3];
    let meta = ImageMetadata::new(4, 4, ImageFormat::RGB);
    let buffer = CameraBuffer::from_vec(data, meta);
    assert_eq!(buffer.bytes().len(), 48);
}

#[test]
fn test_camera_buffer_channels_split() {
    let data = vec![1u8, 2, 3, 4, 5, 6, 7, 8, 9];
    let meta = ImageMetadata::new(3, 1, ImageFormat::RGB);
    let buffer = CameraBuffer::from_vec(data, meta);

    let channels = buffer.split_channels().unwrap();
    assert_eq!(channels.len(), 3);
    assert_eq!(channels[0].as_slice(), &[1, 4, 7]);
    assert_eq!(channels[1].as_slice(), &[2, 5, 8]);
    assert_eq!(channels[2].as_slice(), &[3, 6, 9]);
}

#[test]
fn metadata_per_format() {
    let rgba = ImageMetadata::new(2, 3, ImageFormat::BGRA);
    assert_eq!(rgba.bytes_per_pixel(), 4);
    assert_eq!(rgba.total_bytes(), 24);
    assert!(rgba.has_alpha());
    assert_eq!(rgba.pixel_depth(), 8);
    let depth = ImageMetadata::new(5, 2, ImageFormat::Depth);
    assert_eq!(depth.bytes_per_pixel(), 2);
    assert_eq!(depth.channels(), 1);
    assert_eq!(depth.pixel_depth(), 16);
    assert_eq!(depth.total_bytes(), 20);
    assert_eq!(ImageFormat::Grayscale.channels(), 1);
}

#[test]
fn metadata_with_stride() {
    let meta = ImageMetadata { width: 3, height: 2, format: ImageFormat::Grayscale, stride: Some(8) };
    assert_eq!(meta.total_bytes(), 16);
}

#[test]
fn split_channels_other_formats_none() {
    let meta = ImageMetadata::new(1, 1, ImageFormat::RGBA);
    let buffer = CameraBuffer::from_vec(vec![1, 2, 3, 4], meta);
    assert!(buffer.split_channels().is_none());
}

#[test]
fn swap_rgb_bgr_relabels_and_back() {
    let meta = ImageMetadata::new(1, 1, ImageFormat::RGB);
    let mut buffer = CameraBuffer::from_vec(vec![10, 20, 30], meta);
    assert!(buffer.swap_rgb_bgr().is_ok());
    assert_eq!(buffer.format(), ImageFormat::BGR);
    assert_eq!(buffer.bytes().as_slice(), &[10, 20, 30]);
    assert!(buffer.swap_rgb_bgr().is_ok());
    assert_eq!(buffer.format(), ImageFormat::RGB);

    let mut gray = CameraBuffer::new(ImageMetadata::new(1, 1, ImageFormat::Grayscale));
    assert!(matches!(gray.swap_rgb_bgr(), Err(BufferError::UninitializedRead)));
    assert_eq!(gray.format(), ImageFormat::Grayscale);
}

#[test]
fn camera_from_buffer_and_num_pixels() {
    let meta = ImageMetadata::new(2, 2, ImageFormat::Grayscale);
    let mut raw = ZeroCopyBuffer::<u8>::new(4);
    raw.extend_from_slice(&[1, 2]).unwrap();
    let buffer = CameraBuffer::from_buffer(raw, meta);
    assert_eq!(buffer.num_pixels(), 4);
    assert_eq!(buffer.bytes().as_slice(), &[1, 2]);
    assert_eq!(buffer.metadata().width, 2);
}

#[test]
fn ros2_ext_to_camera_buffer_with_stride() {
    let buffer = <CameraBuffer as Ros2ImageExt>::to_camera_buffer(
        vec![0u8; 12],
        2,
        2,
        ImageFormat::Grayscale,
        Some(6),
    );
    assert_eq!(buffer.metadata().stride, Some(6));
    assert_eq!(buffer.bytes().len(), 12);
}

#[test]
fn camera_bytes_mut_takes_a_whole_frame() {
    let metadata = ImageMetadata::new(640, 480, ImageFormat::RGB);
    let mut buffer = CameraBuffer::new(metadata);
    let ros2_image_data: Vec<u8> = (0..640 * 480 * 3).map(|i| (i % 251) as u8).collect();
    assert_eq!(buffer.bytes_mut().len(), 921600);
    buffer.bytes_mut().copy_from_slice(&ros2_image_data);
    assert_eq!(buffer.bytes().as_slice(), &ros2_image_data[..]);
}

#[test]
fn camera_bytes_mut_keeps_written_bytes_and_zeroes_the_rest() {
    let meta = ImageMetadata::new(2, 1, ImageFormat::RGB);
    let mut raw = ZeroCopyBuffer::<u8>::new(6);
    raw.extend_from_slice(&[9, 8]).unwrap();
    let mut buffer = CameraBuffer::from_buffer(raw, meta);
    assert_eq!(&*buffer.bytes_mut(), &[9, 8, 0, 0, 0, 0]);
    buffer.bytes_mut()[5] = 7;
    assert_eq!(buffer.bytes().as_slice(), &[9, 8, 0, 0, 0, 7]);
}

#[test]
fn buffer_mutable_slices() {
    let mut buffer = ZeroCopyBuffer::<i32>::new(4);
    buffer.push(1).unwrap();
    buffer.initialized_slice_mut()[0] = 5;
    assert_eq!(buffer.initialized_slice(), &[5]);
    let whole = buffer.as_mut_slice(-1);
    assert_eq!(whole, &[5, -1, -1, -1]);
    whole[3] = 3;
    assert_eq!(buffer.initialized_slice(), &[5, -1, -1, 3]);
    assert_eq!(buffer.uninitialized_len(), 0);
}

#[test]
fn shape_checks() {
    assert_eq!(shape_len(&[2, 3, 4]), Some(24));
    assert_eq!(shape_len(&[]), Some(1));
    assert_eq!(shape_len(&[usize::MAX, 2]), None);
    assert_eq!(shape_len(&[usize::MAX, 2, 0]), Some(0));
    let v = vec![1, 2, 3, 4, 5, 6];
    let b = BorrowedBuffer::new(&v);
    assert!(b.fits_shape(&[2, 3]));
    assert!(!b.fits_shape(&[2, 2]));
}
