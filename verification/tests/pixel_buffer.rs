use tva_core::pixel_buffer::PixelBuffer;
use tva_core::TvaError;

#[test]
fn valid() {
    PixelBuffer::new(vec![0u8; 36], 12, 1).unwrap();
}

#[test]
fn bad_size() {
    assert!(PixelBuffer::new(vec![0u8; 10], 12, 3).is_err());
}

#[test]
fn split() {
    let b = PixelBuffer::new(vec![0, 1, 2, 3, 4, 5], 2, 1).unwrap();
    let (r, g, _) = b.split_rgb();
    assert_eq!(r, vec![0, 3]);
    assert_eq!(g, vec![1, 4]);
}

#[test]
fn pixel_buffer_from_bytes() {
    let buf = PixelBuffer::new(vec![0u8; 12], 2, 2).unwrap();
    assert_eq!(buf.width(), 2);
    assert_eq!(buf.pixel_count(), 4);
}

#[test]
fn size_mismatch_reports_expected_and_got() {
    match PixelBuffer::new(vec![0u8; 10], 12, 3) {
        Err(TvaError::SizeMismatch { expected, got }) => {
            assert_eq!(expected, 108);
            assert_eq!(got, 10);
        }
        other => panic!("unexpected result: {:?}", other),
    }
}

#[test]
fn accessors_report_layout() {
    let b = PixelBuffer::new((0u8..18).collect(), 3, 2).unwrap();
    assert_eq!(b.width(), 3);
    assert_eq!(b.height(), 2);
    assert_eq!(b.pixel_count(), 6);
    assert_eq!(b.row_bytes(), 9);
    assert_eq!(b.as_bytes().len(), 18);
    let (r, g, bl) = b.split_rgb();
    assert_eq!(r, vec![0, 3, 6, 9, 12, 15]);
    assert_eq!(g, vec![1, 4, 7, 10, 13, 16]);
    assert_eq!(bl, vec![2, 5, 8, 11, 14, 17]);
    assert_eq!(b.clone().into_bytes(), (0u8..18).collect::<Vec<u8>>());
}

#[test]
fn empty_buffer_is_valid() {
    let b = PixelBuffer::new(Vec::new(), 0, 7).unwrap();
    assert_eq!(b.pixel_count(), 0);
    let (r, g, bl) = b.split_rgb();
    assert!(r.is_empty() && g.is_empty() && bl.is_empty());
}

#[test]
fn dynamic_image_round_trip() {
    let bytes: Vec<u8> = (0u8..24).collect();
    let b = PixelBuffer::new(bytes.clone(), 4, 2).unwrap();
    let img = b.to_dynamic_image();
    let back = PixelBuffer::from_dynamic_image(&img);
    assert_eq!(back.width(), 4);
    assert_eq!(back.height(), 2);
    assert_eq!(back.as_bytes(), &bytes[..]);
}

#[test]
fn from_non_rgb_dynamic_image_converts() {
    let gray = image::GrayImage::from_raw(2, 1, vec![10, 200]).unwrap();
    let img = image::DynamicImage::ImageLuma8(gray);
    let b = PixelBuffer::from_dynamic_image(&img);
    assert_eq!(b.as_bytes(), &[10, 10, 10, 200, 200, 200]);
}

#[test]
fn over_long_image_buffer_is_kept_whole() {
    let rgb = image::RgbImage::from_raw(1, 1, vec![1, 2, 3, 4]).unwrap();
    let img = image::DynamicImage::ImageRgb8(rgb);
    let b = PixelBuffer::from_dynamic_image(&img);
    assert_eq!((b.width(), b.height()), (1, 1));
    assert_eq!(b.as_bytes(), &[1, 2, 3, 4]);
    let (r, g, bl) = b.split_rgb();
    assert_eq!((r, g, bl), (vec![1], vec![2], vec![3]));
}
