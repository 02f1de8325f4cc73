use tva_core::adapters::ffmpeg_native::copy_rgb_rows;
use tva_core::adapters::image_seq::is_image_extension;
use tva_core::adapters::savgol::SavgolSmoother;
use tva_core::detect::Rgb8;
use tva_core::metrics::p99;
use tva_core::output::{output_format, OutputFormat};
use tva_core::raw_source::RawFrameSource;
use tva_core::resolution::nearest_standard_resolution;
use tva_core::TvaError;

#[test]
fn p99_picks_rank_of_sorted_series() {
    assert_eq!(p99(&[]), None);
    assert_eq!(p99(&[42]), Some(42));
    let v: Vec<u64> = (1..=100).rev().collect();
    assert_eq!(p99(&v), Some(100));
    let w: Vec<u64> = (1..=200).collect();
    assert_eq!(p99(&w), Some(199));
    assert_eq!(p99(&[5, 3, 9, 1]), Some(9));
}

#[test]
fn p99_works_on_float_order_keys() {
    let times = [16.7f64, 33.3, 16.6, 50.0, 16.8];
    let keys: Vec<u64> = times.iter().map(|t| t.to_bits()).collect();
    assert_eq!(f64::from_bits(p99(&keys).unwrap()), 50.0);
}

#[test]
fn nearest_resolution_snaps() {
    assert_eq!(nearest_standard_resolution(1920, 1080), (1920, 1080));
    assert_eq!(nearest_standard_resolution(1300, 700), (1280, 720));
    assert_eq!(nearest_standard_resolution(0, 0), (640, 360));
    assert_eq!(nearest_standard_resolution(1580, 887), (1600, 900));
    // Equidistant from 1280x720 and 1440x810 (both 125): the first wins.
    assert_eq!(nearest_standard_resolution(1360, 765), (1280, 720));
}

#[test]
fn savgol_window_rules() {
    let s = SavgolSmoother { window: 21, polyorder: 3 };
    assert_eq!(s.checked_window(0).unwrap(), None);
    assert_eq!(s.checked_window(30).unwrap(), Some(21));
    match s.checked_window(10) {
        Err(TvaError::SmoothingFailed(m)) => assert_eq!(m, "window 21 exceeds data length 10"),
        other => panic!("unexpected {:?}", other),
    }
    let even = SavgolSmoother { window: 20, polyorder: 3 };
    assert_eq!(even.checked_window(30).unwrap(), Some(21));
    let small = SavgolSmoother { window: 4, polyorder: 3 };
    match small.checked_window(30) {
        Err(TvaError::SmoothingFailed(m)) => assert_eq!(m, "window 4 must be > polyorder+1 (4)"),
        other => panic!("unexpected {:?}", other),
    }
}

#[test]
fn image_extensions() {
    for e in ["png", "PNG", "jpg", "JpEg", "tiff", "TIF", "bmp", "webp"] {
        assert!(is_image_extension(e), "{}", e);
    }
    for e in ["", "gif", "pngx", "jp", "txt", "\u{212a}"] {
        assert!(!is_image_extension(e), "{}", e);
    }
}

#[test]
fn rows_are_packed_without_padding() {
    let data: Vec<u8> = (0u8..20).collect();
    // two rows of one pixel, stride 8
    assert_eq!(copy_rgb_rows(&data, 8, 1, 2), vec![0, 1, 2, 8, 9, 10]);
    assert_eq!(copy_rgb_rows(&data, 6, 2, 2), (0u8..12).collect::<Vec<u8>>());
    assert!(copy_rgb_rows(&data, 8, 1, 0).is_empty());
}

#[test]
fn raw_frames_are_sliced_in_order() {
    let data: Vec<u8> = (0u8..12).collect();
    let mut src = RawFrameSource::new(data, 2, 1, 2);
    assert_eq!(src.frame_count(), 2);
    let f0 = src.next_frame().unwrap();
    assert_eq!(f0, vec![Rgb8 { r: 0, g: 1, b: 2 }, Rgb8 { r: 3, g: 4, b: 5 }]);
    let f1 = src.next_frame().unwrap();
    assert_eq!(f1, vec![Rgb8 { r: 6, g: 7, b: 8 }, Rgb8 { r: 9, g: 10, b: 11 }]);
    assert!(src.next_frame().is_none());
}

#[test]
fn report_formats_by_name() {
    assert_eq!(output_format("json").unwrap(), OutputFormat::Json);
    assert_eq!(output_format("csv").unwrap(), OutputFormat::Csv);
    match output_format("xml") {
        Err(TvaError::Decode(m)) => assert_eq!(m, "unknown format: xml (expected json or csv)"),
        other => panic!("unexpected {:?}", other),
    }
    assert!(matches!(output_format("JSON"), Err(TvaError::Decode(_))));
    assert!(matches!(output_format(""), Err(TvaError::Decode(_))));
}

#[test]
fn savgol_empty_series_with_largest_polyorder() {
    let s = SavgolSmoother { window: 5, polyorder: usize::MAX };
    assert_eq!(s.checked_window(0).unwrap(), None);
}
