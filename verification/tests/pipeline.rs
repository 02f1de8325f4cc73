use tva_core::detect::Rgb8;
use tva_core::pipeline::AnalysisState;
use tva_core::Fraction;

fn solid(v: u8, n: usize) -> Vec<Rgb8> {
    vec![Rgb8 { r: v, g: v, b: v }; n]
}

fn feed(state: &mut AnalysisState, frame: Vec<Rgb8>) {
    let dup = match state.reference_frame() {
        Some(prev) => prev == &frame[..],
        None => false,
    };
    state.push_frame(frame, dup);
}

#[test]
fn five_frames_three_unique() {
    let mut s = AnalysisState::new(2, 2, None);
    for v in [10u8, 10, 20, 30, 30] {
        feed(&mut s, solid(v, 4));
    }
    assert_eq!(s.frames_processed(), 5);
    assert_eq!(s.unique_frames(), 3);
    assert_eq!(s.duplicate_frames(), 2);
    assert_eq!(s.streaks(), &[2, 1, 2]);
    assert_eq!(s.streak_starts(), &[0, 2, 3]);
    let total: u64 = s.streaks().iter().map(|&x| x as u64).sum();
    assert_eq!(total, s.frames_processed());
}

#[test]
fn tears_recorded_with_frame_index() {
    let w = 2;
    let h = 4;
    let mut s = AnalysisState::new(w, h, Some((Fraction { numer: 30, denom: 1 }, Fraction { numer: 5, denom: 1 })));
    let base = solid(0, w * h);
    let mut torn = solid(0, w * h);
    for p in torn.iter_mut().skip(3 * w) {
        *p = Rgb8 { r: 250, g: 250, b: 250 };
    }
    feed(&mut s, base.clone());
    feed(&mut s, base.clone());
    feed(&mut s, torn);
    assert_eq!(s.tears().len(), 1);
    assert_eq!(s.tears()[0].frame_index, 2);
    assert_eq!(s.tears()[0].tear_y, 3);
    let (streaks, starts, tears) = s.into_parts();
    assert_eq!(streaks, vec![2, 1]);
    assert_eq!(starts, vec![0, 2]);
    assert_eq!(tears.len(), 1);
}

#[test]
fn tear_detection_off_records_nothing() {
    let mut s = AnalysisState::new(1, 2, None);
    feed(&mut s, solid(0, 2));
    feed(&mut s, vec![Rgb8 { r: 0, g: 0, b: 0 }, Rgb8 { r: 255, g: 255, b: 255 }]);
    assert!(s.tears().is_empty());
}

#[test]
fn resolution_sampling_grid() {
    let mut s = AnalysisState::new(1, 1, None);
    let mut sampled = Vec::new();
    for i in 0..7u8 {
        if s.should_sample_resolution(3) {
            sampled.push(s.frames_processed());
        }
        feed(&mut s, solid(i, 1));
    }
    assert_eq!(sampled, vec![0, 3, 6]);
}

#[test]
fn duplicates_compare_with_streak_start() {
    let mut s = AnalysisState::new(1, 1, None);
    s.push_frame(solid(10, 1), false);
    s.push_frame(solid(11, 1), true);
    s.push_frame(solid(12, 1), true);
    assert_eq!(s.reference_frame().unwrap(), &solid(10, 1)[..]);
    assert_eq!(s.streaks(), &[3]);
    assert_eq!(s.streak_starts(), &[0]);
    s.push_frame(solid(50, 1), false);
    assert_eq!(s.reference_frame().unwrap(), &solid(50, 1)[..]);
    assert_eq!(s.streak_starts(), &[0, 3]);
}

#[test]
fn zero_height_stream_of_huge_width() {
    let mut s = AnalysisState::new(usize::MAX, 0, Some((Fraction { numer: 30, denom: 1 }, Fraction { numer: 5, denom: 1 })));
    s.push_frame(Vec::new(), false);
    s.push_frame(Vec::new(), true);
    assert!(s.tears().is_empty());
    assert_eq!(s.streaks(), &[2]);
}
