use tva_core::detect::{detect_tear, DedupState, DuplicateInfo, Rgb8};
use tva_core::Fraction;

fn solid(v: u8, n: usize) -> Vec<Rgb8> {
    vec![Rgb8 { r: v, g: v, b: v }; n]
}

fn frac(n: u64) -> Fraction {
    Fraction { numer: n, denom: 1 }
}

#[test]
fn tear_found_at_first_changed_row() {
    let w = 4;
    let h = 4;
    let a = solid(0, w * h);
    let mut b = solid(0, w * h);
    for p in b.iter_mut().skip(2 * w) {
        *p = Rgb8 { r: 200, g: 200, b: 200 };
    }
    let t = detect_tear(&a, &b, w, h, frac(30), frac(5)).unwrap();
    assert_eq!(t.tear_y, 2);
    assert_eq!(t.frame_index, 0);
    assert_eq!(t.tear_position, Fraction { numer: 2, denom: 4 });
}

#[test]
fn identical_frames_have_no_tear() {
    let a = solid(77, 16);
    assert!(detect_tear(&a, &a, 4, 4, frac(30), frac(5)).is_none());
}

#[test]
fn size_mismatch_has_no_tear() {
    let a = solid(0, 16);
    let b = solid(255, 15);
    assert!(detect_tear(&a, &b, 4, 4, frac(30), frac(5)).is_none());
}

#[test]
fn whole_frame_change_is_not_a_tear() {
    let a = solid(0, 16);
    let b = solid(255, 16);
    assert!(detect_tear(&a, &b, 4, 4, frac(30), frac(5)).is_none());
}

#[test]
fn thresholds_are_strict() {
    // Row 1 differs by exactly 30 per channel: not above a high threshold of 30.
    let a = solid(0, 4);
    let mut b = solid(0, 4);
    b[2] = Rgb8 { r: 30, g: 30, b: 30 };
    b[3] = Rgb8 { r: 30, g: 30, b: 30 };
    assert!(detect_tear(&a, &b, 2, 2, frac(30), frac(5)).is_none());
    let t = detect_tear(&a, &b, 2, 2, Fraction { numer: 59, denom: 2 }, frac(5)).unwrap();
    assert_eq!(t.tear_y, 1);
}

#[test]
fn dedup_reports_streaks() {
    let f0 = solid(1, 4);
    let f1 = solid(2, 4);
    let mut d = DedupState::new();
    assert!(!d.has_previous());
    assert_eq!(d.process(&f0, 0, true), None);
    assert_eq!(d.current_streak(), 1);
    assert_eq!(
        d.process(&f0, 1, true),
        Some(DuplicateInfo { frame_index: 1, streak_start: 0, streak_length: 2 })
    );
    assert_eq!(
        d.process(&f0, 2, true),
        Some(DuplicateInfo { frame_index: 2, streak_start: 0, streak_length: 3 })
    );
    assert_eq!(d.process(&f1, 3, false), None);
    assert_eq!(d.previous_frame(), &f1[..]);
    assert_eq!(
        d.process(&f1, 4, true),
        Some(DuplicateInfo { frame_index: 4, streak_start: 3, streak_length: 2 })
    );
}

#[test]
fn huge_width_without_rows_has_no_tear() {
    let empty: Vec<Rgb8> = Vec::new();
    assert!(detect_tear(&empty, &empty, usize::MAX, 0, frac(30), frac(5)).is_none());
    assert!(detect_tear(&solid(0, 1), &empty, usize::MAX / 1000, 0, frac(30), frac(5)).is_none());
}
