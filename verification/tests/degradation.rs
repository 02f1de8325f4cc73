use tva_core::degradation::{
    diff_heatmap, diff_pixel_ratio, size_mismatch, FrameAlignment, FrameMatcher, MatchStep,
    SizeMismatch,
};
use tva_core::Fraction;

#[test]
fn heatmap_identical_is_zero() {
    let a = vec![100u8; 12];
    assert!(diff_heatmap(&a, &a).iter().all(|&v| v == 0));
}

#[test]
fn heatmap_different_is_nonzero() {
    assert!(diff_heatmap(&vec![0u8; 12], &vec![255u8; 12]).iter().all(|&v| v == 255));
}

#[test]
fn diff_ratio_counts_pixels_not_bytes() {
    let a = vec![0, 0, 0, 0, 0, 0];
    let b = vec![0, 0, 0, 255, 255, 255];
    let r = diff_pixel_ratio(&a, &b);
    assert!((r.numer as f64 / r.denom as f64 - 0.5).abs() < f64::EPSILON);
}

#[test]
fn heatmap_means_channel_differences() {
    let a = vec![10, 20, 30, 0, 0, 0, 7];
    let b = vec![13, 10, 30, 255, 0, 1, 9];
    assert_eq!(diff_heatmap(&a, &b), vec![4, 85]);
}

#[test]
fn diff_ratio_edge_cases() {
    assert_eq!(diff_pixel_ratio(&[], &[]), Fraction { numer: 0, denom: 1 });
    assert_eq!(diff_pixel_ratio(&[1, 2], &[1, 3]), Fraction { numer: 0, denom: 0 });
    assert_eq!(
        diff_pixel_ratio(&[1, 2, 3, 4, 5, 6, 7, 8, 9], &[1, 2, 4, 4, 5, 6, 0, 8, 9]),
        Fraction { numer: 2, denom: 3 }
    );
}

#[test]
fn size_mismatch_only_for_different_sizes() {
    assert_eq!(size_mismatch((4, 4), (4, 4)), None);
    assert_eq!(
        size_mismatch((4, 4), (8, 8)),
        Some(SizeMismatch { a: (4, 4), b: (8, 8) })
    );
}

fn align(ta: f64, tb: f64, drift: f64) -> FrameAlignment {
    if (ta - tb).abs() <= drift {
        FrameAlignment::Matched
    } else if ta < tb {
        FrameAlignment::AEarlier
    } else {
        FrameAlignment::BEarlier
    }
}

fn run(a: &[f64], b: &[f64], drift: f64) -> (u64, u64) {
    let mut m = FrameMatcher::new();
    let (mut i, mut j) = (0, 0);
    while i < a.len() && j < b.len() {
        match m.step(align(a[i], b[j], drift)) {
            MatchStep::ComparePair => {
                i += 1;
                j += 1;
            }
            MatchStep::DropA => i += 1,
            MatchStep::AdvanceB => j += 1,
        }
    }
    (m.pairs_compared(), m.pairs_dropped())
}

#[test]
fn matcher_pairs_frames_across_frame_rates() {
    assert_eq!(run(&[0.0, 100.0, 200.0], &[0.0, 50.0, 100.0, 150.0, 200.0], 10.0), (3, 0));
}

#[test]
fn matcher_drops_unpaired_frames_of_a() {
    assert_eq!(run(&[0.0, 50.0, 100.0], &[0.0, 100.0], 10.0), (2, 1));
    assert_eq!(run(&[0.0, 100.0], &[0.0, 100.0], 16.0), (2, 0));
}
