use tva_core::adapters::image_compare::{HybridComparator, SsimComparator};
use tva_core::adapters::native::MadComparator;
use tva_core::pixel_buffer::PixelBuffer;
use tva_core::Fraction;

fn buf(v: u8, n: u32) -> PixelBuffer {
    PixelBuffer::new(vec![v; (n * 3) as usize], n, 1).unwrap()
}

fn value(f: Fraction) -> f64 {
    f.numer as f64 / f.denom as f64
}

#[test]
fn identical_is_zero() {
    let a = buf(120, 4);
    assert!(value(MadComparator.compare(&a, &a).unwrap()).abs() < f64::EPSILON);
}

#[test]
fn max_is_255() {
    let a = buf(0, 4);
    let b = buf(255, 4);
    assert!((value(MadComparator.compare(&a, &b).unwrap()) - 255.0).abs() < f64::EPSILON);
}

#[test]
fn size_independent() {
    let a2 = buf(100, 2);
    let b2 = buf(105, 2);
    let a4 = buf(100, 4);
    let b4 = buf(105, 4);
    assert!((value(MadComparator.compare(&a2, &b2).unwrap()) - 5.0).abs() < f64::EPSILON);
    assert!((value(MadComparator.compare(&a4, &b4).unwrap()) - 5.0).abs() < f64::EPSILON);
}

#[test]
fn not_higher_is_similar() {
    assert!(!MadComparator.higher_is_similar());
    assert_eq!(MadComparator.name(), "mad");
}

#[test]
fn mad_exact_fraction() {
    let a = PixelBuffer::new(vec![0, 10, 20, 30, 40, 50], 2, 1).unwrap();
    let b = PixelBuffer::new(vec![5, 5, 25, 30, 45, 40], 2, 1).unwrap();
    assert_eq!(MadComparator.compare(&a, &b).unwrap(), Fraction { numer: 30, denom: 6 });
    assert_eq!(MadComparator.compare(&b, &a).unwrap(), Fraction { numer: 30, denom: 6 });
    let e = PixelBuffer::new(Vec::new(), 0, 0).unwrap();
    assert_eq!(MadComparator.compare(&e, &e).unwrap(), Fraction { numer: 0, denom: 1 });
}

#[test]
fn similarity_comparators_prefer_higher_scores() {
    assert!(SsimComparator.higher_is_similar());
    assert_eq!(SsimComparator.name(), "ssim");
    assert!(HybridComparator.higher_is_similar());
    assert_eq!(HybridComparator.name(), "hybrid");
}
