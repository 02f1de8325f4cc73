use tva_core::scale::{parse_target, scale_filter, ScaleTarget};
use tva_core::TvaError;

#[test]
fn height_only() {
    assert!(matches!(parse_target("480").unwrap(), ScaleTarget::Height(480)));
    assert!(matches!(parse_target("480p").unwrap(), ScaleTarget::Height(480)));
    assert!(matches!(parse_target(" 720P ").unwrap(), ScaleTarget::Height(720)));
}

#[test]
fn both_separators() {
    assert!(matches!(parse_target("854x480").unwrap(), ScaleTarget::Both(854, 480)));
    assert!(matches!(parse_target("854X480").unwrap(), ScaleTarget::Both(854, 480)));
    assert!(matches!(parse_target("854:480").unwrap(), ScaleTarget::Both(854, 480)));
}

#[test]
fn garbage_is_err() {
    assert!(parse_target("foo").is_err());
    assert!(parse_target("x480").is_err());
    assert!(parse_target("").is_err());
}

#[test]
fn filter_strings() {
    assert_eq!(scale_filter(ScaleTarget::Height(480)), "scale=-2:480:flags=lanczos");
    assert_eq!(scale_filter(ScaleTarget::Both(854, 480)), "scale=854:480:flags=lanczos");
}

fn bad_scale_text(s: &str) -> String {
    match parse_target(s) {
        Err(TvaError::BadScale(t)) => t,
        other => panic!("expected BadScale for {:?}, got {:?}", s, other),
    }
}

#[test]
fn errors_carry_trimmed_text() {
    assert_eq!(bad_scale_text(""), "");
    assert_eq!(bad_scale_text("   pP "), "");
    assert_eq!(bad_scale_text(" foo "), "foo");
    assert_eq!(bad_scale_text("x480p"), "x480");
    assert_eq!(bad_scale_text("1x2x3"), "1x2x3");
}

#[test]
fn parse_follows_u32_rules() {
    assert!(matches!(parse_target("+720").unwrap(), ScaleTarget::Height(720)));
    assert!(matches!(parse_target("4294967295").unwrap(), ScaleTarget::Height(4294967295)));
    assert!(parse_target("4294967296").is_err());
    assert!(parse_target("-480").is_err());
    assert!(parse_target("+").is_err());
    assert!(matches!(parse_target(" 854 x 480 ").unwrap(), ScaleTarget::Both(854, 480)));
    assert!(matches!(parse_target("\t1920:1080pp\n").unwrap(), ScaleTarget::Both(1920, 1080)));
    assert!(matches!(parse_target("\u{3000}720p").unwrap(), ScaleTarget::Height(720)));
    assert!(parse_target("854x").is_err());
    assert!(parse_target("48 0").is_err());
}

#[test]
fn filter_renders_edge_values() {
    assert_eq!(scale_filter(ScaleTarget::Height(0)), "scale=-2:0:flags=lanczos");
    assert_eq!(
        scale_filter(ScaleTarget::Both(4294967295, 10)),
        "scale=4294967295:10:flags=lanczos"
    );
}

#[test]
fn rendered_targets_parse_back() {
    for &(w, h) in &[(0u32, 0u32), (7, 1080), (3840, 2160), (4294967295, 1)] {
        let text = format!("{}x{}", w, h);
        assert!(matches!(parse_target(&text).unwrap(), ScaleTarget::Both(a, b) if a == w && b == h));
        assert!(matches!(parse_target(&h.to_string()).unwrap(), ScaleTarget::Height(b) if b == h));
    }
}
