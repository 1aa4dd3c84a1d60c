use atompkg::semver::SemVer;
use std::cmp::Ordering;

fn compare_versions(versions: (&str, &str), expected: Ordering) {
    let (a, b) = versions;
    let comparison = SemVer::compare_versions(
        &SemVer::from_str(a).unwrap(),
        &SemVer::from_str(b).unwrap(),
    );
    assert_eq!(comparison, expected);
}

#[test]
fn compare_versions_equal() {
    compare_versions(("0.0.0", "0.0.0"), Ordering::Equal);
}

#[test]
fn compare_versions_major() {
    compare_versions(("1.2.3", "0.2.3"), Ordering::Greater);
    compare_versions(("0.2.3", "1.2.3"), Ordering::Less);
}

#[test]
fn compare_versions_minor() {
    compare_versions(("1.2.3", "1.0.3"), Ordering::Greater);
    compare_versions(("1.0.3", "1.2.3"), Ordering::Less);
}

#[test]
fn compare_versions_patch() {
    compare_versions(("1.2.3", "1.2.0"), Ordering::Greater);
    compare_versions(("1.2.2", "1.2.3"), Ordering::Less);
}

#[test]
fn format_canonical() {
    assert_eq!(SemVer::new(0, 0, 0).to_string(), "0.0.0");
    assert_eq!(SemVer::new(1, 22, 333).to_string(), "1.22.333");
    assert_eq!(SemVer::new(4294967295, 0, 10).to_string(), "4294967295.0.10");
}

#[test]
fn format_then_parse_round_trips() {
    let v = SemVer::new(1, 22, 333);
    assert_eq!(SemVer::from_str(&v.to_string()).unwrap(), v);
    assert_eq!(SemVer::from_str(&v.to_string()).unwrap().to_string(), "1.22.333");
    let w = SemVer::new(0, 0, 0);
    assert_eq!(SemVer::from_str(&w.to_string()).unwrap(), w);
}

#[test]
fn parse_defaults_missing_segments_to_zero() {
    assert_eq!(SemVer::from_str("1").unwrap(), SemVer::new(1, 0, 0));
    assert_eq!(SemVer::from_str("1.2").unwrap(), SemVer::new(1, 2, 0));
    assert_eq!(SemVer::from_str("1.2.3").unwrap(), SemVer::new(1, 2, 3));
}

#[test]
fn parse_ignores_segments_beyond_three() {
    assert_eq!(SemVer::from_str("1.2.3.4").unwrap(), SemVer::new(1, 2, 3));
    assert_eq!(SemVer::from_str("1.2.3.junk").unwrap(), SemVer::new(1, 2, 3));
}

#[test]
fn parse_rejects_malformed_segments() {
    assert!(SemVer::from_str("").is_err());
    assert!(SemVer::from_str("a.2.3").is_err());
    assert!(SemVer::from_str("1..3").is_err());
    assert!(SemVer::from_str("1.2.").is_err());
    assert!(SemVer::from_str("1.-2.3").is_err());
    assert!(SemVer::from_str("+1.2.3").is_err());
    assert!(SemVer::from_str("1.2.3-beta").is_err());
}

#[test]
fn parse_checks_field_width() {
    assert_eq!(
        SemVer::from_str("4294967295.0.0").unwrap(),
        SemVer::new(4294967295, 0, 0)
    );
    assert!(SemVer::from_str("4294967296.0.0").is_err());
    assert!(SemVer::from_str("1.99999999999999999999.0").is_err());
}
