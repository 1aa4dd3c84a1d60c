use atompkg::package_info::PackageInfo;
use atompkg::packages::compare_pkg_lists;
use atompkg::packages::parse_pkg_defs;
use atompkg::semver::SemVer;
use std::cmp::Ordering;

fn pkg(name: &str, version: &str) -> PackageInfo {
    PackageInfo {
        name: name.to_string(),
        version: SemVer::from_str(version).unwrap(),
    }
}

fn names(list: &[PackageInfo]) -> Vec<String> {
    list.iter().map(|p| p.to_string()).collect()
}

#[test]
fn parse_line_reads_name_and_version() {
    let p = PackageInfo::from_pkg_str("foo@1.2.3").unwrap();
    assert_eq!(p.name, "foo");
    assert_eq!(p.version, SemVer::new(1, 2, 3));
    assert_eq!(p.to_string(), "foo@1.2.3");
}

#[test]
fn parse_line_skips_lines_without_shape() {
    assert!(PackageInfo::from_pkg_str("").is_none());
    assert!(PackageInfo::from_pkg_str("foo").is_none());
    assert!(PackageInfo::from_pkg_str("@1.2.0").is_none());
    assert!(PackageInfo::from_pkg_str("foo@").is_none());
    assert!(PackageInfo::from_pkg_str("foo@oops").is_none());
    assert!(PackageInfo::from_pkg_str("foo@1.2@3").is_none());
}

#[test]
fn record_version_comparison_ignores_names() {
    let a = pkg("aaa", "2.0.0");
    let b = pkg("zzz", "1.9.9");
    assert_eq!(PackageInfo::compare_versions(&a, &b), Ordering::Greater);
    assert_eq!(PackageInfo::compare_versions(&b, &a), Ordering::Less);
    assert_eq!(PackageInfo::compare_versions(&a, &a.clone()), Ordering::Equal);
}

#[test]
fn reconcile_nothing_installed_returns_desired_in_order() {
    let desired = vec![pkg("foo", "1.2.0"), pkg("bar", "0.3.4"), pkg("baz", "9.9.9")];
    let out = compare_pkg_lists(&desired, &[]);
    assert_eq!(names(&out), names(&desired));
}

#[test]
fn reconcile_nothing_desired_returns_empty() {
    let installed = vec![pkg("foo", "1.2.0"), pkg("bar", "0.3.4")];
    let out = compare_pkg_lists(&[], &installed);
    assert!(out.is_empty());
}

#[test]
fn reconcile_equal_version_is_satisfied() {
    let desired = vec![pkg("foo", "1.2.0")];
    let installed = vec![pkg("foo", "1.2.0")];
    let out = compare_pkg_lists(&desired, &installed);
    assert!(out.is_empty());
}

#[test]
fn reconcile_higher_desired_version_needs_upgrade() {
    let desired = vec![pkg("foo", "1.3.0")];
    let installed = vec![pkg("foo", "1.2.0")];
    let out = compare_pkg_lists(&desired, &installed);
    assert_eq!(names(&out), vec!["foo@1.3.0".to_string()]);
}

#[test]
fn reconcile_lower_desired_version_is_not_a_downgrade() {
    let desired = vec![pkg("foo", "1.1.0")];
    let installed = vec![pkg("foo", "1.2.0")];
    let out = compare_pkg_lists(&desired, &installed);
    assert!(out.is_empty());
}

#[test]
fn reconcile_consults_only_first_installed_match() {
    let desired = vec![pkg("foo", "1.3.0")];
    let installed = vec![pkg("foo", "1.4.0"), pkg("foo", "0.1.0")];
    let out = compare_pkg_lists(&desired, &installed);
    assert!(out.is_empty());
}

#[test]
fn end_to_end_defs_lines_to_install_list() {
    let lines = vec!["ide-rust@0.21.0".to_string(), "slime@3.4.0".to_string()];
    let desired = parse_pkg_defs(&lines);
    let installed = vec![pkg("ide-rust", "0.19.2")];
    let out = compare_pkg_lists(&desired, &installed);
    assert_eq!(
        names(&out),
        vec!["ide-rust@0.21.0".to_string(), "slime@3.4.0".to_string()]
    );
}

#[test]
fn parse_defs_skips_blank_and_malformed_lines() {
    let lines = vec![
        "foo@1.2.3".to_string(),
        "".to_string(),
        "not a definition".to_string(),
        "bar@0.1".to_string(),
        "broken@x.y".to_string(),
    ];
    let defs = parse_pkg_defs(&lines);
    assert_eq!(
        names(&defs),
        vec!["foo@1.2.3".to_string(), "bar@0.1.0".to_string()]
    );
}
