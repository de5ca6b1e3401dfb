use uvm::parse::{parse_go_semver, parse_java_semver, parse_strict_semver};
use uvm::version::{SemVer, format_semver, version_lt};

fn sv(major: u64, minor: u64, patch: u64, pre: &str, build: &str) -> SemVer {
    SemVer {
        major,
        minor,
        patch,
        pre: pre.to_string(),
        build: build.to_string(),
    }
}

#[test]
fn test_parse_semver() {
    assert_eq!(
        SemVer {
            major: 1,
            minor: 1,
            patch: 0,
            pre: String::new(),
            build: String::new()
        },
        parse_go_semver("1.1.0").expect("wrong")
    );
    assert_eq!(
        SemVer {
            major: 1,
            minor: 1,
            patch: 0,
            pre: "rc1".to_string(),
            build: String::new()
        },
        parse_go_semver("1.1.0rc1").expect("wrong")
    );
    assert_eq!(
        SemVer {
            major: 1,
            minor: 1,
            patch: 0,
            pre: "rc1".to_string(),
            build: String::new()
        },
        parse_go_semver("1.1rc1").expect("wrong")
    );
}

#[test]
fn test_parse_go_prefixed() {
    assert_eq!(sv(1, 21, 0, "", ""), parse_go_semver("go1.21.0").unwrap());
    assert_eq!(sv(1, 10, 0, "beta1", ""), parse_go_semver("go1.10beta1").unwrap());
    assert!(parse_go_semver("gopher").is_none());
    assert!(parse_go_semver("1").is_none());
    // trailing text that is not a valid prerelease tag drops the record
    assert!(parse_go_semver("1.2 oddity").is_none());
}

#[test]
fn test_parse_go_never_panics_on_overflow() {
    assert!(parse_go_semver("99999999999999999999.1.0").is_none());
}

#[test]
fn test_parse_java() {
    assert_eq!(sv(21, 0, 2, "", ""), parse_java_semver("21.0.2").unwrap());
    assert_eq!(sv(17, 0, 3, "", "6.1"), parse_java_semver("17.0.3+6.1").unwrap());
    assert_eq!(sv(23, 0, 0, "ea", "3"), parse_java_semver("23-ea+3").unwrap());
    assert_eq!(sv(17, 0, 0, "", ""), parse_java_semver("17").unwrap());
    // trailing junk after the grammar's match is ignored
    assert_eq!(sv(17, 0, 2, "", ""), parse_java_semver("17.0.2.1").unwrap());
    assert!(parse_java_semver("no digits here").is_none());
}

#[test]
fn test_parse_strict() {
    assert_eq!(sv(20, 10, 0, "", ""), parse_strict_semver("20.10.0").unwrap());
    assert_eq!(
        sv(9, 0, 0, "rc.1", "build.5"),
        parse_strict_semver("9.0.0-rc.1+build.5").unwrap()
    );
    assert!(parse_strict_semver("1.0").is_none());
    assert!(parse_strict_semver("1.0.01").is_none());
    assert!(parse_strict_semver("01.0.0").is_none());
    assert!(parse_strict_semver("1.0.0-").is_none());
    assert!(parse_strict_semver("1.0.0-01").is_none());
    assert!(parse_strict_semver("1.0.0junk").is_none());
    assert!(parse_strict_semver("").is_none());
}

#[test]
fn test_ordering_monotonic() {
    // a larger numeric triple is newer
    assert!(version_lt(&sv(1, 9, 0, "", ""), &sv(1, 10, 0, "", "")));
    assert!(!version_lt(&sv(1, 10, 0, "", ""), &sv(1, 9, 0, "", "")));
    // a prerelease comes before its release
    assert!(version_lt(&sv(1, 21, 0, "rc1", ""), &sv(1, 21, 0, "", "")));
    assert!(!version_lt(&sv(1, 21, 0, "", ""), &sv(1, 21, 0, "rc1", "")));
    // prerelease tags compare identifier-wise
    assert!(version_lt(&sv(1, 21, 0, "rc1", ""), &sv(1, 21, 0, "rc2", "")));
    // numeric identifiers compare numerically, not lexically
    assert!(version_lt(&sv(1, 0, 0, "rc.2", ""), &sv(1, 0, 0, "rc.10", "")));
    // a shorter identifier list comes first when it is a prefix
    assert!(version_lt(&sv(1, 0, 0, "alpha", ""), &sv(1, 0, 0, "alpha.1", "")));
    // numeric identifiers come before alphanumeric ones
    assert!(version_lt(&sv(1, 0, 0, "1", ""), &sv(1, 0, 0, "alpha", "")));
    // build metadata never orders
    assert!(!version_lt(&sv(1, 0, 0, "", "a"), &sv(1, 0, 0, "", "b")));
    assert!(!version_lt(&sv(1, 0, 0, "", "b"), &sv(1, 0, 0, "", "a")));
}

#[test]
fn test_format_semver() {
    assert_eq!("1.21.0", format_semver(&sv(1, 21, 0, "", "")));
    assert_eq!("1.21.0-rc1", format_semver(&sv(1, 21, 0, "rc1", "")));
    assert_eq!("17.0.3+6.1", format_semver(&sv(17, 0, 3, "", "6.1")));
    assert_eq!("9.0.0-rc.1+b5", format_semver(&sv(9, 0, 0, "rc.1", "b5")));
}
