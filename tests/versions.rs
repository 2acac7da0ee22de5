use gitrelease::version::Version;

fn v(major: u64, minor: u64, patch: u64, extra: &str, snapshot: bool) -> Version {
    Version { major, minor, patch, extra: extra.to_string(), snapshot }
}

fn numbers(version: &Version) -> (u64, u64, u64, String, bool) {
    (version.major, version.minor, version.patch, version.extra.clone(), version.snapshot)
}

#[test]
fn parse_plain_version() {
    let parsed = Version::parse("1.22.333").unwrap();
    assert_eq!(numbers(&parsed), (1, 22, 333, String::new(), false));
}

#[test]
fn parse_accepts_and_drops_suffixes() {
    for text in ["1.2.3-beta", "1.2.3-SNAPSHOT", "1.2.3-rc1-SNAPSHOT", "1.2.3-a_b"] {
        let parsed = Version::parse(text).unwrap();
        assert_eq!(numbers(&parsed), (1, 2, 3, String::new(), false), "{}", text);
    }
}

#[test]
fn parse_rejects_other_shapes() {
    for text in [
        "", "1", "1.2", "1.2.", ".1.2", "1..2", "1.x.3", "a.b.c", "1.2.3.4", "1.2.3-",
        "1.2.3-a-b", "v1.2.3", "1.2.3 ", " 1.2.3", "1.2.3beta", "1.2.3-SNAPSHOT-x",
    ] {
        assert!(Version::parse(text).is_none(), "{}", text);
    }
}

#[test]
fn parse_rejects_numbers_too_large() {
    assert!(Version::parse("18446744073709551616.0.0").is_none());
    let largest = Version::parse("18446744073709551615.0.7").unwrap();
    assert_eq!(numbers(&largest), (u64::MAX, 0, 7, String::new(), false));
}

#[test]
fn to_string_renders_all_parts() {
    assert_eq!(v(1, 2, 3, "", false).to_string(), "1.2.3");
    assert_eq!(v(0, 10, 0, "-rc1", true).to_string(), "0.10.0-rc1-SNAPSHOT");
    assert_eq!(v(12, 0, 105, "", true).to_string(), "12.0.105-SNAPSHOT");
}

#[test]
fn parse_of_to_string_round_trips() {
    for (a, b, c) in [(0, 0, 0), (1, 2, 3), (10, 200, 3000), (u64::MAX, 9, 90)] {
        let text = v(a, b, c, "", false).to_string();
        let parsed = Version::parse(&text).unwrap();
        assert_eq!(numbers(&parsed), (a, b, c, String::new(), false));
    }
}

#[test]
fn bump_major_resets_everything_else() {
    for snapshot in [false, true] {
        let mut version = v(1, 2, 3, "-x", snapshot);
        version.bump("major");
        assert_eq!(numbers(&version), (2, 0, 0, "-x".to_string(), false));
    }
}

#[test]
fn bump_minor_patch_snapshot() {
    let mut version = v(1, 2, 3, "", true);
    version.bump("minor");
    assert_eq!(numbers(&version), (1, 3, 0, String::new(), false));
    version.bump("snapshot");
    assert_eq!(numbers(&version), (1, 3, 1, String::new(), true));
    version.bump("patch");
    assert_eq!(numbers(&version), (1, 3, 2, String::new(), false));
}

#[test]
fn bump_unknown_type_changes_nothing() {
    for kind in ["unknown-type", "", "Major", "patch "] {
        let mut version = v(4, 5, 6, "-b", true);
        version.bump(kind);
        assert_eq!(numbers(&version), (4, 5, 6, "-b".to_string(), true));
    }
}

#[test]
fn parse_accepts_unicode_word_suffix() {
    for text in ["1.2.3-é", "1.2.3-βeta-SNAPSHOT", "1.2.3-版本"] {
        let parsed = Version::parse(text).unwrap();
        assert_eq!(numbers(&parsed), (1, 2, 3, String::new(), false), "{}", text);
    }
    assert!(Version::parse("1.2.3-a.b").is_none());
    assert!(Version::parse("1.2.3-€").is_none());
}

#[test]
fn parse_rejects_non_ascii_digits() {
    assert!(Version::parse("١.2.3").is_none());
    assert!(Version::parse("1.٢.3").is_none());
}
