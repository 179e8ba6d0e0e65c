use pacman_dl::parse::{
    parse_depends, parse_pkgname_pkgver, parse_provides, partition, rpartition, ParseError,
};
use pacman_dl::version::{parse_number, Constraint, Version, VersionConstraint};

fn some_constraint(version: Version, constraint: Constraint) -> Option<VersionConstraint> {
    Some(VersionConstraint { version, constraint })
}

#[test]
fn test_parse_provides() {
    assert!(parse_provides("aap") == ("aap", None));
    assert!(parse_provides("aap=1") == ("aap", Some(Version::new(0, "1", None))));
    assert!(parse_provides("aap=1=2") == ("aap", Some(Version::new(0, "1=2", None))));
    assert!(parse_provides("aap=") == ("aap", Some(Version::new(0, "", None))));
    assert!(parse_provides("=1") == ("", Some(Version::new(0, "1", None))));
}

#[test]
fn test_parse_depends() {
    // No constraint.
    assert!(parse_depends("aap") == ("aap", None));

    // Simple constraints.
    assert!(parse_depends("aap=1") == ("aap", some_constraint(Version::from_str("1"), Constraint::Equal)));
    assert!(parse_depends("aap==2") == ("aap", some_constraint(Version::from_str("2"), Constraint::Equal)));
    assert!(parse_depends("aap>=3") == ("aap", some_constraint(Version::from_str("3"), Constraint::GreaterEqual)));
    assert!(parse_depends("aap<=4") == ("aap", some_constraint(Version::from_str("4"), Constraint::LessEqual)));
    assert!(parse_depends("aap>5") == ("aap", some_constraint(Version::from_str("5"), Constraint::Greater)));
    assert!(parse_depends("aap<6") == ("aap", some_constraint(Version::from_str("6"), Constraint::Less)));

    // Strange cases.
    assert!(parse_depends("aap=1=2") == ("aap", some_constraint(Version::from_str("1=2"), Constraint::Equal)));
    assert!(parse_depends("aap=") == ("aap", some_constraint(Version::from_str(""), Constraint::Equal)));
    assert!(parse_depends("=1") == ("", some_constraint(Version::from_str("1"), Constraint::Equal)));

    // More complicated version.
    assert!(parse_depends("aap=1.2-3") == ("aap", some_constraint(Version::new(0, "1.2", Some("3")), Constraint::Equal)));
    assert!(parse_depends("aap=:1.2-3") == ("aap", some_constraint(Version::new(0, "1.2", Some("3")), Constraint::Equal)));
    assert!(parse_depends("aap=5:1.2-3") == ("aap", some_constraint(Version::new(5, "1.2", Some("3")), Constraint::Equal)));
}

#[test]
fn depends_with_greater_equal_constraint() {
    let (name, constraint) = parse_depends("foo>=1.2-3");
    assert_eq!(name, "foo");
    let constraint = constraint.unwrap();
    assert_eq!(constraint.constraint, Constraint::GreaterEqual);
    assert_eq!(constraint.version.epoch, 0);
    assert_eq!(constraint.version.pkgver, "1.2");
    assert_eq!(constraint.version.pkgrel, Some("3".to_string()));
    assert_eq!(parse_depends("foo"), ("foo", None));
}

#[test]
fn provides_with_epoch() {
    let (name, version) = parse_provides("foo=5:1.0");
    assert_eq!(name, "foo");
    let version = version.unwrap();
    assert_eq!(version.epoch, 5);
    assert_eq!(version.pkgver, "1.0");
    assert_eq!(version.pkgrel, None);
}

#[test]
fn partition_splits_at_first_occurrence() {
    assert_eq!(partition("a=b=c", '='), Some(("a", "b=c")));
    assert_eq!(partition("abc", '='), None);
    assert_eq!(partition("=", '='), Some(("", "")));
    assert_eq!(partition("é=ü", '='), Some(("é", "ü")));
}

#[test]
fn rpartition_splits_at_last_occurrence() {
    assert_eq!(rpartition("a/b/c", '/'), Some(("a/b", "c")));
    assert_eq!(rpartition("abc", '/'), None);
    assert_eq!(rpartition("/core.db", '/'), Some(("", "core.db")));
}

#[test]
fn pkgname_pkgver_splits_at_the_last_two_dashes() {
    let (name, version) = parse_pkgname_pkgver("foo-bar-1.0-2").unwrap();
    assert_eq!(name, "foo-bar");
    assert_eq!(version, Version::new(0, "1.0", Some("2")));
    let (name, version) = parse_pkgname_pkgver("foo-3:2.1-1").unwrap();
    assert_eq!(name, "foo");
    assert_eq!(version, Version::new(3, "2.1", Some("1")));
}

#[test]
fn pkgname_pkgver_errors() {
    assert_eq!(parse_pkgname_pkgver("foo"), Err(ParseError::MissingPkgver));
    assert_eq!(parse_pkgname_pkgver("foo-1"), Err(ParseError::MissingPkgrel));
    assert_eq!(parse_pkgname_pkgver("foo-x:1-2"), Err(ParseError::InvalidEpoch));
    assert_eq!(parse_pkgname_pkgver("foo-:1-2"), Err(ParseError::InvalidEpoch));
}

#[test]
fn version_from_str_parts() {
    assert_eq!(Version::from_str("5:1.0"), Version::new(5, "1.0", None));
    assert_eq!(Version::from_str("1.0-1-2"), Version::new(0, "1.0-1", Some("2")));
    assert_eq!(Version::from_str("x:1.0"), Version::new(0, "x:1.0", None));
    assert_eq!(Version::from_str(""), Version::new(0, "", None));
}

#[test]
fn numbers_parse_and_overflow() {
    assert_eq!(parse_number(""), Some(0));
    assert_eq!(parse_number("0042"), Some(42));
    assert_eq!(parse_number("18446744073709551615"), Some(u64::MAX));
    assert_eq!(parse_number("18446744073709551616"), None);
    assert_eq!(parse_number("1a"), None);
}
