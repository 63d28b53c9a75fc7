use vpai::parse::chars_of;
use vpai::range::{Operator, VersionRange};
use vpai::version::{Identifier, VersionNumber};

#[test]
fn versions_are_read_as_they_are_written() {
    for text in [
        "0.0.0",
        "1.2.3",
        "10.20.30",
        "18446744073709551615.0.1",
        "1.0.0-alpha",
        "1.0.0-alpha.1",
        "1.0.0-0.3.7",
        "1.0.0-x.7.z.92",
        "1.0.0-x-y-z.--",
        "1.0.0-alpha+001",
        "1.0.0+20130313144700",
        "1.0.0-beta+exp.sha.5114f85",
        "1.0.0+21AF26D3----117B344092BD",
        "1.0.0-0A.is.legal",
        "1.0.0-00a",
    ] {
        let version = VersionNumber::parse(text).unwrap_or_else(|| panic!("{} was not read", text));
        assert_eq!(version.to_text(), text);
    }
}

#[test]
fn a_version_is_read_into_its_parts() {
    let v = VersionNumber::parse("1.22.333-rc.4.x-1+b.5").unwrap();
    assert_eq!((v.major, v.minor, v.patch), (1, 22, 333));
    assert_eq!(v.pre.len(), 3);
    assert!(v.pre[0].equals(&Identifier::Text(b"rc".to_vec())));
    assert!(v.pre[1].equals(&Identifier::Numeric(4)));
    assert!(v.pre[2].equals(&Identifier::Text(b"x-1".to_vec())));
    assert_eq!(v.build, b"b.5".to_vec());
    let plain = VersionNumber::parse("4.5.6").unwrap();
    assert!(plain.equals(&VersionNumber::new(4, 5, 6)));
    assert!(plain.pre.is_empty() && plain.build.is_empty());
}

#[test]
fn what_is_no_version_is_not_read() {
    for text in [
        "",
        "1",
        "1.2",
        "1.2.",
        "1.2.3.",
        "1.2.3.4",
        ".1.2.3",
        "a.b.c",
        "01.2.3",
        "1.02.3",
        "1.2.03",
        "1.2.3-",
        "1.2.3-.",
        "1.2.3-a.",
        "1.2.3-a..b",
        "1.2.3-01",
        "1.2.3-a_b",
        "1.2.3+",
        "1.2.3+a+b",
        "1.2.3+a b",
        "1.2.3 ",
        " 1.2.3",
        "1.2.3-é",
        "18446744073709551616.0.0",
        "1.99999999999999999999.0",
        "1.2.3-18446744073709551616",
        "v1.2.3",
        "1..3",
        "-1.2.3",
        "+1.2.3",
    ] {
        assert!(VersionNumber::parse(text).is_none(), "{:?} was read as a version", text);
    }
}

#[test]
fn ranges_are_read_as_they_are_written() {
    for text in [
        "",
        "*",
        "=1.2.3",
        ">1.0.0",
        ">=1.0.0 <2.0.0",
        ">=1.0.0 <2.0.0 || =3.1.4",
        "<=1.0.0-rc.1 || * || >9.9.9+build",
        "* || *",
    ] {
        let range = VersionRange::parse(text).unwrap_or_else(|| panic!("{:?} was not read", text));
        assert_eq!(range.to_text(), text);
    }
    // a version without an operator is that version exactly
    assert_eq!(VersionRange::parse("1.2.3").unwrap().to_text(), "=1.2.3");
}

#[test]
fn a_range_is_read_into_its_parts() {
    let range = VersionRange::parse(">=1.0.0 <2.0.0 || 3.0.0").unwrap();
    assert_eq!(range.sets.len(), 2);
    assert_eq!(range.sets[0].comparators.len(), 2);
    assert_eq!(range.sets[0].comparators[0].op, Operator::GreaterEq);
    assert_eq!(range.sets[0].comparators[1].op, Operator::Less);
    assert_eq!(range.sets[1].comparators[0].op, Operator::Exact);
    assert!(range.matches(&VersionNumber::new(1, 5, 0)));
    assert!(range.matches(&VersionNumber::new(3, 0, 0)));
    assert!(!range.matches(&VersionNumber::new(2, 5, 0)));
    assert!(VersionRange::parse("").unwrap().sets.is_empty());
    assert!(VersionRange::parse("*").unwrap().sets[0].comparators.is_empty());
}

#[test]
fn what_is_no_range_is_not_read() {
    for text in [
        " ",
        ">=",
        ">=1.0",
        ">= 1.0.0",
        ">=1.0.0  <2.0.0",
        ">=1.0.0 ",
        " >=1.0.0",
        ">=1.0.0 ||",
        ">=1.0.0 || ",
        " || >=1.0.0",
        ">=1.0.0||<2.0.0",
        "=>1.0.0",
        "==1.0.0",
        "<>1.0.0",
        "~1.0.0",
        "^1.0.0",
        "**",
        "* *",
        "1.0.0 *",
    ] {
        assert!(VersionRange::parse(text).is_none(), "{:?} was read as a range", text);
    }
}

#[test]
fn the_characters_of_a_text() {
    assert_eq!(chars_of("a-é"), vec!['a', '-', 'é']);
    assert!(chars_of("").is_empty());
}
