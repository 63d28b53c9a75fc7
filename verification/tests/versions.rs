use vpai::version::{bytes_before, bytes_copy, bytes_equal, Identifier, VersionNumber};

fn text(s: &str) -> Identifier {
    Identifier::Text(s.as_bytes().to_vec())
}

#[test]
fn release_sorts_after_prerelease() {
    let release = VersionNumber::new(1, 2, 3);
    let pre = VersionNumber::new(1, 2, 3).with_prerelease(vec![text("alpha")]);
    assert!(pre.precedes(&release));
    assert!(!release.precedes(&pre));
    assert!(pre.is_prerelease());
    assert!(!release.is_prerelease());
}

#[test]
fn release_after_prerelease_whatever_the_tag() {
    let release = VersionNumber::new(0, 0, 0);
    let tags: Vec<Vec<Identifier>> = vec![
        vec![Identifier::Numeric(0)],
        vec![Identifier::Numeric(u64::MAX)],
        vec![text("zzzz"), Identifier::Numeric(9), text("z")],
    ];
    for tag in tags {
        let pre = VersionNumber::new(0, 0, 0).with_prerelease(tag);
        assert!(pre.precedes(&release));
        assert!(!release.precedes(&pre));
    }
}

#[test]
fn triple_decides_first() {
    let a = VersionNumber::new(1, 9, 9);
    let b = VersionNumber::new(2, 0, 0).with_prerelease(vec![text("alpha")]);
    assert!(a.precedes(&b));
    assert!(!b.precedes(&a));
    assert!(VersionNumber::new(1, 2, 3).precedes(&VersionNumber::new(1, 2, 4)));
    assert!(VersionNumber::new(1, 2, 9).precedes(&VersionNumber::new(1, 3, 0)));
    assert!(!VersionNumber::new(1, 3, 0).precedes(&VersionNumber::new(1, 2, 9)));
}

#[test]
fn prerelease_tags_in_order_of_precedence() {
    // 1.0.0-alpha < 1.0.0-alpha.1 < 1.0.0-alpha.beta < 1.0.0-beta < 1.0.0-beta.2
    // < 1.0.0-beta.11 < 1.0.0-rc.1 < 1.0.0
    let chain: Vec<VersionNumber> = vec![
        VersionNumber::new(1, 0, 0).with_prerelease(vec![text("alpha")]),
        VersionNumber::new(1, 0, 0).with_prerelease(vec![text("alpha"), Identifier::Numeric(1)]),
        VersionNumber::new(1, 0, 0).with_prerelease(vec![text("alpha"), text("beta")]),
        VersionNumber::new(1, 0, 0).with_prerelease(vec![text("beta")]),
        VersionNumber::new(1, 0, 0).with_prerelease(vec![text("beta"), Identifier::Numeric(2)]),
        VersionNumber::new(1, 0, 0).with_prerelease(vec![text("beta"), Identifier::Numeric(11)]),
        VersionNumber::new(1, 0, 0).with_prerelease(vec![text("rc"), Identifier::Numeric(1)]),
        VersionNumber::new(1, 0, 0),
    ];
    for i in 0..chain.len() {
        for j in 0..chain.len() {
            assert_eq!(chain[i].precedes(&chain[j]), i < j, "{} against {}", i, j);
            assert_eq!(chain[i].equals(&chain[j]), i == j);
        }
    }
}

#[test]
fn build_metadata_breaks_ties() {
    let plain = VersionNumber::new(1, 0, 0);
    let a = VersionNumber::new(1, 0, 0).with_build(b"a".to_vec());
    let b = VersionNumber::new(1, 0, 0).with_build(b"b".to_vec());
    assert!(plain.precedes(&a));
    assert!(a.precedes(&b));
    assert!(!b.precedes(&a));
    assert!(!a.equals(&plain));
    assert!(a.equals(&VersionNumber::new(1, 0, 0).with_build(b"a".to_vec())));
}

#[test]
fn nothing_precedes_itself() {
    let v = VersionNumber::new(3, 1, 4).with_prerelease(vec![text("x"), Identifier::Numeric(7)]);
    assert!(!v.precedes(&v));
    assert!(v.equals(&v.clone()));
    assert!(!v.clone().precedes(&v));
}

#[test]
fn identifiers_numbers_before_text() {
    assert!(Identifier::Numeric(999).precedes(&text("0a")));
    assert!(!text("0a").precedes(&Identifier::Numeric(999)));
    assert!(Identifier::Numeric(2).precedes(&Identifier::Numeric(11)));
    assert!(text("11").precedes(&text("2")));
    assert!(text("a").equals(&text("a")));
    assert!(!text("a").equals(&Identifier::Numeric(1)));
}

#[test]
fn bytes_are_ordered_like_words() {
    assert!(bytes_before(&b"".to_vec(), &b"a".to_vec()));
    assert!(bytes_before(&b"ab".to_vec(), &b"abc".to_vec()));
    assert!(bytes_before(&b"abc".to_vec(), &b"abd".to_vec()));
    assert!(!bytes_before(&b"abd".to_vec(), &b"abc".to_vec()));
    assert!(!bytes_before(&b"abc".to_vec(), &b"abc".to_vec()));
    assert!(!bytes_before(&b"".to_vec(), &b"".to_vec()));
    assert!(bytes_equal(&b"abc".to_vec(), &b"abc".to_vec()));
    assert!(!bytes_equal(&b"abc".to_vec(), &b"ab".to_vec()));
    assert!(!bytes_equal(&b"abc".to_vec(), &b"abd".to_vec()));
    assert_eq!(bytes_copy(&b"xyz".to_vec()), b"xyz".to_vec());
}

#[test]
fn version_text_is_written_in_full() {
    assert_eq!(VersionNumber::new(1, 2, 3).to_text(), "1.2.3");
    assert_eq!(VersionNumber::new(0, 0, 0).to_text(), "0.0.0");
    assert_eq!(VersionNumber::new(10, 200, 3000).to_text(), "10.200.3000");
    assert_eq!(
        VersionNumber::new(u64::MAX, 0, 1).to_text(),
        "18446744073709551615.0.1"
    );
    let full = VersionNumber::new(1, 0, 0)
        .with_prerelease(vec![text("alpha"), Identifier::Numeric(12), text("x-y")])
        .with_build(b"build.5".to_vec());
    assert_eq!(full.to_text(), "1.0.0-alpha.12.x-y+build.5");
    let mut out = String::from("v");
    VersionNumber::new(4, 5, 6).push_text(&mut out);
    assert_eq!(out, "v4.5.6");
}
