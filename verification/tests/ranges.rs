use vpai::range::{
    Comparator, ComparatorSet, Operator, SelectorKind, VersionRange, VersionSelector,
};
use vpai::version::{Identifier, VersionNumber};

fn v(major: u64, minor: u64, patch: u64) -> VersionNumber {
    VersionNumber::new(major, minor, patch)
}

fn pre(major: u64, minor: u64, patch: u64, tag: &str) -> VersionNumber {
    v(major, minor, patch).with_prerelease(vec![Identifier::Text(tag.as_bytes().to_vec())])
}

fn between(low: VersionNumber, high: VersionNumber) -> VersionRange {
    VersionRange::new(vec![ComparatorSet::new(vec![
        Comparator::new(Operator::GreaterEq, low),
        Comparator::new(Operator::Less, high),
    ])])
}

#[test]
fn comparators_bound_versions() {
    let bound = v(1, 2, 0);
    let cases: Vec<(Operator, [bool; 3])> = vec![
        (Operator::Exact, [false, true, false]),
        (Operator::Greater, [false, false, true]),
        (Operator::GreaterEq, [false, true, true]),
        (Operator::Less, [true, false, false]),
        (Operator::LessEq, [true, true, false]),
    ];
    let probes = [v(1, 1, 9), v(1, 2, 0), v(1, 2, 1)];
    for (op, expected) in cases {
        let c = Comparator::new(op, bound.clone());
        for k in 0..3 {
            assert_eq!(c.matches(&probes[k]), expected[k], "{:?} on probe {}", op, k);
        }
    }
}

#[test]
fn exact_comparator_tells_build_metadata_apart() {
    let c = Comparator::new(Operator::Exact, v(1, 0, 0));
    assert!(c.matches(&v(1, 0, 0)));
    assert!(!c.matches(&v(1, 0, 0).with_build(b"x".to_vec())));
}

#[test]
fn a_set_asks_for_all_and_a_range_for_one() {
    let range = VersionRange::new(vec![
        ComparatorSet::new(vec![
            Comparator::new(Operator::GreaterEq, v(1, 0, 0)),
            Comparator::new(Operator::Less, v(2, 0, 0)),
        ]),
        ComparatorSet::new(vec![Comparator::new(Operator::Exact, v(3, 1, 4))]),
    ]);
    assert!(range.matches(&v(1, 0, 0)));
    assert!(range.matches(&v(1, 9, 9)));
    assert!(!range.matches(&v(2, 0, 0)));
    assert!(!range.matches(&v(0, 9, 9)));
    assert!(range.matches(&v(3, 1, 4)));
    assert!(!range.matches(&v(3, 1, 5)));
    assert!(range.sets[0].matches(&v(1, 5, 0)));
    assert!(!range.sets[1].matches(&v(1, 5, 0)));
}

#[test]
fn a_range_without_sets_matches_nothing_and_an_empty_set_everything() {
    let none = VersionRange::new(vec![]);
    assert!(!none.matches(&v(1, 0, 0)));
    let any = VersionRange::any();
    assert!(any.matches(&v(0, 0, 0)));
    assert!(any.matches(&pre(9, 9, 9, "rc")));
    let one = VersionRange::exactly(v(1, 2, 3));
    assert!(one.matches(&v(1, 2, 3)));
    assert!(!one.matches(&v(1, 2, 4)));
}

#[test]
fn selector_exact_matches_the_identical_version_only() {
    let s = VersionSelector::exact(pre(1, 0, 0, "beta"));
    assert!(s.matches(&pre(1, 0, 0, "beta")));
    assert!(!s.matches(&pre(1, 0, 0, "alpha")));
    assert!(!s.matches(&v(1, 0, 0)));
    assert!(!s.include_prerelease);
}

#[test]
fn selector_range_takes_prereleases_only_when_told_to() {
    let without = VersionSelector::range(between(v(1, 0, 0), v(2, 0, 0)), false);
    let with = VersionSelector::range(between(v(1, 0, 0), v(2, 0, 0)), true);
    assert!(without.matches(&v(1, 5, 0)));
    assert!(!without.matches(&pre(1, 5, 0, "beta")));
    assert!(with.matches(&pre(1, 5, 0, "beta")));
    assert!(!with.matches(&pre(2, 5, 0, "beta")));
    assert!(!with.matches(&v(2, 0, 0)));
}

#[test]
fn selector_latest_matches_any_version() {
    let without = VersionSelector::latest(false);
    let with = VersionSelector::latest(true);
    assert!(without.matches(&v(0, 0, 1)));
    assert!(!without.matches(&pre(0, 0, 1, "x")));
    assert!(with.matches(&pre(0, 0, 1, "x")));
}

#[test]
fn pick_takes_the_greatest_that_matches() {
    let s = VersionSelector::range(between(v(1, 0, 0), v(2, 0, 0)), false);
    let candidates = vec![v(1, 0, 0), v(2, 1, 0), v(1, 2, 0), pre(1, 9, 0, "rc"), v(1, 1, 0)];
    assert_eq!(s.pick(&candidates), Some(2));
    let with = VersionSelector::range(between(v(1, 0, 0), v(2, 0, 0)), true);
    assert_eq!(with.pick(&candidates), Some(3));
    assert_eq!(VersionSelector::latest(false).pick(&candidates), Some(1));
}

#[test]
fn pick_of_equal_versions_takes_the_first() {
    let candidates = vec![v(1, 0, 0), v(1, 2, 0), v(1, 2, 0), v(1, 1, 0), v(1, 2, 0)];
    assert_eq!(VersionSelector::latest(false).pick(&candidates), Some(1));
}

#[test]
fn pick_finds_nothing_where_nothing_matches() {
    let s = VersionSelector::exact(v(5, 0, 0));
    assert_eq!(s.pick(&vec![v(1, 0, 0), v(4, 9, 9)]), None);
    assert_eq!(s.pick(&vec![]), None);
    assert_eq!(VersionSelector::latest(false).pick(&vec![pre(1, 0, 0, "a")]), None);
}

#[test]
fn a_selector_as_a_range() {
    let exact = VersionSelector::exact(v(1, 2, 3)).to_range();
    assert!(exact.matches(&v(1, 2, 3)));
    assert!(!exact.matches(&v(1, 2, 4)));
    assert_eq!(exact.to_text(), "=1.2.3");
    let latest = VersionSelector::latest(true).to_range();
    assert!(latest.matches(&v(7, 7, 7)));
    assert_eq!(latest.to_text(), "*");
    let range = VersionSelector::range(between(v(1, 0, 0), v(2, 0, 0)), false).to_range();
    assert_eq!(range.to_text(), ">=1.0.0 <2.0.0");
    let copy = VersionSelector::range(between(v(1, 0, 0), v(2, 0, 0)), true).clone();
    assert!(copy.include_prerelease);
    assert!(matches!(copy.kind, SelectorKind::Range(_)));
}

#[test]
fn range_text_is_written_in_full() {
    let range = VersionRange::new(vec![
        ComparatorSet::new(vec![
            Comparator::new(Operator::Greater, v(1, 0, 0)),
            Comparator::new(Operator::LessEq, pre(2, 0, 0, "rc")),
        ]),
        ComparatorSet::new(vec![]),
        ComparatorSet::new(vec![Comparator::new(Operator::Exact, v(3, 0, 0))]),
    ]);
    assert_eq!(range.to_text(), ">1.0.0 <=2.0.0-rc || * || =3.0.0");
    assert_eq!(VersionRange::new(vec![]).to_text(), "");
    assert_eq!(range.clone().to_text(), range.to_text());
}
