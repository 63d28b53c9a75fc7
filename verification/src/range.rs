//! Version ranges and selectors: predicates over version numbers.
//!
//! A range is a list of comparator sets. A version satisfies a set when it
//! satisfies every comparator in it, and a range when it satisfies one of its
//! sets. A selector names one exact version, a range, or the latest version,
//! and says whether prereleases may be chosen.

use crate::order::Precedence;
use crate::version::{VersionNumber, VersionView};
use vstd::prelude::*;

verus! {

/// How a comparator relates a version to its bound.
#[derive(Clone, Copy, Debug, PartialEq, Eq, Structural)]
pub enum Operator {
    /// The version is the bound itself.
    Exact,
    /// The version sorts after the bound.
    Greater,
    /// The version does not sort before the bound.
    GreaterEq,
    /// The version sorts before the bound.
    Less,
    /// The version does not sort after the bound.
    LessEq,
}

/// One bound on a version, such as `>=1.2.0`.
#[derive(Debug)]
pub struct Comparator {
    pub op: Operator,
    pub version: VersionNumber,
}

/// What a [`Comparator`] stands for.
pub struct ComparatorView {
    pub op: Operator,
    pub version: VersionView,
}

impl View for Comparator {
    type V = ComparatorView;

    open spec fn view(&self) -> ComparatorView {
        ComparatorView { op: self.op, version: self.version@ }
    }
}

impl ComparatorView {
    /// Whether `v` meets the bound.
    pub open spec fn matches(self, v: VersionView) -> bool {
        match self.op {
            Operator::Exact => v == self.version,
            Operator::Greater => self.version.before(v),
            Operator::GreaterEq => !v.before(self.version),
            Operator::Less => v.before(self.version),
            Operator::LessEq => !self.version.before(v),
        }
    }
}

/// Whether `v` meets every comparator of `set`.
pub open spec fn set_matches(set: Seq<ComparatorView>, v: VersionView) -> bool {
    forall|i: int| 0 <= i < set.len() ==> (#[trigger] set[i]).matches(v)
}

/// Whether `v` meets every comparator of one of the sets of `range`.
pub open spec fn range_matches(range: Seq<Seq<ComparatorView>>, v: VersionView) -> bool {
    exists|k: int| 0 <= k < range.len() && set_matches(#[trigger] range[k], v)
}

/// Comparators that a version has to meet all at once.
#[derive(Debug)]
pub struct ComparatorSet {
    pub comparators: Vec<Comparator>,
}

impl View for ComparatorSet {
    type V = Seq<ComparatorView>;

    open spec fn view(&self) -> Seq<ComparatorView> {
        Seq::new(self.comparators@.len(), |i: int| self.comparators@[i]@)
    }
}

/// A predicate over versions: one or more comparator sets, of which a
/// version has to meet one.
#[derive(Debug)]
pub struct VersionRange {
    pub sets: Vec<ComparatorSet>,
}

impl View for VersionRange {
    type V = Seq<Seq<ComparatorView>>;

    open spec fn view(&self) -> Seq<Seq<ComparatorView>> {
        Seq::new(self.sets@.len(), |i: int| self.sets@[i]@)
    }
}

impl Comparator {
    /// The bound `op version`.
    pub fn new(op: Operator, version: VersionNumber) -> (c: Comparator)
        ensures
            c@ == (ComparatorView { op, version: version@ }),
    {
        Comparator { op, version }
    }

    /// Whether `v` meets the bound.
    pub fn matches(&self, v: &VersionNumber) -> (r: bool)
        ensures
            r == self@.matches(v@),
    {
        match self.op {
            Operator::Exact => v.equals(&self.version),
            Operator::Greater => self.version.precedes(v),
            Operator::GreaterEq => !v.precedes(&self.version),
            Operator::Less => v.precedes(&self.version),
            Operator::LessEq => !self.version.precedes(v),
        }
    }
}

impl Clone for Comparator {
    fn clone(&self) -> (r: Self)
        ensures
            r@ == self@,
    {
        Comparator { op: self.op, version: self.version.clone() }
    }
}

impl ComparatorSet {
    /// The set of the given comparators.
    pub fn new(comparators: Vec<Comparator>) -> (s: ComparatorSet)
        ensures
            s.comparators == comparators,
    {
        ComparatorSet { comparators }
    }

    /// Whether `v` meets every comparator of the set.
    pub fn matches(&self, v: &VersionNumber) -> (r: bool)
        ensures
            r == set_matches(self@, v@),
    {
        let mut i: usize = 0;
        while i < self.comparators.len()
            invariant
                i <= self.comparators.len(),
                forall|k: int| 0 <= k < i ==> (#[trigger] self@[k]).matches(v@),
            decreases self.comparators.len() - i,
        {
            if !self.comparators[i].matches(v) {
                assert(!self@[i as int].matches(v@));
                return false;
            }
            i += 1;
        }
        true
    }
}

impl Clone for ComparatorSet {
    fn clone(&self) -> (r: Self)
        ensures
            r@ == self@,
    {
        let mut comparators: Vec<Comparator> = Vec::new();
        let mut i: usize = 0;
        while i < self.comparators.len()
            invariant
                i <= self.comparators.len(),
                comparators.len() == i,
                forall|k: int| 0 <= k < i ==> comparators@[k]@ == self.comparators@[k]@,
            decreases self.comparators.len() - i,
        {
            comparators.push(self.comparators[i].clone());
            i += 1;
        }
        let r = ComparatorSet { comparators };
        assert(r@ =~= self@);
        r
    }
}

impl VersionRange {
    /// The range of the given comparator sets.
    pub fn new(sets: Vec<ComparatorSet>) -> (r: VersionRange)
        ensures
            r.sets == sets,
    {
        VersionRange { sets }
    }

    /// The range that every version satisfies.
    pub fn any() -> (r: VersionRange)
        ensures
            r@ == seq![Seq::<ComparatorView>::empty()],
            forall|v: VersionView| range_matches(r@, v),
    {
        let mut sets: Vec<ComparatorSet> = Vec::new();
        sets.push(ComparatorSet { comparators: Vec::new() });
        let r = VersionRange { sets };
        assert(r@[0] =~= Seq::<ComparatorView>::empty());
        assert(r@ =~= seq![Seq::<ComparatorView>::empty()]);
        assert forall|v: VersionView| range_matches(r@, v) by {
            assert(set_matches(r@[0], v));
        }
        r
    }

    /// The range that `version` alone satisfies.
    pub fn exactly(version: VersionNumber) -> (r: VersionRange)
        ensures
            r@ == seq![seq![ComparatorView { op: Operator::Exact, version: version@ }]],
            forall|v: VersionView| range_matches(r@, v) <==> v == version@,
    {
        let mut comparators: Vec<Comparator> = Vec::new();
        comparators.push(Comparator { op: Operator::Exact, version });
        let mut sets: Vec<ComparatorSet> = Vec::new();
        sets.push(ComparatorSet { comparators });
        let r = VersionRange { sets };
        let ghost c = ComparatorView { op: Operator::Exact, version: version@ };
        assert(r@[0] =~= seq![c]);
        assert(r@ =~= seq![seq![c]]);
        assert forall|v: VersionView| range_matches(r@, v) <==> v == version@ by {
            if v == version@ {
                assert(set_matches(r@[0], v));
            }
            if range_matches(r@, v) {
                let k = choose|k: int| 0 <= k < r@.len() && set_matches(#[trigger] r@[k], v);
                assert(r@[k][0].matches(v));
            }
        }
        r
    }

    /// Whether `v` satisfies the range.
    pub fn matches(&self, v: &VersionNumber) -> (r: bool)
        ensures
            r == range_matches(self@, v@),
    {
        let mut i: usize = 0;
        while i < self.sets.len()
            invariant
                i <= self.sets.len(),
                forall|k: int| 0 <= k < i ==> !set_matches(#[trigger] self@[k], v@),
            decreases self.sets.len() - i,
        {
            if self.sets[i].matches(v) {
                assert(set_matches(self@[i as int], v@));
                return true;
            }
            i += 1;
        }
        false
    }
}

impl Clone for VersionRange {
    fn clone(&self) -> (r: Self)
        ensures
            r@ == self@,
    {
        let mut sets: Vec<ComparatorSet> = Vec::new();
        let mut i: usize = 0;
        while i < self.sets.len()
            invariant
                i <= self.sets.len(),
                sets.len() == i,
                forall|k: int| 0 <= k < i ==> sets@[k]@ == self.sets@[k]@,
            decreases self.sets.len() - i,
        {
            sets.push(self.sets[i].clone());
            i += 1;
        }
        let r = VersionRange { sets };
        assert(r@ =~= self@);
        r
    }
}

/// Which versions a selector names, apart from its prerelease rule.
#[derive(Debug)]
pub enum SelectorKind {
    /// The one given version.
    Exact(VersionNumber),
    /// The versions that satisfy the range.
    Range(VersionRange),
    /// Any version.
    Latest,
}

/// What a [`SelectorKind`] stands for.
pub enum SelectorKindView {
    Exact(VersionView),
    Range(Seq<Seq<ComparatorView>>),
    Latest,
}

impl View for SelectorKind {
    type V = SelectorKindView;

    open spec fn view(&self) -> SelectorKindView {
        match self {
            SelectorKind::Exact(v) => SelectorKindView::Exact(v@),
            SelectorKind::Range(r) => SelectorKindView::Range(r@),
            SelectorKind::Latest => SelectorKindView::Latest,
        }
    }
}

/// A choice of versions of one package.
#[derive(Debug)]
pub struct VersionSelector {
    pub kind: SelectorKind,
    /// Whether a prerelease may be chosen. An exact selector names its
    /// version whatever this says.
    pub include_prerelease: bool,
}

/// What a [`VersionSelector`] stands for.
pub struct SelectorView {
    pub kind: SelectorKindView,
    pub include_prerelease: bool,
}

impl View for VersionSelector {
    type V = SelectorView;

    open spec fn view(&self) -> SelectorView {
        SelectorView { kind: self.kind@, include_prerelease: self.include_prerelease }
    }
}

impl SelectorView {
    /// Whether the selector names `v`.
    pub open spec fn matches(self, v: VersionView) -> bool {
        match self.kind {
            SelectorKindView::Exact(e) => v == e,
            SelectorKindView::Range(r) => range_matches(r, v) && (!v.is_prerelease()
                || self.include_prerelease),
            SelectorKindView::Latest => !v.is_prerelease() || self.include_prerelease,
        }
    }

    /// The selector as a range, without its prerelease rule.
    pub open spec fn as_range(self) -> Seq<Seq<ComparatorView>> {
        match self.kind {
            SelectorKindView::Exact(e) => seq![seq![ComparatorView { op: Operator::Exact, version: e }]],
            SelectorKindView::Range(r) => r,
            SelectorKindView::Latest => seq![Seq::<ComparatorView>::empty()],
        }
    }

    /// Whether `i` is the candidate to pick from `candidates`: the first of
    /// those that the selector names and that no other such candidate sorts
    /// after.
    pub open spec fn picks(self, candidates: Seq<VersionView>, i: int) -> bool {
        &&& 0 <= i < candidates.len()
        &&& self.matches(candidates[i])
        &&& forall|j: int|
            0 <= j < candidates.len() && self.matches(#[trigger] candidates[j])
                ==> !candidates[i].before(candidates[j])
        &&& forall|j: int|
            0 <= j < i && self.matches(#[trigger] candidates[j]) ==> candidates[j].before(
                candidates[i],
            )
    }
}

/// The views of a list of versions, in order.
pub open spec fn version_views(versions: Seq<VersionNumber>) -> Seq<VersionView> {
    Seq::new(versions.len(), |i: int| versions[i]@)
}

/// At most one candidate is the one to pick.
pub proof fn lemma_pick_unique(s: SelectorView, candidates: Seq<VersionView>, i: int, j: int)
    requires
        s.picks(candidates, i),
        s.picks(candidates, j),
    ensures
        i == j,
{
    if i < j {
        assert(candidates[i].before(candidates[j]));
    } else if j < i {
        assert(candidates[j].before(candidates[i]));
    }
}

impl VersionSelector {
    /// The selector that names `version` and nothing else.
    pub fn exact(version: VersionNumber) -> (s: VersionSelector)
        ensures
            s@ == (SelectorView {
                kind: SelectorKindView::Exact(version@),
                include_prerelease: false,
            }),
    {
        VersionSelector { kind: SelectorKind::Exact(version), include_prerelease: false }
    }

    /// The selector that names the versions in `range`.
    pub fn range(range: VersionRange, include_prerelease: bool) -> (s: VersionSelector)
        ensures
            s@ == (SelectorView { kind: SelectorKindView::Range(range@), include_prerelease }),
    {
        VersionSelector { kind: SelectorKind::Range(range), include_prerelease }
    }

    /// The selector that names every version.
    pub fn latest(include_prerelease: bool) -> (s: VersionSelector)
        ensures
            s@ == (SelectorView { kind: SelectorKindView::Latest, include_prerelease }),
    {
        VersionSelector { kind: SelectorKind::Latest, include_prerelease }
    }

    /// Whether the selector names `v`.
    pub fn matches(&self, v: &VersionNumber) -> (r: bool)
        ensures
            r == self@.matches(v@),
    {
        match &self.kind {
            SelectorKind::Exact(e) => v.equals(e),
            SelectorKind::Range(range) => range.matches(v) && (!v.is_prerelease()
                || self.include_prerelease),
            SelectorKind::Latest => !v.is_prerelease() || self.include_prerelease,
        }
    }

    /// The selector as a range, without its prerelease rule.
    pub fn to_range(&self) -> (r: VersionRange)
        ensures
            r@ == self@.as_range(),
    {
        match &self.kind {
            SelectorKind::Exact(e) => VersionRange::exactly(e.clone()),
            SelectorKind::Range(range) => range.clone(),
            SelectorKind::Latest => VersionRange::any(),
        }
    }

    /// Picks among `candidates` the greatest version that the selector
    /// names, and of several equal ones the first. `None` when it names none
    /// of them.
    pub fn pick(&self, candidates: &Vec<VersionNumber>) -> (r: Option<usize>)
        ensures
            match r {
                Some(i) => self@.picks(version_views(candidates@), i as int),
                None => forall|j: int|
                    0 <= j < candidates.len() ==> !self@.matches(#[trigger] candidates@[j]@),
            },
    {
        let ghost cs = version_views(candidates@);
        let mut best: Option<usize> = None;
        let mut i: usize = 0;
        while i < candidates.len()
            invariant
                i <= candidates.len(),
                cs == version_views(candidates@),
                match best {
                    Some(b) => {
                        &&& b < i
                        &&& self@.matches(cs[b as int])
                        &&& forall|j: int|
                            0 <= j < i && self@.matches(#[trigger] cs[j]) ==> !cs[b as int].before(
                                cs[j],
                            )
                        &&& forall|j: int|
                            0 <= j < b && self@.matches(#[trigger] cs[j]) ==> cs[j].before(
                                cs[b as int],
                            )
                    },
                    None => forall|j: int| 0 <= j < i ==> !self@.matches(#[trigger] cs[j]),
                },
            decreases candidates.len() - i,
        {
            if self.matches(&candidates[i]) {
                match best {
                    None => {
                        proof {
                            VersionView::lemma_irreflexive(cs[i as int]);
                        }
                        best = Some(i);
                    },
                    Some(b) => {
                        if candidates[b].precedes(&candidates[i]) {
                            proof {
                                let old_best = cs[b as int];
                                let new_best = cs[i as int];
                                VersionView::lemma_irreflexive(new_best);
                                assert forall|j: int|
                                    0 <= j < i + 1 && self@.matches(
                                        #[trigger] cs[j],
                                    ) implies !new_best.before(cs[j]) by {
                                    if new_best.before(cs[j]) {
                                        VersionView::lemma_transitive(old_best, new_best, cs[j]);
                                    }
                                }
                                assert forall|j: int|
                                    0 <= j < i && self@.matches(
                                        #[trigger] cs[j],
                                    ) implies cs[j].before(new_best) by {
                                    VersionView::lemma_total(cs[j], old_best);
                                    if cs[j].before(old_best) {
                                        VersionView::lemma_transitive(cs[j], old_best, new_best);
                                    }
                                }
                            }
                            best = Some(i);
                        }
                    },
                }
            }
            i += 1;
        }
        proof {
            if best is None {
                assert forall|j: int| 0 <= j < candidates.len() implies !self@.matches(
                    #[trigger] candidates@[j]@,
                ) by {
                    assert(cs[j] == candidates@[j]@);
                }
            }
        }
        best
    }
}

} // verus!

verus! {

impl Clone for VersionSelector {
    fn clone(&self) -> (r: Self)
        ensures
            r@ == self@,
    {
        let kind = match &self.kind {
            SelectorKind::Exact(v) => SelectorKind::Exact(v.clone()),
            SelectorKind::Range(range) => SelectorKind::Range(range.clone()),
            SelectorKind::Latest => SelectorKind::Latest,
        };
        VersionSelector { kind, include_prerelease: self.include_prerelease }
    }
}

} // verus!
