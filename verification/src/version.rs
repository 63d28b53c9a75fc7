//! Version numbers and their total order.
//!
//! A version is a triple of numbers, an optional list of prerelease
//! identifiers and optional build metadata. Versions are ordered by the
//! triple first. At an equal triple a release sorts after every prerelease,
//! and two prereleases are ordered identifier by identifier: numbers by
//! value, text bytewise, a number before text, a shorter list before a longer
//! one that it starts. Build metadata is the last tie-break, bytewise, so that
//! two different versions are never tied.

use crate::order::{
    lemma_seq_asymmetric, lemma_seq_irreflexive, lemma_seq_total, lemma_seq_transitive, same_tail,
    seq_before, Precedence,
};
use vstd::prelude::*;

verus! {

/// One dot-separated part of a prerelease tag.
#[derive(Debug)]
pub enum Identifier {
    Numeric(u64),
    Text(Vec<u8>),
}

/// What an [`Identifier`] stands for.
pub enum IdentifierView {
    Numeric(u64),
    Text(Seq<u8>),
}

impl View for Identifier {
    type V = IdentifierView;

    open spec fn view(&self) -> IdentifierView {
        match self {
            Identifier::Numeric(n) => IdentifierView::Numeric(*n),
            Identifier::Text(t) => IdentifierView::Text(t@),
        }
    }
}

impl Precedence for IdentifierView {
    open spec fn before(self, other: Self) -> bool {
        match (self, other) {
            (IdentifierView::Numeric(x), IdentifierView::Numeric(y)) => x < y,
            (IdentifierView::Numeric(_), IdentifierView::Text(_)) => true,
            (IdentifierView::Text(_), IdentifierView::Numeric(_)) => false,
            (IdentifierView::Text(x), IdentifierView::Text(y)) => seq_before(x, y, 0),
        }
    }

    proof fn lemma_irreflexive(a: Self) {
        if let IdentifierView::Text(x) = a {
            lemma_seq_irreflexive(x, 0);
        }
    }

    proof fn lemma_transitive(a: Self, b: Self, c: Self) {
        if let (IdentifierView::Text(x), IdentifierView::Text(y), IdentifierView::Text(z)) = (
            a,
            b,
            c,
        ) {
            lemma_seq_transitive(x, y, z, 0);
        }
    }

    proof fn lemma_total(a: Self, b: Self) {
        if let (IdentifierView::Text(x), IdentifierView::Text(y)) = (a, b) {
            lemma_seq_total(x, y, 0);
            if same_tail(x, y, 0) {
                assert(x =~= y);
            }
        }
    }
}

/// The views of a list of identifiers, in order.
pub open spec fn identifier_views(ids: Seq<Identifier>) -> Seq<IdentifierView> {
    Seq::new(ids.len(), |i: int| ids[i]@)
}

/// A version number.
#[derive(Debug)]
pub struct VersionNumber {
    pub major: u64,
    pub minor: u64,
    pub patch: u64,
    /// The prerelease identifiers; a release has none.
    pub pre: Vec<Identifier>,
    /// The build metadata; empty where the version carries none.
    pub build: Vec<u8>,
}

/// What a [`VersionNumber`] stands for.
pub struct VersionView {
    pub major: u64,
    pub minor: u64,
    pub patch: u64,
    pub pre: Seq<IdentifierView>,
    pub build: Seq<u8>,
}

impl View for VersionNumber {
    type V = VersionView;

    open spec fn view(&self) -> VersionView {
        VersionView {
            major: self.major,
            minor: self.minor,
            patch: self.patch,
            pre: identifier_views(self.pre@),
            build: self.build@,
        }
    }
}

impl VersionView {
    /// Whether the version is a prerelease.
    pub open spec fn is_prerelease(self) -> bool {
        self.pre.len() > 0
    }

    /// Whether `self` and `other` have the same major, minor and patch number.
    pub open spec fn same_triple(self, other: VersionView) -> bool {
        self.major == other.major && self.minor == other.minor && self.patch == other.patch
    }
}

/// Order of two prerelease tags at an equal triple: no tag at all (a release)
/// sorts last.
pub open spec fn prerelease_before(a: Seq<IdentifierView>, b: Seq<IdentifierView>) -> bool {
    if a.len() == 0 {
        false
    } else if b.len() == 0 {
        true
    } else {
        seq_before(a, b, 0)
    }
}

impl Precedence for VersionView {
    open spec fn before(self, other: Self) -> bool {
        if self.major != other.major {
            self.major < other.major
        } else if self.minor != other.minor {
            self.minor < other.minor
        } else if self.patch != other.patch {
            self.patch < other.patch
        } else if prerelease_before(self.pre, other.pre) {
            true
        } else if prerelease_before(other.pre, self.pre) {
            false
        } else {
            seq_before(self.build, other.build, 0)
        }
    }

    proof fn lemma_irreflexive(a: Self) {
        lemma_seq_irreflexive(a.pre, 0);
        lemma_seq_irreflexive(a.build, 0);
    }

    proof fn lemma_transitive(a: Self, b: Self, c: Self) {
        if a.same_triple(b) && b.same_triple(c) {
            lemma_seq_irreflexive(a.pre, 0);
            lemma_seq_irreflexive(b.pre, 0);
            lemma_seq_irreflexive(c.pre, 0);
            lemma_seq_total(a.pre, b.pre, 0);
            lemma_seq_total(b.pre, c.pre, 0);
            lemma_seq_total(a.pre, c.pre, 0);
            if same_tail(a.pre, b.pre, 0) {
                assert(a.pre =~= b.pre);
            }
            if same_tail(b.pre, c.pre, 0) {
                assert(b.pre =~= c.pre);
            }
            if same_tail(a.pre, c.pre, 0) {
                assert(a.pre =~= c.pre);
            }
            if seq_before(a.pre, b.pre, 0) && seq_before(b.pre, c.pre, 0) {
                lemma_seq_transitive(a.pre, b.pre, c.pre, 0);
            }
            if seq_before(c.pre, a.pre, 0) && seq_before(a.pre, b.pre, 0) {
                lemma_seq_transitive(c.pre, a.pre, b.pre, 0);
                lemma_seq_asymmetric(c.pre, b.pre, 0);
            }
            if seq_before(b.pre, c.pre, 0) && seq_before(c.pre, a.pre, 0) {
                lemma_seq_transitive(b.pre, c.pre, a.pre, 0);
                lemma_seq_asymmetric(b.pre, a.pre, 0);
            }
            if seq_before(a.build, b.build, 0) && seq_before(b.build, c.build, 0) {
                lemma_seq_transitive(a.build, b.build, c.build, 0);
            }
        }
    }

    proof fn lemma_total(a: Self, b: Self) {
        if a.same_triple(b) {
            lemma_seq_total(a.pre, b.pre, 0);
            lemma_seq_total(a.build, b.build, 0);
            if same_tail(a.pre, b.pre, 0) {
                assert(a.pre =~= b.pre);
            }
            if same_tail(a.build, b.build, 0) {
                assert(a.build =~= b.build);
            }
        }
    }
}

/// A release sorts after every prerelease of the same major, minor and patch
/// number.
pub proof fn lemma_release_after_prerelease(a: VersionView, b: VersionView)
    requires
        !a.is_prerelease(),
        b.is_prerelease(),
        a.same_triple(b),
    ensures
        b.before(a),
        !a.before(b),
{
}

/// Of two versions at most one sorts before the other.
pub proof fn lemma_version_asymmetric(a: VersionView, b: VersionView)
    requires
        a.before(b),
    ensures
        !b.before(a),
{
    if b.before(a) {
        VersionView::lemma_transitive(a, b, a);
        VersionView::lemma_irreflexive(a);
    }
}

/// Whether the bytes of `a` sort before those of `b`.
pub fn bytes_before(a: &Vec<u8>, b: &Vec<u8>) -> (r: bool)
    ensures
        r == seq_before(a@, b@, 0),
{
    let mut i: usize = 0;
    loop
        invariant
            i <= a.len(),
            i <= b.len(),
            seq_before(a@, b@, 0) == seq_before(a@, b@, i as int),
        decreases a.len() - i,
    {
        if i >= b.len() {
            return false;
        }
        if i >= a.len() {
            return true;
        }
        if a[i] < b[i] {
            return true;
        }
        if b[i] < a[i] {
            return false;
        }
        i += 1;
    }
}

/// Whether `a` and `b` hold the same bytes.
pub fn bytes_equal(a: &Vec<u8>, b: &Vec<u8>) -> (r: bool)
    ensures
        r == (a@ == b@),
{
    if a.len() != b.len() {
        return false;
    }
    let mut i: usize = 0;
    while i < a.len()
        invariant
            i <= a.len(),
            a.len() == b.len(),
            forall|k: int| 0 <= k < i ==> a@[k] == b@[k],
        decreases a.len() - i,
    {
        if a[i] != b[i] {
            return false;
        }
        i += 1;
    }
    assert(a@ =~= b@);
    true
}

/// A copy of `a`.
pub fn bytes_copy(a: &Vec<u8>) -> (r: Vec<u8>)
    ensures
        r@ == a@,
{
    let mut r: Vec<u8> = Vec::new();
    let mut i: usize = 0;
    while i < a.len()
        invariant
            i <= a.len(),
            r@ == a@.subrange(0, i as int),
        decreases a.len() - i,
    {
        r.push(a[i]);
        assert(r@ =~= a@.subrange(0, i + 1));
        i += 1;
    }
    assert(r@ =~= a@);
    r
}

impl Identifier {
    /// Whether `self` sorts before `other`.
    pub fn precedes(&self, other: &Identifier) -> (r: bool)
        ensures
            r == self@.before(other@),
    {
        match (self, other) {
            (Identifier::Numeric(x), Identifier::Numeric(y)) => *x < *y,
            (Identifier::Numeric(_), Identifier::Text(_)) => true,
            (Identifier::Text(_), Identifier::Numeric(_)) => false,
            (Identifier::Text(x), Identifier::Text(y)) => bytes_before(x, y),
        }
    }

    /// Whether `self` and `other` are the same identifier.
    pub fn equals(&self, other: &Identifier) -> (r: bool)
        ensures
            r == (self@ == other@),
    {
        match (self, other) {
            (Identifier::Numeric(x), Identifier::Numeric(y)) => *x == *y,
            (Identifier::Text(x), Identifier::Text(y)) => bytes_equal(x, y),
            _ => false,
        }
    }
}

impl Clone for Identifier {
    fn clone(&self) -> (r: Self)
        ensures
            r@ == self@,
    {
        match self {
            Identifier::Numeric(n) => Identifier::Numeric(*n),
            Identifier::Text(t) => Identifier::Text(bytes_copy(t)),
        }
    }
}

/// Whether the identifiers of `a` sort before those of `b`, position by
/// position.
fn identifiers_before(a: &Vec<Identifier>, b: &Vec<Identifier>) -> (r: bool)
    ensures
        r == seq_before(identifier_views(a@), identifier_views(b@), 0),
{
    let ghost av = identifier_views(a@);
    let ghost bv = identifier_views(b@);
    let mut i: usize = 0;
    loop
        invariant
            i <= a.len(),
            i <= b.len(),
            av == identifier_views(a@),
            bv == identifier_views(b@),
            seq_before(av, bv, 0) == seq_before(av, bv, i as int),
        decreases a.len() - i,
    {
        if i >= b.len() {
            return false;
        }
        if i >= a.len() {
            return true;
        }
        if a[i].precedes(&b[i]) {
            return true;
        }
        if b[i].precedes(&a[i]) {
            return false;
        }
        i += 1;
    }
}

/// Whether `a` and `b` hold the same identifiers.
fn identifiers_equal(a: &Vec<Identifier>, b: &Vec<Identifier>) -> (r: bool)
    ensures
        r == (identifier_views(a@) == identifier_views(b@)),
{
    if a.len() != b.len() {
        assert(identifier_views(a@).len() != identifier_views(b@).len());
        return false;
    }
    let mut i: usize = 0;
    while i < a.len()
        invariant
            i <= a.len(),
            a.len() == b.len(),
            forall|k: int| 0 <= k < i ==> a@[k]@ == b@[k]@,
        decreases a.len() - i,
    {
        if !a[i].equals(&b[i]) {
            assert(identifier_views(a@)[i as int] != identifier_views(b@)[i as int]);
            return false;
        }
        i += 1;
    }
    assert(identifier_views(a@) =~= identifier_views(b@));
    true
}

impl VersionNumber {
    /// The release `major.minor.patch`.
    pub fn new(major: u64, minor: u64, patch: u64) -> (v: VersionNumber)
        ensures
            v@ == (VersionView { major, minor, patch, pre: Seq::empty(), build: Seq::empty() }),
    {
        let v = VersionNumber { major, minor, patch, pre: Vec::new(), build: Vec::new() };
        assert(v@.pre =~= Seq::empty());
        v
    }

    /// The same version with the prerelease identifiers `pre`.
    pub fn with_prerelease(self, pre: Vec<Identifier>) -> (v: VersionNumber)
        ensures
            v@ == (VersionView { pre: identifier_views(pre@), ..self@ }),
    {
        VersionNumber {
            major: self.major,
            minor: self.minor,
            patch: self.patch,
            pre,
            build: self.build,
        }
    }

    /// The same version with the build metadata `build`.
    pub fn with_build(self, build: Vec<u8>) -> (v: VersionNumber)
        ensures
            v@ == (VersionView { build: build@, ..self@ }),
    {
        VersionNumber {
            major: self.major,
            minor: self.minor,
            patch: self.patch,
            pre: self.pre,
            build,
        }
    }

    /// Whether the version is a prerelease.
    pub fn is_prerelease(&self) -> (r: bool)
        ensures
            r == self@.is_prerelease(),
    {
        self.pre.len() > 0
    }

    /// Whether `self` sorts before `other`.
    pub fn precedes(&self, other: &VersionNumber) -> (r: bool)
        ensures
            r == self@.before(other@),
    {
        if self.major != other.major {
            return self.major < other.major;
        }
        if self.minor != other.minor {
            return self.minor < other.minor;
        }
        if self.patch != other.patch {
            return self.patch < other.patch;
        }
        if self.pre.len() == 0 {
            if other.pre.len() > 0 {
                return false;
            }
        } else if other.pre.len() == 0 {
            return true;
        } else {
            if identifiers_before(&self.pre, &other.pre) {
                return true;
            }
            if identifiers_before(&other.pre, &self.pre) {
                return false;
            }
        }
        bytes_before(&self.build, &other.build)
    }

    /// Whether `self` and `other` are the same version, prerelease and build
    /// metadata included.
    pub fn equals(&self, other: &VersionNumber) -> (r: bool)
        ensures
            r == (self@ == other@),
    {
        self.major == other.major && self.minor == other.minor && self.patch == other.patch
            && identifiers_equal(&self.pre, &other.pre) && bytes_equal(&self.build, &other.build)
    }
}

impl Clone for VersionNumber {
    fn clone(&self) -> (r: Self)
        ensures
            r@ == self@,
    {
        let mut pre: Vec<Identifier> = Vec::new();
        let mut i: usize = 0;
        while i < self.pre.len()
            invariant
                i <= self.pre.len(),
                pre.len() == i,
                forall|k: int| 0 <= k < i ==> pre@[k]@ == self.pre@[k]@,
            decreases self.pre.len() - i,
        {
            pre.push(self.pre[i].clone());
            i += 1;
        }
        assert(identifier_views(pre@) =~= identifier_views(self.pre@));
        VersionNumber {
            major: self.major,
            minor: self.minor,
            patch: self.patch,
            pre,
            build: bytes_copy(&self.build),
        }
    }
}

} // verus!
