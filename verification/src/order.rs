//! Strict total orders on plain values, and the lexicographic order they
//! induce on sequences.

use vstd::prelude::*;

verus! {

/// A strict total order on the values of a type.
pub trait Precedence: Sized {
    /// Whether `self` sorts strictly before `other`.
    spec fn before(self, other: Self) -> bool;

    /// Nothing sorts before itself.
    proof fn lemma_irreflexive(a: Self)
        ensures
            !a.before(a),
    ;

    /// The order is transitive.
    proof fn lemma_transitive(a: Self, b: Self, c: Self)
        requires
            a.before(b),
            b.before(c),
        ensures
            a.before(c),
    ;

    /// Two values are equal or one sorts before the other.
    proof fn lemma_total(a: Self, b: Self)
        ensures
            a.before(b) || b.before(a) || a == b,
    ;
}

impl Precedence for u8 {
    open spec fn before(self, other: Self) -> bool {
        self < other
    }

    proof fn lemma_irreflexive(a: Self) {
    }

    proof fn lemma_transitive(a: Self, b: Self, c: Self) {
    }

    proof fn lemma_total(a: Self, b: Self) {
    }
}

/// Lexicographic order on the tails of `a` and `b` that start at index
/// `from`: the first position at which the two differ decides, and a proper
/// prefix sorts before the longer sequence.
pub open spec fn seq_before<T: Precedence>(a: Seq<T>, b: Seq<T>, from: int) -> bool
    decreases a.len() - from,
{
    if from < 0 || from >= b.len() {
        false
    } else if from >= a.len() {
        true
    } else if a[from].before(b[from]) {
        true
    } else if b[from].before(a[from]) {
        false
    } else {
        seq_before(a, b, from + 1)
    }
}

/// Whether `a` and `b` hold the same values from index `from` on.
pub open spec fn same_tail<T>(a: Seq<T>, b: Seq<T>, from: int) -> bool {
    &&& a.len() == b.len()
    &&& forall|k: int| from <= k < a.len() ==> a[k] == b[k]
}

/// No sequence sorts before itself.
pub proof fn lemma_seq_irreflexive<T: Precedence>(a: Seq<T>, from: int)
    ensures
        !seq_before(a, a, from),
    decreases a.len() - from,
{
    if 0 <= from < a.len() {
        T::lemma_irreflexive(a[from]);
        lemma_seq_irreflexive(a, from + 1);
    }
}

/// The lexicographic order is transitive.
pub proof fn lemma_seq_transitive<T: Precedence>(a: Seq<T>, b: Seq<T>, c: Seq<T>, from: int)
    requires
        seq_before(a, b, from),
        seq_before(b, c, from),
    ensures
        seq_before(a, c, from),
    decreases a.len() - from,
{
    if from < a.len() {
        T::lemma_total(a[from], b[from]);
        T::lemma_total(b[from], c[from]);
        T::lemma_total(a[from], c[from]);
        T::lemma_irreflexive(a[from]);
        T::lemma_irreflexive(b[from]);
        if a[from].before(b[from]) {
            if b[from].before(c[from]) {
                T::lemma_transitive(a[from], b[from], c[from]);
            }
        } else if b[from].before(c[from]) {
        } else {
            if c[from].before(a[from]) {
                T::lemma_irreflexive(c[from]);
            }
            lemma_seq_transitive(a, b, c, from + 1);
        }
    }
}

/// Two sequences agree from `from` on, or one sorts before the other.
pub proof fn lemma_seq_total<T: Precedence>(a: Seq<T>, b: Seq<T>, from: int)
    requires
        0 <= from <= a.len(),
        from <= b.len(),
    ensures
        seq_before(a, b, from) || seq_before(b, a, from) || same_tail(a, b, from),
    decreases a.len() - from,
{
    if from < a.len() && from < b.len() {
        T::lemma_total(a[from], b[from]);
        if !a[from].before(b[from]) && !b[from].before(a[from]) {
            lemma_seq_total(a, b, from + 1);
        }
    }
}

/// Of two sequences at most one sorts before the other.
pub proof fn lemma_seq_asymmetric<T: Precedence>(a: Seq<T>, b: Seq<T>, from: int)
    requires
        seq_before(a, b, from),
    ensures
        !seq_before(b, a, from),
{
    if seq_before(b, a, from) {
        lemma_seq_transitive(a, b, a, from);
        lemma_seq_irreflexive(a, from);
    }
}

} // verus!
