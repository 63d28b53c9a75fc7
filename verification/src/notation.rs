//! How versions, ranges and selectors are written as text.
//!
//! A version is written `major.minor.patch`, then `-` and the prerelease
//! identifiers with dots between them, then `+` and the build metadata. A
//! comparator is written as its operator and its version, the comparators of
//! a set with a space between them, and the sets of a range with ` || `
//! between them. A set without comparators is written `*`.

use crate::range::{Comparator, ComparatorSet, ComparatorView, Operator, VersionRange};
use crate::text::{byte_chars, decimal, push_bytes, push_char, push_decimal};
use crate::version::{Identifier, IdentifierView, VersionNumber, VersionView};
use vstd::prelude::*;

verus! {

/// The text of one prerelease identifier.
pub open spec fn identifier_text(id: IdentifierView) -> Seq<char> {
    match id {
        IdentifierView::Numeric(n) => decimal(n as nat),
        IdentifierView::Text(t) => byte_chars(t),
    }
}

/// The text of the first `n` of `ids`, with dots between them.
pub open spec fn identifiers_text(ids: Seq<IdentifierView>, n: int) -> Seq<char>
    decreases n,
{
    if n <= 0 {
        Seq::empty()
    } else if n == 1 {
        identifier_text(ids[0])
    } else {
        identifiers_text(ids, n - 1) + seq!['.'] + identifier_text(ids[n - 1])
    }
}

/// The text of the prerelease tag of a version: nothing for a release.
pub open spec fn prerelease_text(pre: Seq<IdentifierView>) -> Seq<char> {
    if pre.len() == 0 {
        Seq::empty()
    } else {
        seq!['-'] + identifiers_text(pre, pre.len() as int)
    }
}

/// The text of the build metadata of a version: nothing where it has none.
pub open spec fn build_text(build: Seq<u8>) -> Seq<char> {
    if build.len() == 0 {
        Seq::empty()
    } else {
        seq!['+'] + byte_chars(build)
    }
}

/// The text of a version.
pub open spec fn version_text(v: VersionView) -> Seq<char> {
    decimal(v.major as nat) + seq!['.'] + decimal(v.minor as nat) + seq!['.'] + decimal(
        v.patch as nat,
    ) + prerelease_text(v.pre) + build_text(v.build)
}

/// The text of an operator.
pub open spec fn operator_text(op: Operator) -> Seq<char> {
    match op {
        Operator::Exact => seq!['='],
        Operator::Greater => seq!['>'],
        Operator::GreaterEq => seq!['>', '='],
        Operator::Less => seq!['<'],
        Operator::LessEq => seq!['<', '='],
    }
}

/// The text of a comparator.
pub open spec fn comparator_text(c: ComparatorView) -> Seq<char> {
    operator_text(c.op) + version_text(c.version)
}

/// The text of the first `n` comparators of `set`, with spaces between
/// them.
pub open spec fn comparators_text(set: Seq<ComparatorView>, n: int) -> Seq<char>
    decreases n,
{
    if n <= 0 {
        Seq::empty()
    } else if n == 1 {
        comparator_text(set[0])
    } else {
        comparators_text(set, n - 1) + seq![' '] + comparator_text(set[n - 1])
    }
}

/// The text of a comparator set.
pub open spec fn set_text(set: Seq<ComparatorView>) -> Seq<char> {
    if set.len() == 0 {
        seq!['*']
    } else {
        comparators_text(set, set.len() as int)
    }
}

/// The text of the first `n` sets of `range`, with ` || ` between them.
pub open spec fn range_text_upto(range: Seq<Seq<ComparatorView>>, n: int) -> Seq<char>
    decreases n,
{
    if n <= 0 {
        Seq::empty()
    } else if n == 1 {
        set_text(range[0])
    } else {
        range_text_upto(range, n - 1) + seq![' ', '|', '|', ' '] + set_text(range[n - 1])
    }
}

/// The text of a range.
pub open spec fn range_text(range: Seq<Seq<ComparatorView>>) -> Seq<char> {
    range_text_upto(range, range.len() as int)
}

/// Writes the text of `ids` at the end of `out`.
fn push_identifiers(out: &mut String, ids: &Vec<Identifier>)
    ensures
        final(out)@ == old(out)@ + identifiers_text(
            crate::version::identifier_views(ids@),
            ids@.len() as int,
        ),
{
    let ghost views = crate::version::identifier_views(ids@);
    let mut i: usize = 0;
    assert(out@ =~= old(out)@ + identifiers_text(views, 0));
    while i < ids.len()
        invariant
            i <= ids.len(),
            views == crate::version::identifier_views(ids@),
            out@ == old(out)@ + identifiers_text(views, i as int),
        decreases ids.len() - i,
    {
        let ghost before = out@;
        if i > 0 {
            push_char(out, '.');
        }
        match &ids[i] {
            Identifier::Numeric(n) => push_decimal(out, *n),
            Identifier::Text(t) => push_bytes(out, t),
        }
        proof {
            assert(views[i as int] == ids@[i as int]@);
            if i > 0 {
                assert(out@ =~= old(out)@ + (identifiers_text(views, i as int) + seq!['.']
                    + identifier_text(views[i as int])));
            } else {
                assert(out@ =~= old(out)@ + identifier_text(views[0]));
            }
        }
        i += 1;
    }
}

impl VersionNumber {
    /// Writes the text of the version at the end of `out`.
    pub fn push_text(&self, out: &mut String)
        ensures
            final(out)@ == old(out)@ + version_text(self@),
    {
        push_decimal(out, self.major);
        push_char(out, '.');
        push_decimal(out, self.minor);
        push_char(out, '.');
        push_decimal(out, self.patch);
        let ghost triple = decimal(self.major as nat) + seq!['.'] + decimal(self.minor as nat)
            + seq!['.'] + decimal(self.patch as nat);
        assert(out@ =~= old(out)@ + triple);
        if self.pre.len() > 0 {
            push_char(out, '-');
            push_identifiers(out, &self.pre);
        }
        assert(out@ =~= old(out)@ + (triple + prerelease_text(self@.pre)));
        if self.build.len() > 0 {
            push_char(out, '+');
            push_bytes(out, &self.build);
        }
        assert(out@ =~= old(out)@ + (triple + prerelease_text(self@.pre) + build_text(
            self@.build,
        )));
    }

    /// The text of the version.
    pub fn to_text(&self) -> (r: String)
        ensures
            r@ == version_text(self@),
    {
        let mut out = String::new();
        self.push_text(&mut out);
        assert(Seq::<char>::empty() + version_text(self@) =~= version_text(self@));
        out
    }
}

impl Comparator {
    /// Writes the text of the comparator at the end of `out`.
    pub fn push_text(&self, out: &mut String)
        ensures
            final(out)@ == old(out)@ + comparator_text(self@),
    {
        match self.op {
            Operator::Exact => push_char(out, '='),
            Operator::Greater => push_char(out, '>'),
            Operator::GreaterEq => {
                push_char(out, '>');
                push_char(out, '=');
            },
            Operator::Less => push_char(out, '<'),
            Operator::LessEq => {
                push_char(out, '<');
                push_char(out, '=');
            },
        }
        assert(out@ =~= old(out)@ + operator_text(self.op));
        self.version.push_text(out);
        assert(out@ =~= old(out)@ + (operator_text(self.op) + version_text(self.version@)));
    }
}

impl ComparatorSet {
    /// Writes the text of the set at the end of `out`.
    pub fn push_text(&self, out: &mut String)
        ensures
            final(out)@ == old(out)@ + set_text(self@),
    {
        if self.comparators.len() == 0 {
            push_char(out, '*');
            assert(out@ =~= old(out)@ + seq!['*']);
            return ;
        }
        let mut i: usize = 0;
        assert(out@ =~= old(out)@ + comparators_text(self@, 0));
        while i < self.comparators.len()
            invariant
                i <= self.comparators.len(),
                out@ == old(out)@ + comparators_text(self@, i as int),
            decreases self.comparators.len() - i,
        {
            if i > 0 {
                push_char(out, ' ');
            }
            self.comparators[i].push_text(out);
            proof {
                assert(self@[i as int] == self.comparators@[i as int]@);
                if i > 0 {
                    assert(out@ =~= old(out)@ + (comparators_text(self@, i as int) + seq![' ']
                        + comparator_text(self@[i as int])));
                } else {
                    assert(out@ =~= old(out)@ + comparator_text(self@[0]));
                }
            }
            i += 1;
        }
    }
}

impl VersionRange {
    /// Writes the text of the range at the end of `out`.
    pub fn push_text(&self, out: &mut String)
        ensures
            final(out)@ == old(out)@ + range_text(self@),
    {
        let mut i: usize = 0;
        assert(out@ =~= old(out)@ + range_text_upto(self@, 0));
        while i < self.sets.len()
            invariant
                i <= self.sets.len(),
                out@ == old(out)@ + range_text_upto(self@, i as int),
            decreases self.sets.len() - i,
        {
            if i > 0 {
                push_char(out, ' ');
                push_char(out, '|');
                push_char(out, '|');
                push_char(out, ' ');
            }
            self.sets[i].push_text(out);
            proof {
                assert(self@[i as int] == self.sets@[i as int]@);
                if i > 0 {
                    assert(out@ =~= old(out)@ + (range_text_upto(self@, i as int) + seq![
                        ' ',
                        '|',
                        '|',
                        ' ',
                    ] + set_text(self@[i as int])));
                } else {
                    assert(out@ =~= old(out)@ + set_text(self@[0]));
                }
            }
            i += 1;
        }
    }

    /// The text of the range.
    pub fn to_text(&self) -> (r: String)
        ensures
            r@ == range_text(self@),
    {
        let mut out = String::new();
        self.push_text(&mut out);
        assert(Seq::<char>::empty() + range_text(self@) =~= range_text(self@));
        out
    }
}

} // verus!
