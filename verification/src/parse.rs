//! How versions and ranges are read from text.
//!
//! A version is read as `major.minor.patch`, then, after `-`, prerelease
//! identifiers with dots between them, then, after `+`, build metadata. A
//! number has no leading zero and fits in 64 bits. An identifier is made of
//! letters, digits and hyphens; one of digits alone is a number. A
//! comparator is an operator, one of `=`, `>`, `>=`, `<`, `<=` or none for
//! `=`, and a version. The comparators of a set stand with one space between
//! them, `*` is the set without comparators, and the sets of a range stand
//! with ` || ` between them.

use crate::range::{Comparator, ComparatorSet, ComparatorView, Operator, VersionRange};
use crate::version::{identifier_views, Identifier, IdentifierView, VersionNumber, VersionView};
use vstd::prelude::*;
use vstd::string::*;

verus! {

/// Whether `c` is a decimal digit.
pub open spec fn is_digit(c: char) -> bool {
    '0' <= c && c <= '9'
}

/// Whether `c` may stand in an identifier: a letter, a digit or a hyphen.
pub open spec fn is_word_char(c: char) -> bool {
    is_digit(c) || ('a' <= c && c <= 'z') || ('A' <= c && c <= 'Z') || c == '-'
}

/// The number that the digit `c` writes.
pub open spec fn digit_value(c: char) -> int {
    c as u32 - '0' as u32
}

/// Where the digits that start at `from` end, at `to` at the latest.
pub open spec fn digits_end(s: Seq<char>, from: int, to: int) -> int
    decreases to - from,
{
    if 0 <= from < to <= s.len() && is_digit(s[from]) {
        digits_end(s, from + 1, to)
    } else {
        from
    }
}

/// Where the identifier that starts at `from` ends, at `to` at the latest.
pub open spec fn word_end(s: Seq<char>, from: int, to: int) -> int
    decreases to - from,
{
    if 0 <= from < to <= s.len() && is_word_char(s[from]) {
        word_end(s, from + 1, to)
    } else {
        from
    }
}

/// The position of the first `c` from `from` on, or `to` where there is
/// none before `to`.
pub open spec fn index_of(s: Seq<char>, c: char, from: int, to: int) -> int
    decreases to - from,
{
    if 0 <= from < to <= s.len() && s[from] != c {
        index_of(s, c, from + 1, to)
    } else {
        from
    }
}

/// The number that the digits between `from` and `to` write.
pub open spec fn number_value(s: Seq<char>, from: int, to: int) -> int
    decreases to - from,
{
    if to <= from {
        0
    } else {
        number_value(s, from, to - 1) * 10 + digit_value(s[to - 1])
    }
}

/// The number that the text between `from` and `to` writes: digits alone,
/// without a leading zero, of a number that fits in 64 bits.
pub open spec fn number_in(s: Seq<char>, from: int, to: int) -> Option<u64> {
    if 0 <= from < to <= s.len() && digits_end(s, from, to) == to && (s[from] != '0' || to == from
        + 1) && number_value(s, from, to) <= u64::MAX {
        Some(number_value(s, from, to) as u64)
    } else {
        None
    }
}

/// The characters between `from` and `to` as bytes.
pub open spec fn bytes_in(s: Seq<char>, from: int, to: int) -> Seq<u8> {
    Seq::new((to - from) as nat, |i: int| s[from + i] as u8)
}

/// The identifier that the text between `from` and `to` writes.
pub open spec fn identifier_in(s: Seq<char>, from: int, to: int) -> Option<IdentifierView> {
    if 0 <= from < to <= s.len() && word_end(s, from, to) == to {
        if digits_end(s, from, to) == to {
            match number_in(s, from, to) {
                Some(n) => Some(IdentifierView::Numeric(n)),
                None => None,
            }
        } else {
            Some(IdentifierView::Text(bytes_in(s, from, to)))
        }
    } else {
        None
    }
}

/// The identifiers that the text between `from` and `to` writes, with dots
/// between them.
pub open spec fn identifiers_in(s: Seq<char>, from: int, to: int) -> Option<Seq<IdentifierView>>
    decreases to - from,
{
    let end = word_end(s, from, to);
    match identifier_in(s, from, end) {
        None => None,
        Some(id) => if end == to {
            Some(seq![id])
        } else if from <= end < to && s[end] == '.' {
            match identifiers_in(s, end + 1, to) {
                Some(rest) => Some(seq![id] + rest),
                None => None,
            }
        } else {
            None
        },
    }
}

/// Whether the characters between `from` and `to` may all stand in build
/// metadata.
pub open spec fn build_chars(s: Seq<char>, from: int, to: int) -> bool {
    forall|i: int| from <= i < to ==> is_word_char(#[trigger] s[i]) || s[i] == '.'
}

/// The build metadata that the text between `from` and `to` writes.
pub open spec fn build_in(s: Seq<char>, from: int, to: int) -> Option<Seq<u8>> {
    if 0 <= from < to <= s.len() && build_chars(s, from, to) {
        Some(bytes_in(s, from, to))
    } else {
        None
    }
}

/// The version that the text between `from` and `to` writes.
pub open spec fn version_in(s: Seq<char>, from: int, to: int) -> Option<VersionView> {
    let a = digits_end(s, from, to);
    let b = digits_end(s, a + 1, to);
    let c = digits_end(s, b + 1, to);
    if !(0 <= from && to <= s.len() && a < to && s[a] == '.' && b < to && s[b] == '.') {
        None
    } else {
        let tagged = c < to && s[c] == '-';
        let d = if tagged {
            index_of(s, '+', c + 1, to)
        } else {
            c
        };
        let pre = if tagged {
            identifiers_in(s, c + 1, d)
        } else {
            Some(Seq::empty())
        };
        let build = if d >= to {
            Some(Seq::empty())
        } else if s[d] == '+' {
            build_in(s, d + 1, to)
        } else {
            None
        };
        match (number_in(s, from, a), number_in(s, a + 1, b), number_in(s, b + 1, c), pre, build) {
            (Some(major), Some(minor), Some(patch), Some(pre), Some(build)) => Some(
                VersionView { major, minor, patch, pre, build },
            ),
            _ => None,
        }
    }
}

/// The comparator that the text between `from` and `to` writes.
pub open spec fn comparator_in(s: Seq<char>, from: int, to: int) -> Option<ComparatorView> {
    if !(0 <= from < to <= s.len()) {
        None
    } else {
        let two = from + 1 < to && s[from + 1] == '=';
        let (op, start) = if s[from] == '>' {
            if two {
                (Operator::GreaterEq, from + 2)
            } else {
                (Operator::Greater, from + 1)
            }
        } else if s[from] == '<' {
            if two {
                (Operator::LessEq, from + 2)
            } else {
                (Operator::Less, from + 1)
            }
        } else if s[from] == '=' {
            (Operator::Exact, from + 1)
        } else {
            (Operator::Exact, from)
        };
        match version_in(s, start, to) {
            Some(version) => Some(ComparatorView { op, version }),
            None => None,
        }
    }
}

/// The comparators that the text between `from` and `to` writes, with one
/// space between them.
pub open spec fn comparators_in(s: Seq<char>, from: int, to: int) -> Option<Seq<ComparatorView>>
    decreases to - from,
{
    let end = index_of(s, ' ', from, to);
    match comparator_in(s, from, end) {
        None => None,
        Some(c) => if end == to {
            Some(seq![c])
        } else if from <= end < to {
            match comparators_in(s, end + 1, to) {
                Some(rest) => Some(seq![c] + rest),
                None => None,
            }
        } else {
            None
        },
    }
}

/// The comparator set that the text between `from` and `to` writes.
pub open spec fn set_in(s: Seq<char>, from: int, to: int) -> Option<Seq<ComparatorView>> {
    if 0 <= from && to == from + 1 && to <= s.len() && s[from] == '*' {
        Some(Seq::empty())
    } else {
        comparators_in(s, from, to)
    }
}

/// Whether ` || ` stands at position `i`, before `to`.
pub open spec fn bar_at(s: Seq<char>, i: int, to: int) -> bool {
    0 <= i && i + 4 <= to <= s.len() && s[i] == ' ' && s[i + 1] == '|' && s[i + 2] == '|' && s[i
        + 3] == ' '
}

/// The position of the first ` || ` from `from` on, or `to` where there is
/// none before `to`.
pub open spec fn bar_index(s: Seq<char>, from: int, to: int) -> int
    decreases to - from,
{
    if 0 <= from < to <= s.len() && !bar_at(s, from, to) {
        bar_index(s, from + 1, to)
    } else {
        from
    }
}

/// The sets that the text between `from` and `to` writes, with ` || `
/// between them.
pub open spec fn sets_in(s: Seq<char>, from: int, to: int) -> Option<Seq<Seq<ComparatorView>>>
    decreases to - from,
{
    let end = bar_index(s, from, to);
    match set_in(s, from, end) {
        None => None,
        Some(set) => if end >= to {
            Some(seq![set])
        } else if from <= end && end + 4 <= to {
            match sets_in(s, end + 4, to) {
                Some(rest) => Some(seq![set] + rest),
                None => None,
            }
        } else {
            None
        },
    }
}

/// The range that `s` writes. The empty text writes the range without
/// sets.
pub open spec fn range_of_text(s: Seq<char>) -> Option<Seq<Seq<ComparatorView>>> {
    if s.len() == 0 {
        Some(Seq::empty())
    } else {
        sets_in(s, 0, s.len() as int)
    }
}

/// The version that `s` writes.
pub open spec fn version_of_text(s: Seq<char>) -> Option<VersionView> {
    version_in(s, 0, s.len() as int)
}

/// The characters of `text`.
pub fn chars_of(text: &str) -> (r: Vec<char>)
    ensures
        r@ == text@,
{
    let n = text.unicode_len();
    let mut r: Vec<char> = Vec::new();
    let mut i: usize = 0;
    while i < n
        invariant
            i <= n,
            n == text@.len(),
            r@ == text@.subrange(0, i as int),
        decreases n - i,
    {
        r.push(text.get_char(i));
        assert(r@ =~= text@.subrange(0, i + 1));
        i += 1;
    }
    assert(text@.subrange(0, n as int) =~= text@);
    r
}

fn digit(c: char) -> (r: bool)
    ensures
        r == is_digit(c),
{
    '0' <= c && c <= '9'
}

fn word_char(c: char) -> (r: bool)
    ensures
        r == is_word_char(c),
{
    digit(c) || ('a' <= c && c <= 'z') || ('A' <= c && c <= 'Z') || c == '-'
}

fn find_digits_end(s: &Vec<char>, from: usize, to: usize) -> (r: usize)
    requires
        to <= s.len(),
    ensures
        r == digits_end(s@, from as int, to as int),
        from <= to ==> from <= r <= to,
        from > to ==> r == from,
{
    let mut i = from;
    while i < to && digit(s[i])
        invariant
            to <= s.len(),
            from <= i,
            from <= to ==> i <= to,
            digits_end(s@, from as int, to as int) == digits_end(s@, i as int, to as int),
        decreases to - i,
    {
        i += 1;
    }
    i
}

fn find_word_end(s: &Vec<char>, from: usize, to: usize) -> (r: usize)
    requires
        to <= s.len(),
    ensures
        r == word_end(s@, from as int, to as int),
        from <= to ==> from <= r <= to,
        from > to ==> r == from,
{
    let mut i = from;
    while i < to && word_char(s[i])
        invariant
            to <= s.len(),
            from <= i,
            from <= to ==> i <= to,
            word_end(s@, from as int, to as int) == word_end(s@, i as int, to as int),
        decreases to - i,
    {
        i += 1;
    }
    i
}

fn find_char(s: &Vec<char>, c: char, from: usize, to: usize) -> (r: usize)
    requires
        to <= s.len(),
    ensures
        r == index_of(s@, c, from as int, to as int),
        from <= to ==> from <= r <= to,
        from > to ==> r == from,
{
    let mut i = from;
    while i < to && s[i] != c
        invariant
            to <= s.len(),
            from <= i,
            from <= to ==> i <= to,
            index_of(s@, c, from as int, to as int) == index_of(s@, c, i as int, to as int),
        decreases to - i,
    {
        i += 1;
    }
    i
}

/// The value of digits only grows with every further digit.
proof fn lemma_number_grows(s: Seq<char>, from: int, mid: int, to: int)
    requires
        0 <= from <= mid <= to <= s.len(),
        forall|k: int| from <= k < to ==> is_digit(#[trigger] s[k]),
    ensures
        0 <= number_value(s, from, mid) <= number_value(s, from, to),
    decreases to - mid,
{
    if mid < to {
        lemma_number_grows(s, from, mid, to - 1);
        lemma_number_nonnegative(s, from, to - 1);
        assert(is_digit(s[to - 1]));
    } else {
        lemma_number_nonnegative(s, from, mid);
    }
}

/// The value of digits is not negative.
proof fn lemma_number_nonnegative(s: Seq<char>, from: int, to: int)
    requires
        0 <= from <= to <= s.len(),
        forall|k: int| from <= k < to ==> is_digit(#[trigger] s[k]),
    ensures
        0 <= number_value(s, from, to),
    decreases to - from,
{
    if from < to {
        lemma_number_nonnegative(s, from, to - 1);
        assert(is_digit(s[to - 1]));
    }
}

/// Digits reach as far as `digits_end` says, and no further.
proof fn lemma_digits_end(s: Seq<char>, from: int, to: int)
    requires
        0 <= from <= to <= s.len(),
    ensures
        from <= digits_end(s, from, to) <= to,
        forall|k: int| from <= k < digits_end(s, from, to) ==> is_digit(#[trigger] s[k]),
        digits_end(s, from, to) < to ==> !is_digit(s[digits_end(s, from, to)]),
    decreases to - from,
{
    if from < to && is_digit(s[from]) {
        lemma_digits_end(s, from + 1, to);
    }
}

fn read_number(s: &Vec<char>, from: usize, to: usize) -> (r: Option<u64>)
    requires
        to <= s.len(),
    ensures
        r == number_in(s@, from as int, to as int),
{
    if from >= to {
        return None;
    }
    let end = find_digits_end(s, from, to);
    if end != to {
        return None;
    }
    if s[from] == '0' && to != from + 1 {
        return None;
    }
    proof {
        lemma_digits_end(s@, from as int, to as int);
    }
    let mut value: u64 = 0;
    let mut i = from;
    while i < to
        invariant
            from <= i <= to <= s.len(),
            forall|k: int| from <= k < to ==> is_digit(#[trigger] s@[k]),
            value == number_value(s@, from as int, i as int),
        decreases to - i,
    {
        let c = s[i];
        assert(is_digit(c));
        let d: u64 = (c as u32 - '0' as u32) as u64;
        if value > (u64::MAX - d) / 10 {
            proof {
                lemma_number_grows(s@, from as int, i + 1, to as int);
                assert(number_value(s@, from as int, i + 1) == value * 10 + d);
            }
            return None;
        }
        value = value * 10 + d;
        i += 1;
    }
    Some(value)
}

fn read_bytes(s: &Vec<char>, from: usize, to: usize) -> (r: Vec<u8>)
    requires
        from <= to <= s.len(),
    ensures
        r@ == bytes_in(s@, from as int, to as int),
{
    let mut r: Vec<u8> = Vec::new();
    let mut i = from;
    while i < to
        invariant
            from <= i <= to <= s.len(),
            r@ == bytes_in(s@, from as int, i as int),
        decreases to - i,
    {
        r.push(s[i] as u8);
        assert(r@ =~= bytes_in(s@, from as int, i + 1));
        i += 1;
    }
    r
}

fn read_identifier(s: &Vec<char>, from: usize, to: usize) -> (r: Option<Identifier>)
    requires
        to <= s.len(),
    ensures
        match r {
            Some(id) => identifier_in(s@, from as int, to as int) == Some(id@),
            None => identifier_in(s@, from as int, to as int) is None,
        },
{
    if from >= to {
        return None;
    }
    if find_word_end(s, from, to) != to {
        return None;
    }
    if find_digits_end(s, from, to) == to {
        match read_number(s, from, to) {
            Some(n) => Some(Identifier::Numeric(n)),
            None => None,
        }
    } else {
        Some(Identifier::Text(read_bytes(s, from, to)))
    }
}

/// An identifier ends where `word_end` says, between its start and `to`.
proof fn lemma_word_end(s: Seq<char>, from: int, to: int)
    requires
        0 <= from <= to <= s.len(),
    ensures
        from <= word_end(s, from, to) <= to,
    decreases to - from,
{
    if from < to && is_word_char(s[from]) {
        lemma_word_end(s, from + 1, to);
    }
}

fn read_identifiers(s: &Vec<char>, from: usize, to: usize) -> (r: Option<Vec<Identifier>>)
    requires
        from <= to <= s.len(),
    ensures
        match r {
            Some(ids) => identifiers_in(s@, from as int, to as int) == Some(identifier_views(ids@)),
            None => identifiers_in(s@, from as int, to as int) is None,
        },
{
    let mut ids: Vec<Identifier> = Vec::new();
    let mut start = from;
    let ghost whole = identifiers_in(s@, from as int, to as int);
    loop
        invariant
            from <= start <= to <= s.len(),
            whole == identifiers_in(s@, from as int, to as int),
            whole == match identifiers_in(s@, start as int, to as int) {
                Some(rest) => Some(identifier_views(ids@) + rest),
                None => None,
            },
        decreases to - start,
    {
        let end = find_word_end(s, start, to);
        let ghost before = identifier_views(ids@);
        match read_identifier(s, start, end) {
            None => {
                return None;
            },
            Some(id) => {
                let ghost view = id@;
                ids.push(id);
                assert(identifier_views(ids@) =~= before + seq![view]);
                if end == to {
                    assert(before + seq![view] =~= identifier_views(ids@));
                    return Some(ids);
                }
                if s[end] != '.' {
                    return None;
                }
                proof {
                    match identifiers_in(s@, end + 1, to as int) {
                        Some(rest) => {
                            assert(before + (seq![view] + rest) =~= identifier_views(ids@) + rest);
                        },
                        None => {},
                    }
                }
                start = end + 1;
            },
        }
    }
}

fn read_build(s: &Vec<char>, from: usize, to: usize) -> (r: Option<Vec<u8>>)
    requires
        to <= s.len(),
    ensures
        match r {
            Some(build) => build_in(s@, from as int, to as int) == Some(build@),
            None => build_in(s@, from as int, to as int) is None,
        },
{
    if from >= to {
        return None;
    }
    let mut i = from;
    while i < to
        invariant
            from <= i <= to <= s.len(),
            forall|k: int| from <= k < i ==> is_word_char(#[trigger] s@[k]) || s@[k] == '.',
        decreases to - i,
    {
        if !(word_char(s[i]) || s[i] == '.') {
            return None;
        }
        i += 1;
    }
    Some(read_bytes(s, from, to))
}

fn read_version(s: &Vec<char>, from: usize, to: usize) -> (r: Option<VersionNumber>)
    requires
        to <= s.len(),
    ensures
        match r {
            Some(v) => version_in(s@, from as int, to as int) == Some(v@),
            None => version_in(s@, from as int, to as int) is None,
        },
{
    if from > to {
        assert(digits_end(s@, from as int, to as int) == from);
        return None;
    }
    let a = find_digits_end(s, from, to);
    if a >= to || s[a] != '.' {
        return None;
    }
    let b = find_digits_end(s, a + 1, to);
    if b >= to || s[b] != '.' {
        return None;
    }
    let c = find_digits_end(s, b + 1, to);
    let tagged = c < to && s[c] == '-';
    let d = if tagged {
        find_char(s, '+', c + 1, to)
    } else {
        c
    };
    let major = match read_number(s, from, a) {
        Some(n) => n,
        None => {
            return None;
        },
    };
    let minor = match read_number(s, a + 1, b) {
        Some(n) => n,
        None => {
            return None;
        },
    };
    let patch = match read_number(s, b + 1, c) {
        Some(n) => n,
        None => {
            return None;
        },
    };
    let pre = if tagged {
        match read_identifiers(s, c + 1, d) {
            Some(ids) => ids,
            None => {
                return None;
            },
        }
    } else {
        let ids: Vec<Identifier> = Vec::new();
        assert(identifier_views(ids@) =~= Seq::empty());
        ids
    };
    let build = if d >= to {
        Vec::new()
    } else if s[d] == '+' {
        match read_build(s, d + 1, to) {
            Some(build) => build,
            None => {
                return None;
            },
        }
    } else {
        return None;
    };
    Some(VersionNumber { major, minor, patch, pre, build })
}

fn read_comparator(s: &Vec<char>, from: usize, to: usize) -> (r: Option<Comparator>)
    requires
        to <= s.len(),
    ensures
        match r {
            Some(c) => comparator_in(s@, from as int, to as int) == Some(c@),
            None => comparator_in(s@, from as int, to as int) is None,
        },
{
    if from >= to {
        return None;
    }
    let two = from + 1 < to && s[from + 1] == '=';
    let first = s[from];
    let (op, start) = if first == '>' {
        if two {
            (Operator::GreaterEq, from + 2)
        } else {
            (Operator::Greater, from + 1)
        }
    } else if first == '<' {
        if two {
            (Operator::LessEq, from + 2)
        } else {
            (Operator::Less, from + 1)
        }
    } else if first == '=' {
        (Operator::Exact, from + 1)
    } else {
        (Operator::Exact, from)
    };
    match read_version(s, start, to) {
        Some(version) => Some(Comparator { op, version }),
        None => None,
    }
}

/// The views of a list of comparators, in order.
pub open spec fn comparator_views(comparators: Seq<Comparator>) -> Seq<ComparatorView> {
    Seq::new(comparators.len(), |i: int| comparators[i]@)
}

fn read_comparators(s: &Vec<char>, from: usize, to: usize) -> (r: Option<Vec<Comparator>>)
    requires
        from <= to <= s.len(),
    ensures
        match r {
            Some(cs) => comparators_in(s@, from as int, to as int) == Some(comparator_views(cs@)),
            None => comparators_in(s@, from as int, to as int) is None,
        },
{
    let mut cs: Vec<Comparator> = Vec::new();
    let mut start = from;
    let ghost whole = comparators_in(s@, from as int, to as int);
    loop
        invariant
            from <= start <= to <= s.len(),
            whole == comparators_in(s@, from as int, to as int),
            whole == match comparators_in(s@, start as int, to as int) {
                Some(rest) => Some(comparator_views(cs@) + rest),
                None => None,
            },
        decreases to - start,
    {
        let end = find_char(s, ' ', start, to);
        let ghost before = comparator_views(cs@);
        match read_comparator(s, start, end) {
            None => {
                return None;
            },
            Some(c) => {
                let ghost view = c@;
                cs.push(c);
                assert(comparator_views(cs@) =~= before + seq![view]);
                if end == to {
                    return Some(cs);
                }
                proof {
                    match comparators_in(s@, end + 1, to as int) {
                        Some(rest) => {
                            assert(before + (seq![view] + rest) =~= comparator_views(cs@) + rest);
                        },
                        None => {},
                    }
                }
                start = end + 1;
            },
        }
    }
}

fn read_set(s: &Vec<char>, from: usize, to: usize) -> (r: Option<ComparatorSet>)
    requires
        from <= to <= s.len(),
    ensures
        match r {
            Some(set) => set_in(s@, from as int, to as int) == Some(set@),
            None => set_in(s@, from as int, to as int) is None,
        },
{
    if to - from == 1 && s[from] == '*' {
        let set = ComparatorSet { comparators: Vec::new() };
        assert(set@ =~= Seq::empty());
        return Some(set);
    }
    match read_comparators(s, from, to) {
        Some(comparators) => {
            let set = ComparatorSet { comparators };
            assert(set@ =~= comparator_views(set.comparators@));
            Some(set)
        },
        None => None,
    }
}

fn find_bar(s: &Vec<char>, from: usize, to: usize) -> (r: usize)
    requires
        from <= to <= s.len(),
    ensures
        r == bar_index(s@, from as int, to as int),
        from <= r <= to,
        r < to ==> r + 4 <= to,
{
    let mut i = from;
    while i < to
        invariant
            from <= i <= to <= s.len(),
            bar_index(s@, from as int, to as int) == bar_index(s@, i as int, to as int),
        decreases to - i,
    {
        if to - i >= 4 && s[i] == ' ' && s[i + 1] == '|' && s[i + 2] == '|' && s[i + 3] == ' ' {
            assert(bar_at(s@, i as int, to as int));
            return i;
        }
        assert(!bar_at(s@, i as int, to as int));
        i += 1;
    }
    i
}

/// The views of a list of comparator sets, in order.
pub open spec fn set_views(sets: Seq<ComparatorSet>) -> Seq<Seq<ComparatorView>> {
    Seq::new(sets.len(), |i: int| sets[i]@)
}

fn read_sets(s: &Vec<char>, from: usize, to: usize) -> (r: Option<Vec<ComparatorSet>>)
    requires
        from <= to <= s.len(),
    ensures
        match r {
            Some(sets) => sets_in(s@, from as int, to as int) == Some(set_views(sets@)),
            None => sets_in(s@, from as int, to as int) is None,
        },
{
    let mut sets: Vec<ComparatorSet> = Vec::new();
    let mut start = from;
    let ghost whole = sets_in(s@, from as int, to as int);
    loop
        invariant
            from <= start <= to <= s.len(),
            whole == sets_in(s@, from as int, to as int),
            whole == match sets_in(s@, start as int, to as int) {
                Some(rest) => Some(set_views(sets@) + rest),
                None => None,
            },
        decreases to - start,
    {
        let end = find_bar(s, start, to);
        let ghost before = set_views(sets@);
        match read_set(s, start, end) {
            None => {
                return None;
            },
            Some(set) => {
                let ghost view = set@;
                sets.push(set);
                assert(set_views(sets@) =~= before + seq![view]);
                if end >= to {
                    return Some(sets);
                }
                proof {
                    match sets_in(s@, end + 4, to as int) {
                        Some(rest) => {
                            assert(before + (seq![view] + rest) =~= set_views(sets@) + rest);
                        },
                        None => {},
                    }
                }
                start = end + 4;
            },
        }
    }
}

impl VersionNumber {
    /// The version that `text` writes, or `None` where it writes none.
    pub fn parse(text: &str) -> (r: Option<VersionNumber>)
        ensures
            match r {
                Some(v) => version_of_text(text@) == Some(v@),
                None => version_of_text(text@) is None,
            },
    {
        let chars = chars_of(text);
        read_version(&chars, 0, chars.len())
    }
}

impl VersionRange {
    /// The range that `text` writes, or `None` where it writes none.
    pub fn parse(text: &str) -> (r: Option<VersionRange>)
        ensures
            match r {
                Some(range) => range_of_text(text@) == Some(range@),
                None => range_of_text(text@) is None,
            },
    {
        let chars = chars_of(text);
        if chars.len() == 0 {
            let range = VersionRange { sets: Vec::new() };
            assert(range@ =~= Seq::empty());
            return Some(range);
        }
        match read_sets(&chars, 0, chars.len()) {
            Some(sets) => {
                let range = VersionRange { sets };
                assert(range@ =~= set_views(range.sets@));
                Some(range)
            },
            None => None,
        }
    }
}

} // verus!
