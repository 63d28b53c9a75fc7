//! What is written of a version can be read back: the text of a version is
//! read as that version again, provided its identifiers and its build
//! metadata are made of the characters that the notation has for them.

use crate::notation::{
    build_text, identifier_text, identifiers_text, prerelease_text, version_text,
};
use crate::parse::{
    build_chars, build_in, bytes_in, digit_value, digits_end, identifier_in, identifiers_in,
    index_of, is_digit, is_word_char, number_in, number_value, version_in, version_of_text,
    word_end,
};
use crate::text::{byte_chars, decimal, digit_char};
use crate::version::{IdentifierView, VersionView};
use vstd::prelude::*;

verus! {

/// Whether the bytes of `t` are all letters, digits or hyphens.
pub open spec fn word_bytes(t: Seq<u8>) -> bool {
    forall|i: int| 0 <= i < t.len() ==> is_word_char((#[trigger] t[i]) as char)
}

/// Whether one of the bytes of `t` is no digit.
pub open spec fn has_non_digit(t: Seq<u8>) -> bool {
    exists|i: int| 0 <= i < t.len() && !is_digit((#[trigger] t[i]) as char)
}

/// Whether `id` is an identifier that the notation can write: any number,
/// or a text of letters, digits and hyphens that is not empty and not a
/// number.
pub open spec fn writable_identifier(id: IdentifierView) -> bool {
    match id {
        IdentifierView::Numeric(_) => true,
        IdentifierView::Text(t) => t.len() > 0 && word_bytes(t) && has_non_digit(t),
    }
}

/// Whether `build` is build metadata that the notation can write: letters,
/// digits, hyphens and dots.
pub open spec fn writable_build(build: Seq<u8>) -> bool {
    forall|i: int|
        0 <= i < build.len() ==> is_word_char((#[trigger] build[i]) as char) || build[i] as char
            == '.'
}

/// Whether `v` is a version that the notation can write.
pub open spec fn writable(v: VersionView) -> bool {
    &&& forall|i: int| 0 <= i < v.pre.len() ==> writable_identifier(#[trigger] v.pre[i])
    &&& writable_build(v.build)
}

/// Whether `piece` stands in `s` at position `at`.
pub open spec fn holds_at(s: Seq<char>, at: int, piece: Seq<char>) -> bool {
    &&& 0 <= at
    &&& at + piece.len() <= s.len()
    &&& forall|k: int| 0 <= k < piece.len() ==> s[at + k] == #[trigger] piece[k]
}

/// A piece that stands in a text stands in every text that the text
/// starts.
proof fn lemma_holds_in_longer(s: Seq<char>, more: Seq<char>, at: int, piece: Seq<char>)
    requires
        holds_at(s, at, piece),
    ensures
        holds_at(s + more, at, piece),
{
    assert forall|k: int| 0 <= k < piece.len() implies (s + more)[at + k] == #[trigger] piece[k] by {
        assert(s[at + k] == piece[k]);
    }
}

/// What is put behind a text stands at its end.
proof fn lemma_holds_at_end(s: Seq<char>, piece: Seq<char>)
    ensures
        holds_at(s + piece, s.len() as int, piece),
{
}

/// Digits reach as far as they go.
proof fn lemma_digits_run(s: Seq<char>, from: int, end: int, to: int)
    requires
        0 <= from <= end <= to <= s.len(),
        forall|k: int| from <= k < end ==> is_digit(#[trigger] s[k]),
        end == to || !is_digit(s[end]),
    ensures
        digits_end(s, from, to) == end,
    decreases end - from,
{
    if from < end {
        assert(is_digit(s[from]));
        lemma_digits_run(s, from + 1, end, to);
    }
}

/// An identifier reaches as far as its characters go.
proof fn lemma_word_run(s: Seq<char>, from: int, end: int, to: int)
    requires
        0 <= from <= end <= to <= s.len(),
        forall|k: int| from <= k < end ==> is_word_char(#[trigger] s[k]),
        end == to || !is_word_char(s[end]),
    ensures
        word_end(s, from, to) == end,
    decreases end - from,
{
    if from < end {
        assert(is_word_char(s[from]));
        lemma_word_run(s, from + 1, end, to);
    }
}

/// A character is first found where it first stands.
proof fn lemma_index_run(s: Seq<char>, c: char, from: int, end: int, to: int)
    requires
        0 <= from <= end <= to <= s.len(),
        forall|k: int| from <= k < end ==> #[trigger] s[k] != c,
        end == to || s[end] == c,
    ensures
        index_of(s, c, from, to) == end,
    decreases end - from,
{
    if from < end {
        assert(s[from] != c);
        lemma_index_run(s, c, from + 1, end, to);
    }
}

/// The digits of a run that all are digits.
proof fn lemma_digits_all(s: Seq<char>, from: int, to: int)
    requires
        0 <= from <= to <= s.len(),
        digits_end(s, from, to) == to,
    ensures
        forall|k: int| from <= k < to ==> is_digit(#[trigger] s[k]),
    decreases to - from,
{
    if from < to {
        if is_digit(s[from]) {
            lemma_digits_stop(s, from + 1, to);
            lemma_digits_all(s, from + 1, to);
        }
    }
}

/// Digits end between where they start and where they may reach.
proof fn lemma_digits_stop(s: Seq<char>, from: int, to: int)
    requires
        0 <= from <= to <= s.len(),
    ensures
        from <= digits_end(s, from, to) <= to,
    decreases to - from,
{
    if from < to && is_digit(s[from]) {
        lemma_digits_stop(s, from + 1, to);
    }
}

/// The value of digits is the value of the same digits elsewhere.
proof fn lemma_same_value(s: Seq<char>, from: int, t: Seq<char>, at: int, len: int)
    requires
        0 <= len,
        0 <= from,
        from + len <= s.len(),
        0 <= at,
        at + len <= t.len(),
        forall|k: int| 0 <= k < len ==> #[trigger] s[from + k] == t[at + k],
    ensures
        number_value(s, from, from + len) == number_value(t, at, at + len),
    decreases len,
{
    if len > 0 {
        lemma_same_value(s, from, t, at, len - 1);
        assert(s[from + (len - 1)] == t[at + (len - 1)]);
    }
}

/// The decimal digits of a number are digits, start with no zero unless the
/// number is written with one digit, and have the number as their value.
proof fn lemma_decimal(n: nat)
    ensures
        decimal(n).len() >= 1,
        forall|k: int| 0 <= k < decimal(n).len() ==> is_digit(#[trigger] decimal(n)[k]),
        decimal(n)[0] == '0' ==> decimal(n).len() == 1,
        number_value(decimal(n), 0, decimal(n).len() as int) == n,
    decreases n,
{
    let d = decimal(n);
    if n < 10 {
        assert(d =~= seq![digit_char(n)]);
        assert(number_value(d, 0, 0) == 0);
        assert(number_value(d, 0, 1) == number_value(d, 0, 0) * 10 + digit_value(d[0]));
    } else {
        let front = decimal(n / 10);
        lemma_decimal(n / 10);
        assert(d == front.push(digit_char(n % 10)));
        let len = d.len() as int;
        assert(d[len - 1] == digit_char(n % 10));
        assert forall|k: int| 0 <= k < len implies is_digit(#[trigger] d[k]) by {
            if k < len - 1 {
                assert(d[k] == front[k]);
            }
        }
        assert forall|k: int| 0 <= k < len - 1 implies #[trigger] d[0 + k] == front[0 + k] by {}
        lemma_same_value(d, 0, front, 0, len - 1);
        assert(d[0] == front[0]);
        if front[0] == '0' {
            assert(front.len() == 1);
            assert(number_value(front, 0, 0) == 0);
            assert(number_value(front, 0, 1) == number_value(front, 0, 0) * 10 + digit_value(
                front[0],
            ));
        }
    }
}

/// The decimal digits of a number are read as that number.
proof fn lemma_number_at(s: Seq<char>, at: int, n: u64)
    requires
        holds_at(s, at, decimal(n as nat)),
    ensures
        number_in(s, at, at + decimal(n as nat).len()) == Some(n),
{
    let d = decimal(n as nat);
    let to = at + d.len();
    lemma_decimal(n as nat);
    assert forall|k: int| at <= k < to implies is_digit(#[trigger] s[k]) by {
        assert(s[at + (k - at)] == d[k - at]);
    }
    lemma_digits_run(s, at, to, to);
    assert(s[at + 0] == d[0]);
    assert forall|k: int| 0 <= k < d.len() implies #[trigger] s[at + k] == d[0 + k] by {
        assert(s[at + k] == d[k]);
    }
    lemma_same_value(s, at, d, 0, d.len() as int);
}

/// The text of an identifier is made of letters, digits and hyphens, and is
/// not empty.
proof fn lemma_identifier_chars(id: IdentifierView)
    requires
        writable_identifier(id),
    ensures
        identifier_text(id).len() >= 1,
        forall|k: int|
            0 <= k < identifier_text(id).len() ==> is_word_char(#[trigger] identifier_text(id)[k]),
{
    match id {
        IdentifierView::Numeric(n) => {
            lemma_decimal(n as nat);
        },
        IdentifierView::Text(t) => {
            assert forall|k: int| 0 <= k < byte_chars(t).len() implies is_word_char(
                #[trigger] byte_chars(t)[k],
            ) by {
                assert(is_word_char(t[k] as char));
            }
        },
    }
}

/// The text of an identifier is read as that identifier.
proof fn lemma_identifier_at(s: Seq<char>, at: int, id: IdentifierView)
    requires
        writable_identifier(id),
        holds_at(s, at, identifier_text(id)),
    ensures
        identifier_in(s, at, at + identifier_text(id).len()) == Some(id),
{
    let text = identifier_text(id);
    let to = at + text.len();
    lemma_identifier_chars(id);
    assert forall|k: int| at <= k < to implies is_word_char(#[trigger] s[k]) by {
        assert(s[at + (k - at)] == text[k - at]);
    }
    lemma_word_run(s, at, to, to);
    match id {
        IdentifierView::Numeric(n) => {
            lemma_number_at(s, at, n);
            lemma_decimal(n as nat);
            assert forall|k: int| at <= k < to implies is_digit(#[trigger] s[k]) by {
                assert(s[at + (k - at)] == text[k - at]);
            }
            lemma_digits_run(s, at, to, to);
        },
        IdentifierView::Text(t) => {
            let i = choose|i: int| 0 <= i < t.len() && !is_digit((#[trigger] t[i]) as char);
            assert(s[at + i] == text[i]);
            lemma_digits_stop(s, at, to);
            if digits_end(s, at, to) == to {
                lemma_digits_all(s, at, to);
                assert(is_digit(s[at + i]));
            }
            assert(bytes_in(s, at, to) =~= t) by {
                assert forall|k: int| 0 <= k < t.len() implies bytes_in(s, at, to)[k] == t[k] by {
                    assert(s[at + k] == text[k]);
                }
            }
        },
    }
}

/// Where the identifier at position `k` starts in the text of a list of
/// identifiers.
pub open spec fn start_of(ids: Seq<IdentifierView>, k: int) -> int {
    if k <= 0 {
        0
    } else {
        identifiers_text(ids, k).len() as int + 1
    }
}

/// The text of the first identifiers starts the text of more of them, and
/// each identifier stands in the text where it starts, with a dot behind it
/// unless it is the last.
proof fn lemma_layout(ids: Seq<IdentifierView>, n: int, k: int)
    requires
        0 <= k < n <= ids.len(),
    ensures
        holds_at(identifiers_text(ids, n), start_of(ids, k), identifier_text(ids[k])),
        start_of(ids, k) + identifier_text(ids[k]).len() == identifiers_text(ids, k + 1).len(),
        identifiers_text(ids, k + 1).len() <= identifiers_text(ids, n).len(),
        k < n - 1 ==> identifiers_text(ids, k + 1).len() < identifiers_text(ids, n).len(),
        k < n - 1 ==> identifiers_text(ids, n)[identifiers_text(ids, k + 1).len() as int] == '.',
        k == n - 1 ==> identifiers_text(ids, k + 1).len() == identifiers_text(ids, n).len(),
    decreases n,
{
    let text = identifiers_text(ids, n);
    if n == 1 {
        assert(text == identifier_text(ids[0]));
    } else {
        let front = identifiers_text(ids, n - 1);
        let last = identifier_text(ids[n - 1]);
        assert(text == front + seq!['.'] + last);
        if k == n - 1 {
            lemma_holds_at_end(front + seq!['.'], last);
        } else {
            lemma_layout(ids, n - 1, k);
            lemma_holds_in_longer(front, seq!['.'], start_of(ids, k), identifier_text(ids[k]));
            lemma_holds_in_longer(
                front + seq!['.'],
                last,
                start_of(ids, k),
                identifier_text(ids[k]),
            );
            if k < n - 2 {
                assert(text[identifiers_text(ids, k + 1).len() as int] == front[identifiers_text(
                    ids,
                    k + 1,
                ).len() as int]);
            } else {
                assert(text[front.len() as int] == '.');
            }
        }
    }
}

/// The text of a list of identifiers is read, from the start of any of
/// them, as the identifiers from that one on.
proof fn lemma_identifiers_at(s: Seq<char>, at: int, ids: Seq<IdentifierView>, k: int)
    requires
        ids.len() >= 1,
        0 <= k < ids.len(),
        forall|i: int| 0 <= i < ids.len() ==> writable_identifier(#[trigger] ids[i]),
        holds_at(s, at, identifiers_text(ids, ids.len() as int)),
    ensures
        identifiers_in(
            s,
            at + start_of(ids, k),
            at + identifiers_text(ids, ids.len() as int).len(),
        ) == Some(ids.subrange(k, ids.len() as int)),
    decreases ids.len() - k,
{
    let n = ids.len() as int;
    let text = identifiers_text(ids, n);
    let to = at + text.len();
    let id = ids[k];
    let piece = identifier_text(id);
    let from = at + start_of(ids, k);
    let end = from + piece.len();
    lemma_layout(ids, n, k);
    lemma_identifier_chars(id);
    assert(holds_at(s, from, piece)) by {
        assert forall|j: int| 0 <= j < piece.len() implies s[from + j] == #[trigger] piece[j] by {
            assert(text[start_of(ids, k) + j] == piece[j]);
            assert(s[at + (start_of(ids, k) + j)] == text[start_of(ids, k) + j]);
        }
    }
    assert forall|j: int| from <= j < end implies is_word_char(#[trigger] s[j]) by {
        assert(s[from + (j - from)] == piece[j - from]);
    }
    if k < n - 1 {
        assert(s[end] == '.') by {
            assert(s[at + (end - at)] == text[end - at]);
        }
    }
    lemma_word_run(s, from, end, to);
    lemma_identifier_at(s, from, id);
    if k == n - 1 {
        assert(seq![id] =~= ids.subrange(k, n));
    } else {
        lemma_identifiers_at(s, at, ids, k + 1);
        assert(end + 1 == at + start_of(ids, k + 1));
        assert(seq![id] + ids.subrange(k + 1, n) =~= ids.subrange(k, n));
    }
}

/// The text of a list of identifiers holds no `+`.
proof fn lemma_identifiers_plain(ids: Seq<IdentifierView>, n: int)
    requires
        0 <= n <= ids.len(),
        forall|i: int| 0 <= i < ids.len() ==> writable_identifier(#[trigger] ids[i]),
    ensures
        forall|j: int|
            0 <= j < identifiers_text(ids, n).len() ==> #[trigger] identifiers_text(ids, n)[j]
                != '+',
    decreases n,
{
    if n >= 1 {
        lemma_identifier_chars(ids[n - 1]);
        if n >= 2 {
            lemma_identifiers_plain(ids, n - 1);
            let front = identifiers_text(ids, n - 1);
            let last = identifier_text(ids[n - 1]);
            let text = identifiers_text(ids, n);
            assert(text == front + seq!['.'] + last);
            assert forall|j: int| 0 <= j < text.len() implies #[trigger] text[j] != '+' by {
                if j < front.len() {
                    assert(text[j] == front[j]);
                } else if j > front.len() {
                    assert(text[j] == last[j - front.len() - 1]);
                    assert(is_word_char(last[j - front.len() - 1]));
                }
            }
        } else {
            let text = identifiers_text(ids, 1);
            assert(text == identifier_text(ids[0]));
            assert forall|j: int| 0 <= j < text.len() implies #[trigger] text[j] != '+' by {
                assert(is_word_char(text[j]));
            }
        }
    }
}

/// What is written can be read back: the text of a version that the
/// notation can write is read as that version.
pub proof fn lemma_version_reads_back(v: VersionView)
    requires
        writable(v),
    ensures
        version_of_text(version_text(v)) == Some(v),
{
    let d1 = decimal(v.major as nat);
    let d2 = decimal(v.minor as nat);
    let d3 = decimal(v.patch as nat);
    let pre = prerelease_text(v.pre);
    let build = build_text(v.build);
    let s1 = d1 + seq!['.'];
    let s2 = s1 + d2;
    let s3 = s2 + seq!['.'];
    let s4 = s3 + d3;
    let s5 = s4 + pre;
    let s = s5 + build;
    assert(s == version_text(v));
    let to = s.len() as int;
    let a = d1.len() as int;
    let b = s2.len() as int;
    let c = s4.len() as int;
    let d = s5.len() as int;
    lemma_decimal(v.major as nat);
    lemma_decimal(v.minor as nat);
    lemma_decimal(v.patch as nat);
    // the three numbers and the dots between them
    assert(holds_at(s, 0, d1)) by {
        assert(holds_at(s1, 0, d1));
        lemma_holds_in_longer(s1, d2, 0, d1);
        lemma_holds_in_longer(s2, seq!['.'], 0, d1);
        lemma_holds_in_longer(s3, d3, 0, d1);
        lemma_holds_in_longer(s4, pre, 0, d1);
        lemma_holds_in_longer(s5, build, 0, d1);
    }
    assert(holds_at(s, a + 1, d2)) by {
        lemma_holds_at_end(s1, d2);
        lemma_holds_in_longer(s2, seq!['.'], a + 1, d2);
        lemma_holds_in_longer(s3, d3, a + 1, d2);
        lemma_holds_in_longer(s4, pre, a + 1, d2);
        lemma_holds_in_longer(s5, build, a + 1, d2);
    }
    assert(holds_at(s, b + 1, d3)) by {
        lemma_holds_at_end(s3, d3);
        lemma_holds_in_longer(s4, pre, b + 1, d3);
        lemma_holds_in_longer(s5, build, b + 1, d3);
    }
    assert(holds_at(s, c, pre)) by {
        lemma_holds_at_end(s4, pre);
        lemma_holds_in_longer(s5, build, c, pre);
    }
    assert(holds_at(s, d, build)) by {
        lemma_holds_at_end(s5, build);
    }
    assert(s[a] == '.') by {
        assert(s1[a] == '.');
        assert(s[a] == s1[a]);
    }
    assert(s[b] == '.') by {
        assert(s3[b] == '.');
        assert(s[b] == s3[b]);
    }
    assert forall|k: int| 0 <= k < a implies is_digit(#[trigger] s[k]) by {
        assert(s[0 + k] == d1[k]);
    }
    assert forall|k: int| a + 1 <= k < b implies is_digit(#[trigger] s[k]) by {
        assert(s[a + 1 + (k - a - 1)] == d2[k - a - 1]);
    }
    assert forall|k: int| b + 1 <= k < c implies is_digit(#[trigger] s[k]) by {
        assert(s[b + 1 + (k - b - 1)] == d3[k - b - 1]);
    }
    lemma_digits_run(s, 0, a, to);
    lemma_digits_run(s, a + 1, b, to);
    // what stands behind the patch number
    if v.pre.len() > 0 {
        assert(pre[0] == '-');
        assert(s[c + 0] == pre[0]);
    } else if v.build.len() > 0 {
        assert(build[0] == '+');
        assert(s[d + 0] == build[0]);
    }
    lemma_digits_run(s, b + 1, c, to);
    lemma_number_at(s, 0, v.major);
    lemma_number_at(s, a + 1, v.minor);
    lemma_number_at(s, b + 1, v.patch);
    // the prerelease tag
    if v.pre.len() > 0 {
        let ids = v.pre;
        let text = identifiers_text(ids, ids.len() as int);
        assert(pre == seq!['-'] + text);
        assert(holds_at(s, c + 1, text)) by {
            assert forall|k: int| 0 <= k < text.len() implies s[c + 1 + k] == #[trigger] text[k] by {
                assert(pre[1 + k] == text[k]);
                assert(s[c + (1 + k)] == pre[1 + k]);
            }
        }
        lemma_identifiers_plain(ids, ids.len() as int);
        assert forall|k: int| c + 1 <= k < d implies #[trigger] s[k] != '+' by {
            assert(s[c + 1 + (k - c - 1)] == text[k - c - 1]);
        }
        if v.build.len() > 0 {
            assert(build[0] == '+');
            assert(s[d + 0] == build[0]);
        }
        lemma_index_run(s, '+', c + 1, d, to);
        lemma_identifiers_at(s, c + 1, ids, 0);
        assert(ids.subrange(0, ids.len() as int) =~= ids);
    }
    // the build metadata
    if v.build.len() > 0 {
        let bytes = byte_chars(v.build);
        assert(build == seq!['+'] + bytes);
        assert(build_chars(s, d + 1, to)) by {
            assert forall|k: int| d + 1 <= k < to implies is_word_char(#[trigger] s[k]) || s[k]
                == '.' by {
                assert(build[k - d] == bytes[k - d - 1]);
                assert(s[d + (k - d)] == build[k - d]);
                assert(is_word_char(v.build[k - d - 1] as char) || v.build[k - d - 1] as char
                    == '.');
            }
        }
        assert(bytes_in(s, d + 1, to) =~= v.build) by {
            assert forall|k: int| 0 <= k < v.build.len() implies bytes_in(s, d + 1, to)[k]
                == v.build[k] by {
                assert(build[1 + k] == bytes[k]);
                assert(s[d + (1 + k)] == build[1 + k]);
            }
        }
    }
    assert(digits_end(s, 0, to) == a);
    assert(digits_end(s, a + 1, to) == b);
    assert(digits_end(s, b + 1, to) == c);
    assert(number_in(s, 0, a) == Some(v.major));
    assert(number_in(s, a + 1, b) == Some(v.minor));
    assert(number_in(s, b + 1, c) == Some(v.patch));
    let tagged = c < to && s[c] == '-';
    assert(tagged == (v.pre.len() > 0));
    let plus = if tagged {
        index_of(s, '+', c + 1, to)
    } else {
        c
    };
    assert(plus == d);
    assert((if tagged {
        identifiers_in(s, c + 1, d)
    } else {
        Some(Seq::empty())
    }) == Some(v.pre)) by {
        if !tagged {
            assert(v.pre =~= Seq::empty());
        }
    }
    assert((if d >= to {
        Some(Seq::empty())
    } else if s[d] == '+' {
        build_in(s, d + 1, to)
    } else {
        None
    }) == Some(v.build)) by {
        if d >= to {
            assert(v.build =~= Seq::empty());
        }
    }
    assert(version_in(s, 0, to) == Some(v));
}

} // verus!
