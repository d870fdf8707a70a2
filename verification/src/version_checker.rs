//! The rule by which a node's declared version is held against the version
//! that a client expects.
//!
//! A version is three numerals separated by dots: `major.minor.patch`. A
//! numeral is a non-empty run of decimal digits that starts with `0` only if
//! it is `0` itself. Two versions are compatible when both are well formed and
//! agree in `major.minor`: patch releases of one line work with each other.

use vstd::prelude::*;
use vstd::string::StrSliceExecFns;

verus! {

pub open spec fn is_digit(c: char) -> bool {
    '0' <= c && c <= '9'
}

/// `s` is one component of a version.
pub open spec fn is_numeral(s: Seq<char>) -> bool {
    &&& s.len() > 0
    &&& forall|k: int| 0 <= k < s.len() ==> is_digit(#[trigger] s[k])
    &&& (s.len() > 1 ==> s[0] != '0')
}

/// `v` is `major.minor.patch` with its dots at `i` and `j`.
pub open spec fn splits_at(v: Seq<char>, i: int, j: int) -> bool {
    &&& 0 < i < j < v.len()
    &&& v[i] == '.'
    &&& v[j] == '.'
    &&& is_numeral(v.subrange(0, i))
    &&& is_numeral(v.subrange(i + 1, j))
    &&& is_numeral(v.subrange(j + 1, v.len() as int))
}

/// `v` is a well-formed version.
pub open spec fn is_version(v: Seq<char>) -> bool {
    exists|i: int, j: int| splits_at(v, i, j)
}

/// Where the release line `major.minor` of a well-formed version ends: the
/// place of its second dot.
pub open spec fn release_line_end(v: Seq<char>) -> int {
    let (i, j) = choose|i: int, j: int| splits_at(v, i, j);
    j
}

/// The text `major.minor` of a well-formed version.
pub open spec fn release_line(v: Seq<char>) -> Seq<char> {
    v.subrange(0, release_line_end(v))
}

/// The compatibility rule: both versions are well formed and belong to the
/// same release line.
pub open spec fn compatible(version: Seq<char>, required: Seq<char>) -> bool {
    &&& is_version(version)
    &&& is_version(required)
    &&& release_line(version) == release_line(required)
}

/// A version has its dots in one place only.
pub proof fn lemma_split_is_unique(v: Seq<char>, i: int, j: int, i2: int, j2: int)
    requires
        splits_at(v, i, j),
        splits_at(v, i2, j2),
    ensures
        i == i2,
        j == j2,
{
    let major = v.subrange(0, i);
    let major2 = v.subrange(0, i2);
    if i < i2 {
        assert(major2[i] == v[i]);
        assert(is_digit(major2[i]));
    }
    if i2 < i {
        assert(major[i2] == v[i2]);
        assert(is_digit(major[i2]));
    }
    let minor = v.subrange(i + 1, j);
    let minor2 = v.subrange(i2 + 1, j2);
    if j < j2 {
        assert(minor2[j - i - 1] == v[j]);
        assert(is_digit(minor2[j - i - 1]));
    }
    if j2 < j {
        assert(minor[j2 - i - 1] == v[j2]);
        assert(is_digit(minor[j2 - i - 1]));
    }
}

fn digit(c: char) -> (yes: bool)
    ensures
        yes == is_digit(c),
{
    '0' <= c && c <= '9'
}

/// The end of the run of digits that starts at `start`.
fn scan_digits(text: &str, len: usize, start: usize) -> (end: usize)
    requires
        len == text@.len(),
        start <= len,
    ensures
        start <= end <= len,
        forall|k: int| start <= k < end ==> is_digit(#[trigger] text@[k]),
        end < len ==> !is_digit(text@[end as int]),
{
    let mut end: usize = start;
    while end < len && digit(text.get_char(end))
        invariant
            len == text@.len(),
            start <= end <= len,
            forall|k: int| start <= k < end ==> is_digit(#[trigger] text@[k]),
        decreases len - end,
    {
        end += 1;
    }
    end
}

/// Whether the digits from `start` up to `end` make a numeral.
fn numeral_between(text: &str, start: usize, end: usize) -> (yes: bool)
    requires
        start <= end <= text@.len(),
        forall|k: int| start <= k < end ==> is_digit(#[trigger] text@[k]),
    ensures
        yes == is_numeral(text@.subrange(start as int, end as int)),
{
    let ghost part = text@.subrange(start as int, end as int);
    if end == start {
        return false;
    }
    assert(part[0] == text@[start as int]);
    if end - start > 1 && text.get_char(start) == '0' {
        return false;
    }
    assert forall|k: int| 0 <= k < part.len() implies is_digit(#[trigger] part[k]) by {
        assert(part[k] == text@[start + k]);
    }
    true
}

fn dot_at(text: &str, len: usize, at: usize) -> (yes: bool)
    requires
        len == text@.len(),
        at <= len,
    ensures
        yes == (at < len && text@[at as int] == '.'),
{
    at < len && text.get_char(at) == '.'
}

/// Where the release line of `text` ends, if `text` is a well-formed version.
pub fn parse_release_line(text: &str) -> (end: Option<usize>)
    ensures
        end is Some <==> is_version(text@),
        end matches Some(j) ==> j == release_line_end(text@),
{
    let len = text.unicode_len();
    let ghost v = text@;
    let first = scan_digits(text, len, 0);
    let major_ok = numeral_between(text, 0, first);
    let first_dot = dot_at(text, len, first);
    if !major_ok || !first_dot {
        proof {
            if is_version(v) {
                let (i, j) = choose|i: int, j: int| splits_at(v, i, j);
                lemma_numeral_run(v, 0, i, first as int);
            }
        }
        return None;
    }
    let second = scan_digits(text, len, first + 1);
    let minor_ok = numeral_between(text, first + 1, second);
    let second_dot = dot_at(text, len, second);
    if !minor_ok || !second_dot {
        proof {
            if is_version(v) {
                let (i, j) = choose|i: int, j: int| splits_at(v, i, j);
                lemma_numeral_run(v, 0, i, first as int);
                lemma_numeral_run(v, i + 1, j, second as int);
            }
        }
        return None;
    }
    let last = scan_digits(text, len, second + 1);
    let patch_ok = numeral_between(text, second + 1, last);
    if !patch_ok || last != len {
        proof {
            if is_version(v) {
                let (i, j) = choose|i: int, j: int| splits_at(v, i, j);
                lemma_numeral_run(v, 0, i, first as int);
                lemma_numeral_run(v, i + 1, j, second as int);
                lemma_numeral_run(v, j + 1, v.len() as int, last as int);
            }
        }
        return None;
    }
    proof {
        assert(splits_at(v, first as int, second as int));
        let (i, j) = choose|i: int, j: int| splits_at(v, i, j);
        lemma_split_is_unique(v, i, j, first as int, second as int);
    }
    Some(second)
}

/// A run of digits that starts where a numeral starts ends where the numeral
/// ends, if the numeral is followed by something that is no digit.
proof fn lemma_numeral_run(v: Seq<char>, start: int, stop: int, end: int)
    requires
        0 <= start <= stop <= v.len(),
        is_numeral(v.subrange(start, stop)),
        stop < v.len() ==> !is_digit(v[stop]),
        start <= end <= v.len(),
        forall|k: int| start <= k < end ==> is_digit(#[trigger] v[k]),
        end < v.len() ==> !is_digit(v[end]),
    ensures
        end == stop,
{
    let part = v.subrange(start, stop);
    if end < stop {
        assert(part[end - start] == v[end]);
        assert(is_digit(part[end - start]));
    }
}

/// Whether a node that declares `version` can work with a client that
/// expects `required`.
pub fn is_compatible(version: &str, required: &str) -> (yes: bool)
    ensures
        yes == compatible(version@, required@),
{
    let declared_end = parse_release_line(version);
    let required_end = parse_release_line(required);
    match (declared_end, required_end) {
        (Some(a), Some(b)) => {
            if a != b {
                assert(release_line(version@).len() != release_line(required@).len());
                return false;
            }
            let mut k: usize = 0;
            while k < a
                invariant
                    a == b,
                    k <= a,
                    a == release_line_end(version@),
                    b == release_line_end(required@),
                    is_version(version@),
                    is_version(required@),
                    forall|m: int| 0 <= m < k ==> version@[m] == required@[m],
                decreases a - k,
            {
                if version.get_char(k) != required.get_char(k) {
                    assert(release_line(version@)[k as int] != release_line(required@)[k as int]);
                    return false;
                }
                k += 1;
            }
            assert(release_line(version@) =~= release_line(required@));
            true
        },
        _ => false,
    }
}

} // verus!
