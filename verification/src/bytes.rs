//! Searching and trimming byte strings.

use crate::ascii::{CR, LF};
use vstd::prelude::*;

verus! {

/// Index of the first occurrence of `b` in `s` at or after `from`, or
/// `s.len()` if there is none.
pub open spec fn first_byte_from(s: Seq<u8>, b: u8, from: int) -> int
    decreases s.len() - from,
{
    if from >= s.len() {
        s.len() as int
    } else if s[from] == b {
        from
    } else {
        first_byte_from(s, b, from + 1)
    }
}

/// Index of the first occurrence of `b` in `s`, or `s.len()` if `b` does not
/// occur.
pub open spec fn first_byte(s: Seq<u8>, b: u8) -> int {
    first_byte_from(s, b, 0)
}

proof fn lemma_first_byte_from(s: Seq<u8>, b: u8, from: int)
    requires
        0 <= from <= s.len(),
    ensures
        from <= first_byte_from(s, b, from) <= s.len(),
        first_byte_from(s, b, from) < s.len() ==> s[first_byte_from(s, b, from)] == b,
        forall|j: int| from <= j < first_byte_from(s, b, from) ==> s[j] != b,
    decreases s.len() - from,
{
    if from < s.len() && s[from] != b {
        lemma_first_byte_from(s, b, from + 1);
    }
}

proof fn lemma_first_byte_from_is(s: Seq<u8>, b: u8, from: int, i: int)
    requires
        0 <= from <= i <= s.len(),
        i < s.len() ==> s[i] == b,
        forall|j: int| from <= j < i ==> s[j] != b,
    ensures
        first_byte_from(s, b, from) == i,
    decreases s.len() - from,
{
    if from < i {
        lemma_first_byte_from_is(s, b, from + 1, i);
    }
}

/// What `first_byte` returns: an index within `0..=s.len()` before which `b`
/// does not occur and at which it does, unless the index is `s.len()`.
pub proof fn lemma_first_byte(s: Seq<u8>, b: u8)
    ensures
        0 <= first_byte(s, b) <= s.len(),
        first_byte(s, b) < s.len() ==> s[first_byte(s, b)] == b,
        forall|j: int| 0 <= j < first_byte(s, b) ==> s[j] != b,
{
    lemma_first_byte_from(s, b, 0);
}

/// The converse of `lemma_first_byte`: such an index is `first_byte(s, b)`.
pub proof fn lemma_first_byte_is(s: Seq<u8>, b: u8, i: int)
    requires
        0 <= i <= s.len(),
        i < s.len() ==> s[i] == b,
        forall|j: int| 0 <= j < i ==> s[j] != b,
    ensures
        first_byte(s, b) == i,
{
    lemma_first_byte_from_is(s, b, 0, i);
}

/// Whether `s` holds the byte `b`.
pub open spec fn holds_byte(s: Seq<u8>, b: u8) -> bool {
    exists|i: int| 0 <= i < s.len() && s[i] == b
}

/// In a concatenation whose first part does not hold `b`, the first `b` is
/// the first `b` of the second part.
pub proof fn lemma_first_byte_after(head: Seq<u8>, tail: Seq<u8>, b: u8)
    requires
        !holds_byte(head, b),
    ensures
        first_byte(head + tail, b) == head.len() + first_byte(tail, b),
{
    lemma_first_byte(tail, b);
    lemma_first_byte_is(head + tail, b, head.len() + first_byte(tail, b));
}

/// Finds the first occurrence of `b` in `s`.
pub fn find_byte(s: &[u8], b: u8) -> (i: usize)
    ensures
        i == first_byte(s@, b),
{
    let mut i: usize = 0;
    while i < s.len() && s[i] != b
        invariant
            i <= s.len(),
            forall|j: int| 0 <= j < i ==> s@[j] != b,
        decreases s.len() - i,
    {
        i += 1;
    }
    proof {
        lemma_first_byte_is(s@, b, i as int);
    }
    i
}

/// Whether `needle` lies in `hay` at index `i`.
pub open spec fn occurs_at(hay: Seq<u8>, needle: Seq<u8>, i: int) -> bool {
    0 <= i && i + needle.len() <= hay.len() && hay.subrange(i, i + needle.len()) == needle
}

/// Index of the first occurrence of `needle` in `hay` at or after `from`, if
/// there is one.
pub open spec fn first_occurrence_from(hay: Seq<u8>, needle: Seq<u8>, from: int) -> Option<int>
    decreases hay.len() - needle.len() - from + 1,
{
    if from + needle.len() > hay.len() {
        None
    } else if occurs_at(hay, needle, from) {
        Some(from)
    } else {
        first_occurrence_from(hay, needle, from + 1)
    }
}

/// Index of the first occurrence of `needle` in `hay`, if it occurs.
pub open spec fn first_occurrence(hay: Seq<u8>, needle: Seq<u8>) -> Option<int> {
    first_occurrence_from(hay, needle, 0)
}

proof fn lemma_first_occurrence_from(hay: Seq<u8>, needle: Seq<u8>, from: int)
    requires
        0 <= from,
    ensures
        match first_occurrence_from(hay, needle, from) {
            Some(i) => from <= i && occurs_at(hay, needle, i) && forall|j: int|
                from <= j < i ==> !occurs_at(hay, needle, j),
            None => forall|j: int| from <= j ==> !occurs_at(hay, needle, j),
        },
    decreases hay.len() - needle.len() - from + 1,
{
    if from + needle.len() <= hay.len() && !occurs_at(hay, needle, from) {
        lemma_first_occurrence_from(hay, needle, from + 1);
    }
}

proof fn lemma_first_occurrence_from_is(hay: Seq<u8>, needle: Seq<u8>, from: int, i: int)
    requires
        0 <= from <= i,
        occurs_at(hay, needle, i),
        forall|j: int| from <= j < i ==> !occurs_at(hay, needle, j),
    ensures
        first_occurrence_from(hay, needle, from) == Some(i),
    decreases i - from,
{
    if from < i {
        lemma_first_occurrence_from_is(hay, needle, from + 1, i);
    }
}

/// What `first_occurrence` returns: the least index at which `needle` lies,
/// and nothing exactly when it lies nowhere.
pub proof fn lemma_first_occurrence(hay: Seq<u8>, needle: Seq<u8>)
    ensures
        match first_occurrence(hay, needle) {
            Some(i) => occurs_at(hay, needle, i) && forall|j: int|
                0 <= j < i ==> !occurs_at(hay, needle, j),
            None => forall|j: int| !occurs_at(hay, needle, j),
        },
{
    lemma_first_occurrence_from(hay, needle, 0);
}

/// The converse of `lemma_first_occurrence`: an index at which `needle` lies
/// and before which it does not is the one that `first_occurrence` finds.
pub proof fn lemma_first_occurrence_is(hay: Seq<u8>, needle: Seq<u8>, i: int)
    requires
        occurs_at(hay, needle, i),
        forall|j: int| 0 <= j < i ==> !occurs_at(hay, needle, j),
    ensures
        first_occurrence(hay, needle) == Some(i),
{
    lemma_first_occurrence_from_is(hay, needle, 0, i);
}

/// Whether `s` begins with `prefix`.
pub fn starts_with(s: &[u8], prefix: &[u8]) -> (b: bool)
    ensures
        b == prefix@.is_prefix_of(s@),
{
    if prefix.len() > s.len() {
        return false;
    }
    let mut i: usize = 0;
    while i < prefix.len()
        invariant
            i <= prefix.len() <= s.len(),
            forall|j: int| 0 <= j < i ==> s@[j] == prefix@[j],
        decreases prefix.len() - i,
    {
        if s[i] != prefix[i] {
            assert(s@.subrange(0, prefix@.len() as int)[i as int] != prefix@[i as int]);
            return false;
        }
        i += 1;
    }
    assert(prefix@ =~= s@.subrange(0, prefix@.len() as int));
    true
}

/// Whether `s` ends with `suffix`.
pub fn ends_with(s: &[u8], suffix: &[u8]) -> (b: bool)
    ensures
        b == suffix@.is_suffix_of(s@),
{
    if suffix.len() > s.len() {
        return false;
    }
    let start = s.len() - suffix.len();
    let b = starts_with(&s[start..s.len()], suffix);
    assert(s@.subrange(start as int, s@.len() as int).subrange(0, suffix@.len() as int)
        =~= s@.subrange(s@.len() - suffix@.len(), s@.len() as int));
    b
}

/// Finds the first occurrence of `needle` in `hay`.
pub fn find_subslice(hay: &[u8], needle: &[u8]) -> (found: Option<usize>)
    ensures
        match found {
            Some(i) => first_occurrence(hay@, needle@) == Some(i as int),
            None => first_occurrence(hay@, needle@) is None,
        },
{
    if needle.len() > hay.len() {
        return None;
    }
    let last = hay.len() - needle.len();
    let mut i: usize = 0;
    while i <= last
        invariant
            last == hay.len() - needle.len(),
            i <= last + 1,
            forall|j: int| 0 <= j < i ==> !occurs_at(hay@, needle@, j),
        decreases last + 1 - i,
    {
        let here = starts_with(&hay[i..hay.len()], needle);
        assert(hay@.subrange(i as int, hay@.len() as int).subrange(0, needle@.len() as int)
            =~= hay@.subrange(i as int, i + needle@.len()));
        if here {
            proof {
                lemma_first_occurrence_is(hay@, needle@, i as int);
            }
            return Some(i);
        }
        i += 1;
    }
    proof {
        lemma_first_occurrence(hay@, needle@);
    }
    None
}

/// `s` without one trailing line feed, if it ends with one.
pub open spec fn without_newline(s: Seq<u8>) -> Seq<u8> {
    if s.len() > 0 && s.last() == LF {
        s.drop_last()
    } else {
        s
    }
}

/// `s` without one trailing line terminator: `\r\n` if it ends with that,
/// else `\n` if it ends with that, else nothing is removed.
pub open spec fn chomped(s: Seq<u8>) -> Seq<u8> {
    if s.len() >= 2 && s[s.len() - 2] == CR && s[s.len() - 1] == LF {
        s.subrange(0, s.len() - 2)
    } else {
        without_newline(s)
    }
}

/// Removes a trailing `\n`.
pub fn strip_newline(slice: &[u8]) -> (out: &[u8])
    ensures
        out@ == without_newline(slice@),
{
    let n = slice.len();
    if n >= 1 && slice[n - 1] == LF {
        &slice[0..n - 1]
    } else {
        slice
    }
}

/// Removes a trailing `\r\n` or, failing that, a trailing `\n`.
pub fn chomp(slice: &[u8]) -> (out: &[u8])
    ensures
        out@ == chomped(slice@),
{
    let n = slice.len();
    if n >= 2 && slice[n - 2] == CR && slice[n - 1] == LF {
        &slice[0..n - 2]
    } else {
        strip_newline(slice)
    }
}

} // verus!
