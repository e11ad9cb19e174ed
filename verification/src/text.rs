//! Text as bytes: searching, comparing and splitting byte sequences.
//!
//! Requests arrive as raw bytes and need not be valid UTF-8, so everything
//! here works on `Seq<u8>`.  String literals are used through [`text`], their
//! UTF-8 encoding.

use vstd::prelude::*;
use vstd::string::*;

verus! {

/// The line feed.
pub const LINE_FEED: u8 = 10;

/// The carriage return.
pub const CARRIAGE_RETURN: u8 = 13;

/// The colon.
pub const COLON: u8 = 58;

/// The bytes of a string.
pub open spec fn text(s: &str) -> Seq<u8> {
    s.spec_bytes()
}

/// `needle` is found in `hay` at index `at`.
pub open spec fn occurs_at(hay: Seq<u8>, needle: Seq<u8>, at: int) -> bool {
    &&& 0 <= at
    &&& at + needle.len() <= hay.len()
    &&& hay.subrange(at, at + needle.len()) == needle
}

/// `needle` is found in `hay` at index `at` and nowhere before it.
pub open spec fn is_first_occurrence(hay: Seq<u8>, needle: Seq<u8>, at: int) -> bool {
    &&& occurs_at(hay, needle, at)
    &&& forall|j: int| 0 <= j < at ==> !occurs_at(hay, needle, j)
}

/// The least index at which `needle` is found in `hay`, if there is one.
pub open spec fn first_occurrence(hay: Seq<u8>, needle: Seq<u8>) -> Option<int> {
    if exists|i: int| occurs_at(hay, needle, i) {
        Some(choose|i: int| is_first_occurrence(hay, needle, i))
    } else {
        None
    }
}

/// `hay` begins with `prefix`.
pub open spec fn has_prefix(hay: Seq<u8>, prefix: Seq<u8>) -> bool {
    occurs_at(hay, prefix, 0)
}

proof fn lemma_least_occurrence(hay: Seq<u8>, needle: Seq<u8>, at: int)
    requires
        occurs_at(hay, needle, at),
    ensures
        exists|m: int| is_first_occurrence(hay, needle, m),
    decreases at,
{
    if exists|j: int| 0 <= j < at && occurs_at(hay, needle, j) {
        let j = choose|j: int| 0 <= j < at && occurs_at(hay, needle, j);
        lemma_least_occurrence(hay, needle, j);
    } else {
        assert(is_first_occurrence(hay, needle, at));
    }
}

/// What `first_occurrence` returns: the one index that is a first
/// occurrence, or nothing where the needle occurs nowhere.
pub proof fn lemma_first_occurrence(hay: Seq<u8>, needle: Seq<u8>)
    ensures
        match first_occurrence(hay, needle) {
            Some(i) => is_first_occurrence(hay, needle, i),
            None => forall|j: int| !occurs_at(hay, needle, j),
        },
{
    if exists|i: int| occurs_at(hay, needle, i) {
        let i = choose|i: int| occurs_at(hay, needle, i);
        lemma_least_occurrence(hay, needle, i);
    }
}

/// A first occurrence is the first occurrence.
pub proof fn lemma_first_occurrence_is(hay: Seq<u8>, needle: Seq<u8>, at: int)
    requires
        is_first_occurrence(hay, needle, at),
    ensures
        first_occurrence(hay, needle) == Some(at),
{
    lemma_first_occurrence(hay, needle);
}

/// Appends `bytes` to `out`.
pub fn append(out: &mut Vec<u8>, bytes: &[u8])
    ensures
        final(out)@ == old(out)@ + bytes@,
{
    let mut i: usize = 0;
    while i < bytes.len()
        invariant
            i <= bytes.len(),
            out@ == old(out)@ + bytes@.subrange(0, i as int),
        decreases bytes.len() - i,
    {
        out.push(bytes[i]);
        i += 1;
    }
    assert(bytes@.subrange(0, i as int) == bytes@);
}

/// A copy of `bytes[from..to]`.
pub fn copy_range(bytes: &[u8], from: usize, to: usize) -> (out: Vec<u8>)
    requires
        from <= to <= bytes.len(),
    ensures
        out@ == bytes@.subrange(from as int, to as int),
{
    let mut out: Vec<u8> = Vec::new();
    let mut i: usize = from;
    while i < to
        invariant
            from <= i <= to <= bytes.len(),
            out@ == bytes@.subrange(from as int, i as int),
        decreases to - i,
    {
        out.push(bytes[i]);
        i += 1;
    }
    out
}

/// Whether `needle` is found in `hay` at index `at`.
pub fn matches_at(hay: &[u8], needle: &[u8], at: usize) -> (r: bool)
    ensures
        r == occurs_at(hay@, needle@, at as int),
{
    if at > hay.len() || needle.len() > hay.len() - at {
        return false;
    }
    let mut k: usize = 0;
    while k < needle.len()
        invariant
            at + needle.len() <= hay.len(),
            k <= needle.len(),
            forall|j: int| 0 <= j < k ==> hay@[at + j] == #[trigger] needle@[j],
        decreases needle.len() - k,
    {
        if hay[at + k] != needle[k] {
            assert(hay@.subrange(at as int, at + needle@.len())[k as int] != needle@[k as int]);
            return false;
        }
        k += 1;
    }
    assert(hay@.subrange(at as int, at + needle@.len()) =~= needle@);
    true
}

/// Whether `hay` begins with `prefix`.
pub fn starts_with(hay: &[u8], prefix: &[u8]) -> (r: bool)
    ensures
        r == has_prefix(hay@, prefix@),
{
    matches_at(hay, prefix, 0)
}

/// Whether two byte strings are equal.
pub fn equal(a: &[u8], b: &[u8]) -> (r: bool)
    ensures
        r == (a@ == b@),
{
    if a.len() != b.len() {
        return false;
    }
    let r = matches_at(a, b, 0);
    assert(a@.subrange(0, a@.len() as int) == a@);
    r
}

/// The index of the first occurrence of `needle` in `hay`.
pub fn find(hay: &[u8], needle: &[u8]) -> (r: Option<usize>)
    ensures
        match r {
            Some(i) => first_occurrence(hay@, needle@) == Some(i as int),
            None => first_occurrence(hay@, needle@) == None::<int>,
        },
{
    if needle.len() > hay.len() {
        return None;
    }
    let last: usize = hay.len() - needle.len();
    let mut i: usize = 0;
    while i < last
        invariant
            last == hay.len() - needle.len(),
            i <= last,
            forall|j: int| 0 <= j < i ==> !occurs_at(hay@, needle@, j),
        decreases last - i,
    {
        if matches_at(hay, needle, i) {
            proof {
                lemma_first_occurrence_is(hay@, needle@, i as int);
            }
            return Some(i);
        }
        i += 1;
    }
    if matches_at(hay, needle, last) {
        proof {
            lemma_first_occurrence_is(hay@, needle@, last as int);
        }
        Some(last)
    } else {
        None
    }
}

/// An ASCII capital letter turned into its small letter; any other byte
/// unchanged.
pub open spec fn lower(b: u8) -> u8 {
    if 65 <= b <= 90 {
        (b + 32) as u8
    } else {
        b
    }
}

/// The bytes of `s` from index `at` on spell `name` when ASCII capitals are
/// read as small letters.  `name` itself is taken as it is.
pub open spec fn spells_at(s: Seq<u8>, at: int, name: Seq<u8>) -> bool {
    &&& 0 <= at
    &&& at + name.len() <= s.len()
    &&& forall|k: int| 0 <= k < name.len() ==> lower(s[at + k]) == #[trigger] name[k]
}

/// The first index at or after `from` that holds the byte `a` or the byte
/// `b`, or the end of `s`.
pub open spec fn index_of_either(s: Seq<u8>, from: int, a: u8, b: u8) -> int
    decreases s.len() - from,
{
    if 0 <= from < s.len() && s[from] != a && s[from] != b {
        index_of_either(s, from + 1, a, b)
    } else {
        from
    }
}

/// The first index at or after `from` that holds the byte `b`, or the end of
/// `s`.
pub open spec fn index_of(s: Seq<u8>, from: int, b: u8) -> int {
    index_of_either(s, from, b, b)
}

/// `index_of_either` stays inside the text, passes over no `a` or `b`, and
/// stops on one unless it stops at the end.
pub proof fn lemma_index_of_either(s: Seq<u8>, from: int, a: u8, b: u8)
    requires
        0 <= from <= s.len(),
    ensures
        from <= index_of_either(s, from, a, b) <= s.len(),
        forall|j: int| from <= j < index_of_either(s, from, a, b) ==> s[j] != a && s[j] != b,
        index_of_either(s, from, a, b) < s.len() ==> {
            let b0 = s[index_of_either(s, from, a, b)];
            b0 == a || b0 == b
        },
    decreases s.len() - from,
{
    if from < s.len() && s[from] != a && s[from] != b {
        lemma_index_of_either(s, from + 1, a, b);
    }
}

/// The index that `index_of_either` returns is the one index at or after
/// `from` that holds `a` or `b`, or is the end, with no `a` or `b` before it.
pub proof fn lemma_index_of_either_is(s: Seq<u8>, from: int, a: u8, b: u8, at: int)
    requires
        0 <= from <= at <= s.len(),
        forall|j: int| from <= j < at ==> s[j] != a && s[j] != b,
        at < s.len() ==> s[at] == a || s[at] == b,
    ensures
        index_of_either(s, from, a, b) == at,
    decreases at - from,
{
    if from < at {
        lemma_index_of_either_is(s, from + 1, a, b, at);
    }
}

/// An ASCII capital letter turned into its small letter.
pub fn to_lower(b: u8) -> (r: u8)
    ensures
        r == lower(b),
{
    if 65 <= b && b <= 90 {
        b + 32
    } else {
        b
    }
}

/// Whether the bytes of `s` from `at` on spell `name`, capitals read as
/// small letters.
pub fn spelled_at(s: &[u8], at: usize, name: &[u8]) -> (r: bool)
    ensures
        r == spells_at(s@, at as int, name@),
{
    if at > s.len() || name.len() > s.len() - at {
        return false;
    }
    let mut k: usize = 0;
    while k < name.len()
        invariant
            at + name.len() <= s.len(),
            k <= name.len(),
            forall|j: int| 0 <= j < k ==> lower(s@[at + j]) == #[trigger] name@[j],
        decreases name.len() - k,
    {
        if to_lower(s[at + k]) != name[k] {
            return false;
        }
        k += 1;
    }
    true
}

/// The first index at or after `from` that holds `a` or `b`, or the end.
pub fn find_either(s: &[u8], from: usize, a: u8, b: u8) -> (r: usize)
    ensures
        r == index_of_either(s@, from as int, a, b),
        from <= s.len() ==> from <= r <= s.len(),
        from > s.len() ==> r == from,
{
    let mut i: usize = from;
    while i < s.len() && s[i] != a && s[i] != b
        invariant
            from <= s.len() ==> from <= i <= s.len(),
            from > s.len() ==> i == from,
            index_of_either(s@, i as int, a, b) == index_of_either(s@, from as int, a, b),
        decreases s.len() - i,
    {
        i += 1;
    }
    i
}

/// The first index at or after `from` that holds `b`, or the end.
pub fn find_byte(s: &[u8], from: usize, b: u8) -> (r: usize)
    ensures
        r == index_of(s@, from as int, b),
        from <= s.len() ==> from <= r <= s.len(),
        from > s.len() ==> r == from,
{
    find_either(s, from, b, b)
}

} // verus!
