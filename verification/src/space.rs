//! White space in byte text, and the words it separates.
//!
//! A white-space character is a Unicode `White_Space` code point in its UTF-8
//! encoding, so that splitting and trimming bytes agrees with splitting and
//! trimming the text they encode.  A lead byte always begins a character, so
//! the three encodings below can be recognised at any index without decoding.

use vstd::prelude::*;
use vstd::slice::*;

verus! {

/// Tab, line feed, vertical tab, form feed, carriage return or space.
pub open spec fn is_ascii_space(b: u8) -> bool {
    b == 0x20 || 0x09 <= b <= 0x0d
}

/// U+0085 or U+00A0, encoded.
pub open spec fn is_short_space(a: u8, b: u8) -> bool {
    a == 0xc2 && (b == 0x85 || b == 0xa0)
}

/// U+1680, U+2000 to U+200A, U+2028, U+2029, U+202F, U+205F or U+3000,
/// encoded.
pub open spec fn is_wide_space(a: u8, b: u8, c: u8) -> bool {
    ||| a == 0xe1 && b == 0x9a && c == 0x80
    ||| a == 0xe2 && b == 0x80 && (0x80 <= c <= 0x8a || c == 0xa8 || c == 0xa9 || c == 0xaf)
    ||| a == 0xe2 && b == 0x81 && c == 0x9f
    ||| a == 0xe3 && b == 0x80 && c == 0x80
}

/// The length in bytes of the white-space character that begins at index `i`
/// of `s`; 0 where none begins there.
pub open spec fn space_at(s: Seq<u8>, i: int) -> int {
    if !(0 <= i < s.len()) {
        0
    } else if is_ascii_space(s[i]) {
        1
    } else if i + 1 < s.len() && is_short_space(s[i], s[i + 1]) {
        2
    } else if i + 2 < s.len() && is_wide_space(s[i], s[i + 1], s[i + 2]) {
        3
    } else {
        0
    }
}

/// The length in bytes of the white-space character that ends just before
/// index `end` of `s`; 0 where none ends there.
pub open spec fn space_before(s: Seq<u8>, end: int) -> int {
    if !(0 < end <= s.len()) {
        0
    } else if is_ascii_space(s[end - 1]) {
        1
    } else if 2 <= end && is_short_space(s[end - 2], s[end - 1]) {
        2
    } else if 3 <= end && is_wide_space(s[end - 3], s[end - 2], s[end - 1]) {
        3
    } else {
        0
    }
}

/// The first index at or after `from` where no white-space character begins.
pub open spec fn skip_spaces(s: Seq<u8>, from: int) -> int
    decreases s.len() - from,
{
    if space_at(s, from) > 0 {
        skip_spaces(s, from + space_at(s, from))
    } else {
        from
    }
}

/// The first index at or after `from` where a white-space character begins,
/// or the end of `s`.
pub open spec fn word_end(s: Seq<u8>, from: int) -> int
    decreases s.len() - from,
{
    if 0 <= from < s.len() && space_at(s, from) == 0 {
        word_end(s, from + 1)
    } else {
        from
    }
}

/// The index that is left when the white-space characters that end at `end`
/// are taken away one after the other.
pub open spec fn trim_end(s: Seq<u8>, end: int) -> int
    decreases end,
{
    if space_before(s, end) > 0 {
        trim_end(s, end - space_before(s, end))
    } else {
        end
    }
}

/// `s` without the white space at its two ends.
pub open spec fn trimmed(s: Seq<u8>) -> Seq<u8> {
    let from = skip_spaces(s, 0);
    let to = trim_end(s, s.len() as int);
    if from <= to {
        s.subrange(from, to)
    } else {
        Seq::empty()
    }
}

/// Where the first word at or after `from` begins.
pub open spec fn word_start(s: Seq<u8>, from: int) -> int {
    skip_spaces(s, from)
}

/// The first word at or after `from`: the bytes between the white space
/// that is skipped and the next white space.  Empty where only white space
/// is left.
pub open spec fn word_at(s: Seq<u8>, from: int) -> Seq<u8> {
    s.subrange(word_start(s, from), word_end(s, word_start(s, from)))
}

/// Where the first word at or after `from` ends.
pub open spec fn after_word(s: Seq<u8>, from: int) -> int {
    word_end(s, word_start(s, from))
}

/// `word_end` stays inside the text, passes over no index where white space
/// begins, and stops on one unless it stops at the end.
pub proof fn lemma_word_end(s: Seq<u8>, from: int)
    requires
        0 <= from <= s.len(),
    ensures
        from <= word_end(s, from) <= s.len(),
        forall|j: int| from <= j < word_end(s, from) ==> space_at(s, j) == 0,
        word_end(s, from) < s.len() ==> space_at(s, word_end(s, from)) > 0,
    decreases s.len() - from,
{
    if from < s.len() && space_at(s, from) == 0 {
        lemma_word_end(s, from + 1);
    }
}

/// The length of the white-space character that begins at `i`.
pub fn space_len(s: &[u8], i: usize) -> (n: usize)
    ensures
        n == space_at(s@, i as int),
{
    let len = s.len();
    if i >= len {
        return 0;
    }
    let a = s[i];
    if a == 0x20 || (0x09 <= a && a <= 0x0d) {
        return 1;
    }
    if len - i >= 2 {
        let b = s[i + 1];
        if a == 0xc2 && (b == 0x85 || b == 0xa0) {
            return 2;
        }
        if len - i >= 3 {
            let c = s[i + 2];
            if (a == 0xe1 && b == 0x9a && c == 0x80) || (a == 0xe2 && b == 0x80 && ((0x80 <= c
                && c <= 0x8a) || c == 0xa8 || c == 0xa9 || c == 0xaf)) || (a == 0xe2 && b == 0x81
                && c == 0x9f) || (a == 0xe3 && b == 0x80 && c == 0x80) {
                return 3;
            }
        }
    }
    0
}

/// The length of the white-space character that ends just before `end`.
pub fn space_len_before(s: &[u8], end: usize) -> (n: usize)
    ensures
        n == space_before(s@, end as int),
{
    if end == 0 || end > s.len() {
        return 0;
    }
    let c = s[end - 1];
    if c == 0x20 || (0x09 <= c && c <= 0x0d) {
        return 1;
    }
    if end >= 2 {
        let b = s[end - 2];
        if b == 0xc2 && (c == 0x85 || c == 0xa0) {
            return 2;
        }
        if end >= 3 {
            let a = s[end - 3];
            if (a == 0xe1 && b == 0x9a && c == 0x80) || (a == 0xe2 && b == 0x80 && ((0x80 <= c
                && c <= 0x8a) || c == 0xa8 || c == 0xa9 || c == 0xaf)) || (a == 0xe2 && b == 0x81
                && c == 0x9f) || (a == 0xe3 && b == 0x80 && c == 0x80) {
                return 3;
            }
        }
    }
    0
}

/// The first index at or after `from` where no white space begins.
pub fn skip_space(s: &[u8], from: usize) -> (r: usize)
    ensures
        r == skip_spaces(s@, from as int),
        from <= s.len() ==> from <= r <= s.len(),
        from > s.len() ==> r == from,
        space_at(s@, r as int) == 0,
{
    let mut i: usize = from;
    loop
        invariant
            from <= s.len() ==> from <= i <= s.len(),
            from > s.len() ==> i == from,
            skip_spaces(s@, i as int) == skip_spaces(s@, from as int),
        decreases s.len() - i,
    {
        let n = space_len(s, i);
        if n == 0 {
            return i;
        }
        i += n;
    }
}

/// The first index at or after `from` where white space begins, or the end.
pub fn end_of_word(s: &[u8], from: usize) -> (r: usize)
    ensures
        r == word_end(s@, from as int),
        from <= s.len() ==> from <= r <= s.len(),
        from > s.len() ==> r == from,
        forall|j: int| from <= j < r ==> space_at(s@, j) == 0,
        r < s.len() ==> space_at(s@, r as int) > 0,
{
    proof {
        if from <= s.len() {
            lemma_word_end(s@, from as int);
        }
    }
    let mut i: usize = from;
    while i < s.len() && space_len(s, i) == 0
        invariant
            from <= s.len() ==> from <= i <= s.len(),
            from > s.len() ==> i == from,
            word_end(s@, i as int) == word_end(s@, from as int),
        decreases s.len() - i,
    {
        i += 1;
    }
    i
}

/// `s` without the white space at its two ends.
pub fn trim(s: &[u8]) -> (r: &[u8])
    ensures
        r@ == trimmed(s@),
{
    let from = skip_space(s, 0);
    let mut to: usize = s.len();
    loop
        invariant
            to <= s.len(),
            trim_end(s@, to as int) == trim_end(s@, s@.len() as int),
        ensures
            to <= s.len(),
            to == trim_end(s@, s@.len() as int),
        decreases to,
    {
        let n = space_len_before(s, to);
        if n == 0 {
            break;
        }
        to -= n;
    }
    if from <= to {
        slice_subrange(s, from, to)
    } else {
        let r = slice_subrange(s, 0, 0);
        assert(r@ == Seq::<u8>::empty());
        r
    }
}

} // verus!
