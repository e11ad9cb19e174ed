//! The listener's own responses, read the way it reads requests.
//!
//! A response declares the length of its body.  That the declaration is
//! right is shown here by reading the response back: the reader that frames
//! requests finds the end of the head where the head ends, reads the declared
//! length as the length of the body, and takes the body to be the body.

use vstd::prelude::*;
use vstd::string::*;
use crate::framing::{
    declared_length, header_end, is_complete, is_length_field, lemma_length_field_is, length_name,
    separator,
};
use crate::number::{all_digits, decimal, decimal_round_trip, is_digit, lemma_decimal};
use crate::request::{body_of, head_of};
use crate::response::{lemma_breaks, line, Response, ResponseView};
use crate::space::{skip_spaces, space_at, space_before, trim_end, trimmed};
use crate::text::{
    has_prefix, is_first_occurrence, lemma_first_occurrence_is, lemma_index_of_either_is, lower,
    occurs_at, spells_at, text, COLON, LINE_FEED,
};

verus! {

/// `s` holds no carriage return and no line feed.
spec fn clean(s: Seq<u8>) -> bool {
    forall|i: int| 0 <= i < s.len() ==> s[i] != 13 && s[i] != 10
}

/// Where index `i` of `s` holds a line feed, a byte that is no carriage
/// return follows it.
spec fn breaks_well(s: Seq<u8>, i: int) -> bool {
    s[i] == 10 ==> i + 1 < s.len() && s[i + 1] != 13
}

/// In `s` every line feed is followed by a byte that is no carriage return.
spec fn tame(s: Seq<u8>) -> bool {
    forall|i: int| 0 <= i < s.len() ==> #[trigger] breaks_well(s, i)
}

proof fn lemma_status_line(r: ResponseView)
    ensures
        clean(r.status_line()),
        r.status_line().len() > 0,
        r.status_line()[0] == 72,
{
    reveal_strlit("HTTP/1.1 ");
    reveal_strlit("200 OK");
    reveal_strlit("204 No Content");
    broadcast use is_ascii_spec_bytes;
    assert(is_ascii("HTTP/1.1 "));
    assert(is_ascii("200 OK"));
    assert(is_ascii("204 No Content"));
}

proof fn lemma_content_type_field(r: ResponseView)
    ensures
        clean(r.content_type_field()),
        r.content_type_field().len() > 8,
        r.content_type_field()[8] == 84,
{
    reveal_strlit("Content-Type: ");
    reveal_strlit("; charset=utf-8");
    reveal_strlit("text/html");
    reveal_strlit("application/json");
    reveal_strlit("text/plain");
    broadcast use is_ascii_spec_bytes;
    assert(is_ascii("Content-Type: "));
    assert(is_ascii("; charset=utf-8"));
    assert(is_ascii("text/html"));
    assert(is_ascii("application/json"));
    assert(is_ascii("text/plain"));
}

proof fn lemma_length_names()
    ensures
        length_name().len() == 15,
        text("Content-Length: ").len() == 16,
        text("Content-Length: ")[15] == 32,
        clean(text("Content-Length: ")),
        spells_at(text("Content-Length: "), 0, length_name()),
        length_name()[0] == 99,
        length_name()[8] == 108,
{
    reveal_strlit("Content-Length: ");
    reveal_strlit("content-length:");
    broadcast use is_ascii_spec_bytes;
    assert(is_ascii("Content-Length: "));
    assert(is_ascii("content-length:"));
}

proof fn lemma_content_length_field(r: ResponseView)
    ensures
        clean(r.content_length_field()),
        r.content_length_field().len() > 0,
{
    lemma_length_names();
    lemma_decimal(r.body.len());
    let name = text("Content-Length: ");
    let digits = decimal(r.body.len());
    let field = r.content_length_field();
    assert forall|i: int| 0 <= i < field.len() implies field[i] != 13 && field[i] != 10 by {
        if i >= name.len() {
            assert(is_digit(digits[i - name.len()]));
        }
    }
}

proof fn lemma_fixed_fields()
    ensures
        clean(text("Connection: close")),
        clean(text("Access-Control-Allow-Origin: *")),
        clean(text("Access-Control-Allow-Methods: POST, GET, OPTIONS")),
        clean(text("Access-Control-Allow-Headers: Content-Type")),
        text("Connection: close").len() > 0,
        text("Access-Control-Allow-Origin: *").len() > 0,
        text("Access-Control-Allow-Methods: POST, GET, OPTIONS").len() > 0,
        text("Access-Control-Allow-Headers: Content-Type").len() > 0,
{
    reveal_strlit("Connection: close");
    reveal_strlit("Access-Control-Allow-Origin: *");
    reveal_strlit("Access-Control-Allow-Methods: POST, GET, OPTIONS");
    reveal_strlit("Access-Control-Allow-Headers: Content-Type");
    broadcast use is_ascii_spec_bytes;
    assert(is_ascii("Connection: close"));
    assert(is_ascii("Access-Control-Allow-Origin: *"));
    assert(is_ascii("Access-Control-Allow-Methods: POST, GET, OPTIONS"));
    assert(is_ascii("Access-Control-Allow-Headers: Content-Type"));
}

/// A text without line breaks is tame.
proof fn lemma_clean_is_tame(s: Seq<u8>)
    requires
        clean(s),
    ensures
        tame(s),
{
    assert forall|i: int| 0 <= i < s.len() implies #[trigger] breaks_well(s, i) by {}
}

/// A clean line added to a tame text, after a line break, leaves it tame.
proof fn lemma_tame_join(before: Seq<u8>, next: Seq<u8>)
    requires
        tame(before),
        clean(next),
        next.len() > 0,
    ensures
        tame(line(before) + next),
{
    lemma_breaks();
    let all = line(before) + next;
    assert forall|i: int| 0 <= i < all.len() implies #[trigger] breaks_well(all, i) by {
        if i < before.len() {
            assert(breaks_well(before, i));
            assert(all[i] == before[i]);
            if i + 1 < before.len() {
                assert(all[i + 1] == before[i + 1]);
            }
        } else if i == before.len() + 1 {
            assert(all[i + 1] == next[0]);
        } else {
            assert(all[i] == 13 || all[i] == next[i - before.len() - 2]);
        }
    }
}

/// Lines one after the other are the lines joined by line breaks, and a
/// line break.
proof fn lemma_line_joined(before: Seq<u8>, next: Seq<u8>)
    ensures
        line(before) + line(next) == line(line(before) + next),
{
    assert(line(before) + line(next) =~= line(line(before) + next));
}

/// A text begins with itself, whatever follows.
proof fn lemma_prefix_extends(s: Seq<u8>, p: Seq<u8>, more: Seq<u8>)
    requires
        has_prefix(s, p),
    ensures
        has_prefix(s + more, p),
{
    assert((s + more).subrange(0, p.len() as int) == s.subrange(0, p.len() as int));
}

/// In a tame text that a blank line follows, that blank line is the first.
proof fn lemma_first_blank_line(x: Seq<u8>, body: Seq<u8>)
    requires
        tame(x),
    ensures
        is_first_occurrence(line(line(x)) + body, separator(), x.len() as int),
{
    lemma_breaks();
    let frame = line(line(x)) + body;
    let at = x.len() as int;
    assert(frame.subrange(at, at + 4) == separator());
    assert forall|j: int| 0 <= j < at implies !occurs_at(frame, separator(), j) by {
        if occurs_at(frame, separator(), j) {
            let part = frame.subrange(j, j + 4);
            assert(part[1] == 10 && part[2] == 13);
            assert(frame[j + 1] == 10 && frame[j + 2] == 13);
            if j + 1 < at {
                assert(breaks_well(x, j + 1));
                assert(frame[j + 1] == x[j + 1]);
                if j + 2 < at {
                    assert(frame[j + 2] == x[j + 2]);
                }
            } else {
                assert(frame[j + 1] == 13);
            }
        }
    }
}

/// Digits between a space and a carriage return are what is left when the
/// white space is trimmed.
proof fn lemma_trimmed_value(digits: Seq<u8>)
    requires
        all_digits(digits),
        digits.len() > 0,
    ensures
        trimmed(seq![32u8] + digits + seq![13u8]) == digits,
{
    let s = seq![32u8] + digits + seq![13u8];
    let n = s.len() as int;
    assert(s[0] == 32);
    assert(s[1] == digits[0] && is_digit(digits[0]));
    assert(space_at(s, 0) == 1);
    assert(space_at(s, 1) == 0);
    assert(skip_spaces(s, 1) == 1);
    assert(skip_spaces(s, 0) == 1);
    assert(s[n - 1] == 13);
    assert(s[n - 2] == digits[digits.len() - 1] && is_digit(digits[digits.len() - 1]));
    assert(space_before(s, n) == 1);
    assert(space_before(s, n - 1) == 0);
    assert(trim_end(s, n - 1) == n - 1);
    assert(trim_end(s, n) == n - 1);
    assert(s.subrange(1, n - 1) == digits);
}

/// A header block that begins with the first three lines of a response
/// declares the length of that response's body.
proof fn lemma_declares(r: ResponseView, x: Seq<u8>)
    requires
        r.body.len() <= usize::MAX,
        has_prefix(
            x,
            line(line(line(r.status_line()) + r.content_type_field()) + r.content_length_field()),
        ),
    ensures
        declared_length(x) == Some(r.body.len()),
{
    lemma_breaks();
    lemma_status_line(r);
    lemma_content_type_field(r);
    lemma_length_names();
    lemma_decimal(r.body.len());
    let first = r.status_line();
    let second = r.content_type_field();
    let name = text("Content-Length: ");
    let digits = decimal(r.body.len());
    let two = line(line(first) + second);
    let three = line(two + r.content_length_field());
    let at = two.len() as int;
    assert(x.subrange(0, three.len() as int) == three);
    assert forall|i: int| 0 <= i < three.len() implies x[i] == three[i] by {
        assert(x.subrange(0, three.len() as int)[i] == three[i]);
    }
    assert(at == first.len() + second.len() + 4);
    assert(three.len() == at + 16 + digits.len() + 2);
    assert forall|k: int| 0 <= k < 16 implies x[at + k] == name[k] by {
        assert(three[at + k] == name[k]);
    }
    assert forall|k: int| 0 <= k < digits.len() implies x[at + 16 + k] == digits[k] by {
        assert(three[at + 16 + k] == digits[k]);
    }
    assert(x[at - 1] == 10) by {
        assert(three[at - 1] == 10);
    }
    assert(x[at + 16 + digits.len()] == 13) by {
        assert(three[at + 16 + digits.len()] == 13);
    }
    assert(x[at + 16 + digits.len() + 1] == 10) by {
        assert(three[at + 16 + digits.len() + 1] == 10);
    }
    assert(is_length_field(x, at)) by {
        assert forall|k: int| 0 <= k < length_name().len() implies lower(x[at + k])
            == #[trigger] length_name()[k] by {
            assert(x[at + k] == name[0 + k]);
        }
    }
    assert forall|j: int| 0 <= j < at implies !is_length_field(x, j) by {
        if j == 0 {
            assert(x[0] == three[0]);
            assert(three[0] == first[0]);
            assert(length_name()[0] == 99);
        } else if j == first.len() + 2 {
            assert(x[j + 8] == three[j + 8]);
            assert(three[j + 8] == second[8]);
            assert(length_name()[8] == 108);
        } else {
            assert(x[j - 1] == three[j - 1]);
            if j - 1 < first.len() {
                assert(three[j - 1] == first[j - 1]);
            } else if j - 1 == first.len() {
                assert(three[j - 1] == 13);
            } else if j - 1 < first.len() + 2 + second.len() {
                assert(three[j - 1] == second[j - 1 - first.len() - 2]);
            } else {
                assert(three[j - 1] == 13);
            }
        }
    }
    lemma_length_field_is(x, at);
    let from = at + 15;
    let to = at + 16 + digits.len() + 1;
    assert forall|j: int| from <= j < to implies x[j] != 58 && x[j] != 10 by {
        if j == from {
            assert(x[at + 15] == name[15]);
        } else if j < at + 16 + digits.len() {
            assert(x[at + 16 + (j - at - 16)] == digits[j - at - 16]);
            assert(is_digit(digits[j - at - 16]));
        }
    }
    lemma_index_of_either_is(x, from, COLON, LINE_FEED, to);
    assert(x.subrange(from, to) == seq![32u8] + digits + seq![13u8]);
    lemma_trimmed_value(digits);
    decimal_round_trip(r.body.len());
}

/// The length that a response declares is the length of its body.  Read as
/// a message, the frame of a response has its first blank line at the end of
/// its head, declares in its header block as many bytes as its body holds,
/// holds that body after the blank line, and is whole.
pub proof fn declared_length_is_body_length(response: Response)
    ensures
        header_end(response@.frame()) == Some(response@.head().len() - separator().len()),
        declared_length(head_of(response@.frame())) == Some(response@.body.len()),
        body_of(response@.frame()) == response@.body,
        is_complete(response@.frame()),
{
    let r = response@;
    assert(r.body.len() == response.body.len());
    lemma_breaks();
    lemma_status_line(r);
    lemma_content_type_field(r);
    lemma_content_length_field(r);
    lemma_fixed_fields();
    let blank = text("\r\n");
    let l4 = text("Connection: close");
    let l5 = text("Access-Control-Allow-Origin: *");
    let l6 = text("Access-Control-Allow-Methods: POST, GET, OPTIONS");
    let l7 = text("Access-Control-Allow-Headers: Content-Type");
    let x1 = r.status_line();
    let x2 = line(x1) + r.content_type_field();
    let x3 = line(x2) + r.content_length_field();
    let x4 = line(x3) + l4;
    let x5 = line(x4) + l5;
    let x6 = line(x5) + l6;
    let x7 = line(x6) + l7;
    lemma_clean_is_tame(x1);
    lemma_tame_join(x1, r.content_type_field());
    lemma_tame_join(x2, r.content_length_field());
    lemma_tame_join(x3, l4);
    lemma_tame_join(x4, l5);
    lemma_tame_join(x5, l6);
    lemma_tame_join(x6, l7);
    lemma_line_joined(x1, r.content_type_field());
    lemma_line_joined(x2, r.content_length_field());
    lemma_line_joined(x3, l4);
    lemma_line_joined(x4, l5);
    lemma_line_joined(x5, l6);
    lemma_line_joined(x6, l7);
    assert(r.head() == line(line(x7)));
    let frame = r.frame();
    let end = x7.len() as int;
    lemma_first_blank_line(x7, r.body);
    lemma_first_occurrence_is(frame, separator(), end);
    assert(head_of(frame) == x7) by {
        assert(frame.subrange(0, end) == x7);
    }
    assert(body_of(frame) == r.body) by {
        assert(frame.subrange(end + 4, frame.len() as int) == r.body);
    }
    assert(has_prefix(line(x3), line(x3))) by {
        assert(line(x3).subrange(0, line(x3).len() as int) == line(x3));
    }
    lemma_prefix_extends(line(x3), line(x3), l4);
    lemma_prefix_extends(x4, line(x3), blank);
    lemma_prefix_extends(line(x4), line(x3), l5);
    lemma_prefix_extends(x5, line(x3), blank);
    lemma_prefix_extends(line(x5), line(x3), l6);
    lemma_prefix_extends(x6, line(x3), blank);
    lemma_prefix_extends(line(x6), line(x3), l7);
    lemma_declares(r, x7);
}

} // verus!
