use vstd::prelude::*;

use crate::errors::{Error, ErrorView};
use crate::text::{chars_of, decimal, join, lemma_join_prepend, push_decimal, push_str, string_from_range};
use vstd::string::*;
use vstd::utf8::*;

verus! {

broadcast use {vstd::string::group_string_axioms, vstd::slice::group_slice_axioms};

/// The UTF-8 bytes of a text.
pub open spec fn bytes_of(s: Seq<char>) -> Seq<u8> {
    encode_utf8(s)
}

/// `length`: the length of a string in bytes.
pub fn string_length(value: &str) -> (n: usize)
    ensures
        n == bytes_of(value@).len(),
{
    value.as_bytes().len()
}

/// The message of an index past the end of a string.
pub open spec fn char_at_message(idx: usize, len: nat) -> Seq<char> {
    "Index out of bounds: "@ + decimal(idx as nat) + " for string of length "@ + decimal(len)
}

/// The message of a range that is no substring.
pub open spec fn substr_message(start: usize, end: usize, len: nat) -> Seq<char> {
    "Invalid substring range: "@ + decimal(start as nat) + " to "@ + decimal(end as nat)
        + " for string of length "@ + decimal(len)
}

/// A boundary of a valid UTF-8 text splits it in two valid texts, and a boundary of the
/// whole is one of either part.
proof fn lemma_boundary_in_part(b: Seq<u8>, cut: int, p: int)
    requires
        valid_utf8(b),
        is_char_boundary(b, cut),
        is_char_boundary(b, p),
    ensures
        valid_utf8(b.subrange(0, cut)),
        valid_utf8(b.subrange(cut, b.len() as int)),
        p <= cut ==> is_char_boundary(b.subrange(0, cut), p),
        cut <= p ==> is_char_boundary(b.subrange(cut, b.len() as int), p - cut),
{
    valid_utf8_split(b, cut);
    let head = b.subrange(0, cut);
    let tail = b.subrange(cut, b.len() as int);
    is_char_boundary_start_end_of_seq(head);
    is_char_boundary_start_end_of_seq(tail);
    if 0 <= p < cut {
        is_char_boundary_iff_not_is_continuation_byte(b, p);
        is_char_boundary_iff_not_is_continuation_byte(head, p);
    }
    if cut <= p < b.len() {
        is_char_boundary_iff_not_is_continuation_byte(b, p);
        is_char_boundary_iff_not_is_continuation_byte(tail, p - cut);
    }
}

/// `char_at`: the one-byte string at byte `idx`, or an error past the end. Where the byte at
/// `idx` is not a whole character, the slice is not a string, so that input is left out.
pub fn string_char_at(value: &str, idx: usize) -> (r: Result<String, Error>)
    requires
        idx < bytes_of(value@).len() ==> is_char_boundary(bytes_of(value@), idx as int)
            && is_char_boundary(bytes_of(value@), idx + 1),
    ensures
        idx < bytes_of(value@).len() ==> (r matches Ok(s) && bytes_of(s@) == bytes_of(
            value@,
        ).subrange(idx as int, idx + 1)),
        idx >= bytes_of(value@).len() ==> (r matches Err(e) && e@ == ErrorView::RuntimeError(
            char_at_message(idx, bytes_of(value@).len()),
        )),
{
    let len = value.as_bytes().len();
    if idx < len {
        let ghost b = value.spec_bytes();
        proof {
            encode_utf8_valid_utf8(value@);
            lemma_boundary_in_part(b, idx as int, idx + 1);
        }
        let (_, rest) = value.split_at(idx);
        let (piece, _) = rest.split_at(1);
        let s = piece.to_owned();
        proof {
            assert(piece.spec_bytes() =~= b.subrange(idx as int, idx + 1));
        }
        Ok(s)
    } else {
        let mut message = String::new();
        push_str(&mut message, "Index out of bounds: ");
        push_decimal(&mut message, idx);
        push_str(&mut message, " for string of length ");
        push_decimal(&mut message, len);
        Err(Error::RuntimeError(message))
    }
}

/// `substr`: the bytes `start..end` as a string, or an error where the range is not inside
/// the string. A range inside the string whose ends cut a character is left out: its slice
/// is not a string.
pub fn string_substr(value: &str, start: usize, end: usize) -> (r: Result<String, Error>)
    requires
        start <= end <= bytes_of(value@).len() ==> is_char_boundary(bytes_of(value@), start as int)
            && is_char_boundary(bytes_of(value@), end as int),
    ensures
        start <= end <= bytes_of(value@).len() ==> (r matches Ok(s) && bytes_of(s@) == bytes_of(
            value@,
        ).subrange(start as int, end as int)),
        !(start <= end <= bytes_of(value@).len()) ==> (r matches Err(e) && e@
            == ErrorView::RuntimeError(substr_message(start, end, bytes_of(value@).len()))),
{
    let len = value.as_bytes().len();
    if start <= end && end <= len {
        let ghost b = value.spec_bytes();
        proof {
            encode_utf8_valid_utf8(value@);
            lemma_boundary_in_part(b, end as int, start as int);
        }
        let (head, _) = value.split_at(end);
        let (_, piece) = head.split_at(start);
        let s = piece.to_owned();
        proof {
            assert(piece.spec_bytes() =~= b.subrange(start as int, end as int));
        }
        Ok(s)
    } else {
        let mut message = String::new();
        push_str(&mut message, "Invalid substring range: ");
        push_decimal(&mut message, start);
        push_str(&mut message, " to ");
        push_decimal(&mut message, end);
        push_str(&mut message, " for string of length ");
        push_decimal(&mut message, len);
        Err(Error::RuntimeError(message))
    }
}

/// `sep` occurs in `s` at `i`.
pub open spec fn occurs_at(s: Seq<char>, sep: Seq<char>, i: int) -> bool {
    0 <= i && i + sep.len() <= s.len() && s.subrange(i, i + sep.len()) == sep
}

/// The first place at or after `i` where `sep` occurs in `s`.
pub open spec fn next_occurrence(s: Seq<char>, sep: Seq<char>, i: int) -> Option<int>
    decreases s.len() + 1 - i,
{
    if i < 0 || i + sep.len() > s.len() {
        None
    } else if occurs_at(s, sep, i) {
        Some(i)
    } else {
        next_occurrence(s, sep, i + 1)
    }
}

/// What [`next_occurrence`] finds is an occurrence, at or after where it starts.
pub proof fn lemma_next_occurrence(s: Seq<char>, sep: Seq<char>, i: int)
    ensures
        next_occurrence(s, sep, i) matches Some(j) ==> i <= j && occurs_at(s, sep, j),
    decreases s.len() + 1 - i,
{
    if !(i < 0 || i + sep.len() > s.len()) && !occurs_at(s, sep, i) {
        lemma_next_occurrence(s, sep, i + 1);
    }
}

/// The pieces of `s` from `start` on, cut at each leftmost occurrence of a non-empty `sep`.
pub open spec fn pieces_from(s: Seq<char>, sep: Seq<char>, start: int) -> Seq<Seq<char>>
    decreases s.len() - start,
{
    if sep.len() == 0 || start < 0 || start > s.len() {
        Seq::empty()
    } else {
        match next_occurrence(s, sep, start) {
            Some(i) => {
                proof {
                    lemma_next_occurrence(s, sep, start);
                }
                seq![s.subrange(start, i)] + pieces_from(s, sep, i + sep.len())
            },
            None => seq![s.subrange(start, s.len() as int)],
        }
    }
}

/// How `split` cuts a text: at each leftmost occurrence of the separator; an empty separator
/// cuts before and after each character.
pub open spec fn split_by(s: Seq<char>, sep: Seq<char>) -> Seq<Seq<char>> {
    if sep.len() == 0 {
        Seq::new(
            s.len() + 2,
            |k: int|
                if 1 <= k <= s.len() {
                    seq![s[k - 1]]
                } else {
                    Seq::empty()
                },
        )
    } else {
        pieces_from(s, sep, 0)
    }
}

/// Whether `sep` occurs in `s` at `i`.
fn occurs_at_exec(s: &Vec<char>, sep: &Vec<char>, i: usize) -> (b: bool)
    requires
        i + sep@.len() <= s@.len(),
    ensures
        b == occurs_at(s@, sep@, i as int),
{
    let m = sep.len();
    let n = s.len();
    let mut k: usize = 0;
    while k < m
        invariant
            m == sep@.len(),
            n == s@.len(),
            k <= m,
            i + m <= n,
            forall|j: int| 0 <= j < k ==> s@[i + j] == sep@[j],
        decreases m - k,
    {
        if s[i + k] != sep[k] {
            assert(s@.subrange(i as int, i + m)[k as int] != sep@[k as int]);
            return false;
        }
        k = k + 1;
    }
    assert(s@.subrange(i as int, i + m) =~= sep@);
    true
}

/// `split`: the pieces of a string between the occurrences of a separator.
pub fn string_split(value: &str, separator: &str) -> (parts: Vec<String>)
    ensures
        parts@.map_values(|p: String| p@) == split_by(value@, separator@),
{
    let s = chars_of(value);
    let sep = chars_of(separator);
    let mut parts: Vec<String> = Vec::new();
    let ghost want = split_by(s@, sep@);
    if sep.len() == 0 {
        parts.push(String::new());
        let mut k: usize = 0;
        while k < s.len()
            invariant
                sep@.len() == 0,
                want == split_by(s@, sep@),
                k <= s@.len(),
                parts@.map_values(|p: String| p@) =~= want.take(k + 1),
            decreases s@.len() - k,
        {
            let ghost before = parts@.map_values(|p: String| p@);
            let piece = string_from_range(&s, k, k + 1);
            parts.push(piece);
            k = k + 1;
            assert(piece@ =~= seq![s@[k - 1]]);
            assert(parts@.map_values(|p: String| p@) =~= before.push(piece@));
            assert(want.take(k + 1) =~= want.take(k as int).push(want[k as int]));
        }
        let ghost before = parts@.map_values(|p: String| p@);
        let last = String::new();
        parts.push(last);
        assert(parts@.map_values(|p: String| p@) =~= before.push(last@));
        assert(want =~= want.take(s@.len() as int + 1).push(want[s@.len() as int + 1]));
        return parts;
    }
    let m = sep.len();
    let mut start: usize = 0;
    let mut i: usize = 0;
    while m <= s.len() - i
        invariant
            m == sep@.len(),
            m > 0,
            want == pieces_from(s@, sep@, 0),
            start <= i <= s@.len(),
            next_occurrence(s@, sep@, start as int) == next_occurrence(s@, sep@, i as int),
            parts@.map_values(|p: String| p@) + pieces_from(s@, sep@, start as int) == want,
        decreases s@.len() - i,
    {
        if occurs_at_exec(&s, &sep, i) {
            let ghost before = parts@.map_values(|p: String| p@);
            let piece = string_from_range(&s, start, i);
            parts.push(piece);
            assert(parts@.map_values(|p: String| p@) =~= before.push(piece@));
            assert(pieces_from(s@, sep@, start as int) =~= seq![piece@] + pieces_from(
                s@,
                sep@,
                i + m,
            ));
            assert(before + pieces_from(s@, sep@, start as int) =~= before.push(piece@)
                + pieces_from(s@, sep@, i + m));
            start = i + m;
            i = i + m;
        } else {
            i = i + 1;
        }
    }
    let ghost before = parts@.map_values(|p: String| p@);
    let piece = string_from_range(&s, start, s.len());
    parts.push(piece);
    assert(parts@.map_values(|p: String| p@) =~= before + pieces_from(s@, sep@, start as int));
    parts
}

/// Joining the joined pieces of a non-empty separator from `start` gives the text from `start`.
proof fn lemma_join_pieces(s: Seq<char>, sep: Seq<char>, start: int)
    requires
        sep.len() > 0,
        0 <= start <= s.len(),
    ensures
        pieces_from(s, sep, start).len() > 0,
        join(pieces_from(s, sep, start), sep) == s.subrange(start, s.len() as int),
    decreases s.len() - start,
{
    lemma_next_occurrence(s, sep, start);
    match next_occurrence(s, sep, start) {
        Some(i) => {
            let m = sep.len();
            lemma_join_pieces(s, sep, i + m);
            let rest = pieces_from(s, sep, i + m);
            lemma_join_prepend(s.subrange(start, i), rest, sep);
            assert(s.subrange(start, s.len() as int) =~= s.subrange(start, i) + s.subrange(i, i + m)
                + s.subrange(i + m, s.len() as int));
        },
        None => {},
    }
}

/// Splitting a text and joining the pieces again with the same separator gives the text back.
pub proof fn law_split_join(s: Seq<char>, sep: Seq<char>)
    ensures
        join(split_by(s, sep), sep) == s,
{
    if sep.len() == 0 {
        let parts = split_by(s, sep);
        assert forall|k: int| 0 <= k <= s.len() implies join(#[trigger] parts.take(k + 1), sep) == s.take(k) by {
            lemma_join_chars(s, sep, k);
        }
        assert(parts.take(s.len() as int + 1).len() == s.len() + 1);
        assert(join(parts.take(s.len() as int + 1), sep) == s.take(s.len() as int));
        assert(parts.drop_last() =~= parts.take(s.len() as int + 1));
        assert(parts.last() =~= Seq::<char>::empty());
        assert(join(parts, sep) =~= s);
    } else {
        lemma_join_pieces(s, sep, 0);
        assert(s.subrange(0, s.len() as int) =~= s);
    }
}

/// With an empty separator, the first `k + 1` pieces join to the first `k` characters.
proof fn lemma_join_chars(s: Seq<char>, sep: Seq<char>, k: int)
    requires
        sep.len() == 0,
        0 <= k <= s.len(),
    ensures
        join(split_by(s, sep).take(k + 1), sep) == s.take(k),
    decreases k,
{
    let parts = split_by(s, sep);
    if k == 0 {
        assert(parts.take(1) =~= seq![Seq::<char>::empty()]);
        assert(s.take(0) =~= Seq::<char>::empty());
    } else {
        lemma_join_chars(s, sep, k - 1);
        let t = parts.take(k + 1);
        assert(t.drop_last() =~= parts.take(k));
        assert(t.last() == seq![s[k - 1]]);
        assert(s.take(k) =~= s.take(k - 1) + sep + seq![s[k - 1]]);
    }
}

/// Between where [`next_occurrence`] starts and what it finds, `sep` does not occur; where it
/// finds nothing, `sep` occurs nowhere from where it starts.
proof fn lemma_next_occurrence_first(s: Seq<char>, sep: Seq<char>, a: int, j: int)
    requires
        0 <= a <= j,
        occurs_at(s, sep, j),
    ensures
        next_occurrence(s, sep, a) matches Some(i) && i <= j,
    decreases j - a,
{
    if !occurs_at(s, sep, a) {
        lemma_next_occurrence_first(s, sep, a + 1, j);
    }
}

/// No piece that [`pieces_from`] cuts holds an occurrence of the separator.
proof fn lemma_pieces_free(s: Seq<char>, sep: Seq<char>, start: int, k: int, j: int)
    requires
        sep.len() > 0,
        0 <= start <= s.len(),
        0 <= k < pieces_from(s, sep, start).len(),
    ensures
        !occurs_at(pieces_from(s, sep, start)[k], sep, j),
    decreases s.len() - start,
{
    let m = sep.len();
    lemma_next_occurrence(s, sep, start);
    let pieces = pieces_from(s, sep, start);
    match next_occurrence(s, sep, start) {
        Some(i) => {
            if k == 0 {
                let piece = s.subrange(start, i);
                if occurs_at(piece, sep, j) {
                    assert(s.subrange(start + j, start + j + m) =~= piece.subrange(j, j + m));
                    lemma_next_occurrence_first(s, sep, start, start + j);
                }
            } else {
                assert(pieces[k] == pieces_from(s, sep, i + m)[k - 1]);
                lemma_pieces_free(s, sep, i + m, k - 1, j);
            }
        },
        None => {
            let piece = s.subrange(start, s.len() as int);
            if occurs_at(piece, sep, j) {
                assert(s.subrange(start + j, start + j + m) =~= piece.subrange(j, j + m));
                lemma_next_occurrence_first(s, sep, start, start + j);
            }
        },
    }
}

/// No piece of a split holds the separator, where the separator is not empty.
pub proof fn law_split_pieces_free_of_separator(s: Seq<char>, sep: Seq<char>, k: int, j: int)
    requires
        sep.len() > 0,
        0 <= k < split_by(s, sep).len(),
    ensures
        !occurs_at(split_by(s, sep)[k], sep, j),
{
    lemma_pieces_free(s, sep, 0, k, j);
}

} // verus!
