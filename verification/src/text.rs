//! Byte ranges of UTF-8 text.

use vstd::prelude::*;
use vstd::string::*;
use vstd::utf8::*;

verus! {

/// The UTF-8 bytes of `text`.
pub open spec fn bytes_of(text: Seq<char>) -> Seq<u8> {
    encode_utf8(text)
}

/// Whether `start..end` is a byte range of `text` that splits no character.
pub open spec fn is_cut(text: Seq<char>, start: int, end: int) -> bool {
    &&& 0 <= start <= end <= bytes_of(text).len()
    &&& is_char_boundary(bytes_of(text), start)
    &&& is_char_boundary(bytes_of(text), end)
}

/// The text whose bytes are the bytes `start..end` of `text`.
pub open spec fn cut(text: Seq<char>, start: int, end: int) -> Seq<char> {
    decode_utf8(bytes_of(text).subrange(start, end))
}

/// Inside valid UTF-8, a position before the end is a character boundary
/// exactly when it is one in any prefix that reaches past it.
pub proof fn lemma_boundary_in_prefix(bytes: Seq<u8>, end: int, index: int)
    requires
        valid_utf8(bytes),
        is_char_boundary(bytes, end),
        0 <= index <= end <= bytes.len(),
    ensures
        valid_utf8(bytes.subrange(0, end)),
        is_char_boundary(bytes.subrange(0, end), index) <==> is_char_boundary(bytes, index),
{
    let prefix = bytes.subrange(0, end);
    valid_utf8_split(bytes, end);
    if index == end {
        is_char_boundary_start_end_of_seq(prefix);
    } else {
        is_char_boundary_iff_not_is_continuation_byte(bytes, index);
        is_char_boundary_iff_not_is_continuation_byte(prefix, index);
    }
}

/// A well-cut piece of a text has the bytes of its range and is itself valid
/// UTF-8.
pub proof fn lemma_cut_bytes(text: Seq<char>, start: int, end: int)
    requires
        is_cut(text, start, end),
    ensures
        valid_utf8(bytes_of(text).subrange(start, end)),
        bytes_of(cut(text, start, end)) == bytes_of(text).subrange(start, end),
{
    let bytes = bytes_of(text);
    let prefix = bytes.subrange(0, end);
    encode_utf8_valid_utf8(text);
    lemma_boundary_in_prefix(bytes, end, start);
    valid_utf8_split(prefix, start);
    assert(prefix.subrange(start, prefix.len() as int) =~= bytes.subrange(start, end));
    decode_utf8_encode_utf8(bytes.subrange(start, end));
}

/// Cutting inside a piece is cutting the whole text at the shifted range: the
/// one is well cut exactly when the other is, and both give the same text.
pub proof fn lemma_cut_of_cut(text: Seq<char>, start: int, end: int, from: int, to: int)
    requires
        is_cut(text, start, end),
        0 <= from <= to <= end - start,
    ensures
        is_cut(cut(text, start, end), from, to) <==> is_cut(text, start + from, start + to),
        cut(cut(text, start, end), from, to) == cut(text, start + from, start + to),
{
    let bytes = bytes_of(text);
    let piece = bytes.subrange(start, end);
    encode_utf8_valid_utf8(text);
    lemma_cut_bytes(text, start, end);
    lemma_boundary_in_piece(bytes, piece, start, from);
    lemma_boundary_in_piece(bytes, piece, start, to);
    assert(piece.subrange(from, to) =~= bytes.subrange(start + from, start + to));
}

/// A position of a valid piece of valid UTF-8 is a character boundary of the
/// piece exactly when it is one of the whole.
proof fn lemma_boundary_in_piece(bytes: Seq<u8>, piece: Seq<u8>, start: int, index: int)
    requires
        valid_utf8(bytes),
        valid_utf8(piece),
        0 <= start <= start + piece.len() <= bytes.len(),
        piece == bytes.subrange(start, start + piece.len()),
        is_char_boundary(bytes, start + piece.len()),
        0 <= index <= piece.len(),
    ensures
        is_char_boundary(piece, index) <==> is_char_boundary(bytes, start + index),
{
    if index == piece.len() {
        is_char_boundary_start_end_of_seq(piece);
    } else {
        is_char_boundary_iff_not_is_continuation_byte(piece, index);
        is_char_boundary_iff_not_is_continuation_byte(bytes, start + index);
    }
}

/// The piece `start..end` of `s`, counted in bytes, where that range lies
/// inside `s` and splits no character.
pub fn substring(s: &str, start: usize, end: usize) -> (piece: Option<&str>)
    ensures
        piece.is_some() <==> is_cut(s@, start as int, end as int),
        piece matches Some(t) ==> t@ == cut(s@, start as int, end as int),
{
    let len: usize = s.as_bytes().len();
    if start > end || end > len {
        return None;
    }
    if !s.is_char_boundary(start) || !s.is_char_boundary(end) {
        return None;
    }
    proof {
        encode_utf8_valid_utf8(s@);
        lemma_boundary_in_prefix(s.spec_bytes(), end as int, start as int);
    }
    let (head, _) = s.split_at(end);
    let (_, piece) = head.split_at(start);
    proof {
        encode_utf8_decode_utf8(piece@);
        assert(piece.spec_bytes() =~= s.spec_bytes().subrange(start as int, end as int));
    }
    Some(piece)
}

/// What `{:?}` prints for a string: the text between double quotes, with the
/// characters escaped that the `Debug` impl of `str` escapes.
pub uninterp spec fn debug_form(text: Seq<char>) -> Seq<char>;

/// Formats `s` with `{:?}`, through the `Debug` impl of `str`. Nothing is
/// claimed of the outcome but that the text alone decides it.
#[verifier::external_body]
pub(crate) fn quoted(s: &str) -> (out: String)
    ensures
        out@ == debug_form(s@),
{
    format!("{:?}", s)
}

/// Two texts are the same exactly when their UTF-8 bytes are.
pub proof fn lemma_same_bytes(a: Seq<char>, b: Seq<char>)
    ensures
        a == b <==> bytes_of(a) == bytes_of(b),
{
    encode_utf8_decode_utf8(a);
    encode_utf8_decode_utf8(b);
}

/// Whether `a` and `b` are the same text.
pub fn same_text(a: &str, b: &str) -> (same: bool)
    ensures
        same == (a@ == b@),
{
    let left = a.as_bytes();
    let right = b.as_bytes();
    proof {
        lemma_same_bytes(a@, b@);
    }
    if left.len() != right.len() {
        return false;
    }
    let mut i: usize = 0;
    while i < left.len()
        invariant
            i <= left@.len(),
            left@.len() == right@.len(),
            left@ == bytes_of(a@),
            right@ == bytes_of(b@),
            a@ == b@ <==> bytes_of(a@) == bytes_of(b@),
            forall|k: int| 0 <= k < i ==> left@[k] == right@[k],
        decreases left@.len() - i,
    {
        if left[i] != right[i] {
            return false;
        }
        i += 1;
    }
    assert(left@ =~= right@);
    true
}

} // verus!
