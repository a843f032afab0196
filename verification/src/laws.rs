//! What holds of every table and every symbol, whatever was interned.

use crate::symbol::Symbol;
use crate::table::distinct;
use crate::table::interned;
use crate::text::bytes_of;
use crate::text::cut;
use crate::text::is_cut;
use vstd::prelude::*;
use vstd::utf8::*;

verus! {

/// Interning only ever adds at the end: the entries from before are all still
/// there, at their positions, and no string comes to stand twice.
pub proof fn lemma_interning_extends(entries: Seq<Seq<char>>, text: Seq<char>)
    requires
        distinct(entries),
    ensures
        entries.is_prefix_of(interned(entries, text)),
        distinct(interned(entries, text)),
        interned(entries, text).contains(text),
        interned(entries, text).len() == if entries.contains(text) {
            entries.len()
        } else {
            entries.len() + 1
        },
{
    let after = interned(entries, text);
    if !entries.contains(text) {
        assert(after[entries.len() as int] == text);
        assert forall|i: int, j: int|
            0 <= i < after.len() && 0 <= j < after.len() && #[trigger] after[i]
                == #[trigger] after[j] implies i == j by {
            if i < entries.len() {
                assert(entries[i] == after[i]);
            }
            if j < entries.len() {
                assert(entries[j] == after[j]);
            }
        }
    }
}

/// A symbol outlives every addition to its table: where the entries from
/// before are still the first entries, the symbol is still valid and stands
/// for the same text.
pub proof fn lemma_symbols_persist(symbol: Symbol, before: Seq<Seq<char>>, after: Seq<Seq<char>>)
    requires
        before.is_prefix_of(after),
        symbol.valid_in(before),
    ensures
        symbol.valid_in(after),
        symbol.text(after) == symbol.text(before),
{
    assert(after[symbol.entry()] == before[symbol.entry()]);
}

/// Among entries without repetition a string has one symbol: two symbols of
/// whole entries that stand for the same text are the same symbol.
pub proof fn lemma_one_symbol_per_string(a: Symbol, b: Symbol, entries: Seq<Seq<char>>)
    requires
        distinct(entries),
        a.is_rooted(),
        b.is_rooted(),
        a.valid_in(entries),
        b.valid_in(entries),
        a.text(entries) == b.text(entries),
    ensures
        a == b,
{
    a.lemma_same(b);
}

/// Interning a string a second time leaves the table as the first time left
/// it, its length included, and gives the same symbol again. `first` and
/// `second` stand for what the two calls return.
pub proof fn lemma_interning_twice(
    entries: Seq<Seq<char>>,
    text: Seq<char>,
    first: Symbol,
    second: Symbol,
)
    requires
        distinct(entries),
        first.is_rooted(),
        first.valid_in(interned(entries, text)),
        first.text(interned(entries, text)) == text,
        second.is_rooted(),
        second.valid_in(interned(interned(entries, text), text)),
        second.text(interned(interned(entries, text), text)) == text,
    ensures
        interned(interned(entries, text), text) == interned(entries, text),
        interned(interned(entries, text), text).len() == interned(entries, text).len(),
        first == second,
{
    lemma_interning_extends(entries, text);
    lemma_one_symbol_per_string(first, second, interned(entries, text));
}

/// Interning the text of a symbol of a whole entry changes nothing: the text
/// is in the table already.
pub proof fn lemma_rooted_text_is_held(symbol: Symbol, entries: Seq<Seq<char>>)
    requires
        symbol.is_rooted(),
        symbol.valid_in(entries),
    ensures
        entries.contains(symbol.text(entries)),
        interned(entries, symbol.text(entries)) == entries,
{
    assert(entries[symbol.entry()] == symbol.text(entries));
}

/// In ASCII text bytes and characters coincide: every range within the text is
/// well cut, and cutting gives the characters of that range.
pub proof fn lemma_cut_ascii(text: Seq<char>, start: int, end: int)
    requires
        is_ascii_chars(text),
        0 <= start <= end <= text.len(),
    ensures
        bytes_of(text).len() == text.len(),
        is_cut(text, start, end),
        cut(text, start, end) == text.subrange(start, end),
{
    let bytes = bytes_of(text);
    let part = text.subrange(start, end);
    encode_utf8_valid_utf8(text);
    is_ascii_chars_encode_utf8(text);
    is_ascii_chars_encode_utf8(part);
    is_char_boundary_start_end_of_seq(bytes);
    if start < bytes.len() {
        assert(text[start] as u8 == bytes[start]);
        is_char_boundary_iff_not_is_continuation_byte(bytes, start);
    }
    if end < bytes.len() {
        assert(text[end] as u8 == bytes[end]);
        is_char_boundary_iff_not_is_continuation_byte(bytes, end);
    }
    assert forall|i: int| 0 <= i < part.len() implies bytes_of(part)[i] == bytes.subrange(
        start,
        end,
    )[i] by {
        assert(part[i] as u8 == bytes_of(part)[i]);
        assert(text[start + i] as u8 == bytes[start + i]);
    }
    assert(bytes_of(part) =~= bytes.subrange(start, end));
    encode_utf8_decode_utf8(part);
}

} // verus!
