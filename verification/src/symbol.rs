//! Handles to the strings of a table.

use crate::table::interned;
use crate::table::SymbolTable;
use crate::text::bytes_of;
use crate::text::cut;
use crate::text::debug_form;
use crate::text::is_cut;
use crate::text::lemma_cut_bytes;
use crate::text::lemma_cut_of_cut;
use crate::text::quoted;
use crate::text::same_text;
use crate::text::substring;
use std::ops::Range;
use vstd::prelude::*;
use vstd::string::*;

verus! {

/// A cheap, copyable name for a string of a [`crate::table::SymbolTable`], or
/// for a byte range of one.
///
/// A symbol owns no text. It holds the position of an entry and, where it is a
/// slice, the byte range of that entry which it stands for; every operation
/// that needs the text takes the table as an argument.
#[derive(Copy, Clone)]
pub struct Symbol {
    index: usize,
    range: Option<(usize, usize)>,
}

/// The string at `index` of `entries`, or the empty string from the length on.
pub open spec fn entry_text(entries: Seq<Seq<char>>, index: int) -> Seq<char> {
    if 0 <= index < entries.len() {
        entries[index]
    } else {
        Seq::empty()
    }
}

impl Symbol {
    /// The position of the entry that the symbol refers to.
    pub closed spec fn entry(self) -> int {
        self.index as int
    }

    /// The byte range of the entry that the symbol is narrowed to, if any.
    pub closed spec fn window(self) -> Option<(int, int)> {
        match self.range {
            Some((start, end)) => Some((start as int, end as int)),
            None => None,
        }
    }

    /// Whether the symbol stands for a whole entry.
    pub open spec fn is_rooted(self) -> bool {
        self.window().is_none()
    }

    /// Whether the symbol can be resolved against `entries`: its entry exists,
    /// and its range, if it has one, lies inside the entry and splits no
    /// character.
    pub open spec fn valid_in(self, entries: Seq<Seq<char>>) -> bool {
        &&& 0 <= self.entry() < entries.len()
        &&& match self.window() {
            Some((start, end)) => is_cut(entries[self.entry()], start, end),
            None => true,
        }
    }

    /// The text that the symbol stands for among `entries`.
    pub open spec fn text(self, entries: Seq<Seq<char>>) -> Seq<char> {
        match self.window() {
            Some((start, end)) => cut(entry_text(entries, self.entry()), start, end),
            None => entry_text(entries, self.entry()),
        }
    }

    /// Where the symbol's text begins in its entry, in bytes.
    pub open spec fn base(self) -> int {
        match self.window() {
            Some((start, _)) => start,
            None => 0,
        }
    }

    /// The byte range of the symbol's own text that `start..end` asks
    /// [`Symbol::slice`] for. On a whole entry it is `start..end` itself. On a
    /// slice, `end` is counted from `start`: the range begins `start` bytes
    /// into the slice and is `end` bytes long.
    pub open spec fn reach(self, start: int, end: int) -> (int, int) {
        if self.is_rooted() {
            (start, end)
        } else {
            (start, start + end)
        }
    }

    /// Where the symbol's text ends in its entry among `entries`, in bytes.
    pub open spec fn limit(self, entries: Seq<Seq<char>>) -> int {
        match self.window() {
            Some((_, end)) => end,
            None => bytes_of(entry_text(entries, self.entry())).len() as int,
        }
    }

    /// Symbols are the same exactly when they refer to the same entry through
    /// the same range.
    pub proof fn lemma_same(self, other: Symbol)
        ensures
            self == other <==> self.entry() == other.entry() && self.window() == other.window(),
    {
    }

    /// The symbol for the whole entry at `index`.
    pub(crate) fn new(index: usize) -> (symbol: Symbol)
        ensures
            symbol.entry() == index,
            symbol.is_rooted(),
    {
        Symbol { index, range: None }
    }

    /// Whether the symbol can be resolved against `table`.
    pub fn belongs_to(&self, table: &SymbolTable) -> (valid: bool)
        ensures
            valid == self.valid_in(table@),
    {
        if self.index >= table.len() {
            return false;
        }
        match self.range {
            Some((start, end)) => substring(table.str(self.index), start, end).is_some(),
            None => true,
        }
    }

    /// The text of the symbol: the string of its entry, or the part of it that
    /// the symbol is narrowed to.
    pub fn str<'a>(&self, table: &'a SymbolTable) -> (string: &'a str)
        requires
            self.valid_in(table@),
        ensures
            string@ == self.text(table@),
    {
        let string = table.str(self.index);
        match self.range {
            Some((start, end)) => {
                let piece = substring(string, start, end);
                piece.unwrap()
            },
            None => string,
        }
    }

    /// The text of the symbol as a string of its own.
    pub fn to_string(&self, table: &SymbolTable) -> (string: String)
        requires
            self.valid_in(table@),
        ensures
            string@ == self.text(table@),
    {
        self.str(table).to_owned()
    }

    /// The text of the symbol as `{:?}` prints a string: quoted and escaped.
    pub fn to_debug_string(&self, table: &SymbolTable) -> (string: String)
        requires
            self.valid_in(table@),
        ensures
            string@ == debug_form(self.text(table@)),
    {
        quoted(self.str(table))
    }

    /// Whether the symbol stands for the text `string`.
    pub fn eq_str(&self, table: &SymbolTable, string: &str) -> (same: bool)
        requires
            self.valid_in(table@),
        ensures
            same == (self.text(table@) == string@),
    {
        same_text(self.str(table), string)
    }

    /// Whether two symbols of `table` stand for the same text.
    ///
    /// Symbols of the same entry and range are equal at once, and so are two
    /// whole entries unequal where their positions differ, since a table holds
    /// no string twice. In every other case the texts are compared.
    pub fn eq(&self, other: &Symbol, table: &SymbolTable) -> (same: bool)
        requires
            table.wf(),
            self.valid_in(table@),
            other.valid_in(table@),
        ensures
            same == (self.text(table@) == other.text(table@)),
    {
        if self.index == other.index {
            if self.range == other.range {
                return true;
            }
            return same_text(self.str(table), other.str(table));
        }
        if self.range.is_none() && other.range.is_none() {
            proof {
                table.lemma_distinct();
            }
            return false;
        }
        same_text(self.str(table), other.str(table))
    }

    /// Turns a slice into the symbol of a whole string, by interning its text.
    /// A symbol that is no slice comes back as it is, and the table stays as
    /// it is.
    pub fn deslice(self, table: &mut SymbolTable) -> (whole: Symbol)
        requires
            old(table).wf(),
            self.valid_in(old(table)@),
        ensures
            final(table).wf(),
            final(table)@ == interned(old(table)@, self.text(old(table)@)),
            old(table)@.is_prefix_of(final(table)@),
            self.is_rooted() ==> whole == self && final(table)@ == old(table)@,
            whole.is_rooted(),
            whole.valid_in(final(table)@),
            whole.text(final(table)@) == self.text(old(table)@),
    {
        if self.range.is_some() {
            let text: String = self.to_string(table);
            table.get(text.as_str())
        } else {
            self
        }
    }

    /// Narrows the symbol to a byte range of its own text, without copying and
    /// without touching the table. The range is read as [`Symbol::reach`] says.
    /// Nothing comes back where the range leaves the symbol's text or splits a
    /// character.
    pub fn slice(&self, table: &SymbolTable, range: Range<usize>) -> (piece: Option<Symbol>)
        ensures
            ({
                let (from, to) = self.reach(range.start as int, range.end as int);
                let entry = entry_text(table@, self.entry());
                &&& piece.is_some() <==> self.base() + to <= self.limit(table@) && is_cut(
                    entry,
                    self.base() + from,
                    self.base() + to,
                )
                &&& piece matches Some(p) ==> p.entry() == self.entry() && p.window() == Some(
                    (self.base() + from, self.base() + to),
                )
                &&& self.valid_in(table@) ==> (piece.is_some() <==> is_cut(
                    self.text(table@),
                    from,
                    to,
                ))
                &&& self.valid_in(table@) ==> (piece matches Some(p) ==> p.valid_in(table@)
                    && p.text(table@) == cut(self.text(table@), from, to))
            }),
    {
        let string = table.str(self.index);
        let (start, end) = match self.range {
            Some((first, last)) => {
                proof {
                    if self.valid_in(table@) {
                        lemma_cut_bytes(string@, first as int, last as int);
                    }
                }
                if range.start > usize::MAX - first {
                    return None;
                }
                let start: usize = first + range.start;
                if range.end > usize::MAX - start {
                    return None;
                }
                let end: usize = start + range.end;
                if end > last {
                    return None;
                }
                proof {
                    if self.valid_in(table@) {
                        lemma_cut_of_cut(
                            string@,
                            first as int,
                            last as int,
                            range.start as int,
                            range.start + range.end,
                        );
                    }
                }
                (start, end)
            },
            None => (range.start, range.end),
        };
        match substring(string, start, end) {
            Some(_) => Some(Symbol { index: self.index, range: Some((start, end)) }),
            None => None,
        }
    }
}

} // verus!
