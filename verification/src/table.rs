//! The table of interned strings.

use crate::store::entries_of;
use crate::store::positions_get;
use crate::store::positions_insert;
use crate::store::positions_new;
use crate::store::positions_of;
use crate::store::strings_get;
use crate::store::strings_len;
use crate::store::strings_new;
use crate::store::strings_push;
use crate::store::Positions;
use crate::store::Strings;
use crate::symbol::entry_text;
use crate::symbol::Symbol;
use vstd::prelude::*;
use vstd::string::*;

verus! {

/// An index into the strings of a table.
pub type SymbolIndex = usize;

/// What a table holds once `text` has been interned among `entries`: the same
/// entries where `text` is one of them, else the entries with `text` at the end.
pub open spec fn interned(entries: Seq<Seq<char>>, text: Seq<char>) -> Seq<Seq<char>> {
    if entries.contains(text) {
        entries
    } else {
        entries.push(text)
    }
}

/// Whether no string occurs twice among `entries`.
pub open spec fn distinct(entries: Seq<Seq<char>>) -> bool {
    forall|i: int, j: int|
        0 <= i < entries.len() && 0 <= j < entries.len() && #[trigger] entries[i]
            == #[trigger] entries[j] ==> i == j
}

/// A unique list of strings, each known by its position.
///
/// Strings are only ever added, at the end, so a position names the same
/// string for as long as the table lives.
pub struct SymbolTable {
    symbols: Strings,
    indexes: Positions,
}

impl View for SymbolTable {
    type V = Seq<Seq<char>>;

    /// The strings of the table, in the order in which they were interned.
    closed spec fn view(&self) -> Seq<Seq<char>> {
        entries_of(self.symbols)
    }
}

impl SymbolTable {
    /// Whether the lookup index and the list of strings agree: every string of
    /// the list is a key that leads to its position, and every key is the
    /// string at the position it leads to.
    pub closed spec fn wf(&self) -> bool {
        let entries = entries_of(self.symbols);
        let positions = positions_of(self.indexes);
        &&& forall|i: int|
            0 <= i < entries.len() ==> positions.contains_key(#[trigger] entries[i])
                && positions[entries[i]] == i
        &&& forall|key: Seq<char>| #[trigger]
            positions.contains_key(key) ==> positions[key] < entries.len()
                && entries[positions[key] as int] == key
    }

    /// No string occurs twice in a table.
    pub proof fn lemma_distinct(&self)
        requires
            self.wf(),
        ensures
            distinct(self@),
    {
    }

    /// Create a new table, without strings.
    pub fn new() -> (table: SymbolTable)
        ensures
            table.wf(),
            table@.len() == 0,
    {
        SymbolTable { symbols: strings_new(), indexes: positions_new() }
    }

    /// The number of strings in the table. Slices of a string are symbols, not
    /// strings, and are not counted.
    pub fn len(&self) -> (len: usize)
        ensures
            len == self@.len(),
    {
        strings_len(&self.symbols)
    }

    /// The string at `index`, or the empty string where the table has no such
    /// position.
    pub fn str(&self, index: SymbolIndex) -> (string: &str)
        ensures
            string@ == entry_text(self@, index as int),
    {
        match strings_get(&self.symbols, index) {
            Some(string) => string,
            None => {
                proof {
                    reveal_strlit("");
                    assert(""@ =~= Seq::<char>::empty());
                }
                ""
            },
        }
    }

    /// All the strings of the table, in the order in which they were interned.
    /// Each call walks the table afresh.
    pub fn iter(&self) -> (strings: Vec<&str>)
        ensures
            strings@.len() == self@.len(),
            forall|i: int| 0 <= i < self@.len() ==> (#[trigger] strings@[i])@ == self@[i],
    {
        let mut strings: Vec<&str> = Vec::new();
        let count = self.len();
        let mut index: usize = 0;
        while index < count
            invariant
                count == self@.len(),
                index <= count,
                strings@.len() == index,
                forall|i: int| 0 <= i < index ==> (#[trigger] strings@[i])@ == self@[i],
            decreases count - index,
        {
            strings.push(self.str(index));
            index += 1;
        }
        strings
    }

    /// The symbol of `string`, only if the table holds it already.
    pub fn maybe_get(&self, string: &str) -> (found: Option<Symbol>)
        requires
            self.wf(),
        ensures
            found.is_some() <==> self@.contains(string@),
            found matches Some(symbol) ==> symbol.is_rooted() && symbol.valid_in(self@)
                && symbol.text(self@) == string@,
    {
        match positions_get(&self.indexes, string) {
            Some(index) => Some(Symbol::new(index)),
            None => None,
        }
    }

    /// Whether the table holds `string`.
    pub fn has(&self, string: &str) -> (held: bool)
        requires
            self.wf(),
        ensures
            held == self@.contains(string@),
    {
        self.maybe_get(string).is_some()
    }

    /// Interns `string`: where the table holds it already, the table stays as
    /// it is; else the string is added at the end. Either way the symbol of the
    /// whole string comes back.
    pub fn get(&mut self, string: &str) -> (symbol: Symbol)
        requires
            old(self).wf(),
        ensures
            final(self).wf(),
            final(self)@ == interned(old(self)@, string@),
            old(self)@.is_prefix_of(final(self)@),
            symbol.is_rooted(),
            symbol.valid_in(final(self)@),
            symbol.text(final(self)@) == string@,
    {
        if let Some(symbol) = self.maybe_get(string) {
            return symbol;
        }
        let index = self.len();
        let owned: String = string.to_owned();
        strings_push(&mut self.symbols, owned.clone());
        positions_insert(&mut self.indexes, owned, index);
        Symbol::new(index)
    }
}

impl Default for SymbolTable {
    /// A table without strings.
    fn default() -> (table: SymbolTable)
        ensures
            table.wf(),
            table@.len() == 0,
    {
        SymbolTable::new()
    }
}

} // verus!
