//! The append-only collections that back a table, and what is taken on trust
//! about them.
//!
//! Nothing in this file is proved: each contract restates what the collection's
//! own code does, and the rest of the crate is proved against these contracts.

use elsa::FrozenMap;
use elsa::FrozenVec;
use fxhash::FxBuildHasher;
use fxhash::FxHasher;
use std::hash::BuildHasherDefault;
use vstd::prelude::*;

verus! {

/// `elsa::FrozenVec`, an append-only vector, taken as opaque.
#[verifier::external_type_specification]
#[verifier::external_body]
#[verifier::reject_recursive_types(T)]
pub struct ExFrozenVec<T>(FrozenVec<T>);

/// `elsa::FrozenMap`, an append-only hash map, taken as opaque.
#[verifier::external_type_specification]
#[verifier::external_body]
#[verifier::reject_recursive_types(K)]
#[verifier::reject_recursive_types(V)]
#[verifier::reject_recursive_types(S)]
pub struct ExFrozenMap<K, V, S>(FrozenMap<K, V, S>);

/// `fxhash::FxHasher`, the hasher of the lookup index, taken as opaque.
#[verifier::external_type_specification]
#[verifier::external_body]
pub struct ExFxHasher(FxHasher);

/// `std::hash::BuildHasherDefault`, which makes the hashers of the lookup
/// index, taken as opaque.
#[verifier::external_type_specification]
#[verifier::external_body]
#[verifier::reject_recursive_types(H)]
pub struct ExBuildHasherDefault<H>(BuildHasherDefault<H>);

/// The vector that keeps a table's strings.
pub type Strings = FrozenVec<String>;

/// The map that records, for each string of a table, where it is kept.
pub type Positions = FrozenMap<String, Box<usize>, FxBuildHasher>;

/// The strings that a `FrozenVec<String>` holds, first pushed first.
pub uninterp spec fn entries_of(strings: Strings) -> Seq<Seq<char>>;

/// The position that a `FrozenMap` from strings to positions records for each
/// string it has as a key.
pub uninterp spec fn positions_of(positions: Positions) -> Map<Seq<char>, usize>;

/// `FrozenVec::new`: a vector that holds nothing.
#[verifier::external_body]
pub(crate) fn strings_new() -> (strings: Strings)
    ensures
        entries_of(strings).len() == 0,
{
    FrozenVec::new()
}

/// `FrozenVec::len`: how many strings the vector holds.
#[verifier::external_body]
pub(crate) fn strings_len(strings: &Strings) -> (len: usize)
    ensures
        len == entries_of(*strings).len(),
{
    strings.len()
}

/// `FrozenVec::get`: the string at `index`, or nothing from the length on.
#[verifier::external_body]
pub(crate) fn strings_get(strings: &Strings, index: usize) -> (found: Option<&str>)
    ensures
        found.is_some() <==> index < entries_of(*strings).len(),
        found matches Some(s) ==> s@ == entries_of(*strings)[index as int],
{
    strings.get(index)
}

/// `FrozenVec::push`: `string` goes behind the strings already held, which
/// stay as they are.
#[verifier::external_body]
pub(crate) fn strings_push(strings: &mut Strings, string: String)
    ensures
        entries_of(*final(strings)) == entries_of(*old(strings)).push(string@),
{
    strings.push(string)
}

/// `FrozenMap::default`: a map without keys.
#[verifier::external_body]
pub(crate) fn positions_new() -> (made: Positions)
    ensures
        forall|key: Seq<char>| !(#[trigger] positions_of(made).contains_key(key)),
{
    FrozenMap::default()
}

/// `FrozenMap::get`: the position recorded for `key`, if it is a key. Keys are
/// compared as strings, so a key is found by its text.
#[verifier::external_body]
pub(crate) fn positions_get(
    positions: &Positions,
    key: &str,
) -> (found: Option<usize>)
    ensures
        found.is_some() <==> positions_of(*positions).contains_key(key@),
        found matches Some(index) ==> index == positions_of(*positions)[key@],
{
    positions.get(key).copied()
}

/// `FrozenMap::insert`: records `index` for `key` unless `key` is a key
/// already, in which case the map stays as it is. Other keys keep what is
/// recorded for them.
#[verifier::external_body]
pub(crate) fn positions_insert(
    positions: &mut Positions,
    key: String,
    index: usize,
)
    ensures
        positions_of(*final(positions)) == if positions_of(*old(positions)).contains_key(key@) {
            positions_of(*old(positions))
        } else {
            positions_of(*old(positions)).insert(key@, index)
        },
{
    positions.insert(key, Box::new(index));
}

} // verus!
