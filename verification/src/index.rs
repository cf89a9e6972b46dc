//! The hash index over qualified component names.
//!
//! The index is an `indexmap::IndexSet`: it keeps its items in the order in
//! which they were first inserted and finds an item by hash. Its items are
//! tuples of standard types, so that lookups hash and compare by the standard
//! library's own impls. Nothing in this file is proved: each function states
//! what the set's documentation and source say of the method it calls.

use indexmap::IndexSet;
use vstd::prelude::*;

verus! {

/// Declares `indexmap::IndexSet` as an opaque type.
#[verifier::external_type_specification]
#[verifier::external_body]
#[verifier::reject_recursive_types(T)]
#[verifier::reject_recursive_types(S)]
pub struct ExIndexSet<T, S>(IndexSet<T, S>);

/// The items of the set, in their order: position `i` holds the item that
/// `IndexSet::get_index(i)` returns.
pub uninterp spec fn indexed(index: IndexSet<(Option<String>, String)>) -> Seq<
    (Option<Seq<char>>, Seq<char>),
>;

/// `IndexSet::new`: the new set holds no item.
#[verifier::external_body]
pub(crate) fn index_new() -> (index: IndexSet<(Option<String>, String)>)
    ensures
        indexed(index) == Seq::<(Option<Seq<char>>, Seq<char>)>::empty(),
{
    IndexSet::new()
}

/// `IndexSet::get_index_of`: the position of an item equal to `key`, or
/// `None` when the set holds no such item.
#[verifier::external_body]
pub(crate) fn index_position(
    index: &IndexSet<(Option<String>, String)>,
    key: &(Option<String>, String),
) -> (found: Option<usize>)
    ensures
        match found {
            Some(i) => i < indexed(*index).len() && indexed(*index)[i as int] == key.deep_view(),
            None => !indexed(*index).contains(key.deep_view()),
        },
{
    index.get_index_of(key)
}

/// `IndexSet::insert_full`: where an equal item is present the set is left
/// as it was and the item's position comes back with `false`; otherwise the
/// key becomes the last item and its position comes back with `true`.
#[verifier::external_body]
pub(crate) fn index_insert(
    index: &mut IndexSet<(Option<String>, String)>,
    key: (Option<String>, String),
) -> (placed: (usize, bool))
    ensures
        placed.1 ==> !indexed(*old(index)).contains(key.deep_view()) && indexed(*final(index))
            == indexed(*old(index)).push(key.deep_view()) && placed.0 == indexed(
            *old(index),
        ).len(),
        !placed.1 ==> indexed(*final(index)) == indexed(*old(index)) && placed.0 < indexed(
            *old(index),
        ).len() && indexed(*old(index))[placed.0 as int] == key.deep_view(),
{
    index.insert_full(key)
}

/// `IndexSet::get_index`: the item at a position below the length, `None`
/// from the length on.
#[verifier::external_body]
pub(crate) fn index_get(index: &IndexSet<(Option<String>, String)>, i: usize) -> (item: Option<
    &(Option<String>, String),
>)
    ensures
        match item {
            Some(key) => i < indexed(*index).len() && key.deep_view() == indexed(*index)[i as int],
            None => i >= indexed(*index).len(),
        },
{
    index.get_index(i)
}

} // verus!
