//! Insertion-ordered sets, as provided by the `indexmap` crate.
//!
//! `IndexSet` is opaque to the verifier. What a set holds is given a name, and
//! each method that the compiler calls is wrapped in a function whose contract
//! states what the method does to those contents. The contracts in this file
//! are assumed, not proved.

use indexmap::IndexSet;
use vstd::prelude::*;

verus! {

#[verifier::external_type_specification]
#[verifier::external_body]
#[verifier::reject_recursive_types(T)]
#[verifier::reject_recursive_types(S)]
pub struct ExIndexSet<T, S>(indexmap::IndexSet<T, S>);

/// The integers held by a set, in insertion order.
pub uninterp spec fn id_items(set: IndexSet<u32>) -> Seq<u32>;

/// The strings held by a set, in insertion order.
pub uninterp spec fn name_items(set: IndexSet<String>) -> Seq<Seq<char>>;

/// `IndexSet::new`: the new set holds nothing.
#[verifier::external_body]
pub(crate) fn ids_new() -> (set: IndexSet<u32>)
    ensures
        id_items(set) == Seq::<u32>::empty(),
{
    IndexSet::new()
}

/// `IndexSet::len`: the number of items held.
#[verifier::external_body]
pub(crate) fn ids_len(set: &IndexSet<u32>) -> (n: usize)
    ensures
        n == id_items(*set).len(),
{
    set.len()
}

/// `IndexSet::get_index_of`: the position of `id`, which is the only position
/// holding it, or `None` when no position holds it.
#[verifier::external_body]
pub(crate) fn ids_index_of(set: &IndexSet<u32>, id: u32) -> (r: Option<usize>)
    ensures
        match r {
            Some(i) => i < id_items(*set).len() && id_items(*set)[i as int] == id
                && forall|j: int| 0 <= j < id_items(*set).len() && j != i ==> id_items(*set)[j] != id,
            None => !id_items(*set).contains(id),
        },
{
    set.get_index_of(&id)
}

/// `IndexSet::get_index`: the item at a position, or `None` past the end.
#[verifier::external_body]
pub(crate) fn ids_get_index(set: &IndexSet<u32>, index: usize) -> (r: Option<u32>)
    ensures
        r == if index < id_items(*set).len() {
            Some(id_items(*set)[index as int])
        } else {
            None
        },
{
    set.get_index(index).copied()
}

/// `IndexSet::insert_full`: an item already held keeps its place and the set
/// is unchanged; a new item goes last. Returns the item's position and
/// whether it was new.
#[verifier::external_body]
pub(crate) fn ids_insert_full(set: &mut IndexSet<u32>, id: u32) -> (r: (usize, bool))
    ensures
        r.1 == !id_items(*old(set)).contains(id),
        r.1 ==> id_items(*final(set)) == id_items(*old(set)).push(id) && r.0 == id_items(
            *old(set),
        ).len(),
        !r.1 ==> id_items(*final(set)) == id_items(*old(set)) && r.0 < id_items(*old(set)).len()
            && id_items(*old(set))[r.0 as int] == id,
{
    set.insert_full(id)
}

/// `IndexSet::new`: the new set holds nothing.
#[verifier::external_body]
pub(crate) fn names_new() -> (set: IndexSet<String>)
    ensures
        name_items(set) == Seq::<Seq<char>>::empty(),
{
    IndexSet::new()
}

/// `IndexSet::len`: the number of items held.
#[verifier::external_body]
pub(crate) fn names_len(set: &IndexSet<String>) -> (n: usize)
    ensures
        n == name_items(*set).len(),
{
    set.len()
}

/// `IndexSet::get_index_of`: the position of `name`, which is the only
/// position holding it, or `None` when no position holds it.
#[verifier::external_body]
pub(crate) fn names_index_of(set: &IndexSet<String>, name: &str) -> (r: Option<usize>)
    ensures
        match r {
            Some(i) => i < name_items(*set).len() && name_items(*set)[i as int] == name@
                && forall|j: int| 0 <= j < name_items(*set).len() && j != i ==> name_items(*set)[j] != name@,
            None => !name_items(*set).contains(name@),
        },
{
    set.get_index_of(name)
}

/// `IndexSet::get_index`: the item at a position, or `None` past the end.
#[verifier::external_body]
pub(crate) fn names_get_index(set: &IndexSet<String>, index: usize) -> (r: Option<&String>)
    ensures
        match r {
            Some(s) => index < name_items(*set).len() && s@ == name_items(*set)[index as int],
            None => index >= name_items(*set).len(),
        },
{
    set.get_index(index)
}

/// `IndexSet::insert_full`: an item already held keeps its place and the set
/// is unchanged; a new item goes last. Returns the item's position and
/// whether it was new.
#[verifier::external_body]
pub(crate) fn names_insert_full(set: &mut IndexSet<String>, name: String) -> (r: (usize, bool))
    ensures
        r.1 == !name_items(*old(set)).contains(name@),
        r.1 ==> name_items(*final(set)) == name_items(*old(set)).push(name@) && r.0 == name_items(
            *old(set),
        ).len(),
        !r.1 ==> name_items(*final(set)) == name_items(*old(set)) && r.0 < name_items(
            *old(set),
        ).len() && name_items(*old(set))[r.0 as int] == name@,
{
    set.insert_full(name)
}

} // verus!
