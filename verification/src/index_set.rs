//! Trusted view of indexmap's `IndexSet`, the ordered set that holds a
//! document's stylesheet and script URLs in insertion order.

use vstd::prelude::*;

use indexmap::IndexSet;

verus! {

#[verifier::external_type_specification]
#[verifier::external_body]
#[verifier::reject_recursive_types(T)]
#[verifier::reject_recursive_types(S)]
pub struct ExIndexSet<T, S>(IndexSet<T, S>);

/// The values held by an ordered string set, in their insertion order.
pub uninterp spec fn set_elems(s: IndexSet<String>) -> Seq<Seq<char>>;

/// Relies on indexmap's `IndexSet::new`: a new set is empty.
#[verifier::external_body]
pub fn index_set_new() -> (r: IndexSet<String>)
    ensures
        set_elems(r) == Seq::<Seq<char>>::empty(),
{
    IndexSet::new()
}

/// Relies on indexmap's `IndexSet::insert`: a value not yet present is
/// appended at the end and `true` comes back; a value already present leaves
/// the set unchanged and `false` comes back.
#[verifier::external_body]
pub fn index_set_insert(s: &mut IndexSet<String>, v: String) -> (r: bool)
    ensures
        r == !set_elems(*old(s)).contains(v@),
        r ==> set_elems(*final(s)) == set_elems(*old(s)).push(v@),
        !r ==> set_elems(*final(s)) == set_elems(*old(s)),
{
    s.insert(v)
}

/// Relies on indexmap's `IndexSet::get_index_of`: the position of a value
/// that is present, and `None` for one that is not.
#[verifier::external_body]
pub fn index_set_index_of(s: &IndexSet<String>, v: &String) -> (r: Option<usize>)
    ensures
        (match r {
            Some(i) => i < set_elems(*s).len() && set_elems(*s)[i as int] == v@,
            None => !set_elems(*s).contains(v@),
        }),
{
    s.get_index_of(v.as_str())
}

/// Relies on indexmap's `IndexSet::move_index`: the value at `from` moves to
/// position `to` and the values in between shift by one place.
#[verifier::external_body]
pub fn index_set_move_index(s: &mut IndexSet<String>, from: usize, to: usize)
    requires
        from < set_elems(*old(s)).len(),
        to < set_elems(*old(s)).len(),
    ensures
        set_elems(*final(s)) == set_elems(*old(s)).remove(from as int).insert(
            to as int,
            set_elems(*old(s))[from as int],
        ),
{
    s.move_index(from, to)
}

/// Relies on indexmap's `IndexSet::iter` visiting the values in insertion
/// order: the values as a vector, in that order.
#[verifier::external_body]
pub fn index_set_to_vec(s: &IndexSet<String>) -> (r: Vec<String>)
    ensures
        r.deep_view() == set_elems(*s),
{
    s.iter().cloned().collect()
}

} // verus!
