//! The memtable: the in-memory write buffer, an insertion-ordered map
//! from identifier to vector value.
//!
//! The map itself is indexmap's `IndexMap`, which keeps both uniqueness
//! of keys and the order of insertion.  Its behaviour is taken on trust
//! here, stated over the sequence of its entries; everything built on
//! top of it is verified against these contracts.

use vstd::prelude::*;

verus! {

use indexmap::IndexMap;
use crate::vector::VFSVector;

#[verifier::external_type_specification]
#[verifier::external_body]
#[verifier::reject_recursive_types(K)]
#[verifier::reject_recursive_types(V)]
#[verifier::reject_recursive_types(S)]
pub struct ExIndexMap<K, V, S>(IndexMap<K, V, S>);

/// The entries of the memtable, in insertion order.
pub uninterp spec fn memtable_entries(m: IndexMap<u64, VFSVector>) -> Seq<(u64, VFSVector)>;

/// Whether some entry carries the key.
pub open spec fn memtable_has_key(m: IndexMap<u64, VFSVector>, k: u64) -> bool {
    exists|i: int| 0 <= i < memtable_entries(m).len() && memtable_entries(m)[i].0 == k
}

/// Relies on indexmap's `IndexMap::new`: a new map has no entries.
#[verifier::external_body]
pub(crate) fn memtable_new() -> (r: IndexMap<u64, VFSVector>)
    ensures
        memtable_entries(r) == Seq::<(u64, VFSVector)>::empty(),
{
    IndexMap::new()
}

/// Relies on indexmap's `IndexMap::len`: the number of entries.
#[verifier::external_body]
pub(crate) fn memtable_len(m: &IndexMap<u64, VFSVector>) -> (r: usize)
    ensures
        r == memtable_entries(*m).len(),
{
    m.len()
}

/// Relies on indexmap's `IndexMap::insert`: a fresh key goes last in
/// insertion order; an existing key keeps its place and only the value
/// is replaced.
#[verifier::external_body]
pub(crate) fn memtable_insert(m: &mut IndexMap<u64, VFSVector>, k: u64, v: VFSVector)
    ensures
        !memtable_has_key(*old(m), k) ==> memtable_entries(*final(m)) == memtable_entries(
            *old(m),
        ).push((k, v)),
        memtable_has_key(*old(m), k) ==> exists|i: int|
            0 <= i < memtable_entries(*old(m)).len() && memtable_entries(*old(m))[i].0 == k
                && memtable_entries(*final(m)) == memtable_entries(*old(m)).update(i, (k, v)),
{
    m.insert(k, v);
}

/// Relies on indexmap's `IndexMap::get`: the value stored under the
/// key, if any entry carries it.
#[verifier::external_body]
pub(crate) fn memtable_get(m: &IndexMap<u64, VFSVector>, k: u64) -> (r: Option<VFSVector>)
    ensures
        r matches Some(v) ==> exists|i: int|
            0 <= i < memtable_entries(*m).len() && memtable_entries(*m)[i] == (k, v),
        r is None ==> !memtable_has_key(*m, k),
{
    m.get(&k).cloned()
}

/// Relies on indexmap's `IndexMap::drain` over `..n`: removes the first
/// `n` entries in order and keeps the rest, order unchanged.
#[verifier::external_body]
pub(crate) fn memtable_drain_front(m: &mut IndexMap<u64, VFSVector>, n: usize) -> (r: Vec<
    (u64, VFSVector),
>)
    requires
        n <= memtable_entries(*old(m)).len(),
    ensures
        r@ == memtable_entries(*old(m)).take(n as int),
        memtable_entries(*final(m)) == memtable_entries(*old(m)).skip(n as int),
{
    m.drain(..n).collect()
}

} // verus!
