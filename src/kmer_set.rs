//! The concurrent set of packed k-mers, an outside `DashSet`, as the library
//! sees it: through the finite set of values that it holds.
use vstd::prelude::*;

use dashmap::DashSet;

verus! {

/// The largest capacity hint that a set is made with; it keeps the rounding
/// of the capacity across shards, and the sizing of each shard, free of
/// overflow.
pub const MAX_RESERVE: usize = 0xF000_0000;

#[verifier::external_type_specification]
#[verifier::external_body]
#[verifier::reject_recursive_types(K)]
#[verifier::reject_recursive_types(S)]
pub struct ExDashSet<K, S>(DashSet<K, S>);

/// The values that a set of packed k-mers holds.
pub uninterp spec fn kmer_contents(s: DashSet<u64>) -> Set<u64>;

/// Relies on `DashSet::new`: a new set is empty.
#[verifier::external_body]
pub(crate) fn new_kmer_set() -> (r: DashSet<u64>)
    ensures
        kmer_contents(r) == Set::<u64>::empty(),
{
    DashSet::new()
}

/// Relies on `DashSet::with_capacity`: a new set is empty, whatever room was
/// made for it.
#[verifier::external_body]
pub(crate) fn kmer_set_with_capacity(capacity: usize) -> (r: DashSet<u64>)
    requires
        capacity <= MAX_RESERVE,
    ensures
        kmer_contents(r) == Set::<u64>::empty(),
{
    DashSet::with_capacity(capacity)
}

/// Relies on `DashSet::insert`: the value is added, and the result says
/// whether it was absent.
#[verifier::external_body]
pub(crate) fn insert_kmer(s: &mut DashSet<u64>, x: u64) -> (r: bool)
    ensures
        kmer_contents(*final(s)) == kmer_contents(*old(s)).insert(x),
        r == !kmer_contents(*old(s)).contains(x),
{
    s.insert(x)
}

/// Relies on `DashSet::len`: the number of values in the set.
#[verifier::external_body]
pub(crate) fn kmer_set_len(s: &DashSet<u64>) -> (r: usize)
    ensures
        r == kmer_contents(*s).len(),
{
    s.len()
}

/// Relies on `DashSet::iter`: every value of the set is handed out, in an
/// order that the set chooses.
#[verifier::external_body]
pub(crate) fn kmer_set_values(s: &DashSet<u64>) -> (r: Vec<u64>)
    ensures
        r@.to_set() == kmer_contents(*s),
{
    s.iter().map(|x| *x).collect()
}

} // verus!
