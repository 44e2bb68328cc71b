use nohash_hasher::IntSet;
use vstd::prelude::*;

verus! {

/// The set of port indices that have reported for a scope.
#[verifier::external_body]
pub struct PortSet {
    ports: IntSet<u64>,
}

/// The ports held by a port set.
pub uninterp spec fn ports_of(s: PortSet) -> Set<u64>;

impl PortSet {
    /// Relies on `Default` for `nohash_hasher::IntSet`, which is a std
    /// `HashSet` with a hasher builder: the new set is empty.
    #[verifier::external_body]
    pub(crate) fn new() -> (r: PortSet)
        ensures
            ports_of(r) == Set::<u64>::empty(),
            ports_of(r).finite(),
    {
        PortSet { ports: IntSet::default() }
    }

    /// Relies on `HashSet::insert` over `nohash_hasher::IntSet`: the port is
    /// added, and the result says whether it was absent before.
    #[verifier::external_body]
    pub(crate) fn insert(&mut self, port: u64) -> (r: bool)
        ensures
            ports_of(*final(self)) == ports_of(*old(self)).insert(port),
            ports_of(*final(self)).finite(),
            r == !ports_of(*old(self)).contains(port),
    {
        self.ports.insert(port)
    }

    /// Relies on `HashSet::contains` over `nohash_hasher::IntSet`.
    #[verifier::external_body]
    pub(crate) fn contains(&self, port: u64) -> (r: bool)
        ensures
            r == ports_of(*self).contains(port),
    {
        self.ports.contains(&port)
    }

    /// Relies on `HashSet::len` over `nohash_hasher::IntSet`: the number of
    /// distinct ports held.
    #[verifier::external_body]
    pub(crate) fn len(&self) -> (r: usize)
        ensures
            r == ports_of(*self).len(),
    {
        self.ports.len()
    }
}

} // verus!
