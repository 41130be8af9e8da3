use vstd::prelude::*;

verus! {

/// A set of node indices, held in a `bit_set::BitSet`. Verus cannot read
/// the crate's type (its block parameter is bound by an outside trait),
/// so the whole struct is opaque and every operation is a trusted
/// wrapper over the named contents.
#[verifier::external_body]
pub struct NodeSet {
    inner: bit_set::BitSet,
}

/// The integers a node set holds.
pub uninterp spec fn node_set_elems(s: NodeSet) -> Set<int>;

impl NodeSet {
    /// Relies on bit_set::BitSet::new: the new set has no contents.
    #[verifier::external_body]
    pub fn new() -> (s: NodeSet)
        ensures
            node_set_elems(s) == Set::<int>::empty(),
    {
        NodeSet { inner: bit_set::BitSet::new() }
    }

    /// Relies on bit_set::BitSet::insert: adds the value and reports
    /// whether it was new. The bound keeps the grown bit vector's size
    /// arithmetic far from overflow.
    #[verifier::external_body]
    pub fn insert(&mut self, v: usize) -> (r: bool)
        requires
            v < 0x1000_0000,
        ensures
            node_set_elems(*final(self)) == node_set_elems(*old(self)).insert(v as int),
            r == !node_set_elems(*old(self)).contains(v as int),
    {
        self.inner.insert(v)
    }

    /// Relies on bit_set::BitSet::contains: membership of the value.
    #[verifier::external_body]
    pub fn contains(&self, v: usize) -> (r: bool)
        ensures
            r == node_set_elems(*self).contains(v as int),
    {
        self.inner.contains(v)
    }
}

} // verus!
