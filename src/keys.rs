//! Handles into the arenas of open tabs and of collections. A handle holds
//! the 64-bit form of an arena key: the slot index in the low half and the
//! slot's version, always odd for a live slot, in the high half.
use vstd::prelude::*;

verus! {

/// The identity that the arena gives to the 64-bit form `x` of a key: the
/// same index, with the version made odd.
pub open spec fn norm(x: u64) -> u64 {
    (x & 0xffff_ffffu64) | (((x >> 32u64) | 1u64) << 32u64)
}

/// The slot index held in the low half of a key's 64-bit form.
pub open spec fn slot_index(x: u64) -> u64 {
    x & 0xffff_ffffu64
}

pub proof fn lemma_norm_idempotent(x: u64)
    ensures
        norm(norm(x)) == norm(x),
{
    assert(((x & 0xffff_ffffu64) | (((x >> 32u64) | 1u64) << 32u64)) & 0xffff_ffffu64 == x & 0xffff_ffffu64)
        by (bit_vector);
    assert(((((x & 0xffff_ffffu64) | (((x >> 32u64) | 1u64) << 32u64)) >> 32u64) | 1u64) == ((x >> 32u64) | 1u64))
        by (bit_vector);
}

fn norm_exec(x: u64) -> (r: u64)
    ensures
        r == norm(x),
{
    (x & 0xffff_ffffu64) | (((x >> 32u64) | 1u64) << 32u64)
}

/// Handle of an open tab.
#[derive(Debug, Clone, Copy, PartialEq, Eq, Structural, Hash)]
pub struct TabKey {
    bits: u64,
}

/// Handle of a collection.
#[derive(Debug, Clone, Copy, PartialEq, Eq, Structural, Hash)]
pub struct CollectionKey {
    bits: u64,
}

impl TabKey {
    /// The arena identity of this handle.
    pub open spec fn id(self) -> u64 {
        norm(self.bits_spec())
    }

    pub closed spec fn bits_spec(self) -> u64 {
        self.bits
    }

    pub fn id_exec(&self) -> (r: u64)
        ensures
            r == self.id(),
    {
        norm_exec(self.bits)
    }

    /// A handle always holds its key in the arena's form, so two handles
    /// naming the same entry are equal.
    #[verifier::type_invariant]
    pub open spec fn canonical(self) -> bool {
        norm(self.bits_spec()) == self.bits_spec()
    }

    /// Two handles with the same identity are the same handle.
    pub proof fn lemma_same_id(a: TabKey, b: TabKey)
        requires
            a.canonical(),
            b.canonical(),
            a.id() == b.id(),
        ensures
            a == b,
    {
    }

    pub(crate) fn from_bits(bits: u64) -> (r: TabKey)
        requires
            norm(bits) == bits,
        ensures
            r.bits_spec() == bits,
    {
        TabKey { bits }
    }
}

impl CollectionKey {
    /// The arena identity of this handle.
    pub open spec fn id(self) -> u64 {
        norm(self.bits_spec())
    }

    pub closed spec fn bits_spec(self) -> u64 {
        self.bits
    }

    pub fn id_exec(&self) -> (r: u64)
        ensures
            r == self.id(),
    {
        norm_exec(self.bits)
    }

    /// A handle always holds its key in the arena's form, so two handles
    /// naming the same entry are equal.
    #[verifier::type_invariant]
    pub open spec fn canonical(self) -> bool {
        norm(self.bits_spec()) == self.bits_spec()
    }

    /// Two handles with the same identity are the same handle.
    pub proof fn lemma_same_id(a: CollectionKey, b: CollectionKey)
        requires
            a.canonical(),
            b.canonical(),
            a.id() == b.id(),
        ensures
            a == b,
    {
    }

    pub(crate) fn from_bits(bits: u64) -> (r: CollectionKey)
        requires
            norm(bits) == bits,
        ensures
            r.bits_spec() == bits,
    {
        CollectionKey { bits }
    }
}

} // verus!
