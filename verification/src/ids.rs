//! Opaque 128-bit identifiers of nodes and bids.

use vstd::prelude::*;

verus! {

/// Identifier of a node of the tree. Two identifiers are the same node
/// exactly when their 128-bit values are equal.
#[derive(Clone, Copy, Debug, PartialEq, Eq, Structural, Hash)]
pub struct NodeId {
    pub value: u128,
}

/// Identifier of a bid, and later of the function provisioned from it.
#[derive(Clone, Copy, Debug, PartialEq, Eq, Structural, Hash)]
pub struct BidId {
    pub value: u128,
}

impl NodeId {
    /// The all-zero identifier, which names no node.
    pub fn nil() -> (id: NodeId)
        ensures
            id.value == 0,
    {
        NodeId { value: 0 }
    }

    /// Whether this is the all-zero identifier.
    pub fn is_nil(&self) -> (b: bool)
        ensures
            b == (self.value == 0),
    {
        self.value == 0
    }
}

/// Draws a random identifier from `uuid::Uuid::new_v4` and takes its
/// 128-bit value with `as_u128`. Which value comes back is not known;
/// every value that does carries the marks of a random UUID: version 4
/// and the RFC variant. The draw aborts the process where the
/// operating system has no randomness to give.
#[verifier::external_body]
fn random_uuid() -> (value: u128)
    ensures
        value & 0x0000_0000_0000_f000_c000_0000_0000_0000 == 0x0000_0000_0000_4000_8000_0000_0000_0000,
{
    uuid::Uuid::new_v4().as_u128()
}

impl BidId {
    /// A new random identifier. It carries the marks of a random
    /// UUID, version 4 and the RFC variant, so it is never the all-zero
    /// one.
    pub fn generate() -> (id: BidId)
        ensures
            id.value & 0x0000_0000_0000_f000_c000_0000_0000_0000
                == 0x0000_0000_0000_4000_8000_0000_0000_0000,
            id.value != 0,
    {
        let value = random_uuid();
        assert(value != 0) by (bit_vector)
            requires
                value & 0x0000_0000_0000_f000_c000_0000_0000_0000
                    == 0x0000_0000_0000_4000_8000_0000_0000_0000,
        ;
        BidId { value }
    }
}

} // verus!
