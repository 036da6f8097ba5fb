use vstd::prelude::*;

verus! {

/// A chain address.
pub type Address = [u8; 20];

/// The 32-byte identifier of a group.
pub type GroupId = [u8; 32];

/// A block height.
pub type BlockNum = u64;

/// How a member address is laid out as a Merkle leaf.
#[derive(Clone, Copy, Debug, PartialEq, Eq, Structural)]
pub enum GroupType {
    /// The leaf is the address alone.
    Plain,
    /// The leaf is the group identifier followed by the address.
    Tagged,
}

/// Lifecycle state of a group.
#[derive(Clone, Copy, Debug, PartialEq, Eq, Structural)]
pub enum GroupState {
    Active,
    /// Terminal: the group's membership could not be derived consistently.
    Unrecordable,
}

/// The view of a sequence of addresses as byte strings.
pub open spec fn addrs_view(s: Seq<Address>) -> Seq<Seq<u8>> {
    s.map_values(|a: Address| a@)
}

} // verus!
