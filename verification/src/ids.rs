//! Identifiers of peers and groups.

use vstd::prelude::*;

verus! {

/// Identifier of a peer: the raw value of the generational handle under which
/// the peer store holds its record.
#[derive(Clone, Copy, Debug, PartialEq, Eq, Hash, Structural)]
pub struct PeerId(pub u64);

/// Identifier of a group: the raw value of the generational handle under which
/// the group store holds its record.
#[derive(Clone, Copy, Debug, PartialEq, Eq, Hash, Structural)]
pub struct GroupId(pub u64);

} // verus!
