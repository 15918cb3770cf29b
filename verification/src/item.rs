use vstd::prelude::*;

verus! {

/// Identifier of a kind of material or item.
#[derive(Debug, Clone, Copy, PartialEq, Eq, Structural, Hash)]
pub struct ResourceType {
    pub id: u64,
}

/// A quantity of one resource type. `num` is a count of whole units.
#[derive(Debug, Clone, Copy, PartialEq, Eq, Structural)]
pub struct Resource {
    pub resource_type: ResourceType,
    pub num: u64,
}

} // verus!
