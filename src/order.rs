//! Buy intents.
use crate::company::Owner;
use crate::stock::ResourceHandle;
use vstd::prelude::*;

verus! {

pub type OrderHandle = usize;

/// A buy intent as an agent states it, before an owner is attached.
#[derive(Clone, Copy, Debug, PartialEq, Eq, Structural)]
pub struct UnprocessedOrder {
    pub resource: ResourceHandle,
    pub amount: u64,
    pub max_price_per_unit: u64,
    pub time_to_live: usize,
}

/// A buy intent in the book. A company-owned order had
/// `amount * max_price_per_unit` taken from its owner's currency when it
/// was placed.
#[derive(Clone, Copy, Debug, PartialEq, Eq, Structural)]
pub struct Order {
    pub owner: Owner,
    pub resource: ResourceHandle,
    pub amount: u64,
    pub max_price_per_unit: u64,
    pub time_to_live: usize,
}

impl Order {
    /// Currency held in escrow for the remaining amount: zero for market
    /// demand, which pays nothing in.
    pub open spec fn escrow(self) -> int {
        if self.owner is Company {
            self.amount * self.max_price_per_unit
        } else {
            0
        }
    }
}

} // verus!
