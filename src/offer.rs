//! Sell intents.
use crate::company::Owner;
use crate::stock::ResourceHandle;
use vstd::prelude::*;

verus! {

pub type OfferHandle = usize;

/// A sell intent as an agent states it, before an owner is attached.
#[derive(Clone, Copy, Debug, PartialEq, Eq, Structural)]
pub struct UnprocessedOffer {
    pub resource: ResourceHandle,
    pub amount: u64,
    pub price_per_unit: u64,
    pub time_to_live: usize,
}

/// A sell intent in the book. Its remaining `amount` was taken from the
/// owner's stock when it was placed.
#[derive(Clone, Copy, Debug, PartialEq, Eq, Structural)]
pub struct Offer {
    pub resource: ResourceHandle,
    pub amount: u64,
    pub price_per_unit: u64,
    pub owner: Owner,
    pub time_to_live: usize,
}

impl Offer {
    /// What the owner is still to be paid if the whole offer sells: zero for
    /// market supply, which has no payee.
    pub open spec fn pledge(self) -> int {
        if self.owner is Company {
            self.amount * self.price_per_unit
        } else {
            0
        }
    }
}

} // verus!
