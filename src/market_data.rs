//! The shared book: live offers and orders keyed by handle, and the
//! per-resource best-price indices derived from them.
use crate::company::Owner;
use crate::offer::{Offer, OfferHandle};
use crate::order::{Order, OrderHandle};
use crate::stock::ResourceHandle;
use crate::marketplace::{cheapest_position, highest_position};
use crate::sums::total;
use vstd::prelude::*;

verus! {

/// Live offers and orders, each list in ascending handle order (the order
/// of placement), and for each resource the cheapest offer and the highest
/// bid.
pub struct MarketData {
    pub offers: Vec<(OfferHandle, Offer)>,
    pub orders: Vec<(OrderHandle, Order)>,
    pub price_index: Vec<Option<(OfferHandle, u64)>>,
    pub order_index: Vec<Option<(OrderHandle, u64)>>,
    pub resource_count: usize,
}

/// Handles strictly increase along the list.
pub open spec fn handles_increasing<T>(s: Seq<(usize, T)>) -> bool {
    forall|i: int, j: int| 0 <= i < j < s.len() ==> #[trigger] s[i].0 < #[trigger] s[j].0
}

/// Position of the cheapest offer for `resource`; among equal prices the
/// first in the list.
pub open spec fn cheapest_index(offers: Seq<(OfferHandle, Offer)>, resource: ResourceHandle) -> Option<int>
    decreases offers.len(),
{
    if offers.len() == 0 {
        None
    } else {
        let prev = cheapest_index(offers.drop_last(), resource);
        let last = offers.last().1;
        if last.resource == resource && (prev is None || offers[prev->0].1.price_per_unit
            > last.price_per_unit) {
            Some(offers.len() - 1)
        } else {
            prev
        }
    }
}

/// Position of the highest bid for `resource`; among equal prices the
/// first in the list.
pub open spec fn highest_index(orders: Seq<(OrderHandle, Order)>, resource: ResourceHandle) -> Option<int>
    decreases orders.len(),
{
    if orders.len() == 0 {
        None
    } else {
        let prev = highest_index(orders.drop_last(), resource);
        let last = orders.last().1;
        if last.resource == resource && (prev is None || orders[prev->0].1.max_price_per_unit
            < last.max_price_per_unit) {
            Some(orders.len() - 1)
        } else {
            prev
        }
    }
}

/// Handle and price of the cheapest offer for `resource`.
pub open spec fn cheapest_in(offers: Seq<(OfferHandle, Offer)>, resource: ResourceHandle) -> Option<
    (OfferHandle, u64),
> {
    match cheapest_index(offers, resource) {
        Some(i) => Some((offers[i].0, offers[i].1.price_per_unit)),
        None => None,
    }
}

/// Handle and price of the highest bid for `resource`.
pub open spec fn highest_in(orders: Seq<(OrderHandle, Order)>, resource: ResourceHandle) -> Option<
    (OrderHandle, u64),
> {
    match highest_index(orders, resource) {
        Some(i) => Some((orders[i].0, orders[i].1.max_price_per_unit)),
        None => None,
    }
}

/// A position as a mathematical index.
pub open spec fn as_index(p: Option<usize>) -> Option<int> {
    match p {
        Some(i) => Some(i as int),
        None => None,
    }
}

/// The escrow of each order.
pub open spec fn escrows(orders: Seq<(OrderHandle, Order)>) -> Seq<int> {
    orders.map_values(|e: (OrderHandle, Order)| e.1.escrow())
}

/// The pledge of each offer.
pub open spec fn pledges(offers: Seq<(OfferHandle, Offer)>) -> Seq<int> {
    offers.map_values(|e: (OfferHandle, Offer)| e.1.pledge())
}

/// Currency held in escrow by all orders of the book.
pub open spec fn escrow_of(orders: Seq<(OrderHandle, Order)>) -> int {
    total(escrows(orders))
}

/// Currency that the book's company offers would fetch if sold in full.
pub open spec fn pledge_of(offers: Seq<(OfferHandle, Offer)>) -> int {
    total(pledges(offers))
}

/// No offer for `resource` is priced at or below `max_price`.
pub open spec fn no_offer_within(offers: Seq<(OfferHandle, Offer)>, resource: ResourceHandle, max_price: u64) -> bool {
    forall|j: int|
        0 <= j < offers.len() && #[trigger] offers[j].1.resource == resource
            ==> offers[j].1.price_per_unit > max_price
}

/// The cheapest-offer search finds the lowest price among the offers for
/// the resource, the first one at that price, and nothing where there is no
/// such offer.
pub proof fn lemma_cheapest_is_minimum(offers: Seq<(OfferHandle, Offer)>, resource: ResourceHandle)
    ensures
        match cheapest_index(offers, resource) {
            None => forall|j: int| 0 <= j < offers.len() ==> #[trigger] offers[j].1.resource != resource,
            Some(i) => {
                &&& 0 <= i < offers.len()
                &&& offers[i].1.resource == resource
                &&& forall|j: int|
                    0 <= j < offers.len() && #[trigger] offers[j].1.resource == resource
                        ==> offers[i].1.price_per_unit <= offers[j].1.price_per_unit
                &&& forall|j: int|
                    0 <= j < i && #[trigger] offers[j].1.resource == resource
                        ==> offers[i].1.price_per_unit < offers[j].1.price_per_unit
            },
        },
    decreases offers.len(),
{
    if offers.len() > 0 {
        let prefix = offers.drop_last();
        let n = offers.len() - 1;
        lemma_cheapest_is_minimum(prefix, resource);
        assert forall|j: int| 0 <= j < prefix.len() implies #[trigger] prefix[j] == offers[j] by {}
        match cheapest_index(offers, resource) {
            None => {
                assert forall|j: int| 0 <= j < offers.len() implies #[trigger] offers[j].1.resource
                    != resource by {
                    if j < n {
                        assert(prefix[j] == offers[j]);
                    }
                }
            },
            Some(i) => {
                assert forall|j: int|
                    0 <= j < offers.len() && #[trigger] offers[j].1.resource == resource implies offers[i].1.price_per_unit
                    <= offers[j].1.price_per_unit by {
                    if j < n {
                        assert(prefix[j] == offers[j]);
                    }
                }
                assert forall|j: int|
                    0 <= j < i && #[trigger] offers[j].1.resource == resource implies offers[i].1.price_per_unit
                    < offers[j].1.price_per_unit by {
                    assert(prefix[j] == offers[j]);
                }
            },
        }
    }
}

/// The highest-bid search finds the highest maximum price among the
/// orders for the resource, the first one at that price, and nothing where
/// there is no such order.
pub proof fn lemma_highest_is_maximum(orders: Seq<(OrderHandle, Order)>, resource: ResourceHandle)
    ensures
        match highest_index(orders, resource) {
            None => forall|j: int| 0 <= j < orders.len() ==> #[trigger] orders[j].1.resource != resource,
            Some(i) => {
                &&& 0 <= i < orders.len()
                &&& orders[i].1.resource == resource
                &&& forall|j: int|
                    0 <= j < orders.len() && #[trigger] orders[j].1.resource == resource
                        ==> orders[i].1.max_price_per_unit >= orders[j].1.max_price_per_unit
                &&& forall|j: int|
                    0 <= j < i && #[trigger] orders[j].1.resource == resource
                        ==> orders[i].1.max_price_per_unit > orders[j].1.max_price_per_unit
            },
        },
    decreases orders.len(),
{
    if orders.len() > 0 {
        let prefix = orders.drop_last();
        let n = orders.len() - 1;
        lemma_highest_is_maximum(prefix, resource);
        assert forall|j: int| 0 <= j < prefix.len() implies #[trigger] prefix[j] == orders[j] by {}
        match highest_index(orders, resource) {
            None => {
                assert forall|j: int| 0 <= j < orders.len() implies #[trigger] orders[j].1.resource
                    != resource by {
                    if j < n {
                        assert(prefix[j] == orders[j]);
                    }
                }
            },
            Some(i) => {
                assert forall|j: int|
                    0 <= j < orders.len() && #[trigger] orders[j].1.resource == resource implies orders[i].1.max_price_per_unit
                    >= orders[j].1.max_price_per_unit by {
                    if j < n {
                        assert(prefix[j] == orders[j]);
                    }
                }
                assert forall|j: int|
                    0 <= j < i && #[trigger] orders[j].1.resource == resource implies orders[i].1.max_price_per_unit
                    > orders[j].1.max_price_per_unit by {
                    assert(prefix[j] == orders[j]);
                }
            },
        }
    }
}

/// In a well-formed book the cheapest-offer entry of each resource is the
/// lowest price among its live offers, and empty exactly when it has none;
/// the highest-bid entry is the highest maximum price among its live orders,
/// and empty exactly when it has none.
pub proof fn lemma_index_is_best_price(md: MarketData, resource: ResourceHandle)
    requires
        md.well_formed(),
        resource < md.resource_count,
    ensures
        md.price_index@[resource as int] is None <==> forall|j: int|
            0 <= j < md.offers@.len() ==> #[trigger] md.offers@[j].1.resource != resource,
        md.price_index@[resource as int] matches Some((h, p)) ==> {
            &&& exists|i: int|
                0 <= i < md.offers@.len() && #[trigger] md.offers@[i].0 == h && md.offers@[i].1.resource
                    == resource && md.offers@[i].1.price_per_unit == p
            &&& forall|j: int|
                0 <= j < md.offers@.len() && #[trigger] md.offers@[j].1.resource == resource
                    ==> p <= md.offers@[j].1.price_per_unit
        },
        md.order_index@[resource as int] is None <==> forall|j: int|
            0 <= j < md.orders@.len() ==> #[trigger] md.orders@[j].1.resource != resource,
        md.order_index@[resource as int] matches Some((h, p)) ==> {
            &&& exists|i: int|
                0 <= i < md.orders@.len() && #[trigger] md.orders@[i].0 == h && md.orders@[i].1.resource
                    == resource && md.orders@[i].1.max_price_per_unit == p
            &&& forall|j: int|
                0 <= j < md.orders@.len() && #[trigger] md.orders@[j].1.resource == resource
                    ==> p >= md.orders@[j].1.max_price_per_unit
        },
{
    lemma_cheapest_is_minimum(md.offers@, resource);
    lemma_highest_is_maximum(md.orders@, resource);
    assert(md.price_index@[resource as int] == cheapest_in(md.offers@, resource));
    assert(md.order_index@[resource as int] == highest_in(md.orders@, resource));
    if let Some(i) = cheapest_index(md.offers@, resource) {
        assert(md.offers@[i].0 == md.offers@[i].0);
    }
    if let Some(i) = highest_index(md.orders@, resource) {
        assert(md.orders@[i].0 == md.orders@[i].0);
    }
}

fn same_entry(a: Option<(usize, u64)>, b: Option<(usize, u64)>) -> (r: bool)
    ensures
        r == (a == b),
{
    match (a, b) {
        (Some((ha, pa)), Some((hb, pb))) => ha == hb && pa == pb,
        (None, None) => true,
        _ => false,
    }
}

impl MarketData {
    /// Each index entry agrees with the intents now in the book.
    pub open spec fn indices_fresh(&self) -> bool {
        &&& self.price_index@.len() == self.resource_count
        &&& self.order_index@.len() == self.resource_count
        &&& forall|r: int|
            0 <= r < self.resource_count ==> #[trigger] self.price_index@[r] == cheapest_in(
                self.offers@,
                r as ResourceHandle,
            )
        &&& forall|r: int|
            0 <= r < self.resource_count ==> #[trigger] self.order_index@[r] == highest_in(
                self.orders@,
                r as ResourceHandle,
            )
    }

    /// Every intent names a known resource, every offer has a positive
    /// amount, handles are unique and ascending, and company-owned intents
    /// stay within what a `u64` can settle. Orders may have been filled to
    /// zero: they leave the book in the cleanup that follows matching.
    pub open spec fn book_valid(&self) -> bool {
        &&& handles_increasing(self.offers@)
        &&& handles_increasing(self.orders@)
        &&& forall|i: int|
            0 <= i < self.offers@.len() ==> {
                let o = #[trigger] self.offers@[i].1;
                &&& o.resource < self.resource_count
                &&& o.amount > 0
                &&& o.pledge() <= u64::MAX
            }
        &&& forall|i: int|
            0 <= i < self.orders@.len() ==> {
                let o = #[trigger] self.orders@[i].1;
                &&& o.resource < self.resource_count
                &&& o.escrow() <= u64::MAX
            }
    }

    /// A valid book in which every order still wants something.
    pub open spec fn intents_valid(&self) -> bool {
        &&& self.book_valid()
        &&& forall|i: int| 0 <= i < self.orders@.len() ==> #[trigger] self.orders@[i].1.amount > 0
    }

    pub open spec fn well_formed(&self) -> bool {
        self.intents_valid() && self.indices_fresh()
    }

    /// Every company named as an owner exists among `n` companies.
    pub open spec fn owners_below(&self, n: nat) -> bool {
        &&& forall|i: int|
            0 <= i < self.offers@.len() ==> match #[trigger] self.offers@[i].1.owner {
                Owner::Company(c) => c < n,
                Owner::Market => true,
            }
        &&& forall|i: int|
            0 <= i < self.orders@.len() ==> match #[trigger] self.orders@[i].1.owner {
                Owner::Company(c) => c < n,
                Owner::Market => true,
            }
    }

    /// An empty book for resources `0..resource_count`.
    pub fn new(resource_count: usize) -> (m: MarketData)
        ensures
            m.resource_count == resource_count,
            m.offers@.len() == 0,
            m.orders@.len() == 0,
            m.well_formed(),
    {
        let mut price_index: Vec<Option<(OfferHandle, u64)>> = Vec::new();
        let mut order_index: Vec<Option<(OrderHandle, u64)>> = Vec::new();
        let mut resource: usize = 0;
        while resource < resource_count
            invariant
                resource <= resource_count,
                price_index@.len() == resource,
                order_index@.len() == resource,
                forall|r: int| 0 <= r < resource ==> #[trigger] price_index@[r] is None,
                forall|r: int| 0 <= r < resource ==> #[trigger] order_index@[r] is None,
            decreases resource_count - resource,
        {
            price_index.push(None);
            order_index.push(None);
            resource = resource + 1;
        }
        MarketData {
            offers: Vec::new(),
            orders: Vec::new(),
            price_index,
            order_index,
            resource_count,
        }
    }

    /// Whether the book is well formed: every intent valid and both
    /// indices up to date.
    pub fn check_well_formed(&self) -> (b: bool)
        ensures
            b == self.well_formed(),
    {
        self.check_offers() && self.check_orders() && self.check_indices()
    }

    fn check_offers(&self) -> (b: bool)
        ensures
            b == (handles_increasing(self.offers@) && forall|i: int|
                0 <= i < self.offers@.len() ==> {
                    let o = #[trigger] self.offers@[i].1;
                    &&& o.resource < self.resource_count
                    &&& o.amount > 0
                    &&& o.pledge() <= u64::MAX
                }),
    {
        let mut i: usize = 0;
        while i < self.offers.len()
            invariant
                i <= self.offers@.len(),
                forall|a: int, c: int| 0 <= a < c < i ==> #[trigger] self.offers@[a].0 < #[trigger] self.offers@[c].0,
                forall|k: int|
                    0 <= k < i ==> {
                        let o = #[trigger] self.offers@[k].1;
                        &&& o.resource < self.resource_count
                        &&& o.amount > 0
                        &&& o.pledge() <= u64::MAX
                    },
            decreases self.offers.len() - i,
        {
            let (handle, offer) = self.offers[i];
            if i > 0 && self.offers[i - 1].0 >= handle {
                return false;
            }
            if offer.resource >= self.resource_count || offer.amount == 0 {
                return false;
            }
            if offer.owner != Owner::Market && offer.amount.checked_mul(offer.price_per_unit).is_none() {
                return false;
            }
            proof {
                assert forall|a: int, c: int| 0 <= a < c < i + 1 implies #[trigger] self.offers@[a].0
                    < #[trigger] self.offers@[c].0 by {
                    if c == i && a < i - 1 {
                        assert(self.offers@[a].0 < self.offers@[i - 1].0);
                    }
                }
            }
            i = i + 1;
        }
        true
    }

    fn check_orders(&self) -> (b: bool)
        ensures
            b == (handles_increasing(self.orders@) && forall|i: int|
                0 <= i < self.orders@.len() ==> {
                    let o = #[trigger] self.orders@[i].1;
                    &&& o.resource < self.resource_count
                    &&& o.escrow() <= u64::MAX
                    &&& o.amount > 0
                }),
    {
        let mut i: usize = 0;
        while i < self.orders.len()
            invariant
                i <= self.orders@.len(),
                forall|a: int, c: int| 0 <= a < c < i ==> #[trigger] self.orders@[a].0 < #[trigger] self.orders@[c].0,
                forall|k: int|
                    0 <= k < i ==> {
                        let o = #[trigger] self.orders@[k].1;
                        &&& o.resource < self.resource_count
                        &&& o.escrow() <= u64::MAX
                        &&& o.amount > 0
                    },
            decreases self.orders.len() - i,
        {
            let (handle, order) = self.orders[i];
            if i > 0 && self.orders[i - 1].0 >= handle {
                return false;
            }
            if order.resource >= self.resource_count || order.amount == 0 {
                return false;
            }
            if order.owner != Owner::Market && order.amount.checked_mul(order.max_price_per_unit).is_none() {
                return false;
            }
            proof {
                assert forall|a: int, c: int| 0 <= a < c < i + 1 implies #[trigger] self.orders@[a].0
                    < #[trigger] self.orders@[c].0 by {
                    if c == i && a < i - 1 {
                        assert(self.orders@[a].0 < self.orders@[i - 1].0);
                    }
                }
            }
            i = i + 1;
        }
        true
    }

    fn check_indices(&self) -> (b: bool)
        ensures
            b == self.indices_fresh(),
    {
        if self.price_index.len() != self.resource_count || self.order_index.len() != self.resource_count {
            return false;
        }
        let mut r: usize = 0;
        while r < self.resource_count
            invariant
                r <= self.resource_count,
                self.price_index@.len() == self.resource_count,
                self.order_index@.len() == self.resource_count,
                forall|k: int|
                    0 <= k < r ==> #[trigger] self.price_index@[k] == cheapest_in(self.offers@, k as ResourceHandle),
                forall|k: int|
                    0 <= k < r ==> #[trigger] self.order_index@[k] == highest_in(self.orders@, k as ResourceHandle),
            decreases self.resource_count - r,
        {
            let cheapest = match cheapest_position(r, &self.offers) {
                Some(i) => Some((self.offers[i].0, self.offers[i].1.price_per_unit)),
                None => None,
            };
            let highest = match highest_position(r, &self.orders) {
                Some(i) => Some((self.orders[i].0, self.orders[i].1.max_price_per_unit)),
                None => None,
            };
            if !same_entry(self.price_index[r], cheapest) || !same_entry(self.order_index[r], highest) {
                return false;
            }
            r = r + 1;
        }
        true
    }
}

} // verus!
