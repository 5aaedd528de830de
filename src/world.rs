//! The world and the steps of one simulation tick. A tick runs, in this
//! order: `update_producers`, `update_consumers`, for each company in turn
//! `observe_company` and then `update_company` with the action its policy
//! chose, and finally `update_market`. Companies thus act on the book as
//! the previous tick's matching left it.
use crate::action_space::{ActionSpace, CompanyAction};
use crate::company::{acted, money, observed, Company, CompanyHandle, Owner};
use crate::market_data::{escrow_of, MarketData};
use crate::marketplace::{
    MarketplaceStatistics,
    aged_offer, aged_orders, bumped, book_uncrossed, company_owned_only, currency_conserved, headroom_used,
    matched, map_quantity, aged_offers, expiry_refund, expiry_return, orders_filled_from, out_of_reach,
    without_filled, Marketplace,
};
use crate::consumer::Consumer;
use crate::offer::{Offer, UnprocessedOffer};
use crate::producer::Producer;
use crate::order::{Order, OrderHandle, UnprocessedOrder};
use crate::recipe::RecipeData;
use crate::resource_data::ResourceData;
use crate::state::CompanyState;
use crate::stock::{capped, ResourceHandle};
use crate::world_data::{CompanyData, ConsumerData, ProcessorData, ProducerData};
use vstd::prelude::*;

verus! {

pub struct World {
    pub company_data: CompanyData,
    pub processor_data: ProcessorData,
    pub recipe_data: RecipeData,
    pub resource_data: ResourceData,
    pub producer_data: ProducerData,
    pub consumer_data: ConsumerData,
    pub market_data: MarketData,
    pub market_place: Marketplace,
    pub actionspace: ActionSpace,
}

/// Every processor of every company works a known recipe.
pub open spec fn processors_known(companies: Seq<Company>, recipe_data: RecipeData) -> bool {
    forall|c: int, i: int|
        0 <= c < companies.len() && 0 <= i < companies[c].processors@.len()
            ==> #[trigger] companies[c].processors@[i].recipe < recipe_data.recipes@.len()
}

/// `new` is `old` with entries appended, all of them owned by `owner`.
pub open spec fn offers_grew_by(new: Seq<(usize, Offer)>, old: Seq<(usize, Offer)>, owner: Owner) -> bool {
    &&& old.len() <= new.len()
    &&& new.take(old.len() as int) == old
    &&& forall|i: int| old.len() <= i < new.len() ==> (#[trigger] new[i]).1.owner == owner
}

/// `new` is `old` with entries appended, all of them owned by `owner`.
pub open spec fn orders_grew_by(new: Seq<(usize, Order)>, old: Seq<(usize, Order)>, owner: Owner) -> bool {
    &&& old.len() <= new.len()
    &&& new.take(old.len() as int) == old
    &&& forall|i: int| old.len() <= i < new.len() ==> (#[trigger] new[i]).1.owner == owner
}

/// The supply a producer holds once its timer has moved.
pub open spec fn released_offers(p: Producer) -> Seq<UnprocessedOffer> {
    if p.current_tick % p.offer_creation_ticks == 0 {
        p.offers@ + p.production@
    } else {
        p.offers@
    }
}

/// The demand a consumer holds once its timer has moved.
pub open spec fn released_orders(c: Consumer) -> Seq<UnprocessedOrder> {
    if bumped(c.current_tick) == c.order_creation_ticks {
        c.orders@ + c.consumption@
    } else {
        c.orders@
    }
}

/// `after` is `before` ticked, with its released supply handed over.
pub open spec fn producer_ticked(before: Producer, after: Producer) -> bool {
    &&& after.offers@.len() == 0
    &&& after.production@ == before.production@
    &&& after.offer_creation_ticks == before.offer_creation_ticks
    &&& after.current_tick == if before.current_tick % before.offer_creation_ticks == 0 {
        1
    } else {
        bumped(before.current_tick)
    }
}

/// `after` is `before` ticked, with its released demand handed over.
pub open spec fn consumer_ticked(before: Consumer, after: Consumer) -> bool {
    let due = bumped(before.current_tick) == before.order_creation_ticks;
    &&& after.orders@.len() == 0
    &&& after.consumption@ == before.consumption@
    &&& after.order_creation_ticks == before.order_creation_ticks
    &&& after.current_tick == if due && before.consumption@.len() > 0 {
        0
    } else {
        bumped(before.current_tick)
    }
}

/// The offers and the last handle after booking `items` in turn as
/// market-owned offers, each under the next handle where the book accepts
/// it (a positive amount, a known resource, a handle left).
pub open spec fn book_offers(
    offers: Seq<(usize, Offer)>,
    next: usize,
    items: Seq<UnprocessedOffer>,
    rc: usize,
) -> (Seq<(usize, Offer)>, usize)
    decreases items.len(),
{
    if items.len() == 0 {
        (offers, next)
    } else {
        let (o, n) = book_offers(offers, next, items.drop_last(), rc);
        let it = items.last();
        if it.amount > 0 && it.resource < rc && n < usize::MAX {
            (
                o.push(
                    (
                        (n + 1) as usize,
                        Offer {
                            resource: it.resource,
                            amount: it.amount,
                            price_per_unit: it.price_per_unit,
                            owner: Owner::Market,
                            time_to_live: it.time_to_live,
                        },
                    ),
                ),
                (n + 1) as usize,
            )
        } else {
            (o, n)
        }
    }
}

/// The orders and the last handle after booking `items` in turn as
/// market-owned orders, each under the next handle where the book accepts
/// it.
pub open spec fn book_orders(
    orders: Seq<(usize, Order)>,
    next: usize,
    items: Seq<UnprocessedOrder>,
    rc: usize,
) -> (Seq<(usize, Order)>, usize)
    decreases items.len(),
{
    if items.len() == 0 {
        (orders, next)
    } else {
        let (o, n) = book_orders(orders, next, items.drop_last(), rc);
        let it = items.last();
        if it.amount > 0 && it.resource < rc && n < usize::MAX {
            (
                o.push(
                    (
                        (n + 1) as usize,
                        Order {
                            owner: Owner::Market,
                            resource: it.resource,
                            amount: it.amount,
                            max_price_per_unit: it.max_price_per_unit,
                            time_to_live: it.time_to_live,
                        },
                    ),
                ),
                (n + 1) as usize,
            )
        } else {
            (o, n)
        }
    }
}

/// The book after every producer in turn has released and booked its
/// supply.
pub open spec fn book_supply(offers: Seq<(usize, Offer)>, next: usize, producers: Seq<Producer>, rc: usize) -> (
    Seq<(usize, Offer)>,
    usize,
)
    decreases producers.len(),
{
    if producers.len() == 0 {
        (offers, next)
    } else {
        let (o, n) = book_supply(offers, next, producers.drop_last(), rc);
        book_offers(o, n, released_offers(producers.last()), rc)
    }
}

/// The book after every consumer in turn has released and booked its
/// demand.
pub open spec fn book_demand(orders: Seq<(usize, Order)>, next: usize, consumers: Seq<Consumer>, rc: usize) -> (
    Seq<(usize, Order)>,
    usize,
)
    decreases consumers.len(),
{
    if consumers.len() == 0 {
        (orders, next)
    } else {
        let (o, n) = book_demand(orders, next, consumers.drop_last(), rc);
        book_orders(o, n, released_orders(consumers.last()), rc)
    }
}

/// The book, the next handle, the company's quantities and the placed
/// counter after company `h` books the offers `items` in turn: an offer is
/// booked, and its units taken from stock, exactly when its value fits a
/// `u64`, the stock covers it and the book accepts it.
pub open spec fn book_company_offers(
    offers: Seq<(usize, Offer)>,
    next: usize,
    q: spec_fn(ResourceHandle) -> nat,
    placed: usize,
    items: Seq<UnprocessedOffer>,
    rc: usize,
    h: CompanyHandle,
) -> (Seq<(usize, Offer)>, usize, spec_fn(ResourceHandle) -> nat, usize)
    decreases items.len(),
{
    if items.len() == 0 {
        (offers, next, q, placed)
    } else {
        let (o, n, qq, pl) = book_company_offers(offers, next, q, placed, items.drop_last(), rc, h);
        let it = items.last();
        if it.amount * it.price_per_unit <= u64::MAX && qq(it.resource) >= it.amount && it.amount > 0
            && it.resource < rc && n < usize::MAX {
            (
                o.push(
                    (
                        (n + 1) as usize,
                        Offer {
                            resource: it.resource,
                            amount: it.amount,
                            price_per_unit: it.price_per_unit,
                            owner: Owner::Company(h),
                            time_to_live: it.time_to_live,
                        },
                    ),
                ),
                (n + 1) as usize,
                |x: ResourceHandle|
                    if x == it.resource {
                        (qq(x) - it.amount) as nat
                    } else {
                        qq(x)
                    },
                bumped(pl),
            )
        } else {
            (o, n, qq, pl)
        }
    }
}

/// The book, the next handle, the company's currency and the placed
/// counter after company `h` books the orders `items` in turn: an order is
/// booked, and `amount * max_price_per_unit` taken from currency, exactly
/// when that escrow fits a `u64`, the currency covers it and the book
/// accepts the order.
pub open spec fn book_company_orders(
    orders: Seq<(usize, Order)>,
    next: usize,
    currency: u64,
    placed: usize,
    items: Seq<UnprocessedOrder>,
    rc: usize,
    h: CompanyHandle,
) -> (Seq<(usize, Order)>, usize, u64, usize)
    decreases items.len(),
{
    if items.len() == 0 {
        (orders, next, currency, placed)
    } else {
        let (o, n, c, pl) = book_company_orders(orders, next, currency, placed, items.drop_last(), rc, h);
        let it = items.last();
        let escrow = it.amount * it.max_price_per_unit;
        if escrow <= u64::MAX && c >= escrow && it.amount > 0 && it.resource < rc && n < usize::MAX {
            (
                o.push(
                    (
                        (n + 1) as usize,
                        Order {
                            owner: Owner::Company(h),
                            resource: it.resource,
                            amount: it.amount,
                            max_price_per_unit: it.max_price_per_unit,
                            time_to_live: it.time_to_live,
                        },
                    ),
                ),
                (n + 1) as usize,
                (c - escrow) as u64,
                bumped(pl),
            )
        } else {
            (o, n, c, pl)
        }
    }
}

impl World {
    pub open spec fn well_formed(&self) -> bool {
        &&& self.market_data.well_formed()
        &&& self.market_place.issued(&self.market_data)
        &&& self.market_data.owners_below(self.company_data.companies@.len())
        &&& self.recipe_data.well_formed()
        &&& processors_known(self.company_data.companies@, self.recipe_data)
        &&& forall|p: int|
            0 <= p < self.producer_data.producers@.len()
                ==> #[trigger] self.producer_data.producers@[p].offer_creation_ticks > 0
    }

    /// An empty world.
    pub fn new() -> (w: World)
        ensures
            w.well_formed(),
            w.company_data.companies@.len() == 0,
            w.market_data.resource_count == 0,
    {
        World {
            company_data: CompanyData::new(),
            processor_data: ProcessorData::new(),
            recipe_data: RecipeData::new(),
            resource_data: ResourceData::new(),
            producer_data: ProducerData::new(),
            consumer_data: ConsumerData::new(),
            market_data: MarketData::new(0),
            market_place: Marketplace::new(),
            actionspace: ActionSpace::new(0, 0),
        }
    }

    /// Advances every producer and books, in producer order, the supply it
    /// then holds as market-owned offers under fresh handles, wherever the
    /// book accepts it; each producer's pending supply is emptied.
    pub fn update_producers(&mut self)
        requires
            old(self).well_formed(),
        ensures
            final(self).well_formed(),
            (final(self).market_data.offers@, final(self).market_place.next_offer_id) == book_supply(
                old(self).market_data.offers@,
                old(self).market_place.next_offer_id,
                old(self).producer_data.producers@,
                old(self).market_data.resource_count,
            ),
            final(self).market_data.orders@ == old(self).market_data.orders@,
            final(self).market_data.resource_count == old(self).market_data.resource_count,
            final(self).market_place.statistics == old(self).market_place.statistics,
            final(self).market_place.next_order_id == old(self).market_place.next_order_id,
            final(self).company_data.companies@ == old(self).company_data.companies@,
            final(self).producer_data.producers@.len() == old(self).producer_data.producers@.len(),
            forall|p: int|
                0 <= p < old(self).producer_data.producers@.len() ==> producer_ticked(
                    old(self).producer_data.producers@[p],
                    #[trigger] final(self).producer_data.producers@[p],
                ),
    {
        let ghost start = self.producer_data.producers@;
        let ghost rc = self.market_data.resource_count;
        let count = self.producer_data.producers.len();
        let mut p: usize = 0;
        while p < count
            invariant
                count == self.producer_data.producers@.len(),
                count == start.len(),
                p <= count,
                self.well_formed(),
                rc == self.market_data.resource_count,
                rc == old(self).market_data.resource_count,
                (self.market_data.offers@, self.market_place.next_offer_id) == book_supply(
                    old(self).market_data.offers@,
                    old(self).market_place.next_offer_id,
                    start.take(p as int),
                    rc,
                ),
                self.market_data.orders@ == old(self).market_data.orders@,
                self.market_place.statistics == old(self).market_place.statistics,
                self.market_place.next_order_id == old(self).market_place.next_order_id,
                self.company_data.companies@ == old(self).company_data.companies@,
                forall|k: int| 0 <= k < p ==> producer_ticked(start[k], #[trigger] self.producer_data.producers@[k]),
                forall|k: int| p <= k < count ==> #[trigger] self.producer_data.producers@[k] == start[k],
            decreases count - p,
        {
            let ghost book0 = (self.market_data.offers@, self.market_place.next_offer_id);
            self.producer_data.producers[p].tick();
            let released = self.producer_data.producers[p].offers.len();
            let ghost items = self.producer_data.producers@[p as int].offers@;
            let ghost ticked = self.producer_data.producers@;
            proof {
                assert(items == released_offers(start[p as int]));
            }
            let mut j: usize = 0;
            while j < released
                invariant
                    count == self.producer_data.producers@.len(),
                    count == start.len(),
                    p < count,
                    j <= released,
                    released == items.len(),
                    items == self.producer_data.producers@[p as int].offers@,
                    self.producer_data.producers@ == ticked,
                    self.well_formed(),
                    rc == self.market_data.resource_count,
                    (self.market_data.offers@, self.market_place.next_offer_id) == book_offers(
                        book0.0,
                        book0.1,
                        items.take(j as int),
                        rc,
                    ),
                    self.market_data.orders@ == old(self).market_data.orders@,
                    self.market_place.statistics == old(self).market_place.statistics,
                    self.market_place.next_order_id == old(self).market_place.next_order_id,
                    self.company_data.companies@ == old(self).company_data.companies@,
                decreases released - j,
            {
                let offer = self.producer_data.producers[p].offers[j];
                proof {
                    assert(items.take(j + 1).drop_last() =~= items.take(j as int));
                }
                self.market_place.place_offer(
                    Offer {
                        resource: offer.resource,
                        amount: offer.amount,
                        price_per_unit: offer.price_per_unit,
                        owner: Owner::Market,
                        time_to_live: offer.time_to_live,
                    },
                    &mut self.market_data,
                );
                j = j + 1;
            }
            proof {
                assert(items.take(items.len() as int) =~= items);
                assert(start.take(p + 1).drop_last() =~= start.take(p as int));
            }
            self.producer_data.producers[p].offers.clear();
            proof {
                assert forall|k: int| 0 <= k < p + 1 implies producer_ticked(start[k], #[trigger] self.producer_data.producers@[k]) by {
                    if k < p {
                        assert(self.producer_data.producers@[k] == ticked[k]);
                    }
                }
                assert forall|k: int| p + 1 <= k < count implies #[trigger] self.producer_data.producers@[k] == start[k] by {
                    assert(self.producer_data.producers@[k] == ticked[k]);
                }
            }
            p = p + 1;
        }
        proof {
            assert(start.take(count as int) =~= start);
        }
    }

    /// Advances every consumer and books, in consumer order, the demand it
    /// then holds as market-owned orders under fresh handles, wherever the
    /// book accepts it; each consumer's pending demand is emptied.
    pub fn update_consumers(&mut self)
        requires
            old(self).well_formed(),
        ensures
            final(self).well_formed(),
            (final(self).market_data.orders@, final(self).market_place.next_order_id) == book_demand(
                old(self).market_data.orders@,
                old(self).market_place.next_order_id,
                old(self).consumer_data.consumers@,
                old(self).market_data.resource_count,
            ),
            final(self).market_data.offers@ == old(self).market_data.offers@,
            final(self).market_data.resource_count == old(self).market_data.resource_count,
            final(self).market_place.statistics == old(self).market_place.statistics,
            final(self).market_place.next_offer_id == old(self).market_place.next_offer_id,
            final(self).company_data.companies@ == old(self).company_data.companies@,
            final(self).consumer_data.consumers@.len() == old(self).consumer_data.consumers@.len(),
            forall|c: int|
                0 <= c < old(self).consumer_data.consumers@.len() ==> consumer_ticked(
                    old(self).consumer_data.consumers@[c],
                    #[trigger] final(self).consumer_data.consumers@[c],
                ),
    {
        let ghost start = self.consumer_data.consumers@;
        let ghost rc = self.market_data.resource_count;
        let count = self.consumer_data.consumers.len();
        let mut c: usize = 0;
        while c < count
            invariant
                count == self.consumer_data.consumers@.len(),
                count == start.len(),
                c <= count,
                self.well_formed(),
                rc == self.market_data.resource_count,
                rc == old(self).market_data.resource_count,
                (self.market_data.orders@, self.market_place.next_order_id) == book_demand(
                    old(self).market_data.orders@,
                    old(self).market_place.next_order_id,
                    start.take(c as int),
                    rc,
                ),
                self.market_data.offers@ == old(self).market_data.offers@,
                self.market_place.statistics == old(self).market_place.statistics,
                self.market_place.next_offer_id == old(self).market_place.next_offer_id,
                self.company_data.companies@ == old(self).company_data.companies@,
                forall|k: int| 0 <= k < c ==> consumer_ticked(start[k], #[trigger] self.consumer_data.consumers@[k]),
                forall|k: int| c <= k < count ==> #[trigger] self.consumer_data.consumers@[k] == start[k],
            decreases count - c,
        {
            let ghost book0 = (self.market_data.orders@, self.market_place.next_order_id);
            self.consumer_data.consumers[c].tick();
            let released = self.consumer_data.consumers[c].orders.len();
            let ghost items = self.consumer_data.consumers@[c as int].orders@;
            let ghost ticked = self.consumer_data.consumers@;
            proof {
                assert(items == released_orders(start[c as int]));
            }
            let mut j: usize = 0;
            while j < released
                invariant
                    count == self.consumer_data.consumers@.len(),
                    count == start.len(),
                    c < count,
                    j <= released,
                    released == items.len(),
                    items == self.consumer_data.consumers@[c as int].orders@,
                    self.consumer_data.consumers@ == ticked,
                    self.well_formed(),
                    rc == self.market_data.resource_count,
                    (self.market_data.orders@, self.market_place.next_order_id) == book_orders(
                        book0.0,
                        book0.1,
                        items.take(j as int),
                        rc,
                    ),
                    self.market_data.offers@ == old(self).market_data.offers@,
                    self.market_place.statistics == old(self).market_place.statistics,
                    self.market_place.next_offer_id == old(self).market_place.next_offer_id,
                    self.company_data.companies@ == old(self).company_data.companies@,
                decreases released - j,
            {
                let order = self.consumer_data.consumers[c].orders[j];
                proof {
                    assert(items.take(j + 1).drop_last() =~= items.take(j as int));
                }
                self.market_place.place_order(
                    Order {
                        owner: Owner::Market,
                        resource: order.resource,
                        amount: order.amount,
                        max_price_per_unit: order.max_price_per_unit,
                        time_to_live: order.time_to_live,
                    },
                    &mut self.market_data,
                );
                j = j + 1;
            }
            proof {
                assert(items.take(items.len() as int) =~= items);
                assert(start.take(c + 1).drop_last() =~= start.take(c as int));
            }
            self.consumer_data.consumers[c].orders.clear();
            proof {
                assert forall|k: int| 0 <= k < c + 1 implies consumer_ticked(start[k], #[trigger] self.consumer_data.consumers@[k]) by {
                    if k < c {
                        assert(self.consumer_data.consumers@[k] == ticked[k]);
                    }
                }
                assert forall|k: int| c + 1 <= k < count implies #[trigger] self.consumer_data.consumers@[k] == start[k] by {
                    assert(self.consumer_data.consumers@[k] == ticked[k]);
                }
            }
            c = c + 1;
        }
        proof {
            assert(start.take(count as int) =~= start);
        }
    }

    /// Runs company `company_handle`'s processors and returns what it
    /// observes of itself and of the market.
    pub fn observe_company(&mut self, company_handle: CompanyHandle) -> (state: CompanyState)
        requires
            old(self).well_formed(),
            company_handle < old(self).company_data.companies@.len(),
        ensures
            final(self).well_formed(),
            final(self).company_data.companies@.len() == old(self).company_data.companies@.len(),
            forall|k: int|
                0 <= k < old(self).company_data.companies@.len() && k != company_handle
                    ==> #[trigger] final(self).company_data.companies@[k] == old(self).company_data.companies@[k],
            final(self).market_data == old(self).market_data,
            final(self).company_data.companies@[company_handle as int].currency
                == old(self).company_data.companies@[company_handle as int].currency,
            state.currency == final(self).company_data.companies@[company_handle as int].currency,
            state.stock@.len() == final(self).market_data.resource_count,
            observed(
                old(self).company_data.companies@[company_handle as int],
                final(self).company_data.companies@[company_handle as int],
                state,
                old(self).recipe_data,
                old(self).market_data,
            ),
    {
        let ghost before = self.company_data.companies@;
        proof {
            assert forall|i: int|
                0 <= i < before[company_handle as int].processors@.len() implies #[trigger] before[company_handle as int].processors@[i].recipe
                < self.recipe_data.recipes@.len() by {}
        }
        let state = self.company_data.companies[company_handle].tick(&self.recipe_data, &self.market_data);
        proof {
            assert forall|c: int, i: int|
                0 <= c < self.company_data.companies@.len() && 0 <= i < self.company_data.companies@[c].processors@.len()
                    implies #[trigger] self.company_data.companies@[c].processors@[i].recipe
                < self.recipe_data.recipes@.len() by {
                if c != company_handle {
                    assert(self.company_data.companies@[c] == before[c]);
                }
            }
        }
        state
    }

    /// Carries out the action at position `action` of the action space
    /// for company `company_handle`, which chose it on observing `state`,
    /// then books the intents it stated: an offer once its units are taken
    /// from the company's stock, an order once its escrow is taken from
    /// the company's currency. An intent the company cannot cover, or the
    /// book rejects, is dropped with nothing taken.
    pub fn update_company(&mut self, company_handle: CompanyHandle, action: usize, state: CompanyState)
        requires
            old(self).well_formed(),
            company_handle < old(self).company_data.companies@.len(),
            action < old(self).actionspace.actions@.len(),
        ensures
            final(self).well_formed(),
            final(self).company_data.companies@.len() == old(self).company_data.companies@.len(),
            forall|k: int|
                0 <= k < old(self).company_data.companies@.len() && k != company_handle
                    ==> #[trigger] final(self).company_data.companies@[k] == old(self).company_data.companies@[k],
            final(self).company_data.companies@[company_handle as int].old_state == state,
            final(self).company_data.companies@[company_handle as int].orders@.len() == 0,
            final(self).company_data.companies@[company_handle as int].offers@.len() == 0,
            final(self).market_data.resource_count == old(self).market_data.resource_count,
            offers_grew_by(
                final(self).market_data.offers@,
                old(self).market_data.offers@,
                Owner::Company(company_handle),
            ),
            orders_grew_by(
                final(self).market_data.orders@,
                old(self).market_data.orders@,
                Owner::Company(company_handle),
            ),
            exists|mid: Company|
                #[trigger] acted(
                    old(self).company_data.companies@[company_handle as int],
                    mid,
                    old(self).actionspace.actions@[action as int],
                    state,
                    old(self).recipe_data,
                    old(self).market_data,
                    old(self).processor_data.processor_price,
                ) && {
                    let fin = final(self).company_data.companies@[company_handle as int];
                    let ob = book_company_offers(old(self).market_data.offers@, old(self).market_place.next_offer_id, |x: ResourceHandle| mid.stock.quantity(x), old(self).market_place.statistics.company_offers_placed, mid.offers@, old(self).market_data.resource_count, company_handle);
                    let rb = book_company_orders(old(self).market_data.orders@, old(self).market_place.next_order_id, mid.currency, old(self).market_place.statistics.company_orders_placed, mid.orders@, old(self).market_data.resource_count, company_handle);
                    &&& final(self).market_data.offers@ == ob.0
                    &&& final(self).market_place.next_offer_id == ob.1
                    &&& forall|r: ResourceHandle| #[trigger] fin.stock.quantity(r) == (ob.2)(r)
                    &&& final(self).market_data.orders@ == rb.0
                    &&& final(self).market_place.next_order_id == rb.1
                    &&& fin.currency == rb.2
                    &&& final(self).market_place.statistics == (MarketplaceStatistics {
                        company_offers_placed: ob.3,
                        company_orders_placed: rb.3,
                        ..old(self).market_place.statistics
                    })
                    &&& fin.processors@ == mid.processors@
                    &&& fin.name == mid.name
                    &&& fin.id == mid.id
                },
    {
        let h = company_handle;
        let chosen: CompanyAction = self.actionspace.actions[action];
        let ghost before = self.company_data.companies@;
        let price = self.processor_data.processor_price;
        self.company_data.companies[h].act(chosen, state, &self.recipe_data, &self.market_data, price);
        proof {
            let c = self.company_data.companies@[h as int];
            assert forall|cc: int, i: int|
                0 <= cc < self.company_data.companies@.len() && 0 <= i < self.company_data.companies@[cc].processors@.len()
                    implies #[trigger] self.company_data.companies@[cc].processors@[i].recipe
                < self.recipe_data.recipes@.len() by {
                if cc != h {
                    assert(self.company_data.companies@[cc] == before[cc]);
                } else {
                    let old_procs = before[h as int].processors@;
                    match chosen {
                        CompanyAction::SellProcessor(recipe) => {
                            crate::company::lemma_first_with_recipe_range(old_procs, recipe);
                            match crate::company::first_with_recipe(old_procs, recipe) {
                                Some(r) => {
                                    if i >= r {
                                        assert(c.processors@[i] == old_procs[i + 1]);
                                    } else {
                                        assert(c.processors@[i] == old_procs[i]);
                                    }
                                },
                                None => {},
                            }
                        },
                        CompanyAction::BuyProcessor(recipe) => {
                            if recipe < self.recipe_data.recipes@.len() && before[h as int].currency >= price {
                                if i < old_procs.len() {
                                    assert(c.processors@.drop_last()[i] == old_procs[i]);
                                }
                            }
                        },
                        _ => {},
                    }
                }
            }
        }
        let ghost after_act = self.company_data.companies@;
        let ghost mid = after_act[h as int];
        let ghost q0 = |x: ResourceHandle| mid.stock.quantity(x);
        let ghost rc = self.market_data.resource_count;
        let ghost stats0 = self.market_place.statistics;
        let ghost offers0 = self.market_data.offers@;
        let ghost next0 = self.market_place.next_offer_id;
        let ghost orders0 = self.market_data.orders@;
        let ghost onext0 = self.market_place.next_order_id;
        assert(self.market_data.offers@.take(self.market_data.offers@.len() as int) =~= self.market_data.offers@);
        assert(self.market_data.orders@.take(self.market_data.orders@.len() as int) =~= self.market_data.orders@);
        // Offers: take the units from stock, then book them.
        let offer_count = self.company_data.companies[h].offers.len();
        let mut j: usize = 0;
        while j < offer_count
            invariant
                j <= offer_count,
                h < self.company_data.companies@.len(),
                self.company_data.companies@.len() == before.len(),
                offer_count == self.company_data.companies@[h as int].offers@.len(),
                self.well_formed(),
                self.company_data.companies@[h as int].old_state == state,
                self.company_data.companies@[h as int].processors@ == after_act[h as int].processors@,
                forall|k: int| 0 <= k < before.len() && k != h ==> #[trigger] self.company_data.companies@[k] == before[k],
                self.market_data.resource_count == old(self).market_data.resource_count,
                offers_grew_by(self.market_data.offers@, old(self).market_data.offers@, Owner::Company(h)),
                self.market_data.orders@ == old(self).market_data.orders@,
                mid == after_act[h as int],
                rc == self.market_data.resource_count,
                self.company_data.companies@[h as int].offers@ == mid.offers@,
                self.company_data.companies@[h as int].orders@ == mid.orders@,
                self.company_data.companies@[h as int].currency == mid.currency,
                self.company_data.companies@[h as int].name == mid.name,
                self.company_data.companies@[h as int].id == mid.id,
                self.market_data.offers@ == book_company_offers(offers0, next0, q0, stats0.company_offers_placed, mid.offers@.take(j as int), rc, h).0,
                self.market_place.next_offer_id == book_company_offers(offers0, next0, q0, stats0.company_offers_placed, mid.offers@.take(j as int), rc, h).1,
                forall|r: ResourceHandle| #[trigger] self.company_data.companies@[h as int].stock.quantity(r) == (book_company_offers(offers0, next0, q0, stats0.company_offers_placed, mid.offers@.take(j as int), rc, h).2)(r),
                self.market_place.statistics == (MarketplaceStatistics {
                    company_offers_placed: book_company_offers(offers0, next0, q0, stats0.company_offers_placed, mid.offers@.take(j as int), rc, h).3,
                    ..stats0
                }),
                self.market_data.orders@ == orders0,
                self.market_place.next_order_id == onext0,
            decreases offer_count - j,
        {
            let offer = self.company_data.companies[h].offers[j];
            let ghost book_before = self.market_data.offers@;
            let ghost stock_before = self.company_data.companies@[h as int].stock;
            proof {
                assert(mid.offers@.take(j + 1).drop_last() =~= mid.offers@.take(j as int));
                assert(mid.offers@.take(j + 1).last() == offer);
            }
            if offer.amount.checked_mul(offer.price_per_unit).is_some() {
                if self.company_data.companies[h].stock.remove_from_stock_if_possible(offer.resource, offer.amount) {
                    let booked = self.market_place.place_offer(
                        Offer {
                            resource: offer.resource,
                            amount: offer.amount,
                            price_per_unit: offer.price_per_unit,
                            owner: Owner::Company(h),
                            time_to_live: offer.time_to_live,
                        },
                        &mut self.market_data,
                    );
                    if booked.is_none() {
                        self.company_data.companies[h].stock.add_to_stock(offer.resource, offer.amount);
                    }
                }
            }
            proof {
                assert forall|r: ResourceHandle| #[trigger] self.company_data.companies@[h as int].stock.quantity(r)
                    == (book_company_offers(offers0, next0, q0, stats0.company_offers_placed, mid.offers@.take(j + 1), rc, h).2)(r) by {
                    assert(stock_before.quantity(r) == (book_company_offers(offers0, next0, q0, stats0.company_offers_placed, mid.offers@.take(j as int), rc, h).2)(r));
                }
                if self.market_data.offers@.len() > book_before.len() {
                    assert(self.market_data.offers@.take(book_before.len() as int) =~= book_before);
                    assert(self.market_data.offers@.take(old(self).market_data.offers@.len() as int)
                        =~= book_before.take(old(self).market_data.offers@.len() as int));
                }
                assert forall|cc: int, i: int|
                    0 <= cc < self.company_data.companies@.len() && 0 <= i < self.company_data.companies@[cc].processors@.len()
                        implies #[trigger] self.company_data.companies@[cc].processors@[i].recipe
                    < self.recipe_data.recipes@.len() by {
                    if cc != h {
                        assert(self.company_data.companies@[cc] == before[cc]);
                    } else {
                        assert(self.company_data.companies@[cc].processors@[i] == after_act[h as int].processors@[i]);
                    }
                }
            }
            j = j + 1;
        }
        self.company_data.companies[h].offers.clear();
        proof {
            assert(mid.offers@.take(mid.offers@.len() as int) =~= mid.offers@);
        }
        // Orders: take the escrow from currency, then book them.
        let order_count = self.company_data.companies[h].orders.len();
        let mut j: usize = 0;
        while j < order_count
            invariant
                j <= order_count,
                h < self.company_data.companies@.len(),
                self.company_data.companies@.len() == before.len(),
                order_count == self.company_data.companies@[h as int].orders@.len(),
                self.company_data.companies@[h as int].offers@.len() == 0,
                self.well_formed(),
                self.company_data.companies@[h as int].old_state == state,
                self.company_data.companies@[h as int].processors@ == after_act[h as int].processors@,
                forall|k: int| 0 <= k < before.len() && k != h ==> #[trigger] self.company_data.companies@[k] == before[k],
                self.market_data.resource_count == old(self).market_data.resource_count,
                offers_grew_by(self.market_data.offers@, old(self).market_data.offers@, Owner::Company(h)),
                orders_grew_by(self.market_data.orders@, old(self).market_data.orders@, Owner::Company(h)),
                mid == after_act[h as int],
                rc == self.market_data.resource_count,
                self.company_data.companies@[h as int].orders@ == mid.orders@,
                self.company_data.companies@[h as int].name == mid.name,
                self.company_data.companies@[h as int].id == mid.id,
                self.market_data.orders@ == book_company_orders(orders0, onext0, mid.currency, stats0.company_orders_placed, mid.orders@.take(j as int), rc, h).0,
                self.market_place.next_order_id == book_company_orders(orders0, onext0, mid.currency, stats0.company_orders_placed, mid.orders@.take(j as int), rc, h).1,
                self.company_data.companies@[h as int].currency == book_company_orders(orders0, onext0, mid.currency, stats0.company_orders_placed, mid.orders@.take(j as int), rc, h).2,
                self.market_place.statistics == (MarketplaceStatistics {
                    company_offers_placed: book_company_offers(offers0, next0, q0, stats0.company_offers_placed, mid.offers@, rc, h).3,
                    company_orders_placed: book_company_orders(orders0, onext0, mid.currency, stats0.company_orders_placed, mid.orders@.take(j as int), rc, h).3,
                    ..stats0
                }),
                self.market_data.offers@ == book_company_offers(offers0, next0, q0, stats0.company_offers_placed, mid.offers@, rc, h).0,
                self.market_place.next_offer_id == book_company_offers(offers0, next0, q0, stats0.company_offers_placed, mid.offers@, rc, h).1,
                forall|r: ResourceHandle| #[trigger] self.company_data.companies@[h as int].stock.quantity(r) == (book_company_offers(offers0, next0, q0, stats0.company_offers_placed, mid.offers@, rc, h).2)(r),
            decreases order_count - j,
        {
            let order = self.company_data.companies[h].orders[j];
            let ghost book_before = self.market_data.orders@;
            proof {
                assert(mid.orders@.take(j + 1).drop_last() =~= mid.orders@.take(j as int));
                assert(mid.orders@.take(j + 1).last() == order);
            }
            match order.amount.checked_mul(order.max_price_per_unit) {
                Some(escrow) => {
                    if self.company_data.companies[h].currency >= escrow {
                        let booked = self.market_place.place_order(
                            Order {
                                owner: Owner::Company(h),
                                resource: order.resource,
                                amount: order.amount,
                                max_price_per_unit: order.max_price_per_unit,
                                time_to_live: order.time_to_live,
                            },
                            &mut self.market_data,
                        );
                        if booked.is_some() {
                            self.company_data.companies[h].currency = self.company_data.companies[h].currency - escrow;
                        }
                    }
                },
                None => {},
            }
            proof {
                if self.market_data.orders@.len() > book_before.len() {
                    assert(self.market_data.orders@.take(book_before.len() as int) =~= book_before);
                    assert(self.market_data.orders@.take(old(self).market_data.orders@.len() as int)
                        =~= book_before.take(old(self).market_data.orders@.len() as int));
                }
                assert forall|cc: int, i: int|
                    0 <= cc < self.company_data.companies@.len() && 0 <= i < self.company_data.companies@[cc].processors@.len()
                        implies #[trigger] self.company_data.companies@[cc].processors@[i].recipe
                    < self.recipe_data.recipes@.len() by {
                    if cc != h {
                        assert(self.company_data.companies@[cc] == before[cc]);
                    } else {
                        assert(self.company_data.companies@[cc].processors@[i] == after_act[h as int].processors@[i]);
                    }
                }
            }
            j = j + 1;
        }
        self.company_data.companies[h].orders.clear();
        proof {
            assert(mid.orders@.take(mid.orders@.len() as int) =~= mid.orders@);
            assert forall|cc: int, i: int|
                0 <= cc < self.company_data.companies@.len() && 0 <= i < self.company_data.companies@[cc].processors@.len()
                    implies #[trigger] self.company_data.companies@[cc].processors@[i].recipe
                < self.recipe_data.recipes@.len() by {
                if cc != h {
                    assert(self.company_data.companies@[cc] == before[cc]);
                } else {
                    assert(self.company_data.companies@[cc].processors@[i] == after_act[h as int].processors@[i]);
                }
            }
        }
    }

    /// Matches the book, settles, expires and refreshes the indices.
    pub fn update_market(&mut self)
        requires
            old(self).well_formed(),
        ensures
            final(self).well_formed(),
            book_uncrossed(final(self).market_data),
            exists|matched: Seq<(OrderHandle, Order)>|
                orders_filled_from(matched, old(self).market_data.orders@) && #[trigger] aged_orders(
                    without_filled(matched),
                ) == final(self).market_data.orders@,
            forall|k: int|
                0 <= k < old(self).market_data.offers@.len() && out_of_reach(
                    old(self).market_data.orders@,
                    #[trigger] old(self).market_data.offers@[k].1,
                ) && old(self).market_data.offers@[k].1.time_to_live > 1 ==> exists|j: int|
                    0 <= j < final(self).market_data.offers@.len() && #[trigger] final(self).market_data.offers@[j]
                        == aged_offer(old(self).market_data.offers@[k]),
            final(self).company_data.companies@.len() == old(self).company_data.companies@.len(),
            final(self).market_data.orders@ == aged_orders(without_filled(matched(old(self).market_data, old(self).company_data.companies@, old(self).market_place.statistics).orders)),
            final(self).market_data.offers@ == aged_offers(matched(old(self).market_data, old(self).company_data.companies@, old(self).market_place.statistics).offers),
            forall|k: int|
                0 <= k < old(self).company_data.companies@.len() ==> {
                    &&& (#[trigger] final(self).company_data.companies@[k]).currency == capped(
                        matched(old(self).market_data, old(self).company_data.companies@, old(self).market_place.statistics).currency[k] + expiry_refund(without_filled(matched(old(self).market_data, old(self).company_data.companies@, old(self).market_place.statistics).orders), k),
                    )
                    &&& forall|r: ResourceHandle|
                        #[trigger] final(self).company_data.companies@[k].stock.quantity(r) == capped(
                            map_quantity(matched(old(self).market_data, old(self).company_data.companies@, old(self).market_place.statistics).stocks[k], r) + expiry_return(matched(old(self).market_data, old(self).company_data.companies@, old(self).market_place.statistics).offers, k, r),
                        )
                    &&& final(self).company_data.companies@[k].same_profile(old(self).company_data.companies@[k])
                },
            final(self).market_place.statistics == matched(old(self).market_data, old(self).company_data.companies@, old(self).market_place.statistics).statistics,
            currency_conserved(
                old(self).company_data.companies@,
                old(self).market_data,
                0,
                final(self).company_data.companies@,
                final(self).market_data,
                matched(old(self).market_data, old(self).company_data.companies@, old(self).market_place.statistics).flow,
            ),
            company_owned_only(old(self).market_data) && headroom_used(
                old(self).company_data.companies@,
                old(self).market_data,
            ) <= u64::MAX ==> money(final(self).company_data.companies@) + escrow_of(
                final(self).market_data.orders@,
            ) == money(old(self).company_data.companies@) + escrow_of(old(self).market_data.orders@),
    {
        let ghost before = self.company_data.companies@;
        self.market_place.tick(&mut self.market_data, &mut self.company_data.companies);
        proof {
            assert forall|c: int, i: int|
                0 <= c < self.company_data.companies@.len() && 0 <= i < self.company_data.companies@[c].processors@.len()
                    implies #[trigger] self.company_data.companies@[c].processors@[i].recipe
                < self.recipe_data.recipes@.len() by {
                assert(self.company_data.companies@[c].same_profile(before[c]));
                assert(self.company_data.companies@[c].processors@[i] == before[c].processors@[i]);
            }
        }
    }

    /// Whether the world is well formed, as a loaded snapshot must be
    /// before it is stepped.
    pub fn check_well_formed(&self) -> (b: bool)
        ensures
            b == self.well_formed(),
    {
        self.market_data.check_well_formed() && self.check_handles() && self.check_owners()
            && self.check_recipes() && self.check_processors() && self.check_producers()
    }

    fn check_handles(&self) -> (b: bool)
        ensures
            b == self.market_place.issued(&self.market_data),
    {
        let mut i: usize = 0;
        while i < self.market_data.offers.len()
            invariant
                i <= self.market_data.offers@.len(),
                forall|k: int|
                    0 <= k < i ==> 0 < #[trigger] self.market_data.offers@[k].0 <= self.market_place.next_offer_id,
            decreases self.market_data.offers.len() - i,
        {
            let h = self.market_data.offers[i].0;
            if h == 0 || h > self.market_place.next_offer_id {
                return false;
            }
            i = i + 1;
        }
        let mut i: usize = 0;
        while i < self.market_data.orders.len()
            invariant
                i <= self.market_data.orders@.len(),
                forall|k: int|
                    0 <= k < i ==> 0 < #[trigger] self.market_data.orders@[k].0 <= self.market_place.next_order_id,
                forall|k: int|
                    0 <= k < self.market_data.offers@.len() ==> 0 < #[trigger] self.market_data.offers@[k].0
                        <= self.market_place.next_offer_id,
            decreases self.market_data.orders.len() - i,
        {
            let h = self.market_data.orders[i].0;
            if h == 0 || h > self.market_place.next_order_id {
                return false;
            }
            i = i + 1;
        }
        true
    }

    fn check_owners(&self) -> (b: bool)
        ensures
            b == self.market_data.owners_below(self.company_data.companies@.len()),
    {
        let n = self.company_data.companies.len();
        let mut i: usize = 0;
        while i < self.market_data.offers.len()
            invariant
                i <= self.market_data.offers@.len(),
                n == self.company_data.companies@.len(),
                forall|k: int|
                    0 <= k < i ==> match #[trigger] self.market_data.offers@[k].1.owner {
                        Owner::Company(c) => c < n,
                        Owner::Market => true,
                    },
            decreases self.market_data.offers.len() - i,
        {
            match self.market_data.offers[i].1.owner {
                Owner::Company(c) => {
                    if c >= n {
                        return false;
                    }
                },
                Owner::Market => {},
            }
            i = i + 1;
        }
        let mut i: usize = 0;
        while i < self.market_data.orders.len()
            invariant
                i <= self.market_data.orders@.len(),
                n == self.company_data.companies@.len(),
                forall|k: int|
                    0 <= k < i ==> match #[trigger] self.market_data.orders@[k].1.owner {
                        Owner::Company(c) => c < n,
                        Owner::Market => true,
                    },
                forall|k: int|
                    0 <= k < self.market_data.offers@.len() ==> match #[trigger] self.market_data.offers@[k].1.owner {
                        Owner::Company(c) => c < n,
                        Owner::Market => true,
                    },
            decreases self.market_data.orders.len() - i,
        {
            match self.market_data.orders[i].1.owner {
                Owner::Company(c) => {
                    if c >= n {
                        return false;
                    }
                },
                Owner::Market => {},
            }
            i = i + 1;
        }
        true
    }

    fn check_recipes(&self) -> (b: bool)
        ensures
            b == self.recipe_data.well_formed(),
    {
        let mut r: usize = 0;
        while r < self.recipe_data.recipes.len()
            invariant
                r <= self.recipe_data.recipes@.len(),
                forall|k: int| 0 <= k < r ==> (#[trigger] self.recipe_data.recipes@[k]).well_formed(),
            decreases self.recipe_data.recipes.len() - r,
        {
            let items = &self.recipe_data.recipes[r].ingredients;
            let mut i: usize = 0;
            while i < items.len()
                invariant
                    i <= items@.len(),
                    r < self.recipe_data.recipes@.len(),
                    items@ == self.recipe_data.recipes@[r as int].ingredients@,
                    forall|k: int| 0 <= k < r ==> (#[trigger] self.recipe_data.recipes@[k]).well_formed(),
                    forall|a: int, c: int|
                        0 <= a < items@.len() && 0 <= c < i && a != c ==> #[trigger] items@[a].0 != #[trigger] items@[c].0,
                decreases items.len() - i,
            {
                let mut j: usize = 0;
                while j < items.len()
                    invariant
                        i < items@.len(),
                        j <= items@.len(),
                        r < self.recipe_data.recipes@.len(),
                        items@ == self.recipe_data.recipes@[r as int].ingredients@,
                        forall|a: int, c: int|
                            0 <= a < items@.len() && 0 <= c < i && a != c ==> #[trigger] items@[a].0 != #[trigger] items@[c].0,
                        forall|a: int| 0 <= a < j && a != i ==> #[trigger] items@[a].0 != items@[i as int].0,
                    decreases items.len() - j,
                {
                    if j != i && items[j].0 == items[i].0 {
                        proof {
                            let recipe = self.recipe_data.recipes@[r as int];
                            assert(recipe.ingredients@[j as int].0 == recipe.ingredients@[i as int].0);
                            assert(!recipe.well_formed());
                        }
                        return false;
                    }
                    j = j + 1;
                }
                i = i + 1;
            }
            r = r + 1;
        }
        true
    }

    fn check_processors(&self) -> (b: bool)
        ensures
            b == processors_known(self.company_data.companies@, self.recipe_data),
    {
        let recipe_count = self.recipe_data.recipes.len();
        let mut c: usize = 0;
        while c < self.company_data.companies.len()
            invariant
                c <= self.company_data.companies@.len(),
                recipe_count == self.recipe_data.recipes@.len(),
                forall|cc: int, i: int|
                    0 <= cc < c && 0 <= i < self.company_data.companies@[cc].processors@.len()
                        ==> #[trigger] self.company_data.companies@[cc].processors@[i].recipe < recipe_count,
            decreases self.company_data.companies.len() - c,
        {
            let processors = &self.company_data.companies[c].processors;
            let mut i: usize = 0;
            while i < processors.len()
                invariant
                    i <= processors@.len(),
                    c < self.company_data.companies@.len(),
                    processors@ == self.company_data.companies@[c as int].processors@,
                    recipe_count == self.recipe_data.recipes@.len(),
                    forall|k: int| 0 <= k < i ==> #[trigger] processors@[k].recipe < recipe_count,
                    forall|cc: int, k: int|
                        0 <= cc < c && 0 <= k < self.company_data.companies@[cc].processors@.len()
                            ==> #[trigger] self.company_data.companies@[cc].processors@[k].recipe < recipe_count,
                decreases processors.len() - i,
            {
                if processors[i].recipe >= recipe_count {
                    return false;
                }
                i = i + 1;
            }
            proof {
                assert forall|cc: int, k: int|
                    0 <= cc < c + 1 && 0 <= k < self.company_data.companies@[cc].processors@.len()
                        implies #[trigger] self.company_data.companies@[cc].processors@[k].recipe < recipe_count by {
                    if cc == c {
                        assert(processors@[k].recipe < recipe_count);
                    }
                }
            }
            c = c + 1;
        }
        true
    }

    fn check_producers(&self) -> (b: bool)
        ensures
            b == forall|p: int|
                0 <= p < self.producer_data.producers@.len()
                    ==> #[trigger] self.producer_data.producers@[p].offer_creation_ticks > 0,
    {
        let mut p: usize = 0;
        while p < self.producer_data.producers.len()
            invariant
                p <= self.producer_data.producers@.len(),
                forall|k: int| 0 <= k < p ==> #[trigger] self.producer_data.producers@[k].offer_creation_ticks > 0,
            decreases self.producer_data.producers.len() - p,
        {
            if self.producer_data.producers[p].offer_creation_ticks == 0 {
                return false;
            }
            p = p + 1;
        }
        true
    }
}

} // verus!
