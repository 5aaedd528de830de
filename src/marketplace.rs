//! The matching engine: placement, best-price search, settlement, expiry
//! and the statistics kept over them.
use crate::company::{
    lemma_capped_twice, lemma_money_bounds, lemma_money_update, money, owned_by, Company, Owner,
};
use crate::market_data::{
    as_index, cheapest_in, cheapest_index, escrow_of, escrows, handles_increasing, highest_in,
    highest_index, lemma_cheapest_is_minimum, no_offer_within, pledge_of, pledges, MarketData,
};
use crate::stock::capped;
use crate::sums::{
    all_nonneg, lemma_total_bounds, lemma_total_nonneg, lemma_total_prefix, lemma_total_push, lemma_total_remove, lemma_total_take_next,
    lemma_total_update,
};
use crate::offer::{Offer, OfferHandle};
use crate::order::{Order, OrderHandle};
use crate::stock::ResourceHandle;
use vstd::prelude::*;

verus! {

/// Counters over company-owned intents only, so that market-maker noise
/// stays apart from what the agents achieve.
#[derive(Clone, Copy, Debug, PartialEq, Eq, Structural)]
pub struct MarketplaceStatistics {
    pub company_orders_placed: usize,
    pub company_offers_placed: usize,
    pub company_orders_partly_fulfilled: usize,
    pub company_offers_partly_fulfilled: usize,
    pub company_orders_fulfilled: usize,
    pub company_offers_fulfilled: usize,
}

/// A counter one step on, held at `usize::MAX` once it is there.
pub open spec fn bumped(x: usize) -> usize {
    if x < usize::MAX {
        (x + 1) as usize
    } else {
        x
    }
}

/// `x` after a step that counts iff `cond`.
pub open spec fn bumped_if(x: usize, cond: bool) -> usize {
    if cond {
        bumped(x)
    } else {
        x
    }
}

fn bump(x: usize) -> (r: usize)
    ensures
        r == bumped(x),
{
    x.saturating_add(1)
}

impl MarketplaceStatistics {
    /// Nothing counted yet.
    pub open spec fn is_zero(&self) -> bool {
        &&& self.company_orders_placed == 0
        &&& self.company_offers_placed == 0
        &&& self.company_orders_partly_fulfilled == 0
        &&& self.company_offers_partly_fulfilled == 0
        &&& self.company_orders_fulfilled == 0
        &&& self.company_offers_fulfilled == 0
    }

    pub fn new() -> (s: Self)
        ensures
            s.is_zero(),
    {
        MarketplaceStatistics {
            company_orders_placed: 0,
            company_offers_placed: 0,
            company_orders_partly_fulfilled: 0,
            company_offers_partly_fulfilled: 0,
            company_orders_fulfilled: 0,
            company_offers_fulfilled: 0,
        }
    }
}

/// Units that change hands when `order` meets `offer`.
pub open spec fn trade_amount(order: Order, offer: Offer) -> u64 {
    if order.amount < offer.amount {
        order.amount
    } else {
        offer.amount
    }
}

/// Escrow returned to a company buyer: it paid in at its maximum price and
/// settles at the offer's price.
pub open spec fn refund_for(order: Order, offer: Offer, t: u64) -> int {
    if order.owner is Company {
        (order.max_price_per_unit - offer.price_per_unit) * t
    } else {
        0
    }
}

/// Currency paid to a company seller.
pub open spec fn payment_for(offer: Offer, t: u64) -> int {
    if offer.owner is Company {
        offer.price_per_unit * t
    } else {
        0
    }
}

/// Currency that a trade brings into the companies from the market side:
/// a market buyer pays a company seller, a company buyer pays a market
/// seller, and a trade between two companies or two market sides moves
/// nothing across.
pub open spec fn market_flow(order: Order, offer: Offer, t: u64) -> int {
    if order.owner is Market && offer.owner is Company {
        offer.price_per_unit * t
    } else if order.owner is Company && offer.owner is Market {
        -(offer.price_per_unit * t)
    } else {
        0
    }
}

/// Company `k` after a trade: the buyer gets the units and its refund, the
/// seller its payment, and nobody else is touched.
pub open spec fn account_after_trade(
    before: Company,
    after: Company,
    k: int,
    order: Order,
    offer: Offer,
    t: u64,
) -> bool {
    let buys = owned_by(order.owner, k);
    let sells = owned_by(offer.owner, k);
    &&& after.same_profile(before)
    &&& after.currency == capped(
        before.currency + (if buys {
            refund_for(order, offer, t)
        } else {
            0
        }) + (if sells {
            payment_for(offer, t)
        } else {
            0
        }),
    )
    &&& buys ==> after.stock.resources@ == before.stock.resources@.insert(
        order.resource,
        capped(before.stock.quantity(order.resource) + t) as u64,
    )
    &&& buys ==> after.stock.set_from(
        before.stock,
        order.resource,
        capped(before.stock.quantity(order.resource) + t),
    )
    &&& !buys ==> after.stock == before.stock
}

/// Statistics after a trade: each company side counts as fulfilled where
/// it was used up and as partly fulfilled where some is left.
pub open spec fn statistics_after_trade(
    s: MarketplaceStatistics,
    order: Order,
    offer: Offer,
    t: u64,
) -> MarketplaceStatistics {
    let buyer = order.owner is Company;
    let seller = offer.owner is Company;
    MarketplaceStatistics {
        company_orders_fulfilled: bumped_if(s.company_orders_fulfilled, buyer && t == order.amount),
        company_orders_partly_fulfilled: bumped_if(
            s.company_orders_partly_fulfilled,
            buyer && t < order.amount,
        ),
        company_offers_fulfilled: bumped_if(s.company_offers_fulfilled, seller && t == offer.amount),
        company_offers_partly_fulfilled: bumped_if(
            s.company_offers_partly_fulfilled,
            seller && t < offer.amount,
        ),
        ..s
    }
}

/// Currency that may still be credited to companies: what they hold, what
/// orders hold in escrow for them, and what their offers would fetch.
pub open spec fn headroom_used(companies: Seq<Company>, md: MarketData) -> int {
    money(companies) + escrow_of(md.orders@) + pledge_of(md.offers@)
}

proof fn lemma_trade_arith(max: int, p: int, amount_o: int, amount_f: int, t: int)
    requires
        0 <= p <= max,
        0 < t <= amount_o,
        t <= amount_f,
    ensures
        (max - p) * t + p * t == max * t,
        amount_o * max - (amount_o - t) * max == max * t,
        amount_f * p - (amount_f - t) * p == p * t,
        0 <= (max - p) * t <= max * t <= amount_o * max,
        0 <= p * t <= amount_f * p,
        0 <= (amount_o - t) * max <= amount_o * max,
        0 <= (amount_f - t) * p <= amount_f * p,
{
    assert((max - p) * t + p * t == max * t) by (nonlinear_arith);
    assert(amount_o * max - (amount_o - t) * max == max * t) by (nonlinear_arith);
    assert(amount_f * p - (amount_f - t) * p == p * t) by (nonlinear_arith);
    assert(0 <= (max - p) * t <= max * t) by (nonlinear_arith)
        requires
            0 <= p <= max,
            0 < t,
    ;
    assert(max * t <= amount_o * max) by (nonlinear_arith)
        requires
            0 <= max,
            t <= amount_o,
    ;
    assert(0 <= p * t <= amount_f * p) by (nonlinear_arith)
        requires
            0 <= p,
            0 < t <= amount_f,
    ;
    assert(0 <= (amount_o - t) * max) by (nonlinear_arith)
        requires
            0 <= max,
            t <= amount_o,
    ;
    assert(0 <= (amount_f - t) * p) by (nonlinear_arith)
        requires
            0 <= p,
            t <= amount_f,
    ;
}

/// Every order that still wants something finds no offer for its resource
/// at or below its maximum price.
pub open spec fn book_uncrossed(md: MarketData) -> bool {
    forall|i: int|
        0 <= i < md.orders@.len() && #[trigger] md.orders@[i].1.amount > 0 ==> no_offer_within(
            md.offers@,
            md.orders@[i].1.resource,
            md.orders@[i].1.max_price_per_unit,
        )
}

/// `new` is `old` with some amounts reduced and nothing else changed.
pub open spec fn orders_filled_from(new: Seq<(OrderHandle, Order)>, old: Seq<(OrderHandle, Order)>) -> bool {
    &&& new.len() == old.len()
    &&& forall|i: int|
        0 <= i < new.len() ==> {
            &&& (#[trigger] new[i]).0 == old[i].0
            &&& new[i].1 == (Order { amount: new[i].1.amount, ..old[i].1 })
            &&& new[i].1.amount <= old[i].1.amount
        }
}

/// No counter went down.
pub open spec fn statistics_grew(new: MarketplaceStatistics, old: MarketplaceStatistics) -> bool {
    &&& new.company_orders_placed >= old.company_orders_placed
    &&& new.company_offers_placed >= old.company_offers_placed
    &&& new.company_orders_partly_fulfilled >= old.company_orders_partly_fulfilled
    &&& new.company_offers_partly_fulfilled >= old.company_offers_partly_fulfilled
    &&& new.company_orders_fulfilled >= old.company_orders_fulfilled
    &&& new.company_offers_fulfilled >= old.company_offers_fulfilled
}

/// Currency held by companies and in escrow moved only by what the market
/// side brought in, and what may still be credited did not grow.
pub open spec fn currency_conserved(
    c0: Seq<Company>,
    md0: MarketData,
    flow0: int,
    c1: Seq<Company>,
    md1: MarketData,
    flow1: int,
) -> bool {
    headroom_used(c0, md0) <= u64::MAX ==> {
        &&& money(c1) + escrow_of(md1.orders@) == money(c0) + escrow_of(md0.orders@) + flow1 - flow0
        &&& headroom_used(c1, md1) <= headroom_used(c0, md0)
    }
}

/// The orders that still want something, in book order.
pub open spec fn without_filled(orders: Seq<(OrderHandle, Order)>) -> Seq<(OrderHandle, Order)>
    decreases orders.len(),
{
    if orders.len() == 0 {
        orders
    } else {
        let kept = without_filled(orders.drop_last());
        if orders.last().1.amount > 0 {
            kept.push(orders.last())
        } else {
            kept
        }
    }
}

/// Removing filled orders a second time removes nothing more.
pub proof fn lemma_cleanup_idempotent(orders: Seq<(OrderHandle, Order)>)
    ensures
        without_filled(without_filled(orders)) == without_filled(orders),
        forall|i: int|
            0 <= i < without_filled(orders).len() ==> #[trigger] without_filled(orders)[i].1.amount > 0,
    decreases orders.len(),
{
    if orders.len() > 0 {
        let kept = without_filled(orders.drop_last());
        lemma_cleanup_idempotent(orders.drop_last());
        if orders.last().1.amount > 0 {
            assert(kept.push(orders.last()).drop_last() =~= kept);
        }
    }
}

/// Filled orders hold no escrow, so dropping them keeps the total.
proof fn lemma_escrow_without_filled(orders: Seq<(OrderHandle, Order)>)
    ensures
        escrow_of(without_filled(orders)) == escrow_of(orders),
    decreases orders.len(),
{
    if orders.len() > 0 {
        let prefix = orders.drop_last();
        lemma_escrow_without_filled(prefix);
        assert(escrows(orders).drop_last() =~= escrows(prefix));
        if orders.last().1.amount > 0 {
            assert(escrows(without_filled(prefix).push(orders.last())) =~= escrows(
                without_filled(prefix),
            ).push(orders.last().1.escrow()));
            lemma_total_push(escrows(without_filled(prefix)), orders.last().1.escrow());
        } else {
            assert(orders.last().1.escrow() == 0) by (nonlinear_arith)
                requires
                    orders.last().1.amount == 0,
                    orders.last().1.escrow() == if orders.last().1.owner is Company {
                        orders.last().1.amount * orders.last().1.max_price_per_unit
                    } else {
                        0
                    },
            ;
        }
    }
}

/// The orders that outlive this tick, each one tick older.
pub open spec fn aged_orders(orders: Seq<(OrderHandle, Order)>) -> Seq<(OrderHandle, Order)>
    decreases orders.len(),
{
    if orders.len() == 0 {
        orders
    } else {
        let kept = aged_orders(orders.drop_last());
        let (h, o) = orders.last();
        if o.time_to_live > 1 {
            kept.push((h, Order { time_to_live: (o.time_to_live - 1) as usize, ..o }))
        } else {
            kept
        }
    }
}

/// The offers that outlive this tick, each one tick older.
pub open spec fn aged_offers(offers: Seq<(OfferHandle, Offer)>) -> Seq<(OfferHandle, Offer)>
    decreases offers.len(),
{
    if offers.len() == 0 {
        offers
    } else {
        let kept = aged_offers(offers.drop_last());
        let (h, o) = offers.last();
        if o.time_to_live > 1 {
            kept.push((h, Offer { time_to_live: (o.time_to_live - 1) as usize, ..o }))
        } else {
            kept
        }
    }
}

/// Escrow returned to company `c` by the orders whose lifetime runs out.
pub open spec fn expiry_refund(orders: Seq<(OrderHandle, Order)>, c: int) -> int
    decreases orders.len(),
{
    if orders.len() == 0 {
        0
    } else {
        let o = orders.last().1;
        expiry_refund(orders.drop_last(), c) + if o.time_to_live <= 1 && owned_by(o.owner, c) {
            o.escrow()
        } else {
            0
        }
    }
}

/// Escrow returned to all companies by the orders whose lifetime runs out.
pub open spec fn expired_escrow(orders: Seq<(OrderHandle, Order)>) -> int
    decreases orders.len(),
{
    if orders.len() == 0 {
        0
    } else {
        let o = orders.last().1;
        expired_escrow(orders.drop_last()) + if o.time_to_live <= 1 {
            o.escrow()
        } else {
            0
        }
    }
}

/// Units of `r` returned to company `c` by the offers whose lifetime runs
/// out.
pub open spec fn expiry_return(offers: Seq<(OfferHandle, Offer)>, c: int, r: ResourceHandle) -> int
    decreases offers.len(),
{
    if offers.len() == 0 {
        0
    } else {
        let o = offers.last().1;
        expiry_return(offers.drop_last(), c, r) + if o.time_to_live <= 1 && o.resource == r && owned_by(o.owner, c) {
            o.amount as int
        } else {
            0
        }
    }
}

proof fn lemma_expiry_refund_nonneg(orders: Seq<(OrderHandle, Order)>, c: int)
    ensures
        expiry_refund(orders, c) >= 0,
    decreases orders.len(),
{
    if orders.len() > 0 {
        lemma_expiry_refund_nonneg(orders.drop_last(), c);
        let o = orders.last().1;
        assert(o.escrow() >= 0) by (nonlinear_arith)
            requires
                o.escrow() == if o.owner is Company {
                    o.amount * o.max_price_per_unit
                } else {
                    0
                },
        ;
    }
}

proof fn lemma_escrow_nonneg(o: Order)
    ensures
        o.escrow() >= 0,
{
    assert(o.escrow() >= 0) by (nonlinear_arith)
        requires
            o.escrow() == if o.owner is Company {
                o.amount * o.max_price_per_unit
            } else {
                0
            },
    ;
}

proof fn lemma_expiry_return_nonneg(offers: Seq<(OfferHandle, Offer)>, c: int, r: ResourceHandle)
    ensures
        expiry_return(offers, c, r) >= 0,
    decreases offers.len(),
{
    if offers.len() > 0 {
        lemma_expiry_return_nonneg(offers.drop_last(), c, r);
    }
}

/// Conservation carries over a sequence of steps: if currency is conserved
/// from `a` to `b` and from `b` to `c`, it is conserved from `a` to `c`, with
/// the market-side flows adding up.
pub proof fn lemma_conservation_chains(
    ca: Seq<Company>,
    ma: MarketData,
    fa: int,
    cb: Seq<Company>,
    mb: MarketData,
    fb: int,
    cc: Seq<Company>,
    mc: MarketData,
    fc: int,
)
    requires
        currency_conserved(ca, ma, fa, cb, mb, fb),
        currency_conserved(cb, mb, fb, cc, mc, fc),
    ensures
        currency_conserved(ca, ma, fa, cc, mc, fc),
{
}

/// Every intent in the book belongs to a company: no market-side
/// counterparty can pay in or be paid.
pub open spec fn company_owned_only(md: MarketData) -> bool {
    &&& forall|i: int| 0 <= i < md.offers@.len() ==> (#[trigger] md.offers@[i]).1.owner is Company
    &&& forall|i: int| 0 <= i < md.orders@.len() ==> (#[trigger] md.orders@[i]).1.owner is Company
}

/// No order of `orders` would pay `offer`'s price for its resource.
pub open spec fn out_of_reach(orders: Seq<(OrderHandle, Order)>, offer: Offer) -> bool {
    forall|i: int|
        0 <= i < orders.len() && #[trigger] orders[i].1.resource == offer.resource
            ==> orders[i].1.max_price_per_unit < offer.price_per_unit
}

/// An offer one tick older.
pub open spec fn aged_offer(e: (OfferHandle, Offer)) -> (OfferHandle, Offer) {
    (e.0, Offer { time_to_live: (e.1.time_to_live - 1) as usize, ..e.1 })
}

/// An offer that outlives the tick is in the aged list, one tick older.
proof fn lemma_aged_offers_keep(offers: Seq<(OfferHandle, Offer)>, k: int)
    requires
        0 <= k < offers.len(),
        offers[k].1.time_to_live > 1,
    ensures
        exists|j: int| 0 <= j < aged_offers(offers).len() && #[trigger] aged_offers(offers)[j] == aged_offer(offers[k]),
    decreases offers.len(),
{
    let prefix = offers.drop_last();
    let kept = aged_offers(prefix);
    if offers.last().1.time_to_live > 1 {
        assert(aged_offers(offers) == kept.push(aged_offer(offers.last())));
    } else {
        assert(aged_offers(offers) == kept);
    }
    if k < offers.len() - 1 {
        lemma_aged_offers_keep(prefix, k);
        let j = choose|j: int| 0 <= j < kept.len() && #[trigger] kept[j] == aged_offer(prefix[k]);
        assert(prefix[k] == offers[k]);
        assert(aged_offers(offers)[j] == kept[j]);
    } else {
        assert(offers.last() == offers[k]);
        assert(aged_offers(offers)[kept.len() as int] == aged_offer(offers[k]));
    }
}

/// Quantity of `r` in a stock map; absent resources are held in zero.
pub open spec fn map_quantity(m: Map<ResourceHandle, u64>, r: ResourceHandle) -> nat {
    if m.contains_key(r) {
        m[r] as nat
    } else {
        0
    }
}

/// What matching works on: the book, each company's currency and stock,
/// the statistics, and the currency that market-side counterparties have
/// brought into the companies (negative where companies paid out).
pub struct Books {
    pub offers: Seq<(OfferHandle, Offer)>,
    pub orders: Seq<(OrderHandle, Order)>,
    pub currency: Seq<u64>,
    pub stocks: Seq<Map<ResourceHandle, u64>>,
    pub statistics: MarketplaceStatistics,
    pub flow: int,
}

/// The matching state of a book and companies.
pub open spec fn books_of(
    md: MarketData,
    companies: Seq<Company>,
    statistics: MarketplaceStatistics,
    flow: int,
) -> Books {
    Books {
        offers: md.offers@,
        orders: md.orders@,
        currency: companies.map_values(|c: Company| c.currency),
        stocks: companies.map_values(|c: Company| c.stock.resources@),
        statistics,
        flow,
    }
}

/// Company `k`'s currency after a trade: the buyer's refund and the
/// seller's payment, saturating.
pub open spec fn credited(c: u64, k: int, order: Order, offer: Offer, t: u64) -> u64 {
    capped(
        c + (if owned_by(order.owner, k) {
            refund_for(order, offer, t)
        } else {
            0
        }) + (if owned_by(offer.owner, k) {
            payment_for(offer, t)
        } else {
            0
        }),
    ) as u64
}

/// One settlement between the order at `oi` and the offer at `fi`: the
/// smaller amount changes hands at the offer's price, the buyer receives
/// the units and its refund, the seller its payment, a used-up offer
/// leaves the book.
pub open spec fn trade(b: Books, oi: int, fi: int) -> Books {
    let (oh, order) = b.orders[oi];
    let (fh, offer) = b.offers[fi];
    let t = trade_amount(order, offer);
    Books {
        orders: b.orders.update(oi, (oh, Order { amount: (order.amount - t) as u64, ..order })),
        offers: if t == offer.amount {
            b.offers.remove(fi)
        } else {
            b.offers.update(fi, (fh, Offer { amount: (offer.amount - t) as u64, ..offer }))
        },
        currency: Seq::new(b.currency.len(), |k: int| credited(b.currency[k], k, order, offer, t)),
        stocks: Seq::new(
            b.stocks.len(),
            |k: int|
                if owned_by(order.owner, k) {
                    b.stocks[k].insert(
                        order.resource,
                        capped(map_quantity(b.stocks[k], order.resource) + t) as u64,
                    )
                } else {
                    b.stocks[k]
                },
        ),
        statistics: statistics_after_trade(b.statistics, order, offer, t),
        flow: b.flow + market_flow(order, offer, t),
    }
}

/// The offer the order at `i` trades with next: the cheapest for its
/// resource, if it still wants something and that price is within its
/// maximum.
pub open spec fn next_trade(b: Books, i: int) -> Option<int> {
    if 0 <= i < b.orders.len() && b.orders[i].1.amount > 0 {
        match cheapest_index(b.offers, b.orders[i].1.resource) {
            Some(fi) => if 0 <= fi < b.offers.len() && b.offers[fi].1.amount > 0
                && b.offers[fi].1.price_per_unit <= b.orders[i].1.max_price_per_unit {
                Some(fi)
            } else {
                None
            },
            None => None,
        }
    } else {
        None
    }
}

/// The order at `i` trades until it is filled or no offer is cheap enough.
pub open spec fn match_order(b: Books, i: int) -> Books
    decreases (if 0 <= i < b.orders.len() {
        b.orders[i].1.amount as int
    } else {
        0
    }),
{
    match next_trade(b, i) {
        Some(fi) => match_order(trade(b, i, fi), i),
        None => b,
    }
}

/// The orders from position `i` up to `n` trade in turn.
pub open spec fn match_from(b: Books, i: int, n: int) -> Books
    decreases n - i,
{
    if i < n {
        match_from(match_order(b, i), i + 1, n)
    } else {
        b
    }
}

/// The outcome of matching the whole book.
pub open spec fn matched(md: MarketData, companies: Seq<Company>, statistics: MarketplaceStatistics) -> Books {
    match_from(books_of(md, companies, statistics, 0), 0, md.orders@.len() as int)
}

/// Hands out intent handles, which are never reused, and keeps statistics.
pub struct Marketplace {
    pub statistics: MarketplaceStatistics,
    pub next_offer_id: OfferHandle,
    pub next_order_id: OrderHandle,
}

/// Position of the cheapest offer for `resource`.
pub(crate) fn cheapest_position(resource: ResourceHandle, offers: &Vec<(OfferHandle, Offer)>) -> (r:
    Option<usize>)
    ensures
        as_index(r) == cheapest_index(offers@, resource),
        match r {
            Some(i) => i < offers@.len(),
            None => true,
        },
{
    let mut best: Option<usize> = None;
    let mut i: usize = 0;
    while i < offers.len()
        invariant
            i <= offers@.len(),
            as_index(best) == cheapest_index(offers@.take(i as int), resource),
            match best {
                Some(b) => b < i,
                None => true,
            },
        decreases offers.len() - i,
    {
        assert(offers@.take(i + 1).drop_last() =~= offers@.take(i as int));
        let offer = &offers[i].1;
        if offer.resource == resource {
            match best {
                None => {
                    best = Some(i);
                },
                Some(b) => {
                    if offers[b].1.price_per_unit > offer.price_per_unit {
                        best = Some(i);
                    }
                },
            }
        }
        i = i + 1;
    }
    assert(offers@.take(offers@.len() as int) =~= offers@);
    best
}

/// Position of the highest bid for `resource`.
pub(crate) fn highest_position(resource: ResourceHandle, orders: &Vec<(OrderHandle, Order)>) -> (r:
    Option<usize>)
    ensures
        as_index(r) == highest_index(orders@, resource),
        match r {
            Some(i) => i < orders@.len(),
            None => true,
        },
{
    let mut best: Option<usize> = None;
    let mut i: usize = 0;
    while i < orders.len()
        invariant
            i <= orders@.len(),
            as_index(best) == highest_index(orders@.take(i as int), resource),
            match best {
                Some(b) => b < i,
                None => true,
            },
        decreases orders.len() - i,
    {
        assert(orders@.take(i + 1).drop_last() =~= orders@.take(i as int));
        let order = &orders[i].1;
        if order.resource == resource {
            match best {
                None => {
                    best = Some(i);
                },
                Some(b) => {
                    if orders[b].1.max_price_per_unit < order.max_price_per_unit {
                        best = Some(i);
                    }
                },
            }
        }
        i = i + 1;
    }
    assert(orders@.take(orders@.len() as int) =~= orders@);
    best
}


impl Marketplace {
    /// Every handle in the book was handed out by this marketplace.
    pub open spec fn issued(&self, md: &MarketData) -> bool {
        &&& forall|i: int|
            0 <= i < md.offers@.len() ==> 0 < #[trigger] md.offers@[i].0 <= self.next_offer_id
        &&& forall|i: int|
            0 <= i < md.orders@.len() ==> 0 < #[trigger] md.orders@[i].0 <= self.next_order_id
    }

    pub fn new() -> (m: Marketplace)
        ensures
            m.statistics.is_zero(),
            m.next_offer_id == 0,
            m.next_order_id == 0,
    {
        Marketplace {
            statistics: MarketplaceStatistics::new(),
            next_offer_id: 0,
            next_order_id: 0,
        }
    }

    /// Handle and price of the cheapest offer for `resource`, the first
    /// of equal ones; `None` where nothing is offered.
    pub fn get_cheapest_offer(&self, resource: ResourceHandle, offers: &Vec<(OfferHandle, Offer)>) -> (r:
        Option<(OfferHandle, u64)>)
        ensures
            r == cheapest_in(offers@, resource),
    {
        match cheapest_position(resource, offers) {
            Some(i) => Some((offers[i].0, offers[i].1.price_per_unit)),
            None => None,
        }
    }

    /// Handle and price of the highest bid for `resource`, the first of
    /// equal ones; `None` where nothing is asked for.
    pub fn get_highest_order(&self, resource: ResourceHandle, market_data: &MarketData) -> (r: Option<
        (OrderHandle, u64),
    >)
        ensures
            r == highest_in(market_data.orders@, resource),
    {
        match highest_position(resource, &market_data.orders) {
            Some(i) => Some((market_data.orders[i].0, market_data.orders[i].1.max_price_per_unit)),
            None => None,
        }
    }

    /// Recomputes the cheapest-offer entry of every resource.
    pub fn update_price_index(&self, market_data: &mut MarketData)
        requires
            old(market_data).price_index@.len() == old(market_data).resource_count,
        ensures
            final(market_data).offers@ == old(market_data).offers@,
            final(market_data).orders@ == old(market_data).orders@,
            final(market_data).order_index@ == old(market_data).order_index@,
            final(market_data).resource_count == old(market_data).resource_count,
            final(market_data).price_index@.len() == old(market_data).resource_count,
            forall|r: int|
                0 <= r < final(market_data).resource_count ==> #[trigger] final(market_data).price_index@[r] == cheapest_in(final(market_data).offers@, r as ResourceHandle),
    {
        let mut resource_handle: usize = 0;
        while resource_handle < market_data.resource_count
            invariant
                resource_handle <= market_data.resource_count,
                market_data.offers@ == old(market_data).offers@,
                market_data.orders@ == old(market_data).orders@,
                market_data.order_index@ == old(market_data).order_index@,
                market_data.resource_count == old(market_data).resource_count,
                market_data.price_index@.len() == market_data.resource_count,
                forall|r: int|
                    0 <= r < resource_handle ==> #[trigger] market_data.price_index@[r]
                        == cheapest_in(market_data.offers@, r as ResourceHandle),
            decreases market_data.resource_count - resource_handle,
        {
            let offer = self.get_cheapest_offer(resource_handle, &market_data.offers);
            market_data.price_index[resource_handle] = offer;
            resource_handle = resource_handle + 1;
        }
    }

    /// Recomputes the highest-bid entry of every resource.
    pub fn update_order_index(&self, market_data: &mut MarketData)
        requires
            old(market_data).order_index@.len() == old(market_data).resource_count,
        ensures
            final(market_data).offers@ == old(market_data).offers@,
            final(market_data).orders@ == old(market_data).orders@,
            final(market_data).price_index@ == old(market_data).price_index@,
            final(market_data).resource_count == old(market_data).resource_count,
            final(market_data).order_index@.len() == old(market_data).resource_count,
            forall|r: int|
                0 <= r < final(market_data).resource_count ==> #[trigger] final(market_data).order_index@[r] == highest_in(final(market_data).orders@, r as ResourceHandle),
    {
        let mut resource_handle: usize = 0;
        while resource_handle < market_data.resource_count
            invariant
                resource_handle <= market_data.resource_count,
                market_data.offers@ == old(market_data).offers@,
                market_data.orders@ == old(market_data).orders@,
                market_data.price_index@ == old(market_data).price_index@,
                market_data.resource_count == old(market_data).resource_count,
                market_data.order_index@.len() == market_data.resource_count,
                forall|r: int|
                    0 <= r < resource_handle ==> #[trigger] market_data.order_index@[r]
                        == highest_in(market_data.orders@, r as ResourceHandle),
            decreases market_data.resource_count - resource_handle,
        {
            let order = self.get_highest_order(resource_handle, market_data);
            market_data.order_index[resource_handle] = order;
            resource_handle = resource_handle + 1;
        }
    }

    /// Books a sell intent under the next handle. Rejected, with nothing
    /// changed, where the amount is zero, the resource is unknown or the
    /// handles are used up. The caller has already taken the resources
    /// from a company owner's stock.
    pub fn place_offer(&mut self, offer: Offer, market_data: &mut MarketData) -> (r: Option<
        OfferHandle,
    >)
        requires
            old(market_data).well_formed(),
            old(self).issued(old(market_data)),
            offer.pledge() <= u64::MAX,
        ensures
            final(market_data).well_formed(),
            final(self).issued(final(market_data)),
            r is None <==> (offer.amount == 0 || offer.resource >= old(market_data).resource_count
                || old(self).next_offer_id == usize::MAX),
            r is None ==> *final(self) == *old(self) && *final(market_data) == *old(market_data),
            r matches Some(h) ==> {
                &&& h == old(self).next_offer_id + 1
                &&& final(self).next_offer_id == h
                &&& final(market_data).offers@ == old(market_data).offers@.push((h, offer))
                &&& final(market_data).orders@ == old(market_data).orders@
                &&& final(market_data).resource_count == old(market_data).resource_count
                &&& final(self).statistics == (MarketplaceStatistics {
                    company_offers_placed: bumped_if(
                        old(self).statistics.company_offers_placed,
                        offer.owner is Company,
                    ),
                    ..old(self).statistics
                })
                &&& final(self).next_order_id == old(self).next_order_id
            },
    {
        if offer.amount == 0 || offer.resource >= market_data.resource_count || self.next_offer_id
            == usize::MAX {
            return None;
        }
        if offer.owner != Owner::Market {
            self.statistics.company_offers_placed = bump(self.statistics.company_offers_placed);
        }
        self.next_offer_id = self.next_offer_id + 1;
        let ghost before = market_data.offers@;
        market_data.offers.push((self.next_offer_id, offer));
        assert forall|i: int| 0 <= i < market_data.offers@.len() implies {
            let o = #[trigger] market_data.offers@[i].1;
            &&& o.resource < market_data.resource_count
            &&& o.amount > 0
            &&& o.pledge() <= u64::MAX
        } by {
            if i < before.len() {
                assert(market_data.offers@[i] == before[i]);
            }
        }
        self.update_price_index(market_data);
        Some(self.next_offer_id)
    }

    /// Books a buy intent under the next handle. Rejected, with nothing
    /// changed, where the amount is zero, the resource is unknown or the
    /// handles are used up. The caller has already taken the escrow from a
    /// company owner's currency.
    pub fn place_order(&mut self, order: Order, market_data: &mut MarketData) -> (r: Option<
        OrderHandle,
    >)
        requires
            old(market_data).well_formed(),
            old(self).issued(old(market_data)),
            order.escrow() <= u64::MAX,
        ensures
            final(market_data).well_formed(),
            final(self).issued(final(market_data)),
            r is None <==> (order.amount == 0 || order.resource >= old(market_data).resource_count
                || old(self).next_order_id == usize::MAX),
            r is None ==> *final(self) == *old(self) && *final(market_data) == *old(market_data),
            r matches Some(h) ==> {
                &&& h == old(self).next_order_id + 1
                &&& final(self).next_order_id == h
                &&& final(market_data).orders@ == old(market_data).orders@.push((h, order))
                &&& final(market_data).offers@ == old(market_data).offers@
                &&& final(market_data).resource_count == old(market_data).resource_count
                &&& final(self).statistics == (MarketplaceStatistics {
                    company_orders_placed: bumped_if(
                        old(self).statistics.company_orders_placed,
                        order.owner is Company,
                    ),
                    ..old(self).statistics
                })
                &&& final(self).next_offer_id == old(self).next_offer_id
            },
    {
        if order.amount == 0 || order.resource >= market_data.resource_count || self.next_order_id
            == usize::MAX {
            return None;
        }
        if order.owner != Owner::Market {
            self.statistics.company_orders_placed = bump(self.statistics.company_orders_placed);
        }
        self.next_order_id = self.next_order_id + 1;
        let ghost before = market_data.orders@;
        market_data.orders.push((self.next_order_id, order));
        assert forall|i: int| 0 <= i < market_data.orders@.len() implies {
            let o = #[trigger] market_data.orders@[i].1;
            &&& o.resource < market_data.resource_count
            &&& o.amount > 0
            &&& o.escrow() <= u64::MAX
        } by {
            if i < before.len() {
                assert(market_data.orders@[i] == before[i]);
            }
        }
        self.update_order_index(market_data);
        Some(self.next_order_id)
    }

    /// The live offer booked under `offer_handle`, if any.
    pub fn get_offer_by_handle(&self, offer_handle: OfferHandle, market_data: &MarketData) -> (r:
        Option<Offer>)
        ensures
            match r {
                Some(o) => exists|i: int|
                    0 <= i < market_data.offers@.len() && #[trigger] market_data.offers@[i] == (
                    offer_handle,
                    o,
                ),
                None => forall|i: int|
                    0 <= i < market_data.offers@.len() ==> #[trigger] market_data.offers@[i].0
                        != offer_handle,
            },
    {
        let mut i: usize = 0;
        while i < market_data.offers.len()
            invariant
                i <= market_data.offers@.len(),
                forall|k: int| 0 <= k < i ==> #[trigger] market_data.offers@[k].0 != offer_handle,
            decreases market_data.offers.len() - i,
        {
            if market_data.offers[i].0 == offer_handle {
                return Some(market_data.offers[i].1);
            }
            i = i + 1;
        }
        None
    }

    /// The live order booked under `order_handle`, if any.
    pub fn get_order_by_handle(&self, order_handle: OrderHandle, market_data: &MarketData) -> (r:
        Option<Order>)
        ensures
            match r {
                Some(o) => exists|i: int|
                    0 <= i < market_data.orders@.len() && #[trigger] market_data.orders@[i] == (
                    order_handle,
                    o,
                ),
                None => forall|i: int|
                    0 <= i < market_data.orders@.len() ==> #[trigger] market_data.orders@[i].0
                        != order_handle,
            },
    {
        let mut i: usize = 0;
        while i < market_data.orders.len()
            invariant
                i <= market_data.orders@.len(),
                forall|k: int| 0 <= k < i ==> #[trigger] market_data.orders@[k].0 != order_handle,
            decreases market_data.orders.len() - i,
        {
            if market_data.orders[i].0 == order_handle {
                return Some(market_data.orders[i].1);
            }
            i = i + 1;
        }
        None
    }

    /// Settles one trade between the order at `oi` and the offer at `fi`:
    /// the smaller of the two amounts changes hands at the offer's price.
    #[verifier::rlimit(60)]
    #[verifier::spinoff_prover]
    fn settle(
        &mut self,
        market_data: &mut MarketData,
        companies: &mut Vec<Company>,
        oi: usize,
        fi: usize,
        flow: Ghost<int>,
    )
        requires
            old(market_data).book_valid(),
            old(market_data).owners_below(old(companies)@.len()),
            oi < old(market_data).orders@.len(),
            fi < old(market_data).offers@.len(),
            old(market_data).orders@[oi as int].1.amount > 0,
            old(market_data).offers@[fi as int].1.resource == old(market_data).orders@[oi as int].1.resource,
            old(market_data).offers@[fi as int].1.price_per_unit <= old(market_data).orders@[oi as int].1.max_price_per_unit,
        ensures
            ({
                let (oh, order) = old(market_data).orders@[oi as int];
                let (fh, offer) = old(market_data).offers@[fi as int];
                let t = trade_amount(order, offer);
                &&& final(market_data).orders@ == old(market_data).orders@.update(
                    oi as int,
                    (oh, Order { amount: (order.amount - t) as u64, ..order }),
                )
                &&& t == offer.amount ==> final(market_data).offers@ == old(market_data).offers@.remove(fi as int)
                &&& t < offer.amount ==> final(market_data).offers@ == old(market_data).offers@.update(
                    fi as int,
                    (fh, Offer { amount: (offer.amount - t) as u64, ..offer }),
                )
                &&& final(companies)@.len() == old(companies)@.len()
                &&& forall|k: int|
                    0 <= k < old(companies)@.len() ==> account_after_trade(
                        old(companies)@[k],
                        #[trigger] final(companies)@[k],
                        k,
                        order,
                        offer,
                        t,
                    )
                &&& final(self).statistics == statistics_after_trade(old(self).statistics, order, offer, t)
                &&& books_of(*final(market_data), final(companies)@, final(self).statistics, flow@ + market_flow(order, offer, t))
                    == trade(books_of(*old(market_data), old(companies)@, old(self).statistics, flow@), oi as int, fi as int)
                &&& headroom_used(old(companies)@, *old(market_data)) <= u64::MAX ==> {
                    &&& money(final(companies)@) + escrow_of(final(market_data).orders@) == money(old(companies)@)
                        + escrow_of(old(market_data).orders@) + market_flow(order, offer, t)
                    &&& headroom_used(final(companies)@, *final(market_data)) <= headroom_used(
                        old(companies)@,
                        *old(market_data),
                    )
                }
            }),
            final(market_data).book_valid(),
            final(market_data).owners_below(final(companies)@.len()),
            final(market_data).price_index@ == old(market_data).price_index@,
            final(market_data).order_index@ == old(market_data).order_index@,
            final(market_data).resource_count == old(market_data).resource_count,
            final(self).next_offer_id == old(self).next_offer_id,
            final(self).next_order_id == old(self).next_order_id,
    {
        let (order_handle, order) = market_data.orders[oi];
        let (offer_handle, offer) = market_data.offers[fi];
        let trade: u64 = if order.amount < offer.amount {
            order.amount
        } else {
            offer.amount
        };
        let ghost c0 = companies@;
        let ghost w0 = headroom_used(c0, *market_data);
        let ghost e0 = escrow_of(market_data.orders@);
        let ghost pledge0 = pledge_of(market_data.offers@);
        proof {
            lemma_trade_arith(
                order.max_price_per_unit as int,
                offer.price_per_unit as int,
                order.amount as int,
                offer.amount as int,
                trade as int,
            );
            assert(all_nonneg(escrows(market_data.orders@)));
            assert(all_nonneg(pledges(market_data.offers@)));
            lemma_total_bounds(escrows(market_data.orders@), oi as int);
            lemma_total_bounds(pledges(market_data.offers@), fi as int);
            assert(escrows(market_data.orders@)[oi as int] == order.escrow());
            assert(pledges(market_data.offers@)[fi as int] == offer.pledge());
            assert(refund_for(order, offer, trade) <= e0);
            assert(payment_for(offer, trade) <= pledge0);
            assert(0 <= e0 && 0 <= pledge0);
        }
        // The buyer receives the units and the escrow it paid above the
        // offer's price.
        match order.owner {
            Owner::Company(buyer) => {
                proof {
                    lemma_money_bounds(c0, buyer as int);
                }
                companies[buyer].add_resource(order.resource, trade);
                let refund = (order.max_price_per_unit - offer.price_per_unit) * trade;
                companies[buyer].add_currency(refund);
                proof {
                    assert(companies@ =~= c0.update(buyer as int, companies@[buyer as int]));
                    lemma_money_update(c0, buyer as int, companies@[buyer as int]);
                    if w0 <= u64::MAX {
                        assert(c0[buyer as int].currency + refund <= u64::MAX);
                    }
                }
                if trade == order.amount {
                    self.statistics.company_orders_fulfilled = bump(
                        self.statistics.company_orders_fulfilled,
                    );
                } else {
                    self.statistics.company_orders_partly_fulfilled = bump(
                        self.statistics.company_orders_partly_fulfilled,
                    );
                }
            },
            Owner::Market => {},
        }
        let ghost c1 = companies@;
        proof {
            if w0 <= u64::MAX {
                assert(money(c1) == money(c0) + refund_for(order, offer, trade));
            }
        }
        let ghost m1 = money(c1);
        // The seller is paid at its own price.
        match offer.owner {
            Owner::Company(seller) => {
                proof {
                    lemma_money_bounds(c1, seller as int);
                }
                let payment = offer.price_per_unit * trade;
                companies[seller].add_currency(payment);
                proof {
                    assert(companies@ =~= c1.update(seller as int, companies@[seller as int]));
                    lemma_money_update(c1, seller as int, companies@[seller as int]);
                    if w0 <= u64::MAX {
                        assert(c1[seller as int].currency + payment <= u64::MAX);
                        assert(money(companies@) == m1 + payment);
                    }
                }
                if trade == offer.amount {
                    self.statistics.company_offers_fulfilled = bump(
                        self.statistics.company_offers_fulfilled,
                    );
                } else {
                    self.statistics.company_offers_partly_fulfilled = bump(
                        self.statistics.company_offers_partly_fulfilled,
                    );
                }
            },
            Owner::Market => {},
        }
        proof {
            assert forall|k: int| 0 <= k < c0.len() implies account_after_trade(
                c0[k],
                #[trigger] companies@[k],
                k,
                order,
                offer,
                trade,
            ) by {
                lemma_capped_twice(
                    c0[k].currency as int,
                    if owned_by(order.owner, k) {
                        refund_for(order, offer, trade)
                    } else {
                        0
                    },
                    if owned_by(offer.owner, k) {
                        payment_for(offer, trade)
                    } else {
                        0
                    },
                );
            }
        }
        // Both sides shrink by the traded amount; a used-up offer leaves.
        let ghost orders0 = market_data.orders@;
        let ghost offers0 = market_data.offers@;
        let new_order = Order { amount: order.amount - trade, ..order };
        market_data.orders[oi] = (order_handle, new_order);
        proof {
            assert(escrows(market_data.orders@) =~= escrows(orders0).update(
                oi as int,
                new_order.escrow(),
            ));
            lemma_total_update(escrows(orders0), oi as int, new_order.escrow());
        }
        if trade == offer.amount {
            market_data.offers.remove(fi);
            proof {
                assert(pledges(market_data.offers@) =~= pledges(offers0).remove(fi as int));
                lemma_total_remove(pledges(offers0), fi as int);
                assert(pledge_of(market_data.offers@) == pledge0 - offer.pledge());
                assert(offer.amount * offer.price_per_unit == offer.price_per_unit * trade) by (nonlinear_arith)
                    requires
                        trade == offer.amount,
                ;
                assert(offer.pledge() == payment_for(offer, trade));
            }
        } else {
            let new_offer = Offer { amount: offer.amount - trade, ..offer };
            market_data.offers[fi] = (offer_handle, new_offer);
            proof {
                assert(pledges(market_data.offers@) =~= pledges(offers0).update(
                    fi as int,
                    new_offer.pledge(),
                ));
                lemma_total_update(pledges(offers0), fi as int, new_offer.pledge());
                assert(pledge_of(market_data.offers@) == pledge0 - offer.pledge() + new_offer.pledge());
                assert(offer.pledge() - new_offer.pledge() == payment_for(offer, trade));
            }
        }
        proof {
            let flow = market_flow(order, offer, trade);
            assert(escrow_of(market_data.orders@) == e0 - order.escrow() + new_order.escrow());
            assert(pledge_of(market_data.offers@) == pledge0 - payment_for(offer, trade));
            if w0 <= u64::MAX {
                assert(money(companies@) == money(c0) + refund_for(order, offer, trade) + payment_for(offer, trade));
                assert(money(companies@) + escrow_of(market_data.orders@) == money(c0) + e0 + flow);
                assert(headroom_used(companies@, *market_data) <= w0);
            }
            assert(handles_increasing(market_data.offers@));
            assert(handles_increasing(market_data.orders@));
            assert forall|i: int| 0 <= i < market_data.offers@.len() implies {
                let o = #[trigger] market_data.offers@[i].1;
                &&& o.resource < market_data.resource_count
                &&& o.amount > 0
                &&& o.pledge() <= u64::MAX
            } by {
                if trade == offer.amount {
                    if i >= fi {
                        assert(market_data.offers@[i] == offers0[i + 1]);
                    }
                } else if i == fi {
                    assert(market_data.offers@[i].1.pledge() <= offer.pledge());
                }
            }
            let b0 = books_of(*old(market_data), old(companies)@, old(self).statistics, flow);
            let b1 = books_of(*market_data, companies@, self.statistics, flow + market_flow(order, offer, trade));
            let tb = crate::marketplace::trade(b0, oi as int, fi as int);
            assert(b1.currency =~= tb.currency) by {
                assert forall|k: int| 0 <= k < b1.currency.len() implies b1.currency[k] == tb.currency[k] by {
                    assert(account_after_trade(c0[k], companies@[k], k, order, offer, trade));
                }
            }
            assert(b1.stocks =~= tb.stocks) by {
                assert forall|k: int| 0 <= k < b1.stocks.len() implies b1.stocks[k] == tb.stocks[k] by {
                    assert(account_after_trade(c0[k], companies@[k], k, order, offer, trade));
                }
            }
            assert(b1.orders == tb.orders);
            assert(b1.offers == tb.offers);
            assert(b1 == tb);
        }
    }

    /// Fills every order, in book order, from the cheapest offers for its
    /// resource while their price is within its maximum.
    #[verifier::rlimit(40)]
    #[verifier::spinoff_prover]
    fn execute_orders(&mut self, market_data: &mut MarketData, companies: &mut Vec<Company>)
        requires
            old(market_data).book_valid(),
            old(market_data).owners_below(old(companies)@.len()),
            old(self).issued(old(market_data)),
        ensures
            final(market_data).book_valid(),
            final(market_data).owners_below(final(companies)@.len()),
            final(self).issued(final(market_data)),
            book_uncrossed(*final(market_data)),
            orders_filled_from(final(market_data).orders@, old(market_data).orders@),
            books_of(*final(market_data), final(companies)@, final(self).statistics, matched(*old(market_data), old(companies)@, old(self).statistics).flow) == matched(*old(market_data), old(companies)@, old(self).statistics),
            company_owned_only(*old(market_data)) ==> company_owned_only(*final(market_data))
                && matched(*old(market_data), old(companies)@, old(self).statistics).flow == 0,
            forall|k: int|
                0 <= k < old(market_data).offers@.len() && out_of_reach(
                    old(market_data).orders@,
                    #[trigger] old(market_data).offers@[k].1,
                ) ==> exists|j: int|
                    0 <= j < final(market_data).offers@.len() && #[trigger] final(market_data).offers@[j]
                        == old(market_data).offers@[k],
            final(market_data).price_index@ == old(market_data).price_index@,
            final(market_data).order_index@ == old(market_data).order_index@,
            final(market_data).resource_count == old(market_data).resource_count,
            final(companies)@.len() == old(companies)@.len(),
            forall|k: int|
                0 <= k < old(companies)@.len() ==> (#[trigger] final(companies)@[k]).same_profile(
                    old(companies)@[k],
                ),
            final(self).next_offer_id == old(self).next_offer_id,
            final(self).next_order_id == old(self).next_order_id,
            statistics_grew(final(self).statistics, old(self).statistics),
            currency_conserved(
                old(companies)@,
                *old(market_data),
                0,
                final(companies)@,
                *final(market_data),
                matched(*old(market_data), old(companies)@, old(self).statistics).flow,
            ),
    {
        let ghost mut slot: Seq<int> = Seq::new(market_data.offers@.len(), |k: int| k);
        let ghost mut flow: int = 0;
        let ghost n = market_data.orders@.len() as int;
        let ghost target = matched(*old(market_data), old(companies)@, old(self).statistics);
        let mut i: usize = 0;
        while i < market_data.orders.len()
            invariant
                i <= market_data.orders@.len(),
                market_data.book_valid(),
                n == old(market_data).orders@.len(),
                target == matched(*old(market_data), old(companies)@, old(self).statistics),
                match_from(books_of(*market_data, companies@, self.statistics, flow), i as int, n) == target,
                slot.len() == old(market_data).offers@.len(),
                forall|k: int|
                    0 <= k < slot.len() && out_of_reach(old(market_data).orders@, #[trigger] old(market_data).offers@[k].1)
                        ==> 0 <= slot[k] < market_data.offers@.len() && market_data.offers@[slot[k]]
                        == old(market_data).offers@[k],
                company_owned_only(*old(market_data)) ==> company_owned_only(*market_data)
                    && flow == 0,
                market_data.owners_below(companies@.len()),
                self.issued(market_data),
                orders_filled_from(market_data.orders@, old(market_data).orders@),
                forall|k: int|
                    0 <= k < i && #[trigger] market_data.orders@[k].1.amount > 0 ==> no_offer_within(
                        market_data.offers@,
                        market_data.orders@[k].1.resource,
                        market_data.orders@[k].1.max_price_per_unit,
                    ),
                market_data.price_index@ == old(market_data).price_index@,
                market_data.order_index@ == old(market_data).order_index@,
                market_data.resource_count == old(market_data).resource_count,
                companies@.len() == old(companies)@.len(),
                forall|k: int|
                    0 <= k < old(companies)@.len() ==> (#[trigger] companies@[k]).same_profile(
                        old(companies)@[k],
                    ),
                self.next_offer_id == old(self).next_offer_id,
                self.next_order_id == old(self).next_order_id,
                statistics_grew(self.statistics, old(self).statistics),
                currency_conserved(
                    old(companies)@,
                    *old(market_data),
                    0,
                    companies@,
                    *market_data,
                    flow,
                ),
            decreases old(market_data).orders@.len() - i,
        {
            let mut matching = true;
            while matching
                invariant
                    i < market_data.orders@.len(),
                    market_data.book_valid(),
                    n == old(market_data).orders@.len(),
                    target == matched(*old(market_data), old(companies)@, old(self).statistics),
                    match_from(match_order(books_of(*market_data, companies@, self.statistics, flow), i as int), i + 1, n)
                        == target,
                    !matching ==> match_order(books_of(*market_data, companies@, self.statistics, flow), i as int)
                        == books_of(*market_data, companies@, self.statistics, flow),
                    slot.len() == old(market_data).offers@.len(),
                    forall|k: int|
                        0 <= k < slot.len() && out_of_reach(old(market_data).orders@, #[trigger] old(market_data).offers@[k].1)
                            ==> 0 <= slot[k] < market_data.offers@.len() && market_data.offers@[slot[k]]
                            == old(market_data).offers@[k],
                    company_owned_only(*old(market_data)) ==> company_owned_only(*market_data)
                        && flow == 0,
                    market_data.owners_below(companies@.len()),
                    self.issued(market_data),
                    orders_filled_from(market_data.orders@, old(market_data).orders@),
                    forall|k: int|
                        0 <= k < i && #[trigger] market_data.orders@[k].1.amount > 0
                            ==> no_offer_within(
                            market_data.offers@,
                            market_data.orders@[k].1.resource,
                            market_data.orders@[k].1.max_price_per_unit,
                        ),
                    !matching ==> (market_data.orders@[i as int].1.amount > 0 ==> no_offer_within(
                        market_data.offers@,
                        market_data.orders@[i as int].1.resource,
                        market_data.orders@[i as int].1.max_price_per_unit,
                    )),
                    market_data.price_index@ == old(market_data).price_index@,
                    market_data.order_index@ == old(market_data).order_index@,
                    market_data.resource_count == old(market_data).resource_count,
                    companies@.len() == old(companies)@.len(),
                    forall|k: int|
                        0 <= k < old(companies)@.len() ==> (#[trigger] companies@[k]).same_profile(
                            old(companies)@[k],
                        ),
                    self.next_offer_id == old(self).next_offer_id,
                    self.next_order_id == old(self).next_order_id,
                    statistics_grew(self.statistics, old(self).statistics),
                    currency_conserved(
                        old(companies)@,
                        *old(market_data),
                        0,
                        companies@,
                        *market_data,
                        flow,
                    ),
                decreases 2 * market_data.orders@[i as int].1.amount + (if matching {
                    1int
                } else {
                    0int
                }),
            {
                let order = market_data.orders[i].1;
                let ghost b0 = books_of(*market_data, companies@, self.statistics, flow);
                if order.amount == 0 {
                    proof {
                        assert(match_order(b0, i as int) == b0);
                    }
                    matching = false;
                } else {
                    proof {
                        lemma_cheapest_is_minimum(market_data.offers@, order.resource);
                    }
                    match cheapest_position(order.resource, &market_data.offers) {
                        None => {
                            proof {
                                assert(match_order(b0, i as int) == b0);
                            }
                            matching = false;
                        },
                        Some(fi) => {
                            if market_data.offers[fi].1.price_per_unit > order.max_price_per_unit {
                                proof {
                                    assert(match_order(b0, i as int) == b0);
                                }
                                matching = false;
                            } else {
                                let ghost offers0 = market_data.offers@;
                                let ghost comp0 = companies@;
                                let ghost slot0 = slot;
                                let ghost orders_pre = market_data.orders@;
                                proof {
                                    assert(offers0[fi as int].1.amount > 0);
                                    assert(next_trade(b0, i as int) == Some(fi as int));
                                    assert(match_order(b0, i as int) == match_order(trade(b0, i as int, fi as int), i as int));
                                }
                                self.settle(market_data, companies, i, fi, Ghost(flow));
                                proof {
                                    flow = flow + market_flow(
                                        orders_pre[i as int].1,
                                        offers0[fi as int].1,
                                        trade_amount(orders_pre[i as int].1, offers0[fi as int].1),
                                    );
                                    assert(books_of(*market_data, companies@, self.statistics, flow) == trade(b0, i as int, fi as int));
                                    if company_owned_only(*old(market_data)) {
                                        assert(orders_pre[i as int].1.owner is Company);
                                        assert(offers0[fi as int].1.owner is Company);
                                        assert forall|j: int| 0 <= j < market_data.offers@.len() implies (
                                        #[trigger] market_data.offers@[j]).1.owner is Company by {
                                            if market_data.offers@.len() < offers0.len() && j >= fi {
                                                assert(market_data.offers@[j] == offers0[j + 1]);
                                            } else {
                                                assert(market_data.offers@[j].1.owner == offers0[j].1.owner);
                                            }
                                        }
                                        assert forall|j: int| 0 <= j < market_data.orders@.len() implies (
                                        #[trigger] market_data.orders@[j]).1.owner is Company by {
                                            assert(market_data.orders@[j].1.owner == orders_pre[j].1.owner);
                                        }
                                    }
                                    let removed = market_data.offers@.len() < offers0.len();
                                    slot = Seq::new(
                                        slot0.len(),
                                        |k: int|
                                            if removed && slot0[k] > fi {
                                                slot0[k] - 1
                                            } else {
                                                slot0[k]
                                            },
                                    );
                                    assert forall|k: int|
                                        0 <= k < slot.len() && out_of_reach(
                                            old(market_data).orders@,
                                            #[trigger] old(market_data).offers@[k].1,
                                        ) implies 0 <= slot[k] < market_data.offers@.len()
                                        && market_data.offers@[slot[k]] == old(market_data).offers@[k] by {
                                        let o = old(market_data).offers@[k].1;
                                        assert(old(market_data).orders@[i as int].1.resource
                                            == market_data.orders@[i as int].1.resource);
                                        if slot0[k] == fi {
                                            assert(offers0[fi as int] == old(market_data).offers@[k]);
                                            assert(false);
                                        }
                                        if removed && slot0[k] > fi {
                                            assert(market_data.offers@[slot0[k] - 1] == offers0[slot0[k]]);
                                        } else {
                                            assert(market_data.offers@[slot0[k]] == offers0[slot0[k]]);
                                        }
                                    }
                                    assert forall|k: int| 0 <= k < old(companies)@.len() implies (
                                    #[trigger] companies@[k]).same_profile(old(companies)@[k]) by {
                                        assert(companies@[k].same_profile(comp0[k]));
                                    }
                                }
                                proof {
                                    assert forall|k: int|
                                        0 <= k < i && #[trigger] market_data.orders@[k].1.amount
                                            > 0 implies no_offer_within(
                                        market_data.offers@,
                                        market_data.orders@[k].1.resource,
                                        market_data.orders@[k].1.max_price_per_unit,
                                    ) by {
                                        let o = market_data.orders@[k].1;
                                        assert(no_offer_within(offers0, o.resource, o.max_price_per_unit));
                                        assert forall|j: int|
                                            0 <= j < market_data.offers@.len()
                                                && #[trigger] market_data.offers@[j].1.resource
                                                == o.resource implies market_data.offers@[j].1.price_per_unit
                                            > o.max_price_per_unit by {
                                            if market_data.offers@.len() < offers0.len() && j >= fi {
                                                assert(market_data.offers@[j] == offers0[j + 1]);
                                            } else {
                                                assert(market_data.offers@[j].1.price_per_unit
                                                    == offers0[j].1.price_per_unit);
                                            }
                                        }
                                    }
                                }
                            }
                        },
                    }
                }
            }
            i = i + 1;
        }
        proof {
            assert(match_from(books_of(*market_data, companies@, self.statistics, flow), i as int, n)
                == books_of(*market_data, companies@, self.statistics, flow));
            assert forall|k: int|
                0 <= k < old(market_data).offers@.len() && out_of_reach(
                    old(market_data).orders@,
                    #[trigger] old(market_data).offers@[k].1,
                ) implies exists|j: int|
                0 <= j < market_data.offers@.len() && #[trigger] market_data.offers@[j]
                    == old(market_data).offers@[k] by {
                assert(market_data.offers@[slot[k]] == old(market_data).offers@[k]);
            }
        }
    }

    /// Drops the orders that matching has filled completely.
    pub fn cleanup_complete_orders(&self, market_data: &mut MarketData)
        requires
            old(market_data).book_valid(),
        ensures
            final(market_data).orders@ == without_filled(old(market_data).orders@),
            final(market_data).offers@ == old(market_data).offers@,
            final(market_data).price_index@ == old(market_data).price_index@,
            final(market_data).order_index@ == old(market_data).order_index@,
            final(market_data).resource_count == old(market_data).resource_count,
            escrow_of(final(market_data).orders@) == escrow_of(old(market_data).orders@),
            final(market_data).intents_valid(),
            forall|j: int|
                0 <= j < final(market_data).orders@.len() ==> exists|k: int|
                    0 <= k < old(market_data).orders@.len() && #[trigger] final(market_data).orders@[j]
                        == old(market_data).orders@[k],
            forall|n: nat| old(market_data).owners_below(n) ==> #[trigger] final(market_data).owners_below(n),
            forall|m: Marketplace| m.issued(old(market_data)) ==> #[trigger] m.issued(final(market_data)),
    {
        let ghost all = market_data.orders@;
        let mut kept: Vec<(OrderHandle, Order)> = Vec::new();
        let mut i: usize = 0;
        while i < market_data.orders.len()
            invariant
                market_data.orders@ == all,
                i <= all.len(),
                kept@ == without_filled(all.take(i as int)),
                forall|j: int| 0 <= j < kept@.len() ==> exists|k: int| 0 <= k < i && #[trigger] kept@[j] == all[k],
                forall|j: int, k: int|
                    0 <= j < kept@.len() && i <= k < all.len() ==> #[trigger] kept@[j].0 < #[trigger] all[k].0,
                handles_increasing(kept@),
                handles_increasing(all),
            decreases all.len() - i,
        {
            assert(all.take(i + 1).drop_last() =~= all.take(i as int));
            let entry = market_data.orders[i];
            if entry.1.amount > 0 {
                kept.push(entry);
            }
            i = i + 1;
        }
        assert(all.take(all.len() as int) =~= all);
        market_data.orders = kept;
        proof {
            lemma_escrow_without_filled(all);
            lemma_cleanup_idempotent(all);
        }
    }

    /// Ages every order by one tick; an order whose lifetime runs out
    /// leaves the book and a company owner gets its whole escrow back.
    #[verifier::rlimit(40)]
    fn cleanup_dead_orders(&self, market_data: &mut MarketData, companies: &mut Vec<Company>)
        requires
            old(market_data).intents_valid(),
            old(market_data).owners_below(old(companies)@.len()),
        ensures
            final(market_data).orders@ == aged_orders(old(market_data).orders@),
            final(market_data).offers@ == old(market_data).offers@,
            forall|j: int|
                0 <= j < final(market_data).orders@.len() ==> exists|k: int|
                    0 <= k < old(market_data).orders@.len() && (#[trigger] final(market_data).orders@[j]).0
                        == old(market_data).orders@[k].0 && final(market_data).orders@[j].1 == (Order {
                        time_to_live: final(market_data).orders@[j].1.time_to_live,
                        ..old(market_data).orders@[k].1
                    }) && final(market_data).orders@[j].1.time_to_live == old(market_data).orders@[k].1.time_to_live - 1,
            final(market_data).price_index@ == old(market_data).price_index@,
            final(market_data).order_index@ == old(market_data).order_index@,
            final(market_data).resource_count == old(market_data).resource_count,
            final(market_data).intents_valid(),
            final(market_data).owners_below(final(companies)@.len()),
            forall|m: Marketplace| m.issued(old(market_data)) ==> #[trigger] m.issued(final(market_data)),
            final(companies)@.len() == old(companies)@.len(),
            forall|k: int|
                0 <= k < old(companies)@.len() ==> {
                    &&& (#[trigger] final(companies)@[k]).same_profile(old(companies)@[k])
                    &&& final(companies)@[k].stock == old(companies)@[k].stock
                    &&& final(companies)@[k].currency == capped(
                        old(companies)@[k].currency + expiry_refund(old(market_data).orders@, k),
                    )
                },
            currency_conserved(old(companies)@, *old(market_data), 0, final(companies)@, *final(market_data), 0),
    {
        let ghost all = market_data.orders@;
        let ghost c0 = companies@;
        let ghost h0 = headroom_used(c0, *market_data);
        let mut kept: Vec<(OrderHandle, Order)> = Vec::new();
        let mut i: usize = 0;
        proof {
            assert(all_nonneg(escrows(all)));
            lemma_total_prefix(escrows(all), 0);
        }
        while i < market_data.orders.len()
            invariant
                market_data.orders@ == all,
                market_data.intents_valid(),
                market_data.owners_below(c0.len()),
                i <= all.len(),
                kept@ == aged_orders(all.take(i as int)),
                forall|j: int|
                    0 <= j < kept@.len() ==> exists|k: int|
                        0 <= k < i && (#[trigger] kept@[j]).0 == all[k].0 && kept@[j].1 == (Order {
                            time_to_live: kept@[j].1.time_to_live,
                            ..all[k].1
                        }) && kept@[j].1.time_to_live == all[k].1.time_to_live - 1,
                forall|j: int, k: int|
                    0 <= j < kept@.len() && i <= k < all.len() ==> #[trigger] kept@[j].0 < #[trigger] all[k].0,
                handles_increasing(kept@),
                escrow_of(kept@) == escrow_of(all.take(i as int)) - expired_escrow(all.take(i as int)),
                companies@.len() == c0.len(),
                forall|k: int|
                    0 <= k < c0.len() ==> {
                        &&& (#[trigger] companies@[k]).same_profile(c0[k])
                        &&& companies@[k].stock == c0[k].stock
                        &&& companies@[k].currency == capped(
                            c0[k].currency + expiry_refund(all.take(i as int), k),
                        )
                    },
                h0 <= u64::MAX ==> money(companies@) == money(c0) + expired_escrow(all.take(i as int)),
                expired_escrow(all.take(i as int)) <= escrow_of(all.take(i as int)),
                0 <= expired_escrow(all.take(i as int)),
                h0 == headroom_used(c0, *old(market_data)),
            decreases all.len() - i,
        {
            let ghost before = companies@;
            proof {
                assert(all.take(i + 1).drop_last() =~= all.take(i as int));
                assert(escrows(all.take(i + 1)) =~= escrows(all).take(i + 1));
                assert(escrows(all.take(i as int)) =~= escrows(all).take(i as int));
                lemma_total_take_next(escrows(all), i as int);
                lemma_total_prefix(escrows(all), i + 1);
            }
            let (handle, order) = market_data.orders[i];
            if order.time_to_live > 1 {
                let aged = Order { time_to_live: order.time_to_live - 1, ..order };
                proof {
                    assert(escrows(kept@.push((handle, aged))) =~= escrows(kept@).push(aged.escrow()));
                    lemma_total_push(escrows(kept@), aged.escrow());
                }
                kept.push((handle, aged));
            } else {
                match order.owner {
                    Owner::Company(company) => {
                        let refund = order.amount * order.max_price_per_unit;
                        proof {
                            lemma_money_bounds(before, company as int);
                        }
                        proof {
                            if h0 <= u64::MAX {
                                lemma_total_nonneg(pledges(market_data.offers@));
                                assert(expired_escrow(all.take(i + 1)) == expired_escrow(
                                    all.take(i as int),
                                ) + refund);
                                assert(before[company as int].currency + refund <= u64::MAX);
                            }
                        }
                        companies[company].add_currency(refund);
                        proof {
                            assert(companies@ =~= before.update(company as int, companies@[company as int]));
                            lemma_money_update(before, company as int, companies@[company as int]);
                        }
                    },
                    Owner::Market => {},
                }
            }
            proof {
                assert forall|k: int| 0 <= k < c0.len() implies {
                    &&& (#[trigger] companies@[k]).same_profile(c0[k])
                    &&& companies@[k].stock == c0[k].stock
                    &&& companies@[k].currency == capped(
                        c0[k].currency + expiry_refund(all.take(i + 1), k),
                    )
                } by {
                    lemma_escrow_nonneg(order);
                    lemma_expiry_refund_nonneg(all.take(i as int), k);
                    lemma_capped_twice(
                        c0[k].currency as int,
                        expiry_refund(all.take(i as int), k),
                        if order.time_to_live <= 1 && owned_by(order.owner, k) {
                            order.escrow()
                        } else {
                            0
                        },
                    );
                }
            }
            i = i + 1;
        }
        proof {
            assert(all.take(all.len() as int) =~= all);
        }
        market_data.orders = kept;
    }

    /// Ages every offer by one tick; an offer whose lifetime runs out
    /// leaves the book and a company owner gets its units back.
    #[verifier::rlimit(40)]
    fn cleanup_dead_offers(&self, market_data: &mut MarketData, companies: &mut Vec<Company>)
        requires
            old(market_data).intents_valid(),
            old(market_data).owners_below(old(companies)@.len()),
        ensures
            final(market_data).offers@ == aged_offers(old(market_data).offers@),
            final(market_data).orders@ == old(market_data).orders@,
            forall|j: int|
                0 <= j < final(market_data).offers@.len() ==> exists|k: int|
                    0 <= k < old(market_data).offers@.len() && (#[trigger] final(market_data).offers@[j]).0
                        == old(market_data).offers@[k].0 && final(market_data).offers@[j].1 == (Offer {
                        time_to_live: final(market_data).offers@[j].1.time_to_live,
                        ..old(market_data).offers@[k].1
                    }) && final(market_data).offers@[j].1.time_to_live == old(market_data).offers@[k].1.time_to_live - 1,
            final(market_data).price_index@ == old(market_data).price_index@,
            final(market_data).order_index@ == old(market_data).order_index@,
            final(market_data).resource_count == old(market_data).resource_count,
            final(market_data).intents_valid(),
            final(market_data).owners_below(final(companies)@.len()),
            forall|m: Marketplace| m.issued(old(market_data)) ==> #[trigger] m.issued(final(market_data)),
            final(companies)@.len() == old(companies)@.len(),
            forall|k: int|
                0 <= k < old(companies)@.len() ==> {
                    &&& (#[trigger] final(companies)@[k]).same_profile(old(companies)@[k])
                    &&& final(companies)@[k].currency == old(companies)@[k].currency
                    &&& forall|r: ResourceHandle|
                        #[trigger] final(companies)@[k].stock.quantity(r) == capped(
                            old(companies)@[k].stock.quantity(r) + expiry_return(
                                old(market_data).offers@,
                                k,
                                r,
                            ),
                        )
                },
            currency_conserved(old(companies)@, *old(market_data), 0, final(companies)@, *final(market_data), 0),
    {
        let ghost all = market_data.offers@;
        let ghost c0 = companies@;
        let mut kept: Vec<(OfferHandle, Offer)> = Vec::new();
        let mut i: usize = 0;
        while i < market_data.offers.len()
            invariant
                market_data.offers@ == all,
                market_data.intents_valid(),
                market_data.owners_below(c0.len()),
                i <= all.len(),
                kept@ == aged_offers(all.take(i as int)),
                forall|j: int|
                    0 <= j < kept@.len() ==> exists|k: int|
                        0 <= k < i && (#[trigger] kept@[j]).0 == all[k].0 && kept@[j].1 == (Offer {
                            time_to_live: kept@[j].1.time_to_live,
                            ..all[k].1
                        }) && kept@[j].1.time_to_live == all[k].1.time_to_live - 1,
                forall|j: int, k: int|
                    0 <= j < kept@.len() && i <= k < all.len() ==> #[trigger] kept@[j].0 < #[trigger] all[k].0,
                handles_increasing(kept@),
                pledge_of(kept@) <= pledge_of(all.take(i as int)),
                companies@.len() == c0.len(),
                forall|k: int|
                    0 <= k < c0.len() ==> {
                        &&& (#[trigger] companies@[k]).same_profile(c0[k])
                        &&& companies@[k].currency == c0[k].currency
                        &&& forall|r: ResourceHandle|
                            #[trigger] companies@[k].stock.quantity(r) == capped(
                                c0[k].stock.quantity(r) + expiry_return(all.take(i as int), k, r),
                            )
                    },
            decreases all.len() - i,
        {
            let ghost before = companies@;
            proof {
                assert(all.take(i + 1).drop_last() =~= all.take(i as int));
                assert(pledges(all.take(i + 1)) =~= pledges(all).take(i + 1));
                assert(pledges(all.take(i as int)) =~= pledges(all).take(i as int));
                lemma_total_take_next(pledges(all), i as int);
            }
            let (handle, offer) = market_data.offers[i];
            if offer.time_to_live > 1 {
                let aged = Offer { time_to_live: offer.time_to_live - 1, ..offer };
                proof {
                    assert(pledges(kept@.push((handle, aged))) =~= pledges(kept@).push(aged.pledge()));
                    lemma_total_push(pledges(kept@), aged.pledge());
                }
                kept.push((handle, aged));
            } else {
                proof {
                    assert(all_nonneg(pledges(all)));
                    lemma_total_bounds(pledges(all), i as int);
                }
                match offer.owner {
                    Owner::Company(company) => {
                        companies[company].add_resource(offer.resource, offer.amount);
                    },
                    Owner::Market => {},
                }
            }
            proof {
                assert forall|k: int| 0 <= k < c0.len() implies {
                    &&& (#[trigger] companies@[k]).same_profile(c0[k])
                    &&& companies@[k].currency == c0[k].currency
                    &&& forall|r: ResourceHandle|
                        #[trigger] companies@[k].stock.quantity(r) == capped(
                            c0[k].stock.quantity(r) + expiry_return(all.take(i + 1), k, r),
                        )
                } by {
                    assert forall|r: ResourceHandle|
                        #[trigger] companies@[k].stock.quantity(r) == capped(
                            c0[k].stock.quantity(r) + expiry_return(all.take(i + 1), k, r),
                        ) by {
                        lemma_expiry_return_nonneg(all.take(i as int), k, r);
                        lemma_capped_twice(
                            c0[k].stock.quantity(r) as int,
                            expiry_return(all.take(i as int), k, r),
                            if offer.time_to_live <= 1 && offer.resource == r && owned_by(offer.owner, k) {
                                offer.amount as int
                            } else {
                                0
                            },
                        );
                    }
                }
            }
            i = i + 1;
        }
        proof {
            assert(all.take(all.len() as int) =~= all);
            assert(money(companies@) == money(c0)) by {
                assert(companies@.map_values(|c: Company| c.currency as int) =~= c0.map_values(
                    |c: Company| c.currency as int,
                ));
            }
        }
        market_data.offers = kept;
    }

    /// One pass of the market: match every order, drop filled orders, age
    /// and expire orders and offers with their refunds, and bring both
    /// indices up to date. With `m` the outcome of matching the book in
    /// order (`matched`, each trade as `trade` states it), the orders left
    /// are `m`'s unfilled orders that outlive the tick, the offers left are
    /// `m`'s offers that outlive it, each company holds `m`'s currency and
    /// stock plus what its expired orders and offers give back, and the
    /// statistics are `m`'s. Company currency plus escrow moves by exactly
    /// `m.flow`, what market-side counterparties paid in less what they were
    /// paid, while no balance saturates.
    #[verifier::rlimit(40)]
    #[verifier::spinoff_prover]
    pub fn tick(&mut self, market_data: &mut MarketData, companies: &mut Vec<Company>)
        requires
            old(market_data).well_formed(),
            old(market_data).owners_below(old(companies)@.len()),
            old(self).issued(old(market_data)),
        ensures
            final(market_data).well_formed(),
            final(market_data).owners_below(final(companies)@.len()),
            final(self).issued(final(market_data)),
            book_uncrossed(*final(market_data)),
            exists|matched: Seq<(OrderHandle, Order)>|
                orders_filled_from(matched, old(market_data).orders@) && #[trigger] aged_orders(
                    without_filled(matched),
                ) == final(market_data).orders@,
            forall|k: int|
                0 <= k < old(market_data).offers@.len() && out_of_reach(
                    old(market_data).orders@,
                    #[trigger] old(market_data).offers@[k].1,
                ) && old(market_data).offers@[k].1.time_to_live > 1 ==> exists|j: int|
                    0 <= j < final(market_data).offers@.len() && #[trigger] final(market_data).offers@[j]
                        == aged_offer(old(market_data).offers@[k]),
            final(market_data).resource_count == old(market_data).resource_count,
            final(companies)@.len() == old(companies)@.len(),
            forall|k: int|
                0 <= k < old(companies)@.len() ==> (#[trigger] final(companies)@[k]).same_profile(
                    old(companies)@[k],
                ),
            final(self).next_offer_id == old(self).next_offer_id,
            final(self).next_order_id == old(self).next_order_id,
            statistics_grew(final(self).statistics, old(self).statistics),
            final(market_data).orders@ == aged_orders(without_filled(matched(*old(market_data), old(companies)@, old(self).statistics).orders)),
            final(market_data).offers@ == aged_offers(matched(*old(market_data), old(companies)@, old(self).statistics).offers),
            forall|k: int|
                0 <= k < old(companies)@.len() ==> {
                    &&& (#[trigger] final(companies)@[k]).currency == capped(
                        matched(*old(market_data), old(companies)@, old(self).statistics).currency[k] + expiry_refund(without_filled(matched(*old(market_data), old(companies)@, old(self).statistics).orders), k),
                    )
                    &&& forall|r: ResourceHandle|
                        #[trigger] final(companies)@[k].stock.quantity(r) == capped(
                            map_quantity(matched(*old(market_data), old(companies)@, old(self).statistics).stocks[k], r) + expiry_return(matched(*old(market_data), old(companies)@, old(self).statistics).offers, k, r),
                        )
                },
            final(self).statistics == matched(*old(market_data), old(companies)@, old(self).statistics).statistics,
            currency_conserved(
                old(companies)@,
                *old(market_data),
                0,
                final(companies)@,
                *final(market_data),
                matched(*old(market_data), old(companies)@, old(self).statistics).flow,
            ),
            company_owned_only(*old(market_data)) ==> matched(*old(market_data), old(companies)@, old(self).statistics).flow == 0,
            company_owned_only(*old(market_data)) && headroom_used(old(companies)@, *old(market_data))
                <= u64::MAX ==> money(final(companies)@) + escrow_of(final(market_data).orders@) == money(
                old(companies)@,
            ) + escrow_of(old(market_data).orders@),
    {
        let ghost c0 = companies@;
        let ghost m0 = *market_data;
        self.execute_orders(market_data, companies);
        let ghost c1 = companies@;
        let ghost m1 = *market_data;
        self.cleanup_complete_orders(market_data);
        let ghost m2 = *market_data;
        proof {
            assert(headroom_used(c1, m2) == headroom_used(c1, m1));
            assert(book_uncrossed(m2)) by {
                assert forall|i: int|
                    0 <= i < m2.orders@.len() && #[trigger] m2.orders@[i].1.amount > 0 implies no_offer_within(
                    m2.offers@,
                    m2.orders@[i].1.resource,
                    m2.orders@[i].1.max_price_per_unit,
                ) by {
                    let k = choose|k: int| 0 <= k < m1.orders@.len() && m2.orders@[i] == m1.orders@[k];
                    assert(m1.orders@[k].1.amount > 0);
                }
            }
        }
        self.cleanup_dead_orders(market_data, companies);
        let ghost c3 = companies@;
        let ghost m3 = *market_data;
        proof {
            assert(book_uncrossed(m3)) by {
                assert forall|i: int|
                    0 <= i < m3.orders@.len() && #[trigger] m3.orders@[i].1.amount > 0 implies no_offer_within(
                    m3.offers@,
                    m3.orders@[i].1.resource,
                    m3.orders@[i].1.max_price_per_unit,
                ) by {
                    let k = choose|k: int|
                        0 <= k < m2.orders@.len() && m3.orders@[i].0 == m2.orders@[k].0
                            && m3.orders@[i].1 == (Order {
                            time_to_live: m3.orders@[i].1.time_to_live,
                            ..m2.orders@[k].1
                        });
                    assert(m2.orders@[k].1.amount > 0);
                }
            }
        }
        self.cleanup_dead_offers(market_data, companies);
        let ghost m4 = *market_data;
        proof {
            assert(book_uncrossed(m4)) by {
                assert forall|i: int|
                    0 <= i < m4.orders@.len() && #[trigger] m4.orders@[i].1.amount > 0 implies no_offer_within(
                    m4.offers@,
                    m4.orders@[i].1.resource,
                    m4.orders@[i].1.max_price_per_unit,
                ) by {
                    let o = m4.orders@[i].1;
                    assert(no_offer_within(m3.offers@, o.resource, o.max_price_per_unit));
                    assert forall|j: int|
                        0 <= j < m4.offers@.len() && #[trigger] m4.offers@[j].1.resource == o.resource implies m4.offers@[j].1.price_per_unit
                        > o.max_price_per_unit by {
                        let k = choose|k: int|
                            0 <= k < m3.offers@.len() && m4.offers@[j].0 == m3.offers@[k].0
                                && m4.offers@[j].1 == (Offer {
                                time_to_live: m4.offers@[j].1.time_to_live,
                                ..m3.offers@[k].1
                            });
                        assert(m3.offers@[k].1.resource == o.resource);
                    }
                }
            }
        }
        proof {
            assert forall|k: int| 0 <= k < c0.len() implies (#[trigger] companies@[k]).same_profile(
                c0[k],
            ) by {
                assert(c1[k].same_profile(c0[k]));
                assert(c3[k].same_profile(c1[k]));
            }
        }
        self.update_price_index(market_data);
        self.update_order_index(market_data);
        proof {
            let mm = matched(*old(market_data), old(companies)@, old(self).statistics);
            assert(m1.orders@ == mm.orders);
            assert(m1.offers@ == mm.offers);
            assert(m3.offers@ == m1.offers@);
            assert forall|k: int| 0 <= k < c0.len() implies {
                &&& (#[trigger] companies@[k]).currency == capped(
                    mm.currency[k] + expiry_refund(without_filled(mm.orders), k),
                )
                &&& forall|r: ResourceHandle|
                    #[trigger] companies@[k].stock.quantity(r) == capped(
                        map_quantity(mm.stocks[k], r) + expiry_return(mm.offers, k, r),
                    )
            } by {
                assert(mm.currency[k] == c1[k].currency);
                assert(mm.stocks[k] == c1[k].stock.resources@);
                assert forall|r: ResourceHandle|
                    #[trigger] companies@[k].stock.quantity(r) == capped(
                        map_quantity(mm.stocks[k], r) + expiry_return(mm.offers, k, r),
                    ) by {
                    assert(c3[k].stock == c1[k].stock);
                    assert(c1[k].stock.quantity(r) == map_quantity(mm.stocks[k], r));
                }
            }
            assert(aged_orders(without_filled(m1.orders@)) == market_data.orders@);
            assert forall|k: int|
                0 <= k < m0.offers@.len() && out_of_reach(m0.orders@, #[trigger] m0.offers@[k].1)
                    && m0.offers@[k].1.time_to_live > 1 implies exists|j: int|
                0 <= j < market_data.offers@.len() && #[trigger] market_data.offers@[j] == aged_offer(
                    m0.offers@[k],
                ) by {
                let j1 = choose|j: int| 0 <= j < m1.offers@.len() && #[trigger] m1.offers@[j] == m0.offers@[k];
                assert(m3.offers@ == m1.offers@);
                lemma_aged_offers_keep(m3.offers@, j1);
            }
        }
    }
}

} // verus!
