//! Trading companies and the owners of intents.
use crate::action_space::CompanyAction;
use crate::market_data::MarketData;
use crate::offer::UnprocessedOffer;
use crate::order::UnprocessedOrder;
use crate::processor::{after_runs, output_of, runs_on, Processor};
use crate::recipe::{RecipeData, RecipeHandle};
use crate::state::{zeros, CompanyState};
use crate::stock::{capped, ResourceHandle, Stock};
use crate::sums::{all_nonneg, lemma_total_bounds, lemma_total_update, total};
use vstd::prelude::*;

verus! {

pub type CompanyHandle = usize;

/// Who stands behind an intent: a company, which pays, is paid and is
/// refunded, or the anonymous market (producer supply, consumer demand),
/// which is none of these.
#[derive(Clone, Copy, Debug, PartialEq, Eq, Structural)]
pub enum Owner {
    Company(CompanyHandle),
    Market,
}

/// Lifetime in ticks of the intents a company states.
pub const INTENT_TIME_TO_LIVE: usize = 100;

/// A trading agent's holdings and bookkeeping. The decision policy that
/// picks its actions is kept outside the library.
pub struct Company {
    pub name: String,
    pub stock: Stock,
    pub currency: u64,
    pub processors: Vec<Processor>,
    /// Buy intents stated this tick, not yet in the book.
    pub orders: Vec<UnprocessedOrder>,
    /// Sell intents stated this tick, not yet in the book.
    pub offers: Vec<UnprocessedOffer>,
    pub company_value: u64,
    pub id: CompanyHandle,
    pub old_state: CompanyState,
    pub old_company_value: u64,
    pub productive_processor_ticks: usize,
}

/// Number of processors working recipe `k`.
pub open spec fn processors_of(processors: Seq<Processor>, k: int) -> nat
    decreases processors.len(),
{
    if processors.len() == 0 {
        0
    } else {
        processors_of(processors.drop_last(), k) + if processors.last().recipe == k {
            1nat
        } else {
            0nat
        }
    }
}

/// Units of `r` that the processors which ran last tick turned out.
pub open spec fn production_of(processors: Seq<Processor>, recipe_data: RecipeData, r: ResourceHandle) -> int
    decreases processors.len(),
{
    if processors.len() == 0 {
        0
    } else {
        let p = processors.last();
        production_of(processors.drop_last(), recipe_data, r) + if p.produced_last_tick
            && p.recipe < recipe_data.recipes@.len() {
            output_of(recipe_data.recipes@[p.recipe as int].products@, p.production_speed, r)
        } else {
            0
        }
    }
}

proof fn lemma_production_nonneg(processors: Seq<Processor>, recipe_data: RecipeData, r: ResourceHandle)
    ensures
        production_of(processors, recipe_data, r) >= 0,
    decreases processors.len(),
{
    if processors.len() > 0 {
        lemma_production_nonneg(processors.drop_last(), recipe_data, r);
        let p = processors.last();
        if p.recipe < recipe_data.recipes@.len() {
            crate::processor::lemma_output_nonneg(
                recipe_data.recipes@[p.recipe as int].products@,
                p.production_speed,
                r,
            );
        }
    }
}

/// Position of the first processor working `recipe`.
pub open spec fn first_with_recipe(processors: Seq<Processor>, recipe: RecipeHandle) -> Option<int>
    decreases processors.len(),
{
    if processors.len() == 0 {
        None
    } else {
        match first_with_recipe(processors.drop_last(), recipe) {
            Some(i) => Some(i),
            None => if processors.last().recipe == recipe {
                Some(processors.len() - 1)
            } else {
                None
            },
        }
    }
}

/// A found position lies in the list and works the recipe.
pub proof fn lemma_first_with_recipe_range(processors: Seq<Processor>, recipe: RecipeHandle)
    ensures
        first_with_recipe(processors, recipe) matches Some(i) ==> 0 <= i < processors.len()
            && processors[i].recipe == recipe,
    decreases processors.len(),
{
    if processors.len() > 0 {
        lemma_first_with_recipe_range(processors.drop_last(), recipe);
    }
}

/// A processor found in a prefix is found at the same place in the whole.
proof fn lemma_first_with_recipe_prefix(processors: Seq<Processor>, k: int, recipe: RecipeHandle)
    requires
        0 <= k <= processors.len(),
        first_with_recipe(processors.take(k), recipe) is Some,
    ensures
        first_with_recipe(processors, recipe) == first_with_recipe(processors.take(k), recipe),
    decreases processors.len(),
{
    if k < processors.len() {
        assert(processors.drop_last().take(k) =~= processors.take(k));
        lemma_first_with_recipe_prefix(processors.drop_last(), k, recipe);
    } else {
        assert(processors.take(k) =~= processors);
    }
}

/// The price of an index entry, zero where there is none.
pub open spec fn price_or_zero(entry: Option<(usize, u64)>) -> u64 {
    match entry {
        Some((_, p)) => p,
        None => 0,
    }
}

fn entry_price(entry: Option<(usize, u64)>) -> (p: u64)
    ensures
        p == price_or_zero(entry),
{
    match entry {
        Some((_, p)) => p,
        None => 0,
    }
}

/// `owner` is company `c`.
pub open spec fn owned_by(owner: Owner, c: int) -> bool {
    match owner {
        Owner::Company(k) => k == c,
        Owner::Market => false,
    }
}

/// The currency of each company.
pub open spec fn currencies(companies: Seq<Company>) -> Seq<int> {
    companies.map_values(|c: Company| c.currency as int)
}

/// Currency held by all companies together.
pub open spec fn money(companies: Seq<Company>) -> int {
    total(currencies(companies))
}

pub proof fn lemma_money_update(companies: Seq<Company>, i: int, c: Company)
    requires
        0 <= i < companies.len(),
    ensures
        money(companies.update(i, c)) == money(companies) - companies[i].currency + c.currency,
{
    assert(currencies(companies.update(i, c)) =~= currencies(companies).update(i, c.currency as int));
    lemma_total_update(currencies(companies), i, c.currency as int);
}

pub proof fn lemma_money_bounds(companies: Seq<Company>, i: int)
    requires
        0 <= i < companies.len(),
    ensures
        0 <= companies[i].currency <= money(companies),
{
    assert(all_nonneg(currencies(companies)));
    lemma_total_bounds(currencies(companies), i);
}

/// Two credits in a row saturate as one credit of their sum.
pub proof fn lemma_capped_twice(a: int, x: int, y: int)
    requires
        0 <= a,
        0 <= x,
        0 <= y,
    ensures
        capped(capped(a + x) + y) == capped(a + x + y),
{
}

/// `after` is `before` once its processors have run and it has valued
/// itself, and `state` is what it then observes.
pub open spec fn observed(
    before: Company,
    after: Company,
    state: CompanyState,
    recipe_data: RecipeData,
    market_data: MarketData,
) -> bool {
    &&& after.processors@.len() == before.processors@.len()
    &&& forall|i: int|
                0 <= i < after.processors@.len() ==> {
                    let p = #[trigger] after.processors@[i];
                    let q = before.processors@[i];
                    &&& p.recipe == q.recipe
                    &&& p.production_speed == q.production_speed
                    &&& p.productive == q.productive
                    &&& p.name == q.name
                    &&& p.produced_last_tick ==> p.productive
                }
    &&& forall|r: ResourceHandle|
                #[trigger] after.stock.quantity(r) == after_runs(
                    |x: ResourceHandle| before.stock.quantity(x),
                    before.processors@,
                    recipe_data,
                )(r)
    &&& forall|i: int|
                0 <= i < after.processors@.len() ==> #[trigger] after.processors@[i].produced_last_tick
                    == runs_on(
                    after_runs(
                        |x: ResourceHandle| before.stock.quantity(x),
                        before.processors@.take(i),
                        recipe_data,
                    ),
                    before.processors@[i],
                    recipe_data.recipes@[before.processors@[i].recipe as int],
                )
    &&& after.currency == before.currency
    &&& after.company_value == before.currency
    &&& after.old_company_value == before.company_value
    &&& state.currency == after.currency
    &&& state.stock@.len() == market_data.resource_count
    &&& forall|r: int|
                0 <= r < market_data.resource_count ==> #[trigger] state.stock@[r]
                    == after.stock.quantity(r as ResourceHandle)
    &&& state.price_index@.len() == market_data.price_index@.len()
    &&& forall|r: int|
                0 <= r < state.price_index@.len() ==> #[trigger] state.price_index@[r] == price_or_zero(
                    market_data.price_index@[r],
                )
    &&& state.order_index@.len() == market_data.order_index@.len()
    &&& forall|r: int|
                0 <= r < state.order_index@.len() ==> #[trigger] state.order_index@[r] == price_or_zero(
                    market_data.order_index@[r],
                )
    &&& state.processor_counts@.len() == before.old_state.processor_counts@.len()
    &&& forall|k: int|
                0 <= k < state.processor_counts@.len() ==> #[trigger] state.processor_counts@[k]
                    == capped(processors_of(after.processors@, k) as int)
    &&& state.production_rates@.len() == before.old_state.production_rates@.len()
    &&& forall|r: int|
                0 <= r < state.production_rates@.len() ==> #[trigger] state.production_rates@[r]
                    == capped(production_of(after.processors@, recipe_data, r as ResourceHandle))
}

/// `after` is `before` once it has carried out `action` on observing
/// `state`.
pub open spec fn acted(
    before: Company,
    after: Company,
    action: CompanyAction,
    state: CompanyState,
    recipe_data: RecipeData,
    market_data: MarketData,
    processor_price: u64,
) -> bool {
    &&& after.old_state == state
    &&& after.name == before.name
    &&& after.id == before.id
    &&& match action {
                CompanyAction::Nothing => after.unchanged_holdings(before),
                CompanyAction::BuyProcessor(recipe) => {
                    &&& after.stock == before.stock
                    &&& after.orders@ == before.orders@
                    &&& after.offers@ == before.offers@
                    &&& (recipe >= recipe_data.recipes@.len() || before.currency < processor_price)
                        ==> after.unchanged_holdings(before)
                    &&& (recipe < recipe_data.recipes@.len() && before.currency >= processor_price) ==> {
                        &&& after.currency == before.currency - processor_price
                        &&& after.processors@.len() == before.processors@.len() + 1
                        &&& after.processors@.drop_last() == before.processors@
                        &&& after.processors@.last().recipe == recipe
                    }
                },
                CompanyAction::SellProcessor(recipe) => match first_with_recipe(before.processors@, recipe) {
                    None => after.unchanged_holdings(before),
                    Some(i) => {
                        &&& after.currency == capped(before.currency + processor_price)
                        &&& after.processors@ == before.processors@.remove(i)
                        &&& after.stock == before.stock
                        &&& after.orders@ == before.orders@
                        &&& after.offers@ == before.offers@
                    },
                },
                CompanyAction::BuyResource(resource, amount) => {
                    if resource < market_data.price_index@.len() && market_data.price_index@[resource as int] is Some {
                        &&& after.orders@ == before.orders@.push(
                            UnprocessedOrder {
                                resource,
                                amount: amount as u64,
                                max_price_per_unit: price_or_zero(market_data.price_index@[resource as int]),
                                time_to_live: INTENT_TIME_TO_LIVE,
                            },
                        )
                        &&& after.offers@ == before.offers@
                        &&& after.currency == before.currency
                        &&& after.stock == before.stock
                        &&& after.processors@ == before.processors@
                    } else {
                        after.unchanged_holdings(before)
                    }
                },
                CompanyAction::SellResource(resource, amount) => {
                    if resource < market_data.order_index@.len() && market_data.order_index@[resource as int] is Some {
                        &&& after.offers@ == before.offers@.push(
                            UnprocessedOffer {
                                resource,
                                amount: amount as u64,
                                price_per_unit: price_or_zero(market_data.order_index@[resource as int]),
                                time_to_live: INTENT_TIME_TO_LIVE,
                            },
                        )
                        &&& after.orders@ == before.orders@
                        &&& after.currency == before.currency
                        &&& after.stock == before.stock
                        &&& after.processors@ == before.processors@
                    } else {
                        after.unchanged_holdings(before)
                    }
                },
            }
}

impl Company {
    /// Everything but currency and stock agrees.
    pub open spec fn same_profile(self, other: Company) -> bool {
        &&& self.name == other.name
        &&& self.processors@ == other.processors@
        &&& self.orders@ == other.orders@
        &&& self.offers@ == other.offers@
        &&& self.company_value == other.company_value
        &&& self.id == other.id
        &&& self.old_state == other.old_state
        &&& self.old_company_value == other.old_company_value
        &&& self.productive_processor_ticks == other.productive_processor_ticks
    }

    /// Name, handle, last observation and valuation are as in `other`.
    pub open spec fn same_identity(self, other: Company) -> bool {
        &&& self.name == other.name
        &&& self.id == other.id
        &&& self.old_state == other.old_state
        &&& self.company_value == other.company_value
        &&& self.old_company_value == other.old_company_value
        &&& self.productive_processor_ticks == other.productive_processor_ticks
    }

    /// Currency, stock, processors and stated intents are as in `other`.
    pub open spec fn unchanged_holdings(self, other: Company) -> bool {
        &&& self.currency == other.currency
        &&& self.stock == other.stock
        &&& self.processors@ == other.processors@
        &&& self.orders@ == other.orders@
        &&& self.offers@ == other.offers@
    }

    /// Credits `amount`; the balance saturates at `u64::MAX`.
    pub fn add_currency(&mut self, amount: u64)
        ensures
            final(self).currency == capped(old(self).currency + amount),
            final(self).stock == old(self).stock,
            final(self).same_profile(*old(self)),
    {
        self.currency = self.currency.saturating_add(amount);
    }

    pub fn add_resource(&mut self, resource: ResourceHandle, amount: u64)
        ensures
            final(self).stock.set_from(
                old(self).stock,
                resource,
                capped(old(self).stock.quantity(resource) + amount),
            ),
            final(self).stock.resources@ == old(self).stock.resources@.insert(
                resource,
                capped(old(self).stock.quantity(resource) + amount) as u64,
            ),
            final(self).currency == old(self).currency,
            final(self).same_profile(*old(self)),
    {
        self.stock.add_to_stock(resource, amount);
    }

    /// A company with nothing: no currency, stock or processors, and an
    /// all-zero observation for the given counts.
    pub fn new(name: &str, company_handle: CompanyHandle, resource_count: usize, recipe_count: usize) -> (c:
        Self)
        ensures
            c.name@ == name@,
            c.id == company_handle,
            c.currency == 0,
            forall|r: ResourceHandle| #[trigger] c.stock.quantity(r) == 0,
            c.processors@.len() == 0,
            c.orders@.len() == 0,
            c.offers@.len() == 0,
            c.company_value == 0,
            c.old_company_value == 0,
            c.productive_processor_ticks == 0,
            c.old_state.stock@.len() == resource_count,
            c.old_state.processor_counts@.len() == recipe_count,
            c.old_state.production_rates@.len() == resource_count,
    {
        Company {
            name: name.to_owned(),
            stock: Stock::new(),
            currency: 0,
            processors: Vec::new(),
            orders: Vec::new(),
            offers: Vec::new(),
            company_value: 0,
            id: company_handle,
            old_state: CompanyState::new(resource_count, recipe_count),
            old_company_value: 0,
            productive_processor_ticks: 0,
        }
    }

    /// Buys a processor for `recipe` at `processor_price` if the currency
    /// covers it; otherwise nothing changes.
    pub fn buy_processor(&mut self, recipe: RecipeHandle, processor_price: u64, recipe_data: &RecipeData)
        requires
            recipe < recipe_data.recipes@.len(),
        ensures
            final(self).same_identity(*old(self)),
            old(self).currency < processor_price ==> *final(self) == *old(self),
            old(self).currency >= processor_price ==> {
                &&& final(self).currency == old(self).currency - processor_price
                &&& final(self).processors@.len() == old(self).processors@.len() + 1
                &&& final(self).processors@.drop_last() == old(self).processors@
                &&& final(self).processors@.last().name@ == "Proc"@ + recipe_data.recipes@[recipe as int].name@
                &&& final(self).processors@.last().production_speed == 1
                &&& final(self).processors@.last().recipe == recipe
                &&& final(self).processors@.last().productive
                &&& !final(self).processors@.last().produced_last_tick
                &&& final(self).stock == old(self).stock
                &&& final(self).orders@ == old(self).orders@
                &&& final(self).offers@ == old(self).offers@
            },
    {
        if self.currency < processor_price {
            return;
        }
        self.currency = self.currency - processor_price;
        let processor_name = "Proc".to_owned().concat(recipe_data.recipes[recipe].name.as_str());
        let processor = Processor {
            name: processor_name,
            production_speed: 1,
            recipe: recipe,
            productive: true,
            produced_last_tick: false,
        };
        self.processors.push(processor);
        proof {
            assert(self.processors@.drop_last() =~= old(self).processors@);
        }
    }

    /// Sells the processor at position `processor` for `processor_price`;
    /// nothing changes where there is no such processor.
    pub fn sell_processor(&mut self, processor: usize, processor_price: u64)
        ensures
            final(self).same_identity(*old(self)),
            processor >= old(self).processors@.len() ==> *final(self) == *old(self),
            processor < old(self).processors@.len() ==> {
                &&& final(self).currency == capped(old(self).currency + processor_price)
                &&& final(self).processors@ == old(self).processors@.remove(processor as int)
                &&& final(self).stock == old(self).stock
                &&& final(self).orders@ == old(self).orders@
                &&& final(self).offers@ == old(self).offers@
            },
    {
        if self.processors.len() <= processor {
            return;
        }
        self.currency = self.currency.saturating_add(processor_price);
        self.processors.remove(processor);
    }

    /// States a buy intent, to be booked when the company's turn ends.
    pub fn place_order(&mut self, resource: ResourceHandle, amount: u64, max_price_per_unit: u64)
        ensures
            final(self).orders@ == old(self).orders@.push(
                UnprocessedOrder { resource, amount, max_price_per_unit, time_to_live: INTENT_TIME_TO_LIVE },
            ),
            final(self).offers@ == old(self).offers@,
            final(self).currency == old(self).currency,
            final(self).stock == old(self).stock,
            final(self).processors@ == old(self).processors@,
            final(self).same_identity(*old(self)),
    {
        self.orders.push(
            UnprocessedOrder { resource, amount, max_price_per_unit, time_to_live: INTENT_TIME_TO_LIVE },
        );
    }

    /// States a sell intent, to be booked when the company's turn ends.
    pub fn place_offer(&mut self, resource: ResourceHandle, amount: u64, price_per_unit: u64)
        ensures
            final(self).offers@ == old(self).offers@.push(
                UnprocessedOffer { resource, amount, price_per_unit, time_to_live: INTENT_TIME_TO_LIVE },
            ),
            final(self).orders@ == old(self).orders@,
            final(self).currency == old(self).currency,
            final(self).stock == old(self).stock,
            final(self).processors@ == old(self).processors@,
            final(self).same_identity(*old(self)),
    {
        self.offers.push(
            UnprocessedOffer { resource, amount, price_per_unit, time_to_live: INTENT_TIME_TO_LIVE },
        );
    }

    /// The company's worth: its currency.
    pub fn calculate_company_value(&self, market_data: &MarketData, processor_value: u64) -> (v: u64)
        ensures
            v == self.currency,
    {
        self.currency
    }

    /// Runs every processor once, revalues the company and returns what it
    /// observes: its stock and currency, the market's best prices, its
    /// processors per recipe and last tick's production per resource.
    pub fn tick(&mut self, recipe_data: &RecipeData, market_data: &MarketData) -> (state: CompanyState)
        requires
            recipe_data.well_formed(),
            forall|i: int|
                0 <= i < old(self).processors@.len() ==> #[trigger] old(self).processors@[i].recipe
                    < recipe_data.recipes@.len(),
        ensures
            observed(*old(self), *final(self), state, *recipe_data, *market_data),
    {
        let recipe_count = self.old_state.processor_counts.len();
        let rate_count = self.old_state.production_rates.len();
        let mut processor_counts = zeros(recipe_count);
        let mut production_rates = zeros(rate_count);
        let ghost procs0 = self.processors@;
        let ghost q0 = |x: ResourceHandle| old(self).stock.quantity(x);
        let mut i: usize = 0;
        while i < self.processors.len()
            invariant
                i <= self.processors@.len(),
                self.processors@.len() == procs0.len(),
                recipe_data.well_formed(),
                self.currency == old(self).currency,
                self.company_value == old(self).company_value,
                forall|k: int|
                    0 <= k < procs0.len() ==> #[trigger] procs0[k].recipe < recipe_data.recipes@.len(),
                forall|k: int|
                    i <= k < procs0.len() ==> #[trigger] self.processors@[k] == procs0[k],
                q0 == (|x: ResourceHandle| old(self).stock.quantity(x)),
                forall|r: ResourceHandle| #[trigger] self.stock.quantity(r) == after_runs(q0, procs0.take(i as int), *recipe_data)(r),
                forall|k: int|
                    0 <= k < i ==> #[trigger] self.processors@[k].produced_last_tick == runs_on(
                        after_runs(q0, procs0.take(k), *recipe_data),
                        procs0[k],
                        recipe_data.recipes@[procs0[k].recipe as int],
                    ),
                forall|k: int|
                    0 <= k < i ==> {
                        let p = #[trigger] self.processors@[k];
                        &&& p.recipe == procs0[k].recipe
                        &&& p.production_speed == procs0[k].production_speed
                        &&& p.productive == procs0[k].productive
                        &&& p.name == procs0[k].name
                        &&& p.produced_last_tick ==> p.productive
                    },
                processor_counts@.len() == recipe_count,
                forall|k: int|
                    0 <= k < recipe_count ==> #[trigger] processor_counts@[k] == capped(
                        processors_of(self.processors@.take(i as int), k) as int,
                    ),
                production_rates@.len() == rate_count,
                forall|r: int|
                    0 <= r < rate_count ==> #[trigger] production_rates@[r] == capped(
                        production_of(self.processors@.take(i as int), *recipe_data, r as ResourceHandle),
                    ),
            decreases self.processors.len() - i,
        {
            let ghost before = self.processors@;
            let ghost stock_before = self.stock;
            let recipe = self.processors[i].recipe;
            if recipe < processor_counts.len() {
                processor_counts[recipe] = processor_counts[recipe].saturating_add(1);
            }
            self.processors[i].tick(&mut self.stock, recipe_data);
            let ghost after = self.processors@;
            proof {
                let prev = after_runs(q0, procs0.take(i as int), *recipe_data);
                let rec = recipe_data.recipes@[procs0[i as int].recipe as int];
                assert(procs0.take(i + 1).drop_last() =~= procs0.take(i as int));
                assert(procs0.take(i + 1).last() == procs0[i as int]);
                assert(crate::stock::all_in_stock(stock_before, rec.ingredients@) == (forall|k: int|
                    0 <= k < rec.ingredients@.len() ==> prev(#[trigger] rec.ingredients@[k].0) >= rec.ingredients@[k].1));
                assert forall|r: ResourceHandle| #[trigger] self.stock.quantity(r) == after_runs(
                    q0,
                    procs0.take(i + 1),
                    *recipe_data,
                )(r) by {
                    assert(stock_before.quantity(r) == prev(r));
                }
                assert forall|k: int| 0 <= k < i + 1 implies #[trigger] after[k].produced_last_tick == runs_on(
                    after_runs(q0, procs0.take(k), *recipe_data),
                    procs0[k],
                    recipe_data.recipes@[procs0[k].recipe as int],
                ) by {
                    if k < i {
                        assert(after[k] == before[k]);
                    }
                }
                assert(after =~= before.update(i as int, after[i as int]));
                assert(after.take(i + 1).drop_last() =~= before.take(i as int));
                assert(after.take(i as int) =~= before.take(i as int));
                assert forall|k: int| 0 <= k < recipe_count implies #[trigger] processor_counts@[k] == capped(
                    processors_of(after.take(i + 1), k) as int,
                ) by {
                    assert(after.take(i + 1).last() == after[i as int]);
                }
            }
            if self.processors[i].produced_last_tick {
                self.productive_processor_ticks = self.productive_processor_ticks.saturating_add(1);
                let products = &recipe_data.recipes[recipe].products;
                let speed = self.processors[i].production_speed;
                let mut j: usize = 0;
                while j < products.len()
                    invariant
                        j <= products@.len(),
                        production_rates@.len() == rate_count,
                        forall|r: int|
                            0 <= r < rate_count ==> #[trigger] production_rates@[r] == capped(
                                production_of(before.take(i as int), *recipe_data, r as ResourceHandle)
                                    + output_of(products@.take(j as int), speed, r as ResourceHandle),
                            ),
                    decreases products.len() - j,
                {
                    assert(products@.take(j + 1).drop_last() =~= products@.take(j as int));
                    let (resource, factor) = products[j];
                    if resource < production_rates.len() {
                        let amount = match factor.checked_mul(speed) {
                            Some(v) => v,
                            None => u64::MAX,
                        };
                        production_rates[resource] = production_rates[resource].saturating_add(amount);
                    }
                    proof {
                        assert forall|r: int| 0 <= r < rate_count implies #[trigger] production_rates@[r]
                            == capped(
                            production_of(before.take(i as int), *recipe_data, r as ResourceHandle)
                                + output_of(products@.take(j + 1), speed, r as ResourceHandle),
                        ) by {
                            lemma_production_nonneg(before.take(i as int), *recipe_data, r as ResourceHandle);
                            crate::processor::lemma_output_nonneg(products@.take(j as int), speed, r as ResourceHandle);
                        }
                    }
                    j = j + 1;
                }
                proof {
                    assert(products@.take(products@.len() as int) =~= products@);
                }
            }
            proof {
                assert(after.take(i + 1).last() == after[i as int]);
                assert forall|r: int| 0 <= r < rate_count implies #[trigger] production_rates@[r] == capped(
                    production_of(after.take(i + 1), *recipe_data, r as ResourceHandle),
                ) by {}
            }
            i = i + 1;
        }
        proof {
            assert(self.processors@.take(i as int) =~= self.processors@);
            assert(procs0.take(i as int) =~= procs0);
        }
        let resource_count = market_data.resource_count;
        let mut stock = zeros(resource_count);
        let mut r: usize = 0;
        while r < resource_count
            invariant
                r <= resource_count,
                stock@.len() == resource_count,
                forall|k: int| 0 <= k < r ==> #[trigger] stock@[k] == self.stock.quantity(k as ResourceHandle),
            decreases resource_count - r,
        {
            stock[r] = self.stock.quantity_of(r);
            r = r + 1;
        }
        let price_index = Self::index_prices(&market_data.price_index);
        let order_index = Self::index_prices(&market_data.order_index);
        self.old_company_value = self.company_value;
        self.company_value = self.calculate_company_value(market_data, 0);
        CompanyState {
            stock,
            currency: self.currency,
            price_index,
            order_index,
            processor_counts,
            production_rates,
        }
    }

    /// The prices of an index, zero where there is no entry.
    fn index_prices(index: &Vec<Option<(usize, u64)>>) -> (v: Vec<u64>)
        ensures
            v@.len() == index@.len(),
            forall|r: int| 0 <= r < index@.len() ==> #[trigger] v@[r] == price_or_zero(index@[r]),
    {
        let mut v: Vec<u64> = Vec::new();
        let mut r: usize = 0;
        while r < index.len()
            invariant
                r <= index@.len(),
                v@.len() == r,
                forall|k: int| 0 <= k < r ==> #[trigger] v@[k] == price_or_zero(index@[k]),
            decreases index.len() - r,
        {
            v.push(entry_price(index[r]));
            r = r + 1;
        }
        v
    }

    /// Carries out the action chosen on observing `state`, which becomes
    /// the company's last observation. Buying or selling a resource states
    /// an intent at the market's current best price; where the market has
    /// none, or the recipe or processor does not exist, nothing happens.
    pub fn act(
        &mut self,
        action: CompanyAction,
        state: CompanyState,
        recipe_data: &RecipeData,
        market_data: &MarketData,
        processor_price: u64,
    )
        ensures
            acted(*old(self), *final(self), action, state, *recipe_data, *market_data, processor_price),
    {
        self.old_state = state;
        match action {
            CompanyAction::Nothing => {},
            CompanyAction::BuyProcessor(recipe) => {
                if recipe < recipe_data.recipes.len() {
                    self.buy_processor(recipe, processor_price, recipe_data);
                }
            },
            CompanyAction::SellProcessor(recipe) => {
                let mut i: usize = 0;
                while i < self.processors.len()
                    invariant
                        i <= self.processors@.len(),
                        first_with_recipe(self.processors@.take(i as int), recipe) is None,
                        self.old_state == state,
                        action == CompanyAction::SellProcessor(recipe),
                        self.name == old(self).name,
                        self.id == old(self).id,
                        self.unchanged_holdings(*old(self)),
                    decreases self.processors.len() - i,
                {
                    assert(self.processors@.take(i + 1).drop_last() =~= self.processors@.take(i as int));
                    if self.processors[i].recipe == recipe {
                        proof {
                            assert(first_with_recipe(self.processors@.take(i + 1), recipe) == Some(i as int));
                            lemma_first_with_recipe_prefix(self.processors@, i + 1, recipe);
                        }
                        self.sell_processor(i, processor_price);
                        return;
                    }
                    i = i + 1;
                }
                assert(self.processors@.take(self.processors@.len() as int) =~= self.processors@);
            },
            CompanyAction::BuyResource(resource, amount) => {
                if resource < market_data.price_index.len() {
                    match market_data.price_index[resource] {
                        Some((_, price)) => self.place_order(resource, amount as u64, price),
                        None => {},
                    }
                }
            },
            CompanyAction::SellResource(resource, amount) => {
                if resource < market_data.order_index.len() {
                    match market_data.order_index[resource] {
                        Some((_, price)) => self.place_offer(resource, amount as u64, price),
                        None => {},
                    }
                }
            },
        }
    }
}

} // verus!
