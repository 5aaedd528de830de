//! Processors turn a recipe's ingredients into its products.
use crate::recipe::{Recipe, RecipeData, RecipeHandle};
use crate::stock::{all_in_stock, capped, demand_of, distinct_resources, ResourceHandle, Stock};
use vstd::prelude::*;

verus! {

#[derive(Clone, Debug)]
pub struct Processor {
    pub name: String,
    pub production_speed: u64,
    pub recipe: RecipeHandle,
    pub productive: bool,
    pub produced_last_tick: bool,
}

/// Units of `r` that one run yields at `speed`, each line saturating at
/// `u64::MAX`.
pub open spec fn output_of(products: Seq<(ResourceHandle, u64)>, speed: u64, r: ResourceHandle) -> int
    decreases products.len(),
{
    if products.len() == 0 {
        0
    } else {
        output_of(products.drop_last(), speed, r) + if products.last().0 == r {
            capped(products.last().1 * speed) as int
        } else {
            0
        }
    }
}

/// With distinct resources, the demand for `r` is its one line, or zero.
proof fn lemma_demand_of_distinct(items: Seq<(ResourceHandle, u64)>, r: ResourceHandle)
    requires
        distinct_resources(items),
    ensures
        forall|k: int| 0 <= k < items.len() && #[trigger] items[k].0 == r ==> demand_of(items, r) == items[k].1,
        (forall|k: int| 0 <= k < items.len() ==> #[trigger] items[k].0 != r) ==> demand_of(items, r) == 0,
    decreases items.len(),
{
    if items.len() > 0 {
        let prefix = items.drop_last();
        assert(distinct_resources(prefix)) by {
            assert forall|i: int, j: int|
                0 <= i < prefix.len() && 0 <= j < prefix.len() && i != j implies #[trigger] prefix[i].0
                    != #[trigger] prefix[j].0 by {
                assert(prefix[i] == items[i] && prefix[j] == items[j]);
            }
        }
        lemma_demand_of_distinct(prefix, r);
        assert forall|k: int| 0 <= k < prefix.len() implies #[trigger] prefix[k] == items[k] by {}
        if items.last().0 == r {
            assert forall|k: int| 0 <= k < prefix.len() implies #[trigger] prefix[k].0 != r by {
                assert(items[k].0 != items[items.len() - 1].0);
            }
        }
        assert forall|k: int| 0 <= k < items.len() && #[trigger] items[k].0 == r implies demand_of(
            items,
            r,
        ) == items[k].1 by {
            if k < items.len() - 1 {
                assert(prefix[k] == items[k]);
                assert(items[k].0 != items[items.len() - 1].0);
            }
        }
    }
}

pub proof fn lemma_output_nonneg(products: Seq<(ResourceHandle, u64)>, speed: u64, r: ResourceHandle)
    ensures
        output_of(products, speed, r) >= 0,
    decreases products.len(),
{
    if products.len() > 0 {
        lemma_output_nonneg(products.drop_last(), speed, r);
    }
}

/// Whether a processor runs on quantities `q`: it is productive and every
/// ingredient is there.
pub open spec fn runs_on(q: spec_fn(ResourceHandle) -> nat, p: Processor, recipe: Recipe) -> bool {
    &&& p.productive
    &&& forall|i: int|
        0 <= i < recipe.ingredients@.len() ==> q(#[trigger] recipe.ingredients@[i].0) >= recipe.ingredients@[i].1
}

/// Quantities after the processors each run once, in order, from `q`.
pub open spec fn after_runs(
    q: spec_fn(ResourceHandle) -> nat,
    processors: Seq<Processor>,
    recipe_data: RecipeData,
) -> spec_fn(ResourceHandle) -> nat
    decreases processors.len(),
{
    if processors.len() == 0 {
        q
    } else {
        let prev = after_runs(q, processors.drop_last(), recipe_data);
        let p = processors.last();
        let recipe = recipe_data.recipes@[p.recipe as int];
        if runs_on(prev, p, recipe) {
            |r: ResourceHandle|
                capped(prev(r) - demand_of(recipe.ingredients@, r) + output_of(recipe.products@, p.production_speed, r))
        } else {
            prev
        }
    }
}

impl Processor {
    /// Runs the recipe once if the processor is productive and the stock
    /// holds every ingredient: the ingredients are debited together, then
    /// each product is credited at the processor's speed.
    pub fn tick(&mut self, stock: &mut Stock, recipe_data: &RecipeData)
        requires
            old(self).recipe < recipe_data.recipes@.len(),
            recipe_data.well_formed(),
        ensures
            ({
                let recipe = recipe_data.recipes@[old(self).recipe as int];
                let ran = old(self).productive && all_in_stock(*old(stock), recipe.ingredients@);
                &&& final(self).produced_last_tick == ran
                &&& !ran ==> final(stock).same_quantities(*old(stock))
                &&& ran ==> forall|r: ResourceHandle|
                    #[trigger] final(stock).quantity(r) == capped(
                        old(stock).quantity(r) - demand_of(recipe.ingredients@, r) + output_of(
                            recipe.products@,
                            old(self).production_speed,
                            r,
                        ),
                    )
            }),
            final(self).name == old(self).name,
            final(self).production_speed == old(self).production_speed,
            final(self).recipe == old(self).recipe,
            final(self).productive == old(self).productive,
    {
        let recipe = &recipe_data.recipes[self.recipe];
        proof {
            assert(recipe.well_formed());
        }
        self.produced_last_tick = false;
        proof {
            assert forall|k: int| 0 <= k < recipe.ingredients@.len() implies demand_of(
                recipe.ingredients@,
                #[trigger] recipe.ingredients@[k].0,
            ) == recipe.ingredients@[k].1 by {
                lemma_demand_of_distinct(recipe.ingredients@, recipe.ingredients@[k].0);
            }
            assert(crate::stock::covers(*stock, recipe.ingredients@) == all_in_stock(*stock, recipe.ingredients@));
        }
        if self.productive && stock.make_transaction(&recipe.ingredients) {
            let ghost mid = *stock;
            let mut i: usize = 0;
            while i < recipe.products.len()
                invariant
                    i <= recipe.products@.len(),
                    forall|r: ResourceHandle|
                        #[trigger] stock.quantity(r) == capped(
                            mid.quantity(r) + output_of(
                                recipe.products@.take(i as int),
                                self.production_speed,
                                r,
                            ),
                        ),
                decreases recipe.products.len() - i,
            {
                assert(recipe.products@.take(i + 1).drop_last() =~= recipe.products@.take(i as int));
                let (resource, production_factor) = recipe.products[i];
                let amount = match production_factor.checked_mul(self.production_speed) {
                    Some(v) => v,
                    None => u64::MAX,
                };
                let ghost before = *stock;
                stock.add_to_stock(resource, amount);
                proof {
                    assert forall|r: ResourceHandle|
                        #[trigger] stock.quantity(r) == capped(
                            mid.quantity(r) + output_of(
                                recipe.products@.take(i + 1),
                                self.production_speed,
                                r,
                            ),
                        ) by {
                        lemma_output_nonneg(recipe.products@.take(i as int), self.production_speed, r);
                        if r == resource {
                            assert(before.quantity(r) == capped(
                                mid.quantity(r) + output_of(
                                    recipe.products@.take(i as int),
                                    self.production_speed,
                                    r,
                                ),
                            ));
                        }
                    }
                }
                i = i + 1;
            }
            proof {
                assert(recipe.products@.take(recipe.products@.len() as int) =~= recipe.products@);
                assert forall|r: ResourceHandle|
                    #[trigger] mid.quantity(r) == old(stock).quantity(r) - demand_of(recipe.ingredients@, r) by {
                    lemma_demand_of_distinct(recipe.ingredients@, r);
                }
            }
            self.produced_last_tick = true;
        }
    }
}

} // verus!
