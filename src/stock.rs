//! Per-owner ledger of resource quantities.
use std::collections::HashMap;
use vstd::prelude::*;

verus! {

broadcast use vstd::std_specs::hash::group_hash_axioms;

/// Identifies a fungible good; valid handles are `0..resource_count`.
pub type ResourceHandle = usize;

/// Saturates a mathematical quantity at the largest storable amount.
pub open spec fn capped(x: int) -> nat {
    if x > u64::MAX {
        u64::MAX as nat
    } else if x < 0 {
        0
    } else {
        x as nat
    }
}

/// The resources of one owner. A resource absent from the map is held in
/// quantity zero; quantities are unsigned, so no entry is ever negative.
pub struct Stock {
    pub resources: HashMap<ResourceHandle, u64>,
}

/// All line items of a transaction name different resources.
pub open spec fn distinct_resources(items: Seq<(ResourceHandle, u64)>) -> bool {
    forall|i: int, j: int|
        0 <= i < items.len() && 0 <= j < items.len() && i != j ==> #[trigger] items[i].0
            != #[trigger] items[j].0
}

/// Every line item can be debited from the stock as it stands.
pub open spec fn all_in_stock(s: Stock, items: Seq<(ResourceHandle, u64)>) -> bool {
    forall|i: int| 0 <= i < items.len() ==> s.quantity(#[trigger] items[i].0) >= items[i].1
}

/// Units of `r` that a transaction asks for, over all its line items.
pub open spec fn demand_of(items: Seq<(ResourceHandle, u64)>, r: ResourceHandle) -> int
    decreases items.len(),
{
    if items.len() == 0 {
        0
    } else {
        demand_of(items.drop_last(), r) + if items.last().0 == r {
            items.last().1 as int
        } else {
            0
        }
    }
}

/// The stock covers the total demand of every resource the line items name.
pub open spec fn covers(s: Stock, items: Seq<(ResourceHandle, u64)>) -> bool {
    forall|k: int| 0 <= k < items.len() ==> s.quantity(#[trigger] items[k].0) >= demand_of(items, items[k].0)
}

/// A prefix asks for no more than the whole.
pub proof fn lemma_demand_prefix(items: Seq<(ResourceHandle, u64)>, i: int, r: ResourceHandle)
    requires
        0 <= i <= items.len(),
    ensures
        0 <= demand_of(items.take(i), r) <= demand_of(items, r),
    decreases items.len(),
{
    if i == items.len() {
        assert(items.take(i) =~= items);
        lemma_demand_nonneg(items, r);
    } else {
        lemma_demand_prefix(items.drop_last(), i, r);
        assert(items.drop_last().take(i) =~= items.take(i));
    }
}

pub proof fn lemma_demand_nonneg(items: Seq<(ResourceHandle, u64)>, r: ResourceHandle)
    ensures
        demand_of(items, r) >= 0,
    decreases items.len(),
{
    if items.len() > 0 {
        lemma_demand_nonneg(items.drop_last(), r);
    }
}

impl Stock {
    /// Quantity of `r` held.
    pub open spec fn quantity(self, r: ResourceHandle) -> nat {
        if self.resources@.contains_key(r) {
            self.resources@[r] as nat
        } else {
            0
        }
    }

    /// Both stocks hold the same quantity of every resource.
    pub open spec fn same_quantities(self, other: Stock) -> bool {
        forall|r: ResourceHandle| #[trigger] self.quantity(r) == other.quantity(r)
    }

    /// `self` is `before` with the quantity of `r` set to `q`.
    pub open spec fn set_from(self, before: Stock, r: ResourceHandle, q: nat) -> bool {
        &&& self.quantity(r) == q
        &&& forall|x: ResourceHandle| x != r ==> #[trigger] self.quantity(x) == before.quantity(x)
    }

    pub fn new() -> (s: Self)
        ensures
            forall|r: ResourceHandle| #[trigger] s.quantity(r) == 0,
    {
        Stock { resources: HashMap::new() }
    }

    /// Quantity of `resource` held, without touching the map.
    pub fn quantity_of(&self, resource: ResourceHandle) -> (q: u64)
        ensures
            q == self.quantity(resource),
    {
        match self.resources.get(&resource) {
            Some(value) => *value,
            None => 0,
        }
    }

    /// Reads the quantity of `resource`, recording an explicit zero entry
    /// where there was none.
    fn get_resource_value(&mut self, resource: ResourceHandle) -> (v: u64)
        ensures
            v == old(self).quantity(resource),
            final(self).same_quantities(*old(self)),
            final(self).resources@ == old(self).resources@ || final(self).resources@ == old(
                self,
            ).resources@.insert(resource, 0),
    {
        match self.resources.get(&resource) {
            Some(value) => *value,
            None => {
                self.resources.insert(resource, 0);
                0
            },
        }
    }

    /// The balance of `resource` after debiting `amount`, or `None` where
    /// that would go below zero.
    fn calculate_new_stock_value(&mut self, resource: ResourceHandle, amount: u64) -> (r: Option<
        u64,
    >)
        ensures
            final(self).same_quantities(*old(self)),
            match r {
                Some(v) => old(self).quantity(resource) >= amount && v == old(self).quantity(
                    resource,
                ) - amount,
                None => old(self).quantity(resource) < amount,
            },
    {
        let resource_in_stock = self.get_resource_value(resource);
        resource_in_stock.checked_sub(amount)
    }

    pub fn check_resource_in_stock(&mut self, resource: ResourceHandle, amount: u64) -> (b: bool)
        ensures
            b == (old(self).quantity(resource) >= amount),
            final(self).same_quantities(*old(self)),
    {
        self.calculate_new_stock_value(resource, amount).is_some()
    }

    pub fn check_resources_in_stock(&mut self, resource_transactions: &Vec<(ResourceHandle, u64)>) -> (b:
        bool)
        ensures
            b == all_in_stock(*old(self), resource_transactions@),
            final(self).same_quantities(*old(self)),
    {
        let mut in_stock: bool = true;
        let mut i: usize = 0;
        while i < resource_transactions.len()
            invariant
                i <= resource_transactions.len(),
                self.same_quantities(*old(self)),
                in_stock == (forall|k: int|
                    0 <= k < i ==> old(self).quantity(#[trigger] resource_transactions@[k].0)
                        >= resource_transactions@[k].1),
            decreases resource_transactions.len() - i,
        {
            let (resource, amount) = resource_transactions[i];
            let ok = self.check_resource_in_stock(resource, amount);
            in_stock = in_stock && ok;
            i = i + 1;
        }
        in_stock
    }

    /// Debits every line item, or none: where the line items for some
    /// resource ask for more in total than its balance, nothing changes and
    /// the result is `false`.
    pub fn make_transaction(&mut self, resource_transactions: &Vec<(ResourceHandle, u64)>) -> (b:
        bool)
        ensures
            b == covers(*old(self), resource_transactions@),
            !b ==> final(self).same_quantities(*old(self)),
            b ==> forall|r: ResourceHandle|
                #[trigger] final(self).quantity(r) == old(self).quantity(r) - demand_of(
                    resource_transactions@,
                    r,
                ),
    {
        let mut k: usize = 0;
        while k < resource_transactions.len()
            invariant
                k <= resource_transactions@.len(),
                forall|j: int|
                    0 <= j < k ==> #[trigger] old(self).quantity(resource_transactions@[j].0) >= demand_of(
                        resource_transactions@,
                        resource_transactions@[j].0,
                    ),
            decreases resource_transactions.len() - k,
        {
            if !self.demand_covered(resource_transactions, resource_transactions[k].0) {
                return false;
            }
            k = k + 1;
        }
        let mut i: usize = 0;
        while i < resource_transactions.len()
            invariant
                i <= resource_transactions@.len(),
                covers(*old(self), resource_transactions@),
                forall|r: ResourceHandle|
                    #[trigger] self.quantity(r) == old(self).quantity(r) - demand_of(
                        resource_transactions@.take(i as int),
                        r,
                    ),
            decreases resource_transactions.len() - i,
        {
            let (resource, amount) = resource_transactions[i];
            proof {
                assert(resource_transactions@.take(i + 1).drop_last() =~= resource_transactions@.take(i as int));
                lemma_demand_prefix(resource_transactions@, i + 1, resource);
                assert(old(self).quantity(resource_transactions@[i as int].0) >= demand_of(
                    resource_transactions@,
                    resource_transactions@[i as int].0,
                ));
            }
            let removed = self.remove_from_stock_if_possible(resource, amount);
            assert(removed);
            i = i + 1;
        }
        proof {
            assert(resource_transactions@.take(resource_transactions@.len() as int) =~= resource_transactions@);
        }
        true
    }

    /// Whether the balance of `resource` covers all line items for it.
    fn demand_covered(&self, items: &Vec<(ResourceHandle, u64)>, resource: ResourceHandle) -> (b: bool)
        ensures
            b == (self.quantity(resource) >= demand_of(items@, resource)),
    {
        let have = self.quantity_of(resource);
        let mut need: u64 = 0;
        let mut j: usize = 0;
        while j < items.len()
            invariant
                j <= items@.len(),
                have == self.quantity(resource),
                need == demand_of(items@.take(j as int), resource),
                need <= have,
            decreases items.len() - j,
        {
            assert(items@.take(j + 1).drop_last() =~= items@.take(j as int));
            if items[j].0 == resource {
                if items[j].1 > have - need {
                    proof {
                        lemma_demand_prefix(items@, j + 1, resource);
                    }
                    return false;
                }
                need = need + items[j].1;
            }
            j = j + 1;
        }
        assert(items@.take(items@.len() as int) =~= items@);
        true
    }

    /// Debits `amount` of `resource` if the balance covers it.
    pub fn remove_from_stock_if_possible(&mut self, resource: ResourceHandle, amount: u64) -> (b:
        bool)
        ensures
            b == (old(self).quantity(resource) >= amount),
            b ==> final(self).set_from(*old(self), resource, (old(self).quantity(resource) - amount) as nat),
            !b ==> final(self).same_quantities(*old(self)),
    {
        match self.calculate_new_stock_value(resource, amount) {
            Some(value_after_transaction) => {
                let ghost mid = *self;
                self.resources.insert(resource, value_after_transaction);
                assert forall|x: ResourceHandle| x != resource implies #[trigger] self.quantity(x)
                    == old(self).quantity(x) by {
                    assert(mid.quantity(x) == old(self).quantity(x));
                }
                true
            },
            None => false,
        }
    }

    /// Credits `amount` of `resource`; the balance saturates at `u64::MAX`.
    pub fn add_to_stock(&mut self, resource: ResourceHandle, amount: u64)
        ensures
            final(self).set_from(*old(self), resource, capped(old(self).quantity(resource) + amount)),
            final(self).resources@ == old(self).resources@.insert(
                resource,
                capped(old(self).quantity(resource) + amount) as u64,
            ),
    {
        let new_value = self.get_resource_value(resource).saturating_add(amount);
        let ghost mid = *self;
        self.resources.insert(resource, new_value);
        assert(self.resources@ =~= old(self).resources@.insert(resource, new_value));
        assert forall|x: ResourceHandle| x != resource implies #[trigger] self.quantity(x)
            == old(self).quantity(x) by {
            assert(mid.quantity(x) == old(self).quantity(x));
        }
    }
}

} // verus!
