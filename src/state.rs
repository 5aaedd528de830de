//! What a company observes before it chooses an action.
use vstd::prelude::*;

verus! {

#[derive(Clone, Debug, PartialEq, Eq, Hash)]
pub struct CompanyState {
    /// Quantity held of each resource.
    pub stock: Vec<u64>,
    pub currency: u64,
    /// Cheapest offer price of each resource, zero where none.
    pub price_index: Vec<u64>,
    /// Highest bid of each resource, zero where none.
    pub order_index: Vec<u64>,
    /// Processors owned per recipe.
    pub processor_counts: Vec<u64>,
    /// Units produced in the last tick per resource.
    pub production_rates: Vec<u64>,
}

/// `n` zeros.
pub fn zeros(n: usize) -> (v: Vec<u64>)
    ensures
        v@.len() == n,
        forall|i: int| 0 <= i < n ==> #[trigger] v@[i] == 0,
{
    let mut v: Vec<u64> = Vec::new();
    let mut i: usize = 0;
    while i < n
        invariant
            i <= n,
            v@.len() == i,
            forall|k: int| 0 <= k < i ==> #[trigger] v@[k] == 0,
        decreases n - i,
    {
        v.push(0);
        i = i + 1;
    }
    v
}

impl CompanyState {
    /// An all-zero observation for the given counts.
    pub fn new(resource_count: usize, recipe_count: usize) -> (s: CompanyState)
        ensures
            s.stock@ == Seq::new(resource_count as nat, |i: int| 0u64),
            s.currency == 0,
            s.price_index@ == Seq::new(resource_count as nat, |i: int| 0u64),
            s.order_index@ == Seq::new(resource_count as nat, |i: int| 0u64),
            s.processor_counts@ == Seq::new(recipe_count as nat, |i: int| 0u64),
            s.production_rates@ == Seq::new(resource_count as nat, |i: int| 0u64),
    {
        let s = CompanyState {
            stock: zeros(resource_count),
            currency: 0,
            price_index: zeros(resource_count),
            order_index: zeros(resource_count),
            processor_counts: zeros(recipe_count),
            production_rates: zeros(resource_count),
        };
        assert(s.stock@ =~= Seq::new(resource_count as nat, |i: int| 0u64));
        assert(s.price_index@ =~= Seq::new(resource_count as nat, |i: int| 0u64));
        assert(s.order_index@ =~= Seq::new(resource_count as nat, |i: int| 0u64));
        assert(s.processor_counts@ =~= Seq::new(recipe_count as nat, |i: int| 0u64));
        assert(s.production_rates@ =~= Seq::new(resource_count as nat, |i: int| 0u64));
        s
    }
}

} // verus!
