//! The discrete actions a company can choose from.
use crate::recipe::RecipeHandle;
use crate::stock::ResourceHandle;
use vstd::prelude::*;

verus! {

/// Units traded by one buy or sell action.
pub const TRADE_LOT: usize = 5;

#[derive(Clone, Copy, Debug, PartialEq, Eq, Hash, Structural)]
pub enum CompanyAction {
    Nothing,
    BuyProcessor(RecipeHandle),
    SellProcessor(RecipeHandle),
    BuyResource(ResourceHandle, usize),
    SellResource(ResourceHandle, usize),
}

#[derive(Clone, Debug)]
pub struct ActionSpace {
    pub actions: Vec<CompanyAction>,
}

/// Number of actions for the given counts: doing nothing, buying and
/// selling a processor of each recipe, and buying and selling a lot of
/// each resource but the first.
pub open spec fn action_count(resource_count: nat, recipe_count: nat) -> nat {
    1 + 2 * recipe_count + 2 * (if resource_count > 0 {
        (resource_count - 1) as nat
    } else {
        0
    })
}

/// The action at position `i`.
pub open spec fn action_at(i: int, recipe_count: nat) -> CompanyAction {
    if i == 0 {
        CompanyAction::Nothing
    } else if i <= recipe_count {
        CompanyAction::BuyProcessor((i - 1) as usize)
    } else if i <= 2 * recipe_count {
        CompanyAction::SellProcessor((i - 1 - recipe_count) as usize)
    } else if (i - 1 - 2 * recipe_count) % 2 == 0 {
        CompanyAction::BuyResource((1 + (i - 1 - 2 * recipe_count) / 2) as usize, TRADE_LOT)
    } else {
        CompanyAction::SellResource((1 + (i - 1 - 2 * recipe_count) / 2) as usize, TRADE_LOT)
    }
}

impl ActionSpace {
    pub fn new(resource_count: usize, recipe_count: usize) -> (a: ActionSpace)
        requires
            1 + 2 * recipe_count + 2 * resource_count <= usize::MAX,
        ensures
            a.actions@.len() == action_count(resource_count as nat, recipe_count as nat),
            forall|i: int|
                0 <= i < a.actions@.len() ==> #[trigger] a.actions@[i] == action_at(i, recipe_count as nat),
    {
        let mut actions: Vec<CompanyAction> = Vec::new();
        actions.push(CompanyAction::Nothing);
        let mut i: usize = 0;
        while i < recipe_count
            invariant
                i <= recipe_count,
                actions@.len() == 1 + i,
                forall|k: int| 0 <= k < actions@.len() ==> #[trigger] actions@[k] == action_at(k, recipe_count as nat),
            decreases recipe_count - i,
        {
            actions.push(CompanyAction::BuyProcessor(i));
            i = i + 1;
        }
        let mut i: usize = 0;
        while i < recipe_count
            invariant
                i <= recipe_count,
                actions@.len() == 1 + recipe_count + i,
                forall|k: int| 0 <= k < actions@.len() ==> #[trigger] actions@[k] == action_at(k, recipe_count as nat),
            decreases recipe_count - i,
        {
            actions.push(CompanyAction::SellProcessor(i));
            i = i + 1;
        }
        let mut resource: usize = 1;
        while resource < resource_count
            invariant
                1 <= resource,
                resource_count > 0 ==> resource <= resource_count,
                resource_count == 0 ==> resource == 1,
                1 + 2 * recipe_count + 2 * resource_count <= usize::MAX,
                actions@.len() == 1 + 2 * recipe_count + 2 * (resource - 1),
                forall|k: int| 0 <= k < actions@.len() ==> #[trigger] actions@[k] == action_at(k, recipe_count as nat),
            decreases resource_count - resource,
        {
            let ghost base = actions@.len() as int;
            actions.push(CompanyAction::BuyResource(resource, TRADE_LOT));
            actions.push(CompanyAction::SellResource(resource, TRADE_LOT));
            proof {
                let off = base - 1 - 2 * recipe_count;
                assert(off == 2 * (resource - 1));
                assert(off % 2 == 0 && off / 2 == resource - 1) by (nonlinear_arith)
                    requires
                        off == 2 * (resource - 1),
                ;
                assert((off + 1) % 2 == 1 && (off + 1) / 2 == resource - 1) by (nonlinear_arith)
                    requires
                        off == 2 * (resource - 1),
                ;
            }
            resource = resource + 1;
        }
        proof {
            if resource_count > 0 {
                assert(resource == resource_count);
            } else {
                assert(resource == 1);
            }
        }
        ActionSpace { actions }
    }
}

} // verus!
