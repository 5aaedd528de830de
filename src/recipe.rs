//! Production recipes and the table that holds them.
use crate::stock::{distinct_resources, ResourceHandle};
use vstd::prelude::*;

verus! {

pub type RecipeHandle = usize;

/// What one run of a processor consumes and yields. Each ingredient names
/// a different resource.
#[derive(Clone, Debug)]
pub struct Recipe {
    pub name: String,
    pub ingredients: Vec<(ResourceHandle, u64)>,
    pub products: Vec<(ResourceHandle, u64)>,
    pub production_speed: u64,
}

impl Recipe {
    pub fn new(name: String, production_speed: u64) -> (r: Self)
        ensures
            r.name == name,
            r.production_speed == production_speed,
            r.ingredients@.len() == 0,
            r.products@.len() == 0,
    {
        Recipe { name, ingredients: Vec::new(), products: Vec::new(), production_speed }
    }

    pub open spec fn well_formed(&self) -> bool {
        distinct_resources(self.ingredients@)
    }
}

pub struct RecipeData {
    pub recipes: Vec<Recipe>,
}

impl RecipeData {
    pub open spec fn well_formed(&self) -> bool {
        forall|i: int| 0 <= i < self.recipes@.len() ==> (#[trigger] self.recipes@[i]).well_formed()
    }

    pub fn new() -> (d: RecipeData)
        ensures
            d.recipes@.len() == 0,
            d.well_formed(),
    {
        RecipeData { recipes: Vec::new() }
    }

    /// Registers `recipe` under the next handle.
    pub fn add_recipe(&mut self, recipe: Recipe) -> (h: RecipeHandle)
        requires
            old(self).recipes@.len() < usize::MAX,
        ensures
            h == old(self).recipes@.len(),
            final(self).recipes@ == old(self).recipes@.push(recipe),
            old(self).well_formed() && recipe.well_formed() ==> final(self).well_formed(),
    {
        self.recipes.push(recipe);
        self.recipes.len() - 1
    }

    pub fn get_recipe_by_handle(&self, recipe_handle: RecipeHandle) -> (r: Option<&Recipe>)
        ensures
            recipe_handle < self.recipes@.len() ==> r == Some(&self.recipes@[recipe_handle as int]),
            recipe_handle >= self.recipes@.len() ==> r is None,
    {
        if recipe_handle < self.recipes.len() {
            Some(&self.recipes[recipe_handle])
        } else {
            None
        }
    }
}

} // verus!
