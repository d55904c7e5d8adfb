use vstd::prelude::*;

verus! {

/// Mathematical model of a recipe record: each field as a plain value.
pub ghost struct RecipeView {
    pub id: u32,
    pub name: Seq<char>,
    pub ingredients: Seq<Seq<char>>,
    pub instructions: Seq<Seq<char>>,
    pub servings: u32,
}

/// A single recipe record. The `id` is assigned by the store when the record
/// is created and never changes afterwards; the other fields carry whatever
/// text the caller supplied, with no validation.
#[derive(Debug, Clone)]
pub struct Recipe {
    pub id: u32,
    pub name: String,
    pub ingredients: Vec<String>,
    pub instructions: Vec<String>,
    pub servings: u32,
}

impl View for Recipe {
    type V = RecipeView;

    open spec fn view(&self) -> RecipeView {
        RecipeView {
            id: self.id,
            name: self.name@,
            ingredients: self.ingredients.deep_view(),
            instructions: self.instructions.deep_view(),
            servings: self.servings,
        }
    }
}

impl DeepView for Recipe {
    type V = RecipeView;

    open spec fn deep_view(&self) -> RecipeView {
        self.view()
    }
}

impl Recipe {
    pub fn new(
        id: u32,
        name: String,
        ingredients: Vec<String>,
        instructions: Vec<String>,
        servings: u32,
    ) -> (r: Recipe)
        ensures
            r@ == (RecipeView {
                id,
                name: name@,
                ingredients: ingredients.deep_view(),
                instructions: instructions.deep_view(),
                servings,
            }),
    {
        Recipe { id, name, ingredients, instructions, servings }
    }
}

} // verus!
