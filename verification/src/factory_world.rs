//! The resource and recipe registries.
//!
//! Resource names are interned: the first mention of a name mints the next
//! sequential [`ResourceId`], and every later mention returns the same id.
//! Resource ids are never destroyed. Recipes are stored under generated
//! [`RecipeId`]s, with recipe names unique among the recipes currently
//! stored; removing a recipe invalidates its id and frees its name.

use vstd::prelude::*;

use crate::search::{first_match, lemma_first_match_at, lemma_first_match_none,
    lemma_first_match_spec};

verus! {

/// Stable handle for an interned resource name: the position of the name in
/// the order names were first seen.
#[derive(Clone, Copy, Debug, PartialEq, Eq, Hash, Structural)]
pub struct ResourceId(pub usize);

/// Handle for a stored recipe; valid from the insert that minted it until the
/// recipe is removed. Never reused, even after a removal.
#[derive(Clone, Copy, Debug, PartialEq, Eq, Hash, Structural)]
pub struct RecipeId(pub usize);

/// A named recipe: an ordered list of (resource, rate) ratios. A negative
/// rate is consumption, a positive one production; the registry does not
/// validate ratios, and a resource may repeat.
pub struct Recipe {
    pub name: String,
    pub ratios: Vec<(ResourceId, i64)>,
}

/// Error returned when a recipe id does not resolve to a stored recipe.
#[derive(Clone, Copy, Debug, PartialEq, Eq, Structural)]
pub struct InvalidRecipeError;

/// Mathematical image of one stored recipe: its id, name and ratios.
pub type RecipeModel = (RecipeId, Seq<char>, Seq<(ResourceId, i64)>);

impl Recipe {
    /// The ratio list, in insertion order.
    pub fn iter_ratios(&self) -> (r: &Vec<(ResourceId, i64)>)
        ensures
            r@ == self.ratios@,
    {
        &self.ratios
    }
}

/// The predicate "this interned name equals `name`", shared by the
/// interning specification and its proofs.
pub open spec fn name_eq(name: Seq<char>) -> spec_fn(Seq<char>) -> bool {
    |n: Seq<char>| n == name
}

/// The predicate "this stored recipe carries id `id`".
pub open spec fn recipe_id_eq(id: RecipeId) -> spec_fn(RecipeModel) -> bool {
    |e: RecipeModel| e.0 == id
}

/// The predicate "this stored recipe is named `name`".
pub open spec fn recipe_name_eq(name: Seq<char>) -> spec_fn(RecipeModel) -> bool {
    |e: RecipeModel| e.1 == name
}

/// Whether `name` is already interned.
pub open spec fn has_name(names: Seq<Seq<char>>, name: Seq<char>) -> bool {
    first_match(names, name_eq(name)) is Some
}

/// The id that interning `name` into `names` yields: the first index holding
/// `name`, or the next fresh index.
pub open spec fn interned_id(names: Seq<Seq<char>>, name: Seq<char>) -> int {
    match first_match(names, name_eq(name)) {
        Some(i) => i,
        None => names.len() as int,
    }
}

/// The name table after interning `name`: unchanged if present, else extended.
pub open spec fn interned_names(names: Seq<Seq<char>>, name: Seq<char>) -> Seq<Seq<char>> {
    if has_name(names, name) {
        names
    } else {
        names.push(name)
    }
}

/// Index of the recipe stored under `id`, if any.
pub open spec fn find_recipe_index(model: Seq<RecipeModel>, id: RecipeId) -> Option<int> {
    first_match(model, recipe_id_eq(id))
}

/// Whether a stored recipe already carries `name`.
pub open spec fn recipe_name_taken(model: Seq<RecipeModel>, name: Seq<char>) -> bool {
    first_match(model, recipe_name_eq(name)) is Some
}

/// Distinctness of interned names: each name is interned at most once.
pub open spec fn names_wf(names: Seq<Seq<char>>) -> bool {
    forall|i: int, j: int| 0 <= i < j < names.len() ==> names[i] != names[j]
}

/// Well-formedness of the recipe store: ids and names of stored recipes are
/// unique, and every stored id is below the minting counter.
pub open spec fn recipes_wf(model: Seq<RecipeModel>, next: int) -> bool {
    &&& (forall|i: int, j: int| 0 <= i < j < model.len() ==> model[i].0 != model[j].0)
    &&& (forall|i: int, j: int| 0 <= i < j < model.len() ==> model[i].1 != model[j].1)
    &&& (forall|i: int| 0 <= i < model.len() ==> model[i].0.0 < next)
}

/// Removing a stored recipe preserves the recipe-store invariant.
pub proof fn lemma_recipes_wf_remove(model: Seq<RecipeModel>, next: int, i: int)
    requires
        recipes_wf(model, next),
        0 <= i < model.len(),
    ensures
        recipes_wf(model.remove(i), next),
{
    model.remove_ensures(i);
    let m1 = model.remove(i);
    assert forall|k: int, l: int| 0 <= k < l < m1.len() implies m1[k].0 != m1[l].0
        && m1[k].1 != m1[l].1 by {
        let k0: int = if k < i { k } else { k + 1 };
        let l0: int = if l < i { l } else { l + 1 };
        assert(m1[k] == model[k0]);
        assert(m1[l] == model[l0]);
    }
    assert forall|k: int| 0 <= k < m1.len() implies m1[k].0.0 < next by {
        let k0: int = if k < i { k } else { k + 1 };
        assert(m1[k] == model[k0]);
    }
}

/// The registries: interned resource names (the id is the index), and the
/// stored recipes with the counter that mints their ids.
pub struct FactoryWorld {
    pub resource_names: Vec<String>,
    pub next_recipe_id: usize,
    pub recipes: Vec<(RecipeId, Recipe)>,
}

impl FactoryWorld {
    /// Interned resource names, in id order.
    pub open spec fn names(self) -> Seq<Seq<char>> {
        self.resource_names@.map_values(|s: String| s@)
    }

    /// Stored recipes as (id, name, ratios), in insertion order.
    pub open spec fn recipes_model(self) -> Seq<RecipeModel> {
        self.recipes@.map_values(|e: (RecipeId, Recipe)| (e.0, e.1.name@, e.1.ratios@))
    }

    /// Registry invariant: resource names are interned once, stored recipe
    /// ids and names are unique, and every stored id is below the counter.
    pub open spec fn wf(self) -> bool {
        &&& names_wf(self.names())
        &&& recipes_wf(self.recipes_model(), self.next_recipe_id as int)
    }

    /// An empty world: no names interned, no recipes stored.
    pub fn new() -> (w: FactoryWorld)
        ensures
            w.wf(),
            w.names() == Seq::<Seq<char>>::empty(),
            w.recipes_model() == Seq::<RecipeModel>::empty(),
            w.next_recipe_id == 0,
    {
        let w = FactoryWorld { resource_names: Vec::new(), next_recipe_id: 0, recipes: Vec::new() };
        proof {
            assert(w.names() =~= Seq::<Seq<char>>::empty());
            assert(w.recipes_model() =~= Seq::<RecipeModel>::empty());
        }
        w
    }

    /// Position of `name` in the interned-name table, if present.
    fn find_resource(&self, name: &String) -> (r: Option<usize>)
        ensures
            match r {
                Some(j) => first_match(self.names(), name_eq(name@)) == Some(j as int),
                None => first_match(self.names(), name_eq(name@)) is None,
            },
    {
        let n: usize = self.resource_names.len();
        let mut j: usize = 0;
        while j < n
            invariant
                n == self.resource_names@.len(),
                j <= n,
                forall|k: int| 0 <= k < j ==> self.names()[k] != name@,
            decreases n - j,
        {
            if self.resource_names[j] == *name {
                proof {
                    assert(name_eq(name@)(self.names()[j as int]));
                    lemma_first_match_at(self.names(), name_eq(name@), j as int);
                }
                return Some(j);
            }
            j += 1;
        }
        proof {
            assert(forall|k: int| 0 <= k < self.names().len()
                ==> !(name_eq(name@)(self.names()[k])));
            lemma_first_match_none(self.names(), name_eq(name@));
        }
        None
    }

    /// Position of the stored recipe named `name`, if any.
    fn find_recipe_by_name(&self, name: &String) -> (r: Option<usize>)
        ensures
            match r {
                Some(j) => first_match(self.recipes_model(), recipe_name_eq(name@))
                    == Some(j as int),
                None => first_match(self.recipes_model(), recipe_name_eq(name@)) is None,
            },
    {
        let n: usize = self.recipes.len();
        let mut j: usize = 0;
        while j < n
            invariant
                n == self.recipes@.len(),
                j <= n,
                forall|k: int| 0 <= k < j ==> self.recipes_model()[k].1 != name@,
            decreases n - j,
        {
            if self.recipes[j].1.name == *name {
                proof {
                    assert(recipe_name_eq(name@)(self.recipes_model()[j as int]));
                    lemma_first_match_at(self.recipes_model(), recipe_name_eq(name@), j as int);
                }
                return Some(j);
            }
            j += 1;
        }
        proof {
            assert(forall|k: int| 0 <= k < self.recipes_model().len()
                ==> !(recipe_name_eq(name@)(self.recipes_model()[k])));
            lemma_first_match_none(self.recipes_model(), recipe_name_eq(name@));
        }
        None
    }

    /// Position of the recipe stored under `id`, if any.
    fn find_recipe_by_id(&self, id: RecipeId) -> (r: Option<usize>)
        ensures
            match r {
                Some(j) => find_recipe_index(self.recipes_model(), id) == Some(j as int),
                None => find_recipe_index(self.recipes_model(), id) is None,
            },
    {
        let n: usize = self.recipes.len();
        let mut j: usize = 0;
        while j < n
            invariant
                n == self.recipes@.len(),
                j <= n,
                forall|k: int| 0 <= k < j ==> self.recipes_model()[k].0 != id,
            decreases n - j,
        {
            if self.recipes[j].0 == id {
                proof {
                    assert(recipe_id_eq(id)(self.recipes_model()[j as int]));
                    lemma_first_match_at(self.recipes_model(), recipe_id_eq(id), j as int);
                }
                return Some(j);
            }
            j += 1;
        }
        proof {
            assert(forall|k: int| 0 <= k < self.recipes_model().len()
                ==> !(recipe_id_eq(id)(self.recipes_model()[k])));
            lemma_first_match_none(self.recipes_model(), recipe_id_eq(id));
        }
        None
    }

    /// Interning: the existing id of `resource_name` if it was seen before,
    /// else a freshly minted sequential id. Never fails; recipes untouched.
    pub fn get_resource_id(&mut self, resource_name: &str) -> (id: ResourceId)
        requires
            old(self).wf(),
        ensures
            final(self).wf(),
            final(self).names() == interned_names(old(self).names(), resource_name@),
            id.0 as int == interned_id(old(self).names(), resource_name@),
            id.0 < final(self).names().len(),
            final(self).names()[id.0 as int] == resource_name@,
            final(self).recipes_model() == old(self).recipes_model(),
            final(self).next_recipe_id == old(self).next_recipe_id,
    {
        let name: String = resource_name.to_owned();
        match self.find_resource(&name) {
            Some(j) => {
                proof {
                    lemma_first_match_spec(old(self).names(), name_eq(resource_name@));
                }
                ResourceId(j)
            },
            None => {
                let fresh: usize = self.resource_names.len();
                self.resource_names.push(name);
                proof {
                    assert(self.names() =~= old(self).names().push(resource_name@));
                    lemma_first_match_spec(old(self).names(), name_eq(resource_name@));
                    assert forall|i: int, k: int| 0 <= i < k < self.names().len()
                        implies self.names()[i] != self.names()[k] by {
                        if k == old(self).names().len() {
                            assert(!(name_eq(resource_name@)(old(self).names()[i])));
                        }
                    }
                    assert(names_wf(self.names()));
                }
                ResourceId(fresh)
            },
        }
    }

    /// Reverse lookup of an interned name; fails exactly on ids this world
    /// never minted.
    pub fn get_resource_name(&self, resource_id: ResourceId) -> (name: Option<&str>)
        ensures
            match name {
                Some(s) => resource_id.0 < self.names().len()
                    && s@ == self.names()[resource_id.0 as int],
                None => resource_id.0 >= self.names().len(),
            },
    {
        if resource_id.0 < self.resource_names.len() {
            Some(self.resource_names[resource_id.0].as_str())
        } else {
            None
        }
    }

    /// The id of the stored recipe named `recipe_name`, if one is stored.
    pub fn get_recipe_id(&self, recipe_name: &str) -> (id: Option<RecipeId>)
        ensures
            match first_match(self.recipes_model(), recipe_name_eq(recipe_name@)) {
                Some(i) => id == Some(self.recipes_model()[i].0),
                None => id is None,
            },
    {
        let name: String = recipe_name.to_owned();
        match self.find_recipe_by_name(&name) {
            Some(j) => {
                proof {
                    lemma_first_match_spec(self.recipes_model(), recipe_name_eq(recipe_name@));
                }
                Some(self.recipes[j].0)
            },
            None => None,
        }
    }

    /// Stores `recipe` under a freshly minted id, or fails (returning `None`
    /// and changing nothing) exactly when a stored recipe already carries the
    /// same name. Name uniqueness is the only validation.
    pub fn insert_recipe(&mut self, recipe: Recipe) -> (id: Option<RecipeId>)
        requires
            old(self).wf(),
            old(self).next_recipe_id < usize::MAX,
        ensures
            final(self).wf(),
            final(self).names() == old(self).names(),
            match id {
                Some(i) => !recipe_name_taken(old(self).recipes_model(), recipe.name@)
                    && i == RecipeId(old(self).next_recipe_id)
                    && final(self).recipes_model()
                        == old(self).recipes_model().push((i, recipe.name@, recipe.ratios@))
                    && final(self).next_recipe_id == old(self).next_recipe_id + 1,
                None => recipe_name_taken(old(self).recipes_model(), recipe.name@)
                    && final(self).recipes_model() == old(self).recipes_model()
                    && final(self).next_recipe_id == old(self).next_recipe_id,
            },
    {
        match self.find_recipe_by_name(&recipe.name) {
            Some(_) => None,
            None => {
                let id = RecipeId(self.next_recipe_id);
                self.next_recipe_id = self.next_recipe_id + 1;
                let ghost name_view = recipe.name@;
                let ghost ratios_view = recipe.ratios@;
                self.recipes.push((id, recipe));
                proof {
                    assert(self.recipes_model()
                        =~= old(self).recipes_model().push((id, name_view, ratios_view)));
                    let m0 = old(self).recipes_model();
                    let m1 = self.recipes_model();
                    lemma_first_match_spec(m0, recipe_name_eq(name_view));
                    assert forall|i: int, k: int| 0 <= i < k < m1.len()
                        implies m1[i].0 != m1[k].0 by {
                        if k == m0.len() {
                            assert(m1[i].0.0 < old(self).next_recipe_id);
                        }
                    }
                    assert forall|i: int, k: int| 0 <= i < k < m1.len()
                        implies m1[i].1 != m1[k].1 by {
                        if k == m0.len() {
                            assert(!(recipe_name_eq(name_view)(m0[i])));
                        }
                    }
                    assert forall|i: int| 0 <= i < m1.len()
                        implies m1[i].0.0 < self.next_recipe_id by {
                        if i < m0.len() {
                            assert(m0[i].0.0 < old(self).next_recipe_id);
                        }
                    }
                    assert(recipes_wf(m1, self.next_recipe_id as int));
                }
                Some(id)
            },
        }
    }

    /// Read-only lookup; fails exactly when `recipe_id` resolves to no stored
    /// recipe.
    pub fn get_recipe(&self, recipe_id: RecipeId) -> (r: Result<&Recipe, InvalidRecipeError>)
        ensures
            match (r, find_recipe_index(self.recipes_model(), recipe_id)) {
                (Ok(recipe), Some(i)) => recipe.name@ == self.recipes_model()[i].1
                    && recipe.ratios@ == self.recipes_model()[i].2,
                (Err(_), None) => true,
                _ => false,
            },
    {
        match self.find_recipe_by_id(recipe_id) {
            Some(j) => {
                proof {
                    lemma_first_match_spec(self.recipes_model(), recipe_id_eq(recipe_id));
                }
                Ok(&self.recipes[j].1)
            },
            None => Err(InvalidRecipeError),
        }
    }

    /// Deletes the recipe stored under `recipe_id`, returning it and freeing
    /// its name for a future insert; fails exactly on unknown ids.
    pub fn remove_recipe(&mut self, recipe_id: RecipeId) -> (r: Option<Recipe>)
        requires
            old(self).wf(),
        ensures
            final(self).wf(),
            final(self).names() == old(self).names(),
            final(self).next_recipe_id == old(self).next_recipe_id,
            match (r, find_recipe_index(old(self).recipes_model(), recipe_id)) {
                (Some(recipe), Some(i)) => recipe.name@ == old(self).recipes_model()[i].1
                    && recipe.ratios@ == old(self).recipes_model()[i].2
                    && final(self).recipes_model() == old(self).recipes_model().remove(i),
                (None, None) => final(self).recipes_model() == old(self).recipes_model(),
                _ => false,
            },
    {
        match self.find_recipe_by_id(recipe_id) {
            Some(j) => {
                proof {
                    lemma_first_match_spec(old(self).recipes_model(), recipe_id_eq(recipe_id));
                }
                let entry = self.recipes.remove(j);
                proof {
                    assert(self.recipes_model() =~= old(self).recipes_model().remove(j as int));
                    lemma_recipes_wf_remove(
                        old(self).recipes_model(),
                        old(self).next_recipe_id as int,
                        j as int,
                    );
                }
                Some(entry.1)
            },
            None => None,
        }
    }
}

impl Default for FactoryWorld {
    /// Same as [`FactoryWorld::new`]: an empty world.
    fn default() -> (w: FactoryWorld)
        ensures
            w.wf(),
            w.names() == Seq::<Seq<char>>::empty(),
            w.recipes_model() == Seq::<RecipeModel>::empty(),
            w.next_recipe_id == 0,
    {
        FactoryWorld::new()
    }
}

/// Interning resolves its own id: the id returned for `name` points at
/// `name` in the resulting table.
pub proof fn lemma_interned_resolves(names: Seq<Seq<char>>, name: Seq<char>)
    ensures
        0 <= interned_id(names, name) < interned_names(names, name).len(),
        interned_names(names, name)[interned_id(names, name)] == name,
{
    lemma_first_match_spec(names, name_eq(name));
}

/// Interning stability: interning never rewrites the table, so every id
/// ever returned keeps resolving to its name.
pub proof fn lemma_interning_stable(names: Seq<Seq<char>>, name: Seq<char>, i: int)
    requires
        0 <= i < names.len(),
    ensures
        names.len() <= interned_names(names, name).len(),
        interned_names(names, name)[i] == names[i],
{
}

/// Interning idempotence: interning the same name a second time returns the
/// same id and leaves the name table unchanged.
pub proof fn lemma_interning_idempotent(names: Seq<Seq<char>>, name: Seq<char>)
    ensures
        interned_id(interned_names(names, name), name) == interned_id(names, name),
        interned_names(interned_names(names, name), name) == interned_names(names, name),
{
    let p = name_eq(name);
    lemma_first_match_spec(names, p);
    if !has_name(names, name) {
        let names1 = names.push(name);
        assert(p(names1[names.len() as int]));
        assert(forall|j: int| 0 <= j < names.len() ==> !p(names1[j]));
        lemma_first_match_at(names1, p, names.len() as int);
    }
}

/// Interning distinctness: interning two different names (here one after the
/// other) yields different ids.
pub proof fn lemma_interning_injective(names: Seq<Seq<char>>, name1: Seq<char>, name2: Seq<char>)
    requires
        name1 != name2,
    ensures
        interned_id(interned_names(names, name1), name2) != interned_id(names, name1),
{
    let names1 = interned_names(names, name1);
    let id1 = interned_id(names, name1);
    lemma_first_match_spec(names, name_eq(name1));
    lemma_interning_idempotent(names, name1);
    lemma_interned_resolves(names, name1);
    assert(names1[id1] == name1);
    lemma_first_match_spec(names1, name_eq(name2));
    match first_match(names1, name_eq(name2)) {
        Some(i2) => {
            assert(names1[i2] == name2);
        },
        None => {
            assert(id1 < names1.len());
        },
    }
}

} // verus!
