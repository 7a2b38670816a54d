//! Net production: summing the resource ratios of an active selection of
//! recipes, each scaled by its multiplier, into one per-resource total.

use vstd::prelude::*;

use crate::factory_world::{FactoryWorld, InvalidRecipeError, RecipeId, RecipeModel, ResourceId,
    find_recipe_index};

verus! {

/// An association list with pairwise distinct resource keys.
pub open spec fn assoc_unique(s: Seq<(ResourceId, i64)>) -> bool {
    forall|i: int, j: int| 0 <= i < j < s.len() ==> s[i].0 != s[j].0
}

/// The finite map an association list denotes (later entries would win, but
/// the lists built here have unique keys).
pub open spec fn assoc_map(s: Seq<(ResourceId, i64)>) -> Map<ResourceId, int>
    decreases s.len(),
{
    if s.len() == 0 {
        Map::empty()
    } else {
        assoc_map(s.drop_last()).insert(s.last().0, s.last().1 as int)
    }
}

/// The running total for `r`: zero until first touched.
pub open spec fn net_amount(m: Map<ResourceId, int>, r: ResourceId) -> int {
    if m.dom().contains(r) {
        m[r]
    } else {
        0
    }
}

/// One accumulation step: add `amount` to the total for `r`.
pub open spec fn bump(m: Map<ResourceId, int>, r: ResourceId, amount: int) -> Map<ResourceId, int> {
    m.insert(r, net_amount(m, r) + amount)
}

/// Accumulate one recipe's ratios, scaled by `mult`, into `m`.
pub open spec fn add_ratios(m: Map<ResourceId, int>, mult: int, ratios: Seq<(ResourceId, i64)>)
    -> Map<ResourceId, int>
    decreases ratios.len(),
{
    if ratios.len() == 0 {
        m
    } else {
        add_ratios(bump(m, ratios[0].0, mult * ratios[0].1), mult, ratios.drop_first())
    }
}

/// Every intermediate total of [`add_ratios`] stays within `i64`.
pub open spec fn add_ratios_fits(m: Map<ResourceId, int>, mult: int, ratios: Seq<(ResourceId, i64)>)
    -> bool
    decreases ratios.len(),
{
    if ratios.len() == 0 {
        true
    } else {
        let v = net_amount(m, ratios[0].0) + mult * ratios[0].1;
        &&& i64::MIN <= v <= i64::MAX
        &&& add_ratios_fits(bump(m, ratios[0].0, mult * ratios[0].1), mult, ratios.drop_first())
    }
}

/// The net production of `selection` over the stored recipes, accumulated
/// into `m` in selection order: for each (recipe, multiplier) pair, every
/// ratio contributes `multiplier * rate` to its resource's total. Entries
/// whose id does not resolve contribute nothing here; the calculator fails
/// on them instead.
pub open spec fn net_production(model: Seq<RecipeModel>, m: Map<ResourceId, int>,
    selection: Seq<(RecipeId, i64)>) -> Map<ResourceId, int>
    decreases selection.len(),
{
    if selection.len() == 0 {
        m
    } else {
        match find_recipe_index(model, selection[0].0) {
            Some(i) => net_production(
                model,
                add_ratios(m, selection[0].1 as int, model[i].2),
                selection.drop_first(),
            ),
            None => m,
        }
    }
}

/// Every intermediate total of [`net_production`] stays within `i64`, up to
/// the first unresolvable id if there is one.
pub open spec fn net_production_fits(model: Seq<RecipeModel>, m: Map<ResourceId, int>,
    selection: Seq<(RecipeId, i64)>) -> bool
    decreases selection.len(),
{
    if selection.len() == 0 {
        true
    } else {
        match find_recipe_index(model, selection[0].0) {
            Some(i) => add_ratios_fits(m, selection[0].1 as int, model[i].2)
                && net_production_fits(
                model,
                add_ratios(m, selection[0].1 as int, model[i].2),
                selection.drop_first(),
            ),
            None => true,
        }
    }
}

/// Every recipe id of the selection resolves to a stored recipe.
pub open spec fn selection_valid(model: Seq<RecipeModel>, selection: Seq<(RecipeId, i64)>) -> bool {
    forall|k: int|
        0 <= k < selection.len() ==> find_recipe_index(model, selection[k].0) is Some
}

/// Association-list lookup agrees with the denoted map when keys are unique.
proof fn lemma_assoc_lookup(s: Seq<(ResourceId, i64)>, r: ResourceId)
    requires
        assoc_unique(s),
    ensures
        assoc_map(s).dom().contains(r) <==> (exists|k: int| 0 <= k < s.len() && s[k].0 == r),
        forall|k: int|
            0 <= k < s.len() && s[k].0 == r ==> assoc_map(s)[r] == s[k].1 as int,
    decreases s.len(),
{
    if s.len() > 0 {
        assert(assoc_unique(s.drop_last()));
        lemma_assoc_lookup(s.drop_last(), r);
        let last = s.last();
        if last.0 == r {
            assert(s[s.len() - 1].0 == r);
        } else {
            if assoc_map(s).dom().contains(r) {
                let k = choose|k: int| 0 <= k < s.drop_last().len() && s.drop_last()[k].0 == r;
                assert(s[k].0 == r);
            }
            if exists|k: int| 0 <= k < s.len() && s[k].0 == r {
                let k = choose|k: int| 0 <= k < s.len() && s[k].0 == r;
                assert(s.drop_last()[k].0 == r);
            }
        }
    }
}

/// Updating the entry that holds key `r` updates the denoted map at `r`.
proof fn lemma_assoc_update(s: Seq<(ResourceId, i64)>, j: int, v: i64)
    requires
        assoc_unique(s),
        0 <= j < s.len(),
    ensures
        assoc_unique(s.update(j, (s[j].0, v))),
        assoc_map(s.update(j, (s[j].0, v))) == assoc_map(s).insert(s[j].0, v as int),
    decreases s.len(),
{
    let r = s[j].0;
    let s2 = s.update(j, (r, v));
    assert(assoc_unique(s2));
    if j == s.len() - 1 {
        assert(s2.drop_last() =~= s.drop_last());
        assert(assoc_map(s2) == assoc_map(s.drop_last()).insert(r, v as int));
        assert(assoc_map(s.drop_last()).insert(r, s[j].1 as int).insert(r, v as int)
            =~= assoc_map(s.drop_last()).insert(r, v as int));
    } else {
        assert(assoc_unique(s.drop_last()));
        lemma_assoc_update(s.drop_last(), j, v);
        assert(s2.drop_last() =~= s.drop_last().update(j, (r, v)));
        let last = s.last();
        assert(s2.last() == last);
        assert(assoc_map(s2)
            == assoc_map(s.drop_last()).insert(r, v as int).insert(last.0, last.1 as int));
        assert(last.0 != r);
        assert(assoc_map(s.drop_last()).insert(r, v as int).insert(last.0, last.1 as int)
            =~= assoc_map(s.drop_last()).insert(last.0, last.1 as int).insert(r, v as int));
    }
}

/// Appending a fresh key extends the denoted map.
proof fn lemma_assoc_push(s: Seq<(ResourceId, i64)>, r: ResourceId, v: i64)
    requires
        assoc_unique(s),
        forall|k: int| 0 <= k < s.len() ==> s[k].0 != r,
    ensures
        assoc_unique(s.push((r, v))),
        assoc_map(s.push((r, v))) == assoc_map(s).insert(r, v as int),
{
    let s2 = s.push((r, v));
    assert forall|i: int, k: int| 0 <= i < k < s2.len() implies s2[i].0 != s2[k].0 by {
        if k < s.len() {
            assert(s2[i] == s[i] && s2[k] == s[k]);
        } else {
            assert(s2[i] == s[i]);
        }
    }
    assert(s2.drop_last() =~= s);
    assert(s2.last() == (r, v));
}

/// Position of `resource` in the accumulator, if already touched.
fn find_key(np: &Vec<(ResourceId, i64)>, resource: ResourceId) -> (r: Option<usize>)
    ensures
        match r {
            Some(j) => j < np@.len() && np@[j as int].0 == resource,
            None => forall|k: int| 0 <= k < np@.len() ==> np@[k].0 != resource,
        },
{
    let n: usize = np.len();
    let mut j: usize = 0;
    while j < n
        invariant
            n == np@.len(),
            j <= n,
            forall|k: int| 0 <= k < j ==> np@[k].0 != resource,
        decreases n - j,
    {
        if np[j].0 == resource {
            return Some(j);
        }
        j += 1;
    }
    None
}

/// Add `amount` to the running total for `resource`, creating the entry at
/// zero if this is the first touch.
fn accumulate(np: &mut Vec<(ResourceId, i64)>, resource: ResourceId, amount: i128)
    requires
        assoc_unique(old(np)@),
        i64::MIN <= net_amount(assoc_map(old(np)@), resource) + amount <= i64::MAX,
    ensures
        assoc_unique(final(np)@),
        assoc_map(final(np)@) == bump(assoc_map(old(np)@), resource, amount as int),
{
    proof {
        lemma_assoc_lookup(old(np)@, resource);
    }
    match find_key(np, resource) {
        Some(j) => {
            let cur: i64 = np[j].1;
            proof {
                assert(assoc_map(np@)[resource] == cur as int);
            }
            let widened: i128 = cur as i128 + amount;
            let updated: i64 = widened as i64;
            np[j] = (resource, updated);
            proof {
                lemma_assoc_update(old(np)@, j as int, updated);
            }
        },
        None => {
            proof {
                assert(!assoc_map(np@).dom().contains(resource));
            }
            let widened: i128 = amount;
            let updated: i64 = widened as i64;
            np.push((resource, updated));
            proof {
                lemma_assoc_push(old(np)@, resource, updated);
            }
        },
    }
}

/// An active selection: how many instances of each selected recipe run.
pub struct Factory {
    pub recipes: Vec<(RecipeId, i64)>,
}

impl Factory {
    /// Sums `multiplier * rate` over every ratio of every selected recipe
    /// into a per-resource net total (consumption negative, production
    /// positive, zero possible through cancellation). Fails, with no partial
    /// result, exactly when some selected id resolves to no stored recipe.
    pub fn calculate_net_production(&self, world: &FactoryWorld)
        -> (result: Result<Vec<(ResourceId, i64)>, InvalidRecipeError>)
        requires
            net_production_fits(
                world.recipes_model(),
                Map::<ResourceId, int>::empty(),
                self.recipes@,
            ),
        ensures
            match result {
                Ok(np) => selection_valid(world.recipes_model(), self.recipes@)
                    && assoc_unique(np@)
                    && assoc_map(np@) == net_production(
                    world.recipes_model(),
                    Map::<ResourceId, int>::empty(),
                    self.recipes@,
                ),
                Err(_) => !selection_valid(world.recipes_model(), self.recipes@),
            },
    {
        let ghost model = world.recipes_model();
        let ghost sel = self.recipes@;
        let mut np: Vec<(ResourceId, i64)> = Vec::new();
        proof {
            assert(np@.len() == 0);
            assert(sel.skip(0) =~= sel);
        }
        let n: usize = self.recipes.len();
        let mut k: usize = 0;
        while k < n
            invariant
                n == sel.len(),
                sel == self.recipes@,
                model == world.recipes_model(),
                k <= n,
                assoc_unique(np@),
                forall|t: int| 0 <= t < k ==> find_recipe_index(model, sel[t].0) is Some,
                net_production(model, Map::<ResourceId, int>::empty(), sel)
                    == net_production(model, assoc_map(np@), sel.skip(k as int)),
                net_production_fits(model, assoc_map(np@), sel.skip(k as int)),
            decreases n - k,
        {
            let recipe_id: RecipeId = self.recipes[k].0;
            let mult: i64 = self.recipes[k].1;
            proof {
                assert(sel.skip(k as int)[0] == sel[k as int]);
                assert(sel.skip(k as int).drop_first() =~= sel.skip(k as int + 1));
            }
            let recipe = match world.get_recipe(recipe_id) {
                Ok(recipe) => recipe,
                Err(_) => {
                    proof {
                        assert(find_recipe_index(model, sel[k as int].0) is None);
                    }
                    return Err(InvalidRecipeError);
                },
            };
            let ghost m_entry = assoc_map(np@);
            let ghost ratios = recipe.ratios@;
            proof {
                assert(ratios.skip(0) =~= ratios);
                assert(net_production(model, m_entry, sel.skip(k as int))
                    == net_production(
                    model,
                    add_ratios(m_entry, mult as int, ratios),
                    sel.skip(k as int + 1),
                ));
            }
            let rn: usize = recipe.ratios.len();
            let mut t: usize = 0;
            while t < rn
                invariant
                    rn == ratios.len(),
                    ratios == recipe.ratios@,
                    t <= rn,
                    assoc_unique(np@),
                    add_ratios(m_entry, mult as int, ratios)
                        == add_ratios(assoc_map(np@), mult as int, ratios.skip(t as int)),
                    add_ratios_fits(assoc_map(np@), mult as int, ratios.skip(t as int)),
                decreases rn - t,
            {
                let resource: ResourceId = recipe.ratios[t].0;
                let rate: i64 = recipe.ratios[t].1;
                proof {
                    assert(ratios.skip(t as int)[0] == ratios[t as int]);
                    assert(ratios.skip(t as int).drop_first() =~= ratios.skip(t as int + 1));
                }
                proof {
                    assert(i128::MIN <= mult as int * rate as int <= i128::MAX)
                        by (nonlinear_arith)
                        requires
                            -0x8000_0000_0000_0000 <= mult <= 0x7fff_ffff_ffff_ffff,
                            -0x8000_0000_0000_0000 <= rate <= 0x7fff_ffff_ffff_ffff,
                    ;
                }
                let amount: i128 = mult as i128 * rate as i128;
                accumulate(&mut np, resource, amount);
                t += 1;
            }
            proof {
                assert(ratios.skip(rn as int) =~= Seq::<(ResourceId, i64)>::empty());
            }
            k += 1;
        }
        proof {
            assert(sel.skip(n as int) =~= Seq::<(RecipeId, i64)>::empty());
        }
        Ok(np)
    }
}

} // verus!
