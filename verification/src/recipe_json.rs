//! Loading a parsed recipe file into the registries.
//!
//! A recipe file holds a list of entries, each a recipe name with (resource
//! name, rate) pairs. Loading walks the list in order: every resource name
//! is interned, and each entry independently either stores its recipe (a
//! fresh [`RecipeId`]) or fails on a name collision, reported per entry
//! while its siblings still load. Decoding the file's text into
//! [`RecipeListJson`] is the surrounding application's concern; a decode
//! failure aborts the whole load there, before anything here runs.

use vstd::prelude::*;

use crate::factory_world::{FactoryWorld, Recipe, RecipeId, RecipeModel, ResourceId, interned_id,
    interned_names, recipe_name_taken};

verus! {

/// One parsed recipe entry: a name and its (resource name, rate) pairs.
pub struct RecipeJson {
    pub name: String,
    pub rates: Vec<(String, i64)>,
}

/// A whole parsed recipe file.
pub struct RecipeListJson {
    pub recipes: Vec<RecipeJson>,
}

/// Mathematical image of one entry: its name and its rate pairs.
pub type EntryModel = (Seq<char>, Seq<(Seq<char>, i64)>);

/// Mathematical image of the registries: interned names, stored recipes,
/// and the id-minting counter.
pub type WorldModel = (Seq<Seq<char>>, Seq<RecipeModel>, int);

/// The image of one parsed entry.
pub open spec fn entry_model(e: RecipeJson) -> EntryModel {
    (e.name@, e.rates@.map_values(|p: (String, i64)| (p.0@, p.1)))
}

/// The image of a parsed file.
pub open spec fn list_model(l: RecipeListJson) -> Seq<EntryModel> {
    l.recipes@.map_values(|e: RecipeJson| entry_model(e))
}

/// The image of the registries of `w`.
pub open spec fn world_model(w: FactoryWorld) -> WorldModel {
    (w.names(), w.recipes_model(), w.next_recipe_id as int)
}

/// Interning a rate list left to right: the extended name table, and the
/// ratio list with each resource name replaced by its id.
pub open spec fn interned_rates(names: Seq<Seq<char>>, rates: Seq<(Seq<char>, i64)>)
    -> (Seq<Seq<char>>, Seq<(ResourceId, i64)>)
    decreases rates.len(),
{
    if rates.len() == 0 {
        (names, Seq::<(ResourceId, i64)>::empty())
    } else {
        let id = interned_id(names, rates[0].0);
        let names1 = interned_names(names, rates[0].0);
        let rest = interned_rates(names1, rates.drop_first());
        (rest.0, seq![(ResourceId(id as usize), rates[0].1)] + rest.1)
    }
}

/// Loading entries in order into the registries: the final registry image
/// and the per-entry results, `Ok(id)` for a stored recipe and `Err(name)`
/// for a name collision. An entry's resource names are interned even when
/// the entry itself collides.
pub open spec fn loaded(m: WorldModel, entries: Seq<EntryModel>)
    -> (WorldModel, Seq<Result<RecipeId, Seq<char>>>)
    decreases entries.len(),
{
    if entries.len() == 0 {
        (m, Seq::<Result<RecipeId, Seq<char>>>::empty())
    } else {
        let entry = entries[0];
        let ir = interned_rates(m.0, entry.1);
        if recipe_name_taken(m.1, entry.0) {
            let rest = loaded((ir.0, m.1, m.2), entries.drop_first());
            (rest.0, seq![Result::<RecipeId, Seq<char>>::Err(entry.0)] + rest.1)
        } else {
            let id = RecipeId(m.2 as usize);
            let rest = loaded(
                (ir.0, m.1.push((id, entry.0, ir.1)), m.2 + 1),
                entries.drop_first(),
            );
            (rest.0, seq![Result::<RecipeId, Seq<char>>::Ok(id)] + rest.1)
        }
    }
}

/// The image of the returned result list.
pub open spec fn results_model(rs: Seq<Result<RecipeId, String>>)
    -> Seq<Result<RecipeId, Seq<char>>> {
    rs.map_values(|r: Result<RecipeId, String>| match r {
        Ok(id) => Result::<RecipeId, Seq<char>>::Ok(id),
        Err(s) => Result::<RecipeId, Seq<char>>::Err(s@),
    })
}

/// Loads every entry of `list` into `world`, in order, returning one result
/// per entry: the minted id, or the entry's name on a collision.
pub fn load_recipes(world: &mut FactoryWorld, list: &RecipeListJson)
    -> (results: Vec<Result<RecipeId, String>>)
    requires
        old(world).wf(),
        old(world).next_recipe_id + list.recipes@.len() <= usize::MAX,
    ensures
        final(world).wf(),
        world_model(*final(world)) == loaded(world_model(*old(world)), list_model(*list)).0,
        results_model(results@) == loaded(world_model(*old(world)), list_model(*list)).1,
{
    let ghost m0 = world_model(*old(world));
    let ghost entries = list_model(*list);
    let mut results: Vec<Result<RecipeId, String>> = Vec::new();
    proof {
        assert(entries.skip(0) =~= entries);
        assert(results_model(results@) =~= Seq::<Result<RecipeId, Seq<char>>>::empty());
    }
    let n: usize = list.recipes.len();
    let mut k: usize = 0;
    while k < n
        invariant
            world.wf(),
            n == list.recipes@.len(),
            entries == list_model(*list),
            n == entries.len(),
            k <= n,
            world.next_recipe_id + (n - k) <= usize::MAX,
            loaded(m0, entries).0 == loaded(world_model(*world), entries.skip(k as int)).0,
            loaded(m0, entries).1 == results_model(results@)
                + loaded(world_model(*world), entries.skip(k as int)).1,
        decreases n - k,
    {
        let ghost w_entry = *world;
        let entry = &list.recipes[k];
        let ghost rates_m = entry_model(*entry).1;
        proof {
            assert(entries[k as int] == entry_model(list.recipes@[k as int]));
            assert(entries.skip(k as int)[0] == entries[k as int]);
            assert(entries.skip(k as int).drop_first() =~= entries.skip(k as int + 1));
            assert(rates_m.skip(0) =~= rates_m);
        }
        let mut ratios: Vec<(ResourceId, i64)> = Vec::new();
        let rt: usize = entry.rates.len();
        let mut t: usize = 0;
        while t < rt
            invariant
                world.wf(),
                rt == entry.rates@.len(),
                rates_m == entry_model(*entry).1,
                rt == rates_m.len(),
                t <= rt,
                world.recipes_model() == w_entry.recipes_model(),
                world.next_recipe_id == w_entry.next_recipe_id,
                interned_rates(w_entry.names(), rates_m).0
                    == interned_rates(world.names(), rates_m.skip(t as int)).0,
                interned_rates(w_entry.names(), rates_m).1
                    == ratios@ + interned_rates(world.names(), rates_m.skip(t as int)).1,
            decreases rt - t,
        {
            proof {
                assert(rates_m[t as int] == (entry.rates@[t as int].0@, entry.rates@[t as int].1));
                assert(rates_m.skip(t as int)[0] == rates_m[t as int]);
                assert(rates_m.skip(t as int).drop_first() =~= rates_m.skip(t as int + 1));
            }
            let ghost names_t = world.names();
            let ghost ratios_before = ratios@;
            let rid = world.get_resource_id(entry.rates[t].0.as_str());
            let rate: i64 = entry.rates[t].1;
            ratios.push((rid, rate));
            proof {
                assert(rid == ResourceId(interned_id(names_t, rates_m[t as int].0) as usize));
                assert(interned_rates(names_t, rates_m.skip(t as int)).1
                    == seq![(rid, rate)]
                    + interned_rates(world.names(), rates_m.skip(t as int + 1)).1);
                assert(ratios_before + (seq![(rid, rate)]
                    + interned_rates(world.names(), rates_m.skip(t as int + 1)).1)
                    =~= ratios@ + interned_rates(world.names(), rates_m.skip(t as int + 1)).1);
            }
            t += 1;
        }
        proof {
            assert(rates_m.skip(rt as int) =~= Seq::<(Seq<char>, i64)>::empty());
            assert(interned_rates(world.names(), rates_m.skip(rt as int)).1
                =~= Seq::<(ResourceId, i64)>::empty());
            assert(ratios@ + Seq::<(ResourceId, i64)>::empty() =~= ratios@);
            assert(interned_rates(w_entry.names(), rates_m).1 == ratios@);
            assert(interned_rates(w_entry.names(), rates_m).0 == world.names());
        }
        let ghost w_interned = *world;
        let ghost ratios_view = ratios@;
        let ghost results_before = results@;
        let recipe = Recipe { name: entry.name.clone(), ratios };
        match world.insert_recipe(recipe) {
            Some(id) => {
                results.push(Ok(id));
                proof {
                    let rest = loaded(world_model(*world), entries.skip(k as int + 1));
                    assert((w_interned.names(), w_interned.recipes_model().push(
                        (id, entries[k as int].0, ratios_view)),
                        w_interned.next_recipe_id as int + 1) == world_model(*world));
                    assert(loaded(world_model(w_entry), entries.skip(k as int))
                        == (rest.0, seq![Result::<RecipeId, Seq<char>>::Ok(id)] + rest.1));
                    assert(results_model(results@)
                        =~= results_model(results_before)
                            .push(Result::<RecipeId, Seq<char>>::Ok(id)));
                    assert(results_model(results_before)
                        + (seq![Result::<RecipeId, Seq<char>>::Ok(id)] + rest.1)
                        =~= results_model(results@) + rest.1);
                }
            },
            None => {
                results.push(Err(entry.name.clone()));
                proof {
                    let rest = loaded(world_model(*world), entries.skip(k as int + 1));
                    assert((w_interned.names(), w_interned.recipes_model(),
                        w_interned.next_recipe_id as int) == world_model(*world));
                    assert(loaded(world_model(w_entry), entries.skip(k as int))
                        == (rest.0,
                        seq![Result::<RecipeId, Seq<char>>::Err(entries[k as int].0)] + rest.1));
                    assert(results_model(results@)
                        =~= results_model(results_before)
                            .push(Result::<RecipeId, Seq<char>>::Err(entry.name@)));
                    assert(results_model(results_before)
                        + (seq![Result::<RecipeId, Seq<char>>::Err(entries[k as int].0)] + rest.1)
                        =~= results_model(results@) + rest.1);
                }
            },
        }
        k += 1;
    }
    proof {
        assert(entries.skip(n as int) =~= Seq::<EntryModel>::empty());
        assert(loaded(m0, entries).1 =~= results_model(results@)
            + Seq::<Result<RecipeId, Seq<char>>>::empty());
        assert(results_model(results@) + Seq::<Result<RecipeId, Seq<char>>>::empty()
            =~= results_model(results@));
    }
    results
}

} // verus!
