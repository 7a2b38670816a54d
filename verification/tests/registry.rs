use factory_planner::factory_world::{FactoryWorld, Recipe};

#[test]
fn intern_same_string_twice_returns_same_id() {
    let mut world = FactoryWorld::new();
    let first = world.get_resource_id("IronOre");
    let second = world.get_resource_id("IronOre");
    assert_eq!(first, second);
}

#[test]
fn intern_distinct_strings_returns_distinct_ids() {
    let mut world = FactoryWorld::new();
    let ore = world.get_resource_id("IronOre");
    let plate = world.get_resource_id("IronPlate");
    assert_ne!(ore, plate);
    assert_eq!(ore, world.get_resource_id("IronOre"));
    assert_eq!(plate, world.get_resource_id("IronPlate"));
}

#[test]
fn resource_ids_are_sequential() {
    let mut world = FactoryWorld::new();
    let a = world.get_resource_id("A");
    let b = world.get_resource_id("B");
    let c = world.get_resource_id("C");
    assert_eq!(a.0, 0);
    assert_eq!(b.0, 1);
    assert_eq!(c.0, 2);
}

#[test]
fn resource_name_reverse_lookup() {
    let mut world = FactoryWorld::new();
    let ore = world.get_resource_id("IronOre");
    assert_eq!(world.get_resource_name(ore), Some("IronOre"));
}

#[test]
fn resource_name_unknown_id_is_none() {
    let world = FactoryWorld::new();
    assert_eq!(
        world.get_resource_name(factory_planner::factory_world::ResourceId(7)),
        None
    );
}

#[test]
fn recipe_duplicate_name_fails_then_remove_frees_it() {
    let mut world = FactoryWorld::new();
    let ore = world.get_resource_id("IronOre");
    let first = world
        .insert_recipe(Recipe {
            name: String::from("Smelter"),
            ratios: vec![(ore, -2)],
        })
        .expect("first insert succeeds");

    let second = world.insert_recipe(Recipe {
        name: String::from("Smelter"),
        ratios: vec![(ore, -4)],
    });
    assert!(second.is_none());

    let removed = world.remove_recipe(first).expect("recipe is stored");
    assert_eq!(removed.name, "Smelter");
    assert_eq!(removed.ratios, vec![(ore, -2)]);

    let third = world
        .insert_recipe(Recipe {
            name: String::from("Smelter"),
            ratios: vec![(ore, -4)],
        })
        .expect("name is free again");
    assert_ne!(first, third);
}

#[test]
fn removed_recipe_id_is_invalidated() {
    let mut world = FactoryWorld::new();
    let id = world
        .insert_recipe(Recipe { name: String::from("Gearbox"), ratios: vec![] })
        .unwrap();
    assert!(world.get_recipe(id).is_ok());
    world.remove_recipe(id).unwrap();
    assert!(world.get_recipe(id).is_err());
    assert!(world.remove_recipe(id).is_none());
}

#[test]
fn get_recipe_id_finds_stored_names_only() {
    let mut world = FactoryWorld::new();
    let id = world
        .insert_recipe(Recipe { name: String::from("Press"), ratios: vec![] })
        .unwrap();
    assert_eq!(world.get_recipe_id("Press"), Some(id));
    assert_eq!(world.get_recipe_id("Drill"), None);
}

#[test]
fn get_recipe_returns_stored_ratios() {
    let mut world = FactoryWorld::new();
    let ore = world.get_resource_id("IronOre");
    let plate = world.get_resource_id("IronPlate");
    let id = world
        .insert_recipe(Recipe {
            name: String::from("Smelter"),
            ratios: vec![(ore, -2), (plate, 1)],
        })
        .unwrap();
    let recipe = world.get_recipe(id).expect("stored");
    assert_eq!(recipe.name, "Smelter");
    assert_eq!(recipe.iter_ratios(), &vec![(ore, -2), (plate, 1)]);
}
