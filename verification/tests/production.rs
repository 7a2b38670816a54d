use factory_planner::factory::Factory;
use factory_planner::factory_world::{FactoryWorld, Recipe, RecipeId, ResourceId};

fn net_of(net: &[(ResourceId, i64)], resource: ResourceId) -> Option<i64> {
    net.iter().find(|entry| entry.0 == resource).map(|entry| entry.1)
}

#[test]
fn net_production_exact_totals() {
    let mut world = FactoryWorld::new();
    let ore = world.get_resource_id("IronOre");
    let plate = world.get_resource_id("IronPlate");
    let gear = world.get_resource_id("Gear");

    let smelter = world
        .insert_recipe(Recipe {
            name: String::from("Smelter"),
            ratios: vec![(ore, -2), (plate, 1)],
        })
        .unwrap();
    let press = world
        .insert_recipe(Recipe {
            name: String::from("GearPress"),
            ratios: vec![(plate, -1), (gear, 1)],
        })
        .unwrap();

    let factory = Factory { recipes: vec![(smelter, 3), (press, 2)] };
    let net = factory.calculate_net_production(&world).expect("all ids valid");

    assert_eq!(net.len(), 3);
    assert_eq!(net_of(&net, ore), Some(-6));
    assert_eq!(net_of(&net, plate), Some(1));
    assert_eq!(net_of(&net, gear), Some(2));
}

#[test]
fn net_production_unknown_id_fails_whole_call() {
    let mut world = FactoryWorld::new();
    let ore = world.get_resource_id("IronOre");
    let smelter = world
        .insert_recipe(Recipe { name: String::from("Smelter"), ratios: vec![(ore, -2)] })
        .unwrap();

    let factory = Factory { recipes: vec![(smelter, 3), (RecipeId(999), 1)] };
    assert!(factory.calculate_net_production(&world).is_err());
}

#[test]
fn net_production_removed_recipe_fails() {
    let mut world = FactoryWorld::new();
    let id = world
        .insert_recipe(Recipe { name: String::from("Smelter"), ratios: vec![] })
        .unwrap();
    world.remove_recipe(id).unwrap();
    let factory = Factory { recipes: vec![(id, 1)] };
    assert!(factory.calculate_net_production(&world).is_err());
}

#[test]
fn net_production_empty_selection_is_empty() {
    let world = FactoryWorld::new();
    let factory = Factory { recipes: vec![] };
    let net = factory.calculate_net_production(&world).expect("nothing to resolve");
    assert!(net.is_empty());
}

#[test]
fn net_production_cancellation_keeps_zero_entry() {
    let mut world = FactoryWorld::new();
    let plate = world.get_resource_id("IronPlate");
    let a = world
        .insert_recipe(Recipe { name: String::from("Maker"), ratios: vec![(plate, 2)] })
        .unwrap();
    let b = world
        .insert_recipe(Recipe { name: String::from("User"), ratios: vec![(plate, -2)] })
        .unwrap();

    let factory = Factory { recipes: vec![(a, 1), (b, 1)] };
    let net = factory.calculate_net_production(&world).unwrap();
    assert_eq!(net_of(&net, plate), Some(0));
}

#[test]
fn net_production_repeated_resource_accumulates() {
    let mut world = FactoryWorld::new();
    let plate = world.get_resource_id("IronPlate");
    let id = world
        .insert_recipe(Recipe {
            name: String::from("DoubleCount"),
            ratios: vec![(plate, 1), (plate, 3)],
        })
        .unwrap();
    let factory = Factory { recipes: vec![(id, 5)] };
    let net = factory.calculate_net_production(&world).unwrap();
    assert_eq!(net_of(&net, plate), Some(20));
}

#[test]
fn net_production_zero_multiplier_touches_resources() {
    let mut world = FactoryWorld::new();
    let ore = world.get_resource_id("IronOre");
    let id = world
        .insert_recipe(Recipe { name: String::from("Smelter"), ratios: vec![(ore, -2)] })
        .unwrap();
    let factory = Factory { recipes: vec![(id, 0)] };
    let net = factory.calculate_net_production(&world).unwrap();
    assert_eq!(net_of(&net, ore), Some(0));
}
