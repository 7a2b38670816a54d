use factory_planner::factory_world::{FactoryWorld, Recipe};
use factory_planner::recipe_json::{RecipeJson, RecipeListJson, load_recipes};

#[test]
fn load_recipes_stores_every_entry() {
    let mut world = FactoryWorld::new();
    let list = RecipeListJson {
        recipes: vec![
            RecipeJson {
                name: String::from("Smelter"),
                rates: vec![(String::from("IronOre"), -2), (String::from("IronPlate"), 1)],
            },
            RecipeJson {
                name: String::from("GearPress"),
                rates: vec![(String::from("IronPlate"), -1), (String::from("Gear"), 1)],
            },
        ],
    };

    let results = load_recipes(&mut world, &list);
    assert_eq!(results.len(), 2);
    let smelter = results[0].clone().expect("first entry loads");
    let press = results[1].clone().expect("second entry loads");
    assert_ne!(smelter, press);

    // Shared resource names intern to the same id across entries.
    let plate = world.get_resource_id("IronPlate");
    let smelter_recipe = world.get_recipe(smelter).expect("stored");
    let press_recipe = world.get_recipe(press).expect("stored");
    assert_eq!(smelter_recipe.ratios[1].0, plate);
    assert_eq!(press_recipe.ratios[0].0, plate);
    assert_eq!(press_recipe.ratios[0].1, -1);
}

#[test]
fn load_recipes_reports_collisions_per_entry() {
    let mut world = FactoryWorld::new();
    let list = RecipeListJson {
        recipes: vec![
            RecipeJson { name: String::from("Smelter"), rates: vec![] },
            RecipeJson {
                name: String::from("Smelter"),
                rates: vec![(String::from("Coal"), -1)],
            },
            RecipeJson { name: String::from("GearPress"), rates: vec![] },
        ],
    };

    let results = load_recipes(&mut world, &list);
    assert_eq!(results.len(), 3);
    assert!(results[0].is_ok());
    assert_eq!(results[1], Err(String::from("Smelter")));
    assert!(results[2].is_ok());

    // The colliding entry still interned its resource names.
    let coal = world.get_resource_id("Coal");
    assert_eq!(world.get_resource_name(coal), Some("Coal"));
    // The sibling really is stored.
    assert!(world.get_recipe_id("GearPress").is_some());
}

#[test]
fn load_recipes_collides_with_preexisting_recipe() {
    let mut world = FactoryWorld::new();
    world
        .insert_recipe(Recipe { name: String::from("Smelter"), ratios: vec![] })
        .unwrap();
    let list = RecipeListJson {
        recipes: vec![RecipeJson { name: String::from("Smelter"), rates: vec![] }],
    };
    let results = load_recipes(&mut world, &list);
    assert_eq!(results, vec![Err(String::from("Smelter"))]);
}

#[test]
fn load_recipes_empty_list_changes_nothing() {
    let mut world = FactoryWorld::new();
    let results = load_recipes(&mut world, &RecipeListJson { recipes: vec![] });
    assert!(results.is_empty());
    assert_eq!(world.get_recipe_id("anything"), None);
}
