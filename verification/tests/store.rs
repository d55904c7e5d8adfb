use recipe_store::manager::RecipeManager;

fn strings(items: &[&str]) -> Vec<String> {
    items.iter().map(|s| s.to_string()).collect()
}

#[test]
fn add_returns_increasing_distinct_ids() {
    let mut m = RecipeManager::new();
    let mut ids = Vec::new();
    for k in 0..10u32 {
        let id = m.add_recipe(format!("r{}", k), strings(&[]), strings(&[]), k);
        ids.push(id);
    }
    for w in ids.windows(2) {
        assert!(w[0] < w[1]);
    }
    assert_eq!(ids, (1..=10u32).collect::<Vec<u32>>());
}

#[test]
fn add_then_get_returns_exact_fields() {
    let mut m = RecipeManager::new();
    let id = m.add_recipe(
        "Pasta".to_string(),
        strings(&["flour", "egg"]),
        strings(&["Mix", "Boil"]),
        2,
    );
    let r = m.get_recipe(id).expect("the added recipe must be found");
    assert_eq!(r.id, id);
    assert_eq!(r.name, "Pasta");
    assert_eq!(r.ingredients, strings(&["flour", "egg"]));
    assert_eq!(r.instructions, strings(&["Mix", "Boil"]));
    assert_eq!(r.servings, 2);
}

#[test]
fn get_missing_id_is_absent() {
    let mut m = RecipeManager::new();
    assert!(m.get_recipe(1).is_none());
    m.add_recipe("A".to_string(), strings(&[]), strings(&[]), 1);
    assert!(m.get_recipe(2).is_none());
    assert!(m.get_recipe(0).is_none());
}

#[test]
fn update_existing_replaces_all_fields_and_keeps_id() {
    let mut m = RecipeManager::new();
    let id = m.add_recipe("Old".to_string(), strings(&["a"]), strings(&["b"]), 1);
    let ok = m.update_recipe(
        id,
        "New".to_string(),
        strings(&["x", "y"]),
        strings(&["z"]),
        7,
    );
    assert!(ok);
    let r = m.get_recipe(id).expect("updated recipe must still exist");
    assert_eq!(r.id, id);
    assert_eq!(r.name, "New");
    assert_eq!(r.ingredients, strings(&["x", "y"]));
    assert_eq!(r.instructions, strings(&["z"]));
    assert_eq!(r.servings, 7);
}

#[test]
fn update_missing_fails_and_changes_nothing() {
    let mut m = RecipeManager::new();
    let id = m.add_recipe("Keep".to_string(), strings(&["a"]), strings(&["b"]), 3);
    let ok = m.update_recipe(99, "X".to_string(), strings(&[]), strings(&[]), 0);
    assert!(!ok);
    assert_eq!(m.get_all_recipes().len(), 1);
    let r = m.get_recipe(id).unwrap();
    assert_eq!(r.name, "Keep");
    assert_eq!(r.servings, 3);
}

#[test]
fn delete_existing_shrinks_by_one_and_makes_id_absent() {
    let mut m = RecipeManager::new();
    let id1 = m.add_recipe("A".to_string(), strings(&[]), strings(&[]), 1);
    let id2 = m.add_recipe("B".to_string(), strings(&[]), strings(&[]), 1);
    let id3 = m.add_recipe("C".to_string(), strings(&[]), strings(&[]), 1);
    assert_eq!(m.get_all_recipes().len(), 3);
    assert!(m.delete_recipe(id2));
    assert_eq!(m.get_all_recipes().len(), 2);
    assert!(m.get_recipe(id2).is_none());
    // relative order of the remaining records is kept
    let names: Vec<&str> = m.get_all_recipes().iter().map(|r| r.name.as_str()).collect();
    assert_eq!(names, vec!["A", "C"]);
    assert!(m.get_recipe(id1).is_some());
    assert!(m.get_recipe(id3).is_some());
}

#[test]
fn delete_missing_fails_and_keeps_size() {
    let mut m = RecipeManager::new();
    m.add_recipe("A".to_string(), strings(&[]), strings(&[]), 1);
    assert!(!m.delete_recipe(42));
    assert_eq!(m.get_all_recipes().len(), 1);
}

#[test]
fn deleted_id_is_not_reused() {
    let mut m = RecipeManager::new();
    let id1 = m.add_recipe("A".to_string(), strings(&[]), strings(&[]), 1);
    assert!(m.delete_recipe(id1));
    let id2 = m.add_recipe("B".to_string(), strings(&[]), strings(&[]), 1);
    assert!(id2 > id1);
}

#[test]
fn empty_name_and_zero_servings_are_permitted() {
    let mut m = RecipeManager::new();
    let id = m.add_recipe(String::new(), strings(&[]), strings(&[]), 0);
    let r = m.get_recipe(id).unwrap();
    assert_eq!(r.name, "");
    assert!(r.ingredients.is_empty());
    assert_eq!(r.servings, 0);
}

#[test]
fn peek_next_id_tracks_additions() {
    let mut m = RecipeManager::new();
    assert_eq!(m.peek_next_id(), 1);
    m.add_recipe("A".to_string(), strings(&[]), strings(&[]), 1);
    assert_eq!(m.peek_next_id(), 2);
}
