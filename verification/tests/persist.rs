use recipe_store::manager::{PersistError, RecipeManager};

fn strings(items: &[&str]) -> Vec<String> {
    items.iter().map(|s| s.to_string()).collect()
}

#[test]
fn to_json_exact_text() {
    let mut m = RecipeManager::new();
    m.add_recipe(
        "Pasta".to_string(),
        strings(&["flour", "egg"]),
        strings(&["Mix", "Boil"]),
        2,
    );
    assert_eq!(
        m.to_json(),
        "[{\"id\":1,\"name\":\"Pasta\",\"ingredients\":[\"flour\",\"egg\"],\"instructions\":[\"Mix\",\"Boil\"],\"servings\":2}]"
    );
}

#[test]
fn to_json_empty_collection() {
    let m = RecipeManager::new();
    assert_eq!(m.to_json(), "[]");
}

#[test]
fn round_trip_empty() {
    let m = RecipeManager::new();
    let text = m.to_json();
    let mut fresh = RecipeManager::new();
    assert!(fresh.load_from_json(&text).is_ok());
    assert!(fresh.get_all_recipes().is_empty());
    assert_eq!(fresh.peek_next_id(), 1);
}

#[test]
fn round_trip_preserves_records_and_next_id() {
    let mut m = RecipeManager::new();
    m.add_recipe(
        "Pasta".to_string(),
        strings(&["flour", "egg"]),
        strings(&["Mix", "Boil"]),
        2,
    );
    m.add_recipe("Salad".to_string(), strings(&["lettuce"]), strings(&["Chop"]), 1);
    let text = m.to_json();
    let mut fresh = RecipeManager::new();
    assert!(fresh.load_from_json(&text).is_ok());
    let a = m.get_all_recipes();
    let b = fresh.get_all_recipes();
    assert_eq!(a.len(), b.len());
    for (x, y) in a.iter().zip(b.iter()) {
        assert_eq!(x.id, y.id);
        assert_eq!(x.name, y.name);
        assert_eq!(x.ingredients, y.ingredients);
        assert_eq!(x.instructions, y.instructions);
        assert_eq!(x.servings, y.servings);
    }
    assert_eq!(fresh.peek_next_id(), 3);
}

#[test]
fn round_trip_with_escaped_characters() {
    let mut m = RecipeManager::new();
    m.add_recipe(
        "He said \"hi\"\\now".to_string(),
        strings(&["a,b", "tab\there"]),
        strings(&["line1\nline2", "cr\rend"]),
        4,
    );
    let text = m.to_json();
    let mut fresh = RecipeManager::new();
    assert!(fresh.load_from_json(&text).is_ok());
    let r = fresh.get_recipe(1).expect("record must survive the round trip");
    assert_eq!(r.name, "He said \"hi\"\\now");
    assert_eq!(r.ingredients, strings(&["a,b", "tab\there"]));
    assert_eq!(r.instructions, strings(&["line1\nline2", "cr\rend"]));
    assert_eq!(r.servings, 4);
}

#[test]
fn round_trip_with_unicode_name() {
    let mut m = RecipeManager::new();
    m.add_recipe("Crème brûlée 🍮".to_string(), strings(&[]), strings(&[]), 1);
    let text = m.to_json();
    let mut fresh = RecipeManager::new();
    assert!(fresh.load_from_json(&text).is_ok());
    assert_eq!(fresh.get_recipe(1).unwrap().name, "Crème brûlée 🍮");
}

#[test]
fn scenario_add_add_delete_save_load() {
    let mut m = RecipeManager::new();
    let id1 = m.add_recipe(
        "Pasta".to_string(),
        strings(&["flour", "egg"]),
        strings(&["Mix", "Boil"]),
        2,
    );
    assert_eq!(id1, 1);
    let id2 = m.add_recipe("Salad".to_string(), strings(&["lettuce"]), strings(&["Chop"]), 1);
    assert_eq!(id2, 2);
    assert!(m.delete_recipe(1));
    let all = m.get_all_recipes();
    assert_eq!(all.len(), 1);
    assert_eq!(all[0].id, 2);
    assert_eq!(all[0].name, "Salad");
    let text = m.to_json();
    let mut fresh = RecipeManager::new();
    assert!(fresh.load_from_json(&text).is_ok());
    let all = fresh.get_all_recipes();
    assert_eq!(all.len(), 1);
    assert_eq!(all[0].id, 2);
    assert_eq!(all[0].name, "Salad");
    assert_eq!(all[0].ingredients, strings(&["lettuce"]));
    assert_eq!(all[0].instructions, strings(&["Chop"]));
    assert_eq!(all[0].servings, 1);
    assert_eq!(fresh.peek_next_id(), 3);
}

#[test]
fn load_replaces_whole_collection() {
    let mut source = RecipeManager::new();
    source.add_recipe("Only".to_string(), strings(&["x"]), strings(&["y"]), 5);
    let text = source.to_json();
    let mut m = RecipeManager::new();
    m.add_recipe("Stale1".to_string(), strings(&[]), strings(&[]), 1);
    m.add_recipe("Stale2".to_string(), strings(&[]), strings(&[]), 1);
    assert!(m.load_from_json(&text).is_ok());
    let all = m.get_all_recipes();
    assert_eq!(all.len(), 1);
    assert_eq!(all[0].name, "Only");
    assert_eq!(m.peek_next_id(), 2);
}

#[test]
fn malformed_input_reports_format_error_and_keeps_state() {
    let mut m = RecipeManager::new();
    m.add_recipe("Safe".to_string(), strings(&["a"]), strings(&["b"]), 1);
    let before = m.to_json();
    for bad in [
        "",
        "not json",
        "{",
        "[",
        "[{]",
        "[{\"id\":1}]",
        "[{\"id\":-1,\"name\":\"x\",\"ingredients\":[],\"instructions\":[],\"servings\":1}]",
        "[{\"id\":1,\"name\":\"x\",\"ingredients\":[],\"instructions\":[],\"servings\":1},]",
        "[{\"id\":1,\"name\":\"x\",\"ingredients\":[],\"instructions\":[],\"servings\":1}] ",
        "[{\"id\":4294967296,\"name\":\"x\",\"ingredients\":[],\"instructions\":[],\"servings\":1}]",
        "[{\"id\":1,\"name\":\"x\",\"ingredients\":[],\"instructions\":[],\"servings\":1}",
        "[{\"id\":1,\"name\":\"unterminated,\"ingredients\":[],\"instructions\":[],\"servings\":1}]",
    ] {
        let res = m.load_from_json(bad);
        assert_eq!(res, Err(PersistError::Format), "input {:?} must be rejected", bad);
        assert_eq!(m.to_json(), before, "input {:?} must not corrupt the store", bad);
    }
}

#[test]
fn duplicate_ids_in_input_are_rejected() {
    let mut m = RecipeManager::new();
    let text = "[{\"id\":1,\"name\":\"a\",\"ingredients\":[],\"instructions\":[],\"servings\":1},{\"id\":1,\"name\":\"b\",\"ingredients\":[],\"instructions\":[],\"servings\":1}]";
    assert_eq!(m.load_from_json(text), Err(PersistError::Format));
    assert!(m.get_all_recipes().is_empty());
}

#[test]
fn largest_possible_id_is_rejected_on_load() {
    // with this record loaded no further identifier could ever be assigned
    let mut m = RecipeManager::new();
    let text = "[{\"id\":4294967295,\"name\":\"a\",\"ingredients\":[],\"instructions\":[],\"servings\":1}]";
    assert_eq!(m.load_from_json(text), Err(PersistError::Format));
}

#[test]
fn load_accepts_zero_id_and_large_ids() {
    let mut m = RecipeManager::new();
    let text = "[{\"id\":0,\"name\":\"a\",\"ingredients\":[],\"instructions\":[],\"servings\":0},{\"id\":4294967294,\"name\":\"b\",\"ingredients\":[\"\"],\"instructions\":[],\"servings\":3}]";
    assert!(m.load_from_json(text).is_ok());
    assert_eq!(m.peek_next_id(), 4294967295);
    assert_eq!(m.get_recipe(0).unwrap().name, "a");
    assert_eq!(m.get_recipe(4294967294).unwrap().ingredients, strings(&[""]));
}

#[test]
fn escape_encoding_is_not_the_identity() {
    // if the writer handed its input through unescaped, the quote would end
    // the string early and the reload would fail or change the name
    let mut m = RecipeManager::new();
    m.add_recipe("\"".to_string(), strings(&[]), strings(&[]), 1);
    let text = m.to_json();
    assert_eq!(
        text,
        "[{\"id\":1,\"name\":\"\\\"\",\"ingredients\":[],\"instructions\":[],\"servings\":1}]"
    );
    let mut fresh = RecipeManager::new();
    assert!(fresh.load_from_json(&text).is_ok());
    assert_eq!(fresh.get_recipe(1).unwrap().name, "\"");
}
