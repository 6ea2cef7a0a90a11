use se_parts::{aggregate, QuantityMap, RecipeTable};

fn get(table: &RecipeTable, block: &str, component: &str) -> Option<u64> {
    let block = block.to_string();
    let component = component.to_string();
    match table.lookup(&block) {
        Some(recipe) => recipe.get(&component),
        None => None,
    }
}

fn add(table: &mut RecipeTable, block: &str, component: &str, quantity: u64) {
    table.add_component(&block.to_string(), &component.to_string(), quantity);
}

#[test]
fn add_component_inserts_and_accumulates() {
    let mut table = RecipeTable::new();
    add(&mut table, "A", "x", 5);
    assert_eq!(get(&table, "A", "x"), Some(5));
    add(&mut table, "A", "x", 7);
    assert_eq!(get(&table, "A", "x"), Some(12));
    add(&mut table, "A", "y", 1);
    assert_eq!(get(&table, "A", "y"), Some(1));
    assert_eq!(get(&table, "A", "x"), Some(12));
    assert_eq!(get(&table, "B", "x"), None);
    assert!(!table.contains_block(&"B".to_string()));
}

#[test]
fn add_component_saturates_at_the_quantity_maximum() {
    let mut table = RecipeTable::new();
    add(&mut table, "A", "x", u64::MAX - 1);
    add(&mut table, "A", "x", 5);
    assert_eq!(get(&table, "A", "x"), Some(u64::MAX));
}

#[test]
fn committing_triples_in_any_order_gives_the_same_table() {
    let triples: [(&str, &str, u64); 5] =
        [("A", "x", 1), ("A", "x", 2), ("A", "y", 3), ("B", "x", 4), ("B", "z", 5)];
    let mut forward = RecipeTable::new();
    for (b, c, q) in triples.iter() {
        add(&mut forward, b, c, *q);
    }
    let mut backward = RecipeTable::new();
    for (b, c, q) in triples.iter().rev() {
        add(&mut backward, b, c, *q);
    }
    for (b, c, _) in triples.iter() {
        assert_eq!(get(&forward, b, c), get(&backward, b, c));
    }
    assert_eq!(get(&forward, "A", "x"), Some(3));
    assert_eq!(get(&forward, "A", "y"), Some(3));
    assert_eq!(get(&forward, "B", "x"), Some(4));
    assert_eq!(get(&forward, "B", "z"), Some(5));
}

#[test]
fn quantity_map_reads_back_its_entries() {
    let mut m = QuantityMap::new();
    assert_eq!(m.len(), 0);
    m.record(&"SteelPlate".to_string(), 10);
    m.record(&"Construction".to_string(), 2);
    m.record(&"SteelPlate".to_string(), 1);
    assert_eq!(m.len(), 2);
    assert_eq!(m.get(&"SteelPlate".to_string()), Some(11));
    assert_eq!(m.get(&"Construction".to_string()), Some(2));
    assert_eq!(m.get(&"Motor".to_string()), None);
    let first = m.entry_at(0);
    assert_eq!(first.0, &"SteelPlate".to_string());
    assert_eq!(first.1, 11);
}

#[test]
fn aggregation_is_order_independent() {
    let mut table = RecipeTable::new();
    add(&mut table, "A", "x", 2);
    add(&mut table, "A", "y", 1);
    add(&mut table, "B", "x", 10);

    let one: Vec<String> = vec!["A".to_string(), "A".to_string(), "B".to_string()];
    let two: Vec<String> = vec!["B".to_string(), "A".to_string(), "A".to_string()];
    let t1 = aggregate(&one, &table);
    let t2 = aggregate(&two, &table);
    assert_eq!(t1.get(&"x".to_string()), Some(14));
    assert_eq!(t1.get(&"y".to_string()), Some(2));
    assert_eq!(t2.get(&"x".to_string()), t1.get(&"x".to_string()));
    assert_eq!(t2.get(&"y".to_string()), t1.get(&"y".to_string()));
}

#[test]
fn aggregating_no_instances_gives_empty_totals() {
    let mut table = RecipeTable::new();
    add(&mut table, "A", "x", 2);
    let none: Vec<String> = Vec::new();
    let totals = aggregate(&none, &table);
    assert_eq!(totals.len(), 0);
    assert_eq!(totals.get(&"x".to_string()), None);
}
