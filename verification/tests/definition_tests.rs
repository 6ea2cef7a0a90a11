use se_parts::{load_recipes, DefinitionConfig, RecipeTable, ScanError};

fn get(table: &RecipeTable, block: &str, component: &str) -> Option<u64> {
    let block = block.to_string();
    let component = component.to_string();
    match table.lookup(&block) {
        Some(recipe) => recipe.get(&component),
        None => None,
    }
}

#[test]
fn loads_a_plain_definition_document() {
    let doc = "<Definitions><CubeBlocks><Definition>\
               <Id><TypeId>Gyro</TypeId><SubtypeId>LargeBlockGyro</SubtypeId></Id>\
               <Components>\
               <Component Subtype=\"SteelPlate\" Count=\"12\" />\
               <Component Subtype=\"Construction\" Count=\"4\" />\
               </Components>\
               </Definition></CubeBlocks></Definitions>";
    let cfg = DefinitionConfig::space_engineers();
    let mut table = RecipeTable::new();
    assert!(load_recipes(doc, &cfg, &mut table).is_ok());
    assert_eq!(get(&table, "LargeBlockGyro", "SteelPlate"), Some(12));
    assert_eq!(get(&table, "LargeBlockGyro", "Construction"), Some(4));
    assert_eq!(get(&table, "LargeBlockGyro", "SteelTube"), None);
    assert!(!table.contains_block(&"Gyro".to_string()));
}

#[test]
fn repeated_component_entries_accumulate() {
    let doc = "<Definition>\
               <TypeId>Gyro</TypeId><SubtypeId>LargeBlockGyro</SubtypeId>\
               <Components>\
               <Component Subtype=\"SteelPlate\" Count=\"12\" />\
               <Component Subtype=\"SteelPlate\" Count=\"5\" />\
               </Components>\
               </Definition>";
    let cfg = DefinitionConfig::space_engineers();
    let mut table = RecipeTable::new();
    assert!(load_recipes(doc, &cfg, &mut table).is_ok());
    assert_eq!(get(&table, "LargeBlockGyro", "SteelPlate"), Some(17));
}

#[test]
fn empty_primary_identifier_takes_the_fallback() {
    // Primary identifier element present but empty: the block resolves to
    // the fallback identifier.
    let doc = "<Definition>\
               <TypeId>LargeBlockGyro</TypeId><SubtypeId></SubtypeId>\
               <Components><Component Subtype=\"SteelPlate\" Count=\"9\" /></Components>\
               </Definition>";
    let cfg = DefinitionConfig::space_engineers();
    let mut table = RecipeTable::new();
    assert!(load_recipes(doc, &cfg, &mut table).is_ok());
    assert_eq!(get(&table, "LargeBlockGyro", "SteelPlate"), Some(9));
}

#[test]
fn self_closing_primary_identifier_takes_the_fallback() {
    let doc = "<Definition>\
               <TypeId>LargeBlockGyro</TypeId><SubtypeId />\
               <Components><Component Subtype=\"SteelPlate\" Count=\"3\" /></Components>\
               </Definition>";
    let cfg = DefinitionConfig::space_engineers();
    let mut table = RecipeTable::new();
    assert!(load_recipes(doc, &cfg, &mut table).is_ok());
    assert_eq!(get(&table, "LargeBlockGyro", "SteelPlate"), Some(3));
}

#[test]
fn shadowed_identifier_elements_do_not_leak() {
    // Regression against the by-product-list aliasing hazard: an
    // identifier-named element inside a shadowing container must not become
    // the active block identifier.
    let doc = "<Definition>\
               <TypeId>GyroType</TypeId>\
               <ProducedGases><GasInfo><SubtypeId>Oxygen</SubtypeId></GasInfo></ProducedGases>\
               <SubtypeId></SubtypeId>\
               <Components><Component Subtype=\"SteelPlate\" Count=\"7\" /></Components>\
               </Definition>";
    let cfg = DefinitionConfig::space_engineers();
    let mut table = RecipeTable::new();
    assert!(load_recipes(doc, &cfg, &mut table).is_ok());
    assert!(!table.contains_block(&"Oxygen".to_string()));
    assert_eq!(get(&table, "GyroType", "SteelPlate"), Some(7));
}

#[test]
fn component_list_before_primary_does_not_leak_identifiers() {
    // A nested identifier-like element inside the component list itself is
    // suspended too, and entries seen before the block's identifier resolve
    // to that identifier once it is known — never to an empty or bogus key.
    let doc = "<Definition>\
               <TypeId>FallbackName</TypeId>\
               <Components><SubtypeId>Bogus</SubtypeId>\
               <Component Subtype=\"SteelPlate\" Count=\"2\" /></Components>\
               <SubtypeId>RealBlock</SubtypeId>\
               </Definition>\
               <Definition>\
               <TypeId>Other</TypeId><SubtypeId>OtherBlock</SubtypeId>\
               <Components><Component Subtype=\"SteelPlate\" Count=\"8\" /></Components>\
               </Definition>";
    let doc = format!("<Definitions>{}</Definitions>", doc);
    let cfg = DefinitionConfig::space_engineers();
    let mut table = RecipeTable::new();
    assert!(load_recipes(&doc, &cfg, &mut table).is_ok());
    assert!(!table.contains_block(&"Bogus".to_string()));
    assert!(!table.contains_block(&"".to_string()));
    assert_eq!(get(&table, "RealBlock", "SteelPlate"), Some(2));
    assert_eq!(get(&table, "OtherBlock", "SteelPlate"), Some(8));
}

#[test]
fn requirement_list_before_the_identifiers_resolves_to_the_block() {
    // The whole requirement list precedes both identifier elements: its
    // entries are held back and committed under the identifier that the
    // block eventually resolves to.
    let doc = "<Definition>\
               <Components>\
               <Component Subtype=\"SteelPlate\" Count=\"5\" />\
               <Component Subtype=\"Motor\" Count=\"1\" />\
               </Components>\
               <TypeId>GyroType</TypeId><SubtypeId>LargeBlockGyro</SubtypeId>\
               </Definition>";
    let cfg = DefinitionConfig::space_engineers();
    let mut table = RecipeTable::new();
    assert!(load_recipes(doc, &cfg, &mut table).is_ok());
    assert!(!table.contains_block(&"".to_string()));
    assert_eq!(get(&table, "LargeBlockGyro", "SteelPlate"), Some(5));
    assert_eq!(get(&table, "LargeBlockGyro", "Motor"), Some(1));
}

#[test]
fn entries_without_any_identifier_are_never_committed() {
    // A degenerate document that never names a block: no triple may be
    // committed under the empty identifier.
    let doc = "<Definition>\
               <Components><Component Subtype=\"SteelPlate\" Count=\"5\" /></Components>\
               </Definition>";
    let cfg = DefinitionConfig::space_engineers();
    let mut table = RecipeTable::new();
    assert!(load_recipes(doc, &cfg, &mut table).is_ok());
    assert!(!table.contains_block(&"".to_string()));
    let probe = "SteelPlate".to_string();
    assert!(!table.contains_block(&probe));
}

#[test]
fn empty_component_identifier_fails_the_run() {
    // An empty identifier is no identifier: a requirement entry whose first
    // positional attribute is blank lacks its component identifier.
    let doc = "<Definition>\
               <TypeId>T</TypeId><SubtypeId>B</SubtypeId>\
               <Components><Component Subtype=\"\" Count=\"3\" /></Components>\
               </Definition>";
    let cfg = DefinitionConfig::space_engineers();
    let mut table = RecipeTable::new();
    assert_eq!(load_recipes(doc, &cfg, &mut table), Err(ScanError::MissingAttribute));
}

#[test]
fn a_failed_run_leaves_the_table_untouched() {
    // The failing document commits nothing, not even the entries it
    // declared before the failure: no partial result is observable.
    let good = "<Definition>\
                <TypeId>Gyro</TypeId><SubtypeId>LargeBlockGyro</SubtypeId>\
                <Components><Component Subtype=\"SteelPlate\" Count=\"12\" /></Components>\
                </Definition>";
    let bad = "<Definition>\
               <TypeId>T</TypeId><SubtypeId>B</SubtypeId>\
               <Components>\
               <Component Subtype=\"SteelPlate\" Count=\"7\" />\
               <Component Subtype=\"Motor\" Count=\"abc\" />\
               </Components>\
               </Definition>";
    let cfg = DefinitionConfig::space_engineers();
    let mut table = RecipeTable::new();
    assert!(load_recipes(good, &cfg, &mut table).is_ok());
    assert_eq!(load_recipes(bad, &cfg, &mut table), Err(ScanError::InvalidQuantity));
    assert!(!table.contains_block(&"B".to_string()));
    assert_eq!(get(&table, "LargeBlockGyro", "SteelPlate"), Some(12));
}

#[test]
fn invalid_quantity_fails_the_run() {
    let doc = "<Definition>\
               <TypeId>T</TypeId><SubtypeId>B</SubtypeId>\
               <Components><Component Subtype=\"SteelPlate\" Count=\"abc\" /></Components>\
               </Definition>";
    let cfg = DefinitionConfig::space_engineers();
    let mut table = RecipeTable::new();
    assert_eq!(load_recipes(doc, &cfg, &mut table), Err(ScanError::InvalidQuantity));
}

#[test]
fn negative_quantity_fails_the_run() {
    let doc = "<Definition>\
               <TypeId>T</TypeId><SubtypeId>B</SubtypeId>\
               <Components><Component Subtype=\"SteelPlate\" Count=\"-4\" /></Components>\
               </Definition>";
    let cfg = DefinitionConfig::space_engineers();
    let mut table = RecipeTable::new();
    assert_eq!(load_recipes(doc, &cfg, &mut table), Err(ScanError::InvalidQuantity));
}

#[test]
fn missing_attribute_fails_the_run() {
    let doc = "<Definition>\
               <TypeId>T</TypeId><SubtypeId>B</SubtypeId>\
               <Components><Component Subtype=\"SteelPlate\" /></Components>\
               </Definition>";
    let cfg = DefinitionConfig::space_engineers();
    let mut table = RecipeTable::new();
    assert_eq!(load_recipes(doc, &cfg, &mut table), Err(ScanError::MissingAttribute));
}

#[test]
fn malformed_xml_fails_the_run() {
    let doc = "<Definition><TypeId>T</WrongTag></Definition>";
    let cfg = DefinitionConfig::space_engineers();
    let mut table = RecipeTable::new();
    match load_recipes(doc, &cfg, &mut table) {
        Err(ScanError::MalformedXml { .. }) => {},
        other => panic!("expected a malformed-XML error, got {:?}", other),
    }
}

#[test]
fn rescanning_the_same_document_doubles_quantities() {
    // Scanning once reproduces exactly the declared quantities; feeding the
    // same document twice as distinct inputs doubles every quantity.
    let doc = "<Definition>\
               <TypeId>Gyro</TypeId><SubtypeId>LargeBlockGyro</SubtypeId>\
               <Components>\
               <Component Subtype=\"SteelPlate\" Count=\"12\" />\
               <Component Subtype=\"Construction\" Count=\"4\" />\
               </Components>\
               </Definition>";
    let cfg = DefinitionConfig::space_engineers();

    let mut once = RecipeTable::new();
    assert!(load_recipes(doc, &cfg, &mut once).is_ok());
    assert_eq!(get(&once, "LargeBlockGyro", "SteelPlate"), Some(12));
    assert_eq!(get(&once, "LargeBlockGyro", "Construction"), Some(4));

    let mut twice = RecipeTable::new();
    assert!(load_recipes(doc, &cfg, &mut twice).is_ok());
    assert!(load_recipes(doc, &cfg, &mut twice).is_ok());
    assert_eq!(get(&twice, "LargeBlockGyro", "SteelPlate"), Some(24));
    assert_eq!(get(&twice, "LargeBlockGyro", "Construction"), Some(8));
}
