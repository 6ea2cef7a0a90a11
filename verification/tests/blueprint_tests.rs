use se_parts::{
    apply_aliases, build_report, scan_blueprint, BlueprintConfig, DefinitionConfig, RecipeTable,
    load_recipes,
};

fn gyro_table() -> RecipeTable {
    let doc = "<Definition>\
               <TypeId>Gyro</TypeId><SubtypeId>LargeBlockGyro</SubtypeId>\
               <Components>\
               <Component Subtype=\"SteelPlate\" Count=\"12\" />\
               <Component Subtype=\"Construction\" Count=\"4\" />\
               </Components>\
               </Definition>";
    let cfg = DefinitionConfig::space_engineers();
    let mut table = RecipeTable::new();
    assert!(load_recipes(doc, &cfg, &mut table).is_ok());
    table
}

fn blueprint_doc(names: &[&str]) -> String {
    let mut blocks = String::new();
    for name in names {
        blocks.push_str("<MyObjectBuilder_CubeBlock><SubtypeName>");
        blocks.push_str(name);
        blocks.push_str("</SubtypeName></MyObjectBuilder_CubeBlock>");
    }
    format!("<ShipBlueprint><CubeGrid><CubeBlocks>{}</CubeBlocks></CubeGrid></ShipBlueprint>", blocks)
}

#[test]
fn alias_normalization_maps_known_mismatches() {
    let cfg = BlueprintConfig::space_engineers();
    assert_eq!(
        apply_aliases(&cfg.aliases, &"WideLargeCameraBlock".to_string()),
        "LargeCameraBlock".to_string()
    );
    assert_eq!(
        apply_aliases(&cfg.aliases, &"LargeBlockLargeDrill".to_string()),
        "LargeBlockDrill".to_string()
    );
    assert_eq!(
        apply_aliases(&cfg.aliases, &"LargeBlockGyro".to_string()),
        "LargeBlockGyro".to_string()
    );
}

#[test]
fn aliased_candidates_classify_under_the_canonical_name() {
    let doc = "<Definition>\
               <TypeId>Camera</TypeId><SubtypeId>LargeCameraBlock</SubtypeId>\
               <Components><Component Subtype=\"SteelPlate\" Count=\"2\" /></Components>\
               </Definition>";
    let defcfg = DefinitionConfig::space_engineers();
    let mut table = RecipeTable::new();
    assert!(load_recipes(doc, &defcfg, &mut table).is_ok());

    let bp = blueprint_doc(&["WideLargeCameraBlock"]);
    let cfg = BlueprintConfig::space_engineers();
    let scan = scan_blueprint(&bp, &cfg, &table).unwrap();
    assert_eq!(scan.matched_count(), 1);
    assert_eq!(scan.instances[0], "LargeCameraBlock".to_string());
    assert_eq!(scan.missed.len(), 0);
}

#[test]
fn end_to_end_totals_matched_and_missed() {
    let table = gyro_table();
    let bp = blueprint_doc(&["LargeBlockGyro", "LargeBlockGyro", "UnknownBlockX"]);
    let cfg = BlueprintConfig::space_engineers();
    let scan = scan_blueprint(&bp, &cfg, &table).unwrap();
    let report = build_report(scan, &table);
    assert_eq!(report.matched_count, 2);
    assert_eq!(report.totals.get(&"SteelPlate".to_string()), Some(24));
    assert_eq!(report.totals.get(&"Construction".to_string()), Some(8));
    assert_eq!(report.hit_counts.get(&"LargeBlockGyro".to_string()), Some(2));
    assert_eq!(report.missed.len(), 1);
    assert!(report.missed.contains(&"UnknownBlockX".to_string()));
    assert!(!report.missed.contains(&"LargeBlockGyro".to_string()));
}

#[test]
fn missed_identifiers_are_deduplicated() {
    let table = gyro_table();
    let bp = blueprint_doc(&["NoSuchBlock", "NoSuchBlock", "OtherMissing"]);
    let cfg = BlueprintConfig::space_engineers();
    let scan = scan_blueprint(&bp, &cfg, &table).unwrap();
    assert_eq!(scan.matched_count(), 0);
    assert_eq!(scan.missed.len(), 2);
    assert!(scan.missed.contains(&"NoSuchBlock".to_string()));
    assert!(scan.missed.contains(&"OtherMissing".to_string()));
}

#[test]
fn discriminator_attribute_synthesizes_the_family_identifier() {
    let doc = "<Definition>\
               <TypeId>OxyGen</TypeId><SubtypeId>OxygenGenerator</SubtypeId>\
               <Components><Component Subtype=\"SteelPlate\" Count=\"6\" /></Components>\
               </Definition>";
    let defcfg = DefinitionConfig::space_engineers();
    let mut table = RecipeTable::new();
    assert!(load_recipes(doc, &defcfg, &mut table).is_ok());

    let bp = "<ShipBlueprint><CubeGrid><CubeBlocks>\
              <MyObjectBuilder_CubeBlock xsi:type=\"MyObjectBuilder_OxygenGenerator\">\
              <Other>text</Other>\
              </MyObjectBuilder_CubeBlock>\
              </CubeBlocks></CubeGrid></ShipBlueprint>";
    let cfg = BlueprintConfig::space_engineers();
    let scan = scan_blueprint(bp, &cfg, &table).unwrap();
    assert_eq!(scan.matched_count(), 1);
    assert_eq!(scan.instances[0], "OxygenGenerator".to_string());
    let report = build_report(scan, &table);
    assert_eq!(report.totals.get(&"SteelPlate".to_string()), Some(6));
}

#[test]
fn text_outside_the_type_name_element_is_ignored() {
    let table = gyro_table();
    let bp = "<ShipBlueprint><DisplayName>LargeBlockGyro</DisplayName>\
              <CubeGrid><CubeBlocks>\
              <MyObjectBuilder_CubeBlock><SubtypeName>LargeBlockGyro</SubtypeName></MyObjectBuilder_CubeBlock>\
              </CubeBlocks></CubeGrid></ShipBlueprint>";
    let cfg = BlueprintConfig::space_engineers();
    let scan = scan_blueprint(bp, &cfg, &table).unwrap();
    assert_eq!(scan.matched_count(), 1);
}
