//! The catalog of reviewed mappings.
use blam_tags::convert::catalog::{
    ConversionMappingCatalog, FieldAliasRule, FieldMappingRequest, GroupAliasRule,
    IncompatiblePairRule, OptionAliasRule, ReferenceDropRule, UnusableSchemaRule,
    resolve_target_group,
};
use blam_tags::convert::groups::GameTagIndex;
use blam_tags::games::CAMPAIGN_EVOLVED_GAME;
use blam_tags::guid::parse_schema_guid;

fn names(list: &[&str]) -> Vec<String> {
    list.iter().map(|s| (*s).to_owned()).collect()
}

fn empty_catalog() -> ConversionMappingCatalog {
    ConversionMappingCatalog {
        version: 1,
        coverage: "all_supported_groups".to_owned(),
        covered_groups: Vec::new(),
        struct_mappings: Vec::new(),
        incompatible_pairs: Vec::new(),
        unusable_schemas: Vec::new(),
        reference_drops: Vec::new(),
        accepted_field_drops: Vec::new(),
        accepted_payload_drops: Vec::new(),
        field_aliases: Vec::new(),
        option_aliases: Vec::new(),
        group_aliases: Vec::new(),
        payload_aliases: Vec::new(),
    }
}

fn option(group: &str, field: &str, targets: &[&str], source: &str, target: &str) -> OptionAliasRule {
    OptionAliasRule {
        group: group.to_owned(),
        field: field.to_owned(),
        source_games: names(&["halo3_mcc"]),
        target_games: names(targets),
        source: source.to_owned(),
        target: target.to_owned(),
    }
}

fn drop_rule(group: &str, source: &str, target: &str, path: &str) -> ReferenceDropRule {
    ReferenceDropRule {
        group: group.to_owned(),
        source_games: names(&[source]),
        target_games: names(&[target]),
        source_path: path.to_owned(),
        reason: "reviewed".to_owned(),
    }
}

#[test]
fn mapping_catalog_is_scoped_and_reversible() {
    let mut catalog = empty_catalog();
    catalog.field_aliases.push(FieldAliasRule {
        group: "render_model".to_owned(),
        source_games: names(&["halo3_mcc"]),
        target_games: names(&["haloreach_mcc"]),
        source_struct_guid: Some("411d27e578471259100c498a81d58751".to_owned()),
        target_struct_guid: Some("411d27e578471259100c498a81d58751".to_owned()),
        source: "coefficient".to_owned(),
        target: "spherical harmonic".to_owned(),
    });
    catalog.option_aliases.push(option(
        "particle",
        "main flags",
        &["haloreach_mcc"],
        "dies in media",
        "dies in water",
    ));
    catalog.option_aliases.push(option(
        "effect",
        "flags",
        &["halo4_mcc"],
        "collide with media",
        "collide with water",
    ));
    catalog.option_aliases.push(option(
        "bitmap",
        "bitmap curve",
        &["haloreach_mcc"],
        "sRGB",
        "sRGB (gamma 2.2)",
    ));
    catalog.option_aliases.push(option(
        "weapon",
        "secondary flags",
        &["halo2amp_mcc"],
        "magnitizes only when zoomed",
        "magnetizes only when zoomed",
    ));
    let catalog = ConversionMappingCatalog::load(catalog).unwrap();
    let coefficient_guid = parse_schema_guid("411d27e578471259100c498a81d58751").unwrap();
    assert!(catalog.field_names_match(&FieldMappingRequest {
        group: "render_model",
        source_game: "halo3_mcc",
        target_game: "haloreach_mcc",
        source_guid: coefficient_guid,
        target_guid: coefficient_guid,
        source_name: "coefficient",
        target_name: "spherical harmonic",
    }));
    assert!(catalog.field_names_match(&FieldMappingRequest {
        group: "render_model",
        source_game: "haloreach_mcc",
        target_game: "halo3_mcc",
        source_guid: coefficient_guid,
        target_guid: coefficient_guid,
        source_name: "spherical harmonic",
        target_name: "coefficient",
    }));
    assert!(catalog.option_names_match(
        "particle",
        "main flags",
        "halo3_mcc",
        "haloreach_mcc",
        "dies in media",
        "dies in water"
    ));
    assert!(catalog.option_names_match(
        "particle",
        "main flags",
        "haloreach_mcc",
        "halo3_mcc",
        "dies in water",
        "dies in media"
    ));
    assert!(catalog.option_names_match(
        "effect",
        "systems[0]/emitters[0]/movement/flags",
        "halo3_mcc",
        "halo4_mcc",
        "collide with media",
        "collide with water"
    ));
    assert!(catalog.option_names_match(
        "bitmap",
        "bitmap curve",
        "halo3_mcc",
        "haloreach_mcc",
        "sRGB",
        "sRGB (gamma 2.2)"
    ));
    assert!(catalog.option_names_match(
        "weapon",
        "secondary flags",
        "halo3_mcc",
        "halo2amp_mcc",
        "magnitizes only when zoomed",
        "magnetizes only when zoomed"
    ));
    assert!(!catalog.option_names_match(
        "weapon",
        "main flags",
        "halo3_mcc",
        "haloreach_mcc",
        "dies in media",
        "dies in water"
    ));
}

fn animation_catalog() -> ConversionMappingCatalog {
    let mut catalog = empty_catalog();
    for path in [
        "definitions/skeleton nodes/node joint flags",
        "definitions/skeleton nodes/additional flags",
        "definitions/animations/shared animation data/facial wrinkle events",
    ] {
        catalog.accepted_field_drops.push(drop_rule(
            "model_animation_graph",
            "haloreach_mcc",
            CAMPAIGN_EVOLVED_GAME,
            path,
        ));
    }
    ConversionMappingCatalog::load(catalog).unwrap()
}

#[test]
fn an_uncatalogued_animation_graph_loss_still_refuses() {
    let catalog = animation_catalog();
    for field in [
        "definitions/skeleton nodes[0]/node joint flags",
        "definitions/skeleton nodes[7]/additional flags",
        "definitions/animations[0]/shared animation data[0]/facial wrinkle events[0]/region",
    ] {
        assert!(
            catalog
                .accepted_drop_reason(
                    "model_animation_graph",
                    "haloreach_mcc",
                    CAMPAIGN_EVOLVED_GAME,
                    field,
                )
                .is_some(),
            "{field} must be a reviewed drop, or every Reach graph refuses",
        );
    }
    assert!(catalog
        .accepted_drop_reason(
            "model_animation_graph",
            "haloreach_mcc",
            CAMPAIGN_EVOLVED_GAME,
            "definitions/some field nobody reviewed",
        )
        .is_none());
}

#[test]
fn a_dropped_container_covers_the_fields_inside_it() {
    let catalog = animation_catalog();
    let reason = |path: &str| {
        catalog
            .accepted_drop_reason(
                "model_animation_graph",
                "haloreach_mcc",
                CAMPAIGN_EVOLVED_GAME,
                path,
            )
            .is_some()
    };
    for path in [
        "definitions/animations[0]/shared animation data[0]/facial wrinkle events",
        "definitions/animations[0]/shared animation data[0]/facial wrinkle events[0]/wrinkle name",
        "definitions/animations[12]/shared animation data[0]/facial wrinkle events[3]/region",
    ] {
        assert!(reason(path), "`{path}` should be covered");
    }
    assert!(!reason(
        "definitions/animations[0]/shared animation data[0]/facial wrinkle eventsX"
    ));
    assert!(!reason("definitions/animations[0]/shared animation data[0]/some other field"));
}

#[test]
fn catalogued_legacy_model_and_particle_reference_drops_are_one_way() {
    let mut catalog = empty_catalog();
    for (group, field) in [("model", "lod_render_model"), ("particle", "shader")] {
        catalog.reference_drops.push(drop_rule(group, "halo3_mcc", "haloreach_mcc", field));
    }
    let catalog = ConversionMappingCatalog::load(catalog).unwrap();
    for (group, field) in [("model", "lod_render_model"), ("particle", "shader")] {
        assert!(catalog
            .reference_drop_reason(group, "halo3_mcc", "haloreach_mcc", field)
            .is_some());
        assert!(catalog
            .reference_drop_reason(group, "haloreach_mcc", "halo3_mcc", field)
            .is_none());
    }
}

fn fault(change: fn(&mut ConversionMappingCatalog)) -> String {
    let mut catalog = empty_catalog();
    change(&mut catalog);
    match ConversionMappingCatalog::load(catalog) {
        Ok(_) => panic!("a fault was expected"),
        Err(message) => message,
    }
}

#[test]
fn a_faulty_catalog_is_refused() {
    assert_eq!(
        fault(|c| c.version = 2),
        "Unsupported conversion mapping catalog version 2"
    );
    assert_eq!(
        fault(|c| c.coverage = "some".to_owned()),
        "Unsupported conversion mapping coverage policy some"
    );
    assert!(!fault(|c| c.option_aliases.push(option("", "f", &["haloreach_mcc"], "a", "b")))
        .is_empty());
    assert!(!fault(|c| c.option_aliases.push(option("g", "f", &["no such game"], "a", "b")))
        .is_empty());
    assert!(!fault(|c| c.incompatible_pairs.push(IncompatiblePairRule {
        group: "g".to_owned(),
        source_games: names(&["halo3_mcc"]),
        target_games: names(&["haloreach_mcc"]),
        reason: "".to_owned(),
    }))
    .is_empty());
}

#[test]
fn incompatibility_goes_both_ways() {
    let mut catalog = empty_catalog();
    catalog.incompatible_pairs.push(IncompatiblePairRule {
        group: "shader".to_owned(),
        source_games: names(&["halo2_mcc"]),
        target_games: names(&["halo3_mcc"]),
        reason: "no".to_owned(),
    });
    assert_eq!(catalog.incompatibility_reason("shader", "halo2_mcc", "halo3_mcc"), Some("no"));
    assert_eq!(catalog.incompatibility_reason("shader", "halo3_mcc", "halo2_mcc"), Some("no"));
    assert_eq!(catalog.incompatibility_reason("shader", "halo3_mcc", "halo4_mcc"), None);
    catalog.unusable_schemas.push(UnusableSchemaRule {
        group: "sky".to_owned(),
        games: names(&["halo4_mcc"]),
        reason: "cut short".to_owned(),
    });
    assert_eq!(catalog.unusable_schema_reason("sky", "halo4_mcc"), Some("cut short"));
    assert_eq!(catalog.unusable_schema_reason("sky", "halo3_mcc"), None);
}

#[test]
fn a_renamed_group_is_found_under_its_other_name() {
    let mut catalog = empty_catalog();
    catalog.group_aliases.push(GroupAliasRule {
        source: "contrail".to_owned(),
        target: "contrail_system".to_owned(),
        source_games: names(&["halo2_mcc"]),
        target_games: names(&["halo3_mcc"]),
        reason: "renamed".to_owned(),
    });
    assert_eq!(
        catalog.group_alias("contrail", "halo2_mcc", "halo3_mcc"),
        Some("contrail_system")
    );
    assert_eq!(
        catalog.group_alias("contrail_system", "halo3_mcc", "halo2_mcc"),
        Some("contrail")
    );
    let mut groups = GameTagIndex::new();
    groups.insert(7, "contrail_system");
    assert_eq!(
        resolve_target_group("contrail", &groups, &catalog, "halo2_mcc", "halo3_mcc"),
        Some((7, "contrail_system".to_owned()))
    );
    assert_eq!(resolve_target_group("sky", &groups, &catalog, "halo2_mcc", "halo3_mcc"), None);
}
