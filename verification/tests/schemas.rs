//! Schemas, groups and identifiers.
use blam_tags::convert::groups::GameTagIndex;
use blam_tags::convert::schema::{SchemaFieldAliases, next_ancestor};
use blam_tags::guid::{format_group_tag, parse_group_tag, parse_schema_guid, schema_struct_key};

#[test]
fn compute_shader_group_fourcc_remaps_for_reach() {
    let halo3 = b"{\"tag_index\": {\"cmpu\": \"compute_shader\", \"weap\": \"weapon\"}}".to_vec();
    let reach = b"{\"tag_index\": {\"cmps\": \"compute_shader\", \"weap\": \"weapon\"}}".to_vec();
    let source = GameTagIndex::load("halo3_mcc/_meta.json", &halo3).unwrap();
    let target = GameTagIndex::load("haloreach_mcc/_meta.json", &reach).unwrap();
    let name = source.name_of(u32::from_be_bytes(*b"cmpu")).unwrap();
    assert_eq!(target.tag_of(name), Some(u32::from_be_bytes(*b"cmps")));
}

#[test]
fn a_broken_index_is_refused() {
    let error = GameTagIndex::load("x/_meta.json", &b"{".to_vec()).err().unwrap();
    assert!(error.starts_with("Could not parse x/_meta.json: "), "{error}");
    let error = GameTagIndex::load("x/_meta.json", &b"{}".to_vec()).err().unwrap();
    assert!(error.contains("tag_index"), "{error}");
}

const RENDER_MODEL: &str = "{\"structs\": {\"default_lightprobe\": {\"guid\": \
    \"411d27e578471259100c498a81d58751\", \"fields\": [{\"name\": \
    \"spherical harmonic{coefficient}*!\", \"type\": \"real\"}, {\"name\": \
    \"grenade angle:degrees\", \"type\": \"angle\"}, {\"name\": \"node count*!\"}]}}}";

#[test]
fn schema_alias_table_maps_renamed_render_model_coefficient() {
    let aliases = SchemaFieldAliases::load(
        "haloreach_mcc/render_model.json",
        &RENDER_MODEL.as_bytes().to_vec(),
        &Vec::new(),
    )
    .unwrap();
    let guid = parse_schema_guid("411d27e578471259100c498a81d58751").unwrap();
    assert!(aliases.matches(&guid, "default_lightprobe", "spherical harmonic", "coefficient"));
    assert!(aliases.is_editor_owned("node count"));
    assert!(aliases.is_engine_managed("node count"));
    assert!(!aliases.is_editor_owned("grenade angle"));
    assert!(!aliases.is_engine_managed("grenade angle"));
    assert_eq!(aliases.unit_of("grenade angle"), Some("degrees"));
    assert_eq!(aliases.unit_of("spherical harmonic"), None);
}

#[test]
fn a_broken_schema_is_refused() {
    let error =
        SchemaFieldAliases::load("a.json", &b"not json".to_vec(), &Vec::new()).err().unwrap();
    assert!(error.starts_with("Could not parse a.json: "), "{error}");
}

#[test]
fn a_zero_guid_struct_is_keyed_by_name_so_classic_aliases_do_not_collide() {
    let zero = [0u8; 16];
    let real = parse_schema_guid("411d27e578471259100c498a81d58751").unwrap();
    assert_ne!(
        schema_struct_key(&zero, "weapon_block_struct"),
        schema_struct_key(&zero, "unit_block_struct")
    );
    assert_eq!(
        schema_struct_key(&real, "weapon_group"),
        schema_struct_key(&real, "weapon_block_struct")
    );
    let schema = "{\"structs\": {\"one\": {\"guid\": \"00000000000000000000000000000000\", \
        \"fields\": [{\"name\": \"a{b}\"}]}, \"two\": {\"guid\": \
        \"00000000000000000000000000000000\", \"fields\": [{\"name\": \"c{d}\"}]}}}";
    let aliases =
        SchemaFieldAliases::load("weapon.json", &schema.as_bytes().to_vec(), &Vec::new()).unwrap();
    assert!(aliases.matches(&zero, "one", "a", "b"));
    assert!(!aliases.matches(&zero, "two", "a", "b"));
    assert!(aliases.matches(&zero, "two", "d", "c"));
}

#[test]
fn a_schema_former_name_marker_resolves_a_renamed_field() {
    let schema = "{\"structs\": {\"biped_ground_fitting_data_struct\": {\"guid\": \
        \"3849958ee7443781036a85bab008781b\", \"fields\": [{\"name\": \
        \"root offset max scale idle{root offset max scale}\"}]}}}";
    let aliases = SchemaFieldAliases::load(
        "haloreach_mcc/biped.json",
        &schema.as_bytes().to_vec(),
        &Vec::new(),
    )
    .expect("reach biped schema loads");
    let guid =
        parse_schema_guid("3849958ee7443781036a85bab008781b").expect("the ground-fitting struct guid");
    assert!(aliases.matches(
        &guid,
        "biped_ground_fitting_data_struct",
        "root offset max scale idle",
        "root offset max scale",
    ));
    assert!(aliases.matches(
        &guid,
        "biped_ground_fitting_data_struct",
        "root offset max scale",
        "root offset max scale idle",
    ));
}

#[test]
fn an_ancestor_lends_its_names() {
    let own = "{\"parent_tag\": \"unit\", \"structs\": {}}".as_bytes().to_vec();
    let parent = "{\"structs\": {\"u\": {\"guid\": \"00000000000000000000000000000000\", \
        \"fields\": [{\"name\": \"new{old}\"}]}}}"
        .as_bytes()
        .to_vec();
    let meta = "{\"tag_index\": {\"unit\": \"unit_file\"}}".as_bytes().to_vec();
    assert_eq!(next_ancestor(&meta, &own, 0), Some("unit_file".to_owned()));
    assert_eq!(next_ancestor(&meta, &own, 32), None);
    assert_eq!(next_ancestor(&meta, &parent, 0), None);
    let aliases = SchemaFieldAliases::load("x.json", &own, &vec![parent]).unwrap();
    assert!(aliases.matches(&[0; 16], "u", "new", "old"));
}

#[test]
fn an_identifier_is_thirty_two_digits() {
    assert!(parse_schema_guid("411d27e5").is_none());
    assert!(parse_schema_guid("411d27e578471259100c498a81d5875x").is_none());
    let guid = parse_schema_guid("411d27e578471259100c498a81d58751").unwrap();
    assert_eq!(guid[0], 0x41);
    assert_eq!(guid[15], 0x51);
}

#[test]
fn group_tags_are_four_characters() {
    assert_eq!(parse_group_tag("weap"), Some(u32::from_be_bytes(*b"weap")));
    assert_eq!(format_group_tag(u32::from_be_bytes(*b"rmd ")), "rmd ");
    assert_eq!(parse_group_tag("weapon"), None);
    assert_eq!(parse_group_tag(&format_group_tag(0x6a70_7421)), Some(0x6a70_7421));
}

#[test]
fn an_entered_group_is_found_both_ways() {
    let mut index = GameTagIndex::new();
    index.insert(5, "five");
    index.insert(6, "six");
    index.insert(5, "cinq");
    assert_eq!(index.name_of(5), Some("cinq"));
    assert_eq!(index.tag_of("six"), Some(6));
    assert_eq!(index.name_of(7), None);
}

#[test]
fn the_line_of_ancestors_ends_at_one_that_is_no_document() {
    let own = "{\"structs\": {}}".as_bytes().to_vec();
    let lends = |extra: &str, name: &str| {
        format!(
            "{{{extra}\"structs\": {{\"u\": {{\"guid\": \
             \"00000000000000000000000000000000\", \"fields\": [{{\"name\": \"{name}\"}}]}}}}}}"
        )
        .into_bytes()
    };
    let line = vec![
        lends("", "first{one}"),
        lends("\"size\": 1e999, ", "second{two}"),
        lends("", "third{three}"),
    ];
    let aliases = SchemaFieldAliases::load("x.json", &own, &line).unwrap();
    assert!(aliases.matches(&[0; 16], "u", "first", "one"));
    assert!(!aliases.matches(&[0; 16], "u", "second", "two"));
    assert!(!aliases.matches(&[0; 16], "u", "third", "three"));
}
