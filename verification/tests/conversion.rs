//! Converting whole tags between games.
use blam_tags::convert::analysis::{
    ConversionDefinitions, TagConversionDraft, analyze_conversion,
    analyze_conversion_with_templates, begin_conversion, finish_conversion, struct_at_path,
};
use blam_tags::convert::answers::EngineAnswers;
use blam_tags::convert::catalog::{
    ConversionMappingCatalog, IncompatiblePairRule, StructMappingRule,
};
use blam_tags::convert::defaults::reset_tag_to_defaults;
use blam_tags::convert::environment::{
    ConversionEnvironment, GameDefinitions, GroupSchema, NativeTemplate, NativeTemplateIndex,
};
use blam_tags::convert::functions::retarget_function_bytes;
use blam_tags::convert::groups::GameTagIndex;
use blam_tags::convert::leaves::convert_lens_flare_occlusion_scale;
use blam_tags::convert::matching::{
    block_field_by_key, field_by_key, field_ordinal_by_key, struct_field_by_key,
};
use blam_tags::convert::opening::{TagReading, classic_definition, read_tag_for_conversion};
use blam_tags::convert::questions::{Question, ask_of_struct};
use blam_tags::convert::references::{collect_reference_values, validate_reference_fidelity};
use blam_tags::convert::report::{ConversionContext, ConversionIssueKind, TagConversionReport};
use blam_tags::convert::routing::{
    HopFault, HopOutcome, HopReading, RoutedStep, TemplateSource, analyze_conversion_routed,
    reparse_intermediate, run_hop, take_listed, take_reopened, take_saved,
};
use blam_tags::convert::schema::SchemaFieldAliases;
use blam_tags::convert::shapes::transfer_resource;
use blam_tags::convert::templates::{
    CAMPAIGN_EVOLVED_GENERATION, apply_editing_kit_mcc_header, file_of_schema,
    requires_native_layout_template,
};
use blam_tags::convert::values::{convert_enum, quote};
use blam_tags::definition::{TagFieldDefinition, TagStructDefinition};
use blam_tags::fields::{TagFieldData, TagFieldType, TagReferenceData, label_of_type};
use blam_tags::file::TagFile;
use blam_tags::games::{CAMPAIGN_EVOLVED_GAME, CAMPAIGN_EVOLVED_PARENT};
use blam_tags::keys::clean_field_key;
use blam_tags::layout::{
    TagArrayLayout, TagBlockLayout, TagFieldLayout, TagFieldTypeLayout, TagLayout,
    TagResourceLayout, TagStructLayout,
};
use blam_tags::tag::{TagField, TagResourceContent, TagStruct, fresh_struct_of};

/// What a field of a test layout is.
#[derive(Clone, Copy)]
enum Kind {
    Plain(TagFieldType),
    Options(TagFieldType, &'static [&'static str]),
    Blob(&'static str),
    Nested(&'static str),
    List(&'static str),
    Fixed(&'static str, u32),
    Paged(&'static str),
}

/// A struct of a test layout.
struct Shape {
    name: &'static str,
    guid: [u8; 16],
    size: usize,
    fields: Vec<(&'static str, Kind)>,
}

fn shape(name: &'static str, fields: &[(&'static str, Kind)]) -> Shape {
    Shape { name, guid: [0; 16], size: 4 * fields.len(), fields: fields.to_vec() }
}

fn text(list: &mut Vec<String>, value: &str) -> u32 {
    if let Some(at) = list.iter().position(|entry| entry == value) {
        return at as u32;
    }
    list.push(value.to_owned());
    (list.len() - 1) as u32
}

/// A layout whose root is the first of the structs.
fn layout_of(shapes: &[Shape]) -> TagLayout {
    let place = |name: &str| -> u32 {
        shapes.iter().position(|s| s.name == name).expect("a struct of the layout") as u32
    };
    let mut layout = TagLayout {
        tag_group_block_index: 0,
        strings: Vec::new(),
        string_lists: Vec::new(),
        data_names: Vec::new(),
        field_types: Vec::new(),
        fields: Vec::new(),
        struct_layouts: Vec::new(),
        block_layouts: Vec::new(),
        array_layouts: Vec::new(),
        resource_layouts: Vec::new(),
        interop_layouts: Vec::new(),
        struct_tags: Vec::new(),
        struct_version_table: Vec::new(),
    };
    let mut types: Vec<TagFieldType> = Vec::new();
    for (index, s) in shapes.iter().enumerate() {
        let name_offset = text(&mut layout.strings, s.name);
        // Every struct has a block of its own, in the same place.
        layout.block_layouts.push(TagBlockLayout {
            index: index as u32,
            name_offset,
            max_count: 1024,
            struct_index: index as u32,
        });
    }
    for (index, s) in shapes.iter().enumerate() {
        let first = layout.fields.len() as u32;
        let mut offset: u32 = 0;
        for (name, kind) in s.fields.iter().chain([("", Kind::Plain(TagFieldType::Terminator))].iter()) {
            let (field_type, definition) = match kind {
                Kind::Plain(t) => {
                    let indexed = matches!(
                        t,
                        TagFieldType::CharBlockIndex
                            | TagFieldType::ShortBlockIndex
                            | TagFieldType::LongBlockIndex
                    );
                    (*t, if indexed { 0 } else { u32::MAX })
                }
                Kind::Options(t, names) => {
                    layout.string_lists.push(names.iter().map(|n| (*n).to_owned()).collect());
                    (*t, (layout.string_lists.len() - 1) as u32)
                }
                Kind::Blob(definition) => {
                    let at = text(&mut layout.strings, definition);
                    layout.data_names.push(at);
                    (TagFieldType::Data, (layout.data_names.len() - 1) as u32)
                }
                Kind::Nested(of) => (TagFieldType::Struct, place(of)),
                Kind::List(of) => (TagFieldType::Block, place(of)),
                Kind::Fixed(of, count) => {
                    let name_offset = text(&mut layout.strings, of);
                    layout.array_layouts.push(TagArrayLayout {
                        name_offset,
                        count: *count,
                        struct_index: place(of),
                    });
                    (TagFieldType::Array, (layout.array_layouts.len() - 1) as u32)
                }
                Kind::Paged(of) => {
                    let name_offset = text(&mut layout.strings, of);
                    layout.resource_layouts.push(TagResourceLayout {
                        name_offset,
                        struct_index: place(of),
                    });
                    (TagFieldType::PageableResource, (layout.resource_layouts.len() - 1) as u32)
                }
            };
            let type_index = match types.iter().position(|t| *t == field_type) {
                Some(at) => at as u32,
                None => {
                    types.push(field_type);
                    let name_offset = text(&mut layout.strings, label_of_type(field_type));
                    layout.field_types.push(TagFieldTypeLayout {
                        name_offset,
                        size: 4,
                        needs_sub_chunk: matches!(
                            field_type,
                            TagFieldType::Struct
                                | TagFieldType::Block
                                | TagFieldType::Array
                                | TagFieldType::Data
                                | TagFieldType::TagReference
                                | TagFieldType::StringId
                                | TagFieldType::PageableResource
                        ),
                    });
                    (types.len() - 1) as u32
                }
            };
            let name_offset = text(&mut layout.strings, name);
            layout.fields.push(TagFieldLayout {
                name_offset,
                type_index,
                field_type,
                offset,
                definition,
            });
            offset += 4;
        }
        let name_offset = text(&mut layout.strings, s.name);
        layout.struct_layouts.push(TagStructLayout {
            index: index as u32,
            name_offset,
            size: s.size,
            guid: s.guid,
            version: 0,
            first_field_index: first,
        });
    }
    assert!(layout.is_valid());
    layout
}


fn fourcc(name: &str) -> u32 {
    let b = name.as_bytes();
    u32::from_be_bytes([b[0], b[1], b[2], b[3]])
}

fn schema(group: &str, tag: &str, shapes: &[Shape]) -> GroupSchema {
    GroupSchema {
        group_name: group.to_owned(),
        group_tag: fourcc(tag),
        group_version: 1,
        layout: Ok(layout_of(shapes)),
        aliases: SchemaFieldAliases::new(),
    }
}

fn game(name: &str, schemas: Vec<GroupSchema>) -> GameDefinitions {
    let mut groups = GameTagIndex::new();
    for s in &schemas {
        groups.insert(s.group_tag, &s.group_name);
    }
    GameDefinitions {
        game: name.to_owned(),
        folder: format!("definitions/{name}"),
        groups,
        schemas,
        schema_faults: Vec::new(),
        extensions: Vec::new(),
        has_dependency_schema: true,
    }
}

fn names(list: &[&str]) -> Vec<String> {
    list.iter().map(|s| (*s).to_owned()).collect()
}

fn empty_catalog() -> ConversionMappingCatalog {
    ConversionMappingCatalog {
        version: 1,
        coverage: "all_supported_groups".to_owned(),
        covered_groups: Vec::new(),
        struct_mappings: Vec::new(),
        incompatible_pairs: Vec::new(),
        unusable_schemas: Vec::new(),
        reference_drops: Vec::new(),
        accepted_field_drops: Vec::new(),
        accepted_payload_drops: Vec::new(),
        field_aliases: Vec::new(),
        option_aliases: Vec::new(),
        group_aliases: Vec::new(),
        payload_aliases: Vec::new(),
    }
}

fn definitions(games: Vec<GameDefinitions>, catalog: ConversionMappingCatalog) -> ConversionDefinitions {
    ConversionDefinitions {
        games,
        faults: Vec::new(),
        answers: EngineAnswers {
            curves: Vec::new(),
            numbers: Vec::new(),
            constant_function: 1,
            gpu_flag: 0x20,
            resource_differs: "the resource definitions differ".to_owned(),
            resource_missing: "the target is not a resource".to_owned(),
        },
        catalog: ConversionMappingCatalog::load(catalog).expect("a catalog without faults"),
    }
}

/// A fresh tag of a group.
fn fresh(definitions: &ConversionDefinitions, game: &str, group: &str) -> TagFile {
    let own = definitions.games.iter().find(|g| g.game == game).expect("a game");
    let schema = own.schemas.iter().find(|s| s.group_name == group).expect("a schema");
    file_of_schema(schema).expect("a layout without faults")
}

fn set(structure: &mut TagStruct, key: &str, value: TagFieldData) {
    let ordinal = field_ordinal_by_key(structure, key).expect("a field of the struct");
    assert!(structure.at_mut(ordinal).set(value).is_ok());
}

fn set_struct_reference(structure: &mut TagStruct, key: &str, group_tag: u32, path: &str) {
    set(
        structure,
        key,
        TagFieldData::TagReference(TagReferenceData {
            group_tag_and_name: Some((group_tag, path.to_owned())),
        }),
    );
}

fn refusal(result: Result<TagConversionDraft, String>) -> String {
    match result {
        Ok(_) => panic!("a refusal was expected"),
        Err(error) => error,
    }
}

/// The list of dependencies that a conversion is given where it asks for one.
fn listed() -> Result<Vec<u8>, String> {
    Ok(vec![1, 2, 3])
}

fn convert_directly(
    source: &TagFile,
    source_game: &str,
    target_game: &str,
    definitions: &ConversionDefinitions,
    kit: Option<Vec<NativeTemplate>>,
) -> Result<TagConversionDraft, String> {
    analyze_conversion(source, source_game, target_game, definitions, kit, listed())
}

fn convert_with_kit(
    source: &TagFile,
    source_game: &str,
    target_game: &str,
    definitions: &ConversionDefinitions,
    templates: Option<&NativeTemplateIndex>,
) -> Result<TagConversionDraft, String> {
    analyze_conversion_with_templates(
        source,
        source_game,
        target_game,
        definitions,
        templates,
        listed(),
    )
}

/// Runs the steps of a routed conversion. `save` is what saving a tag into a game and
/// opening it again gives.
fn convert_saving<T: TemplateSource>(
    source: &TagFile,
    source_game: &str,
    target_game: &str,
    definitions: &ConversionDefinitions,
    templates: &T,
    save: &mut dyn FnMut(TagFile, &str) -> Result<TagFile, HopFault>,
) -> Result<TagConversionDraft, String> {
    let mut step =
        analyze_conversion_routed(source, source_game, target_game, definitions, templates)?;
    loop {
        step = match step {
            RoutedStep::Done(draft) => return Ok(draft),
            RoutedStep::List { pending, state } => {
                take_listed(state, pending, listed(), source, definitions, templates)?
            }
            RoutedStep::Reopen { tag, state } => {
                let to = state.routes[state.at][state.hop + 1].clone();
                let event = save(tag, &to);
                take_saved(state, event, source, definitions, templates)?
            }
        };
    }
}

fn convert_by_routes<T: TemplateSource>(
    source: &TagFile,
    source_game: &str,
    target_game: &str,
    definitions: &ConversionDefinitions,
    templates: &T,
) -> Result<TagConversionDraft, String> {
    let mut keep = |tag: TagFile, _: &str| reparse_intermediate(HopReading::Modern(Ok(tag)));
    convert_saving(source, source_game, target_game, definitions, templates, &mut keep)
}

// ---------------------------------------------------------------------------
// Routing
// ---------------------------------------------------------------------------
fn bitmap_definitions() -> ConversionDefinitions {
    let shapes = || {
        [
            shape(
                "bitmap",
                &[
                    ("usage", Kind::Plain(TagFieldType::ShortInteger)),
                    ("bitmaps", Kind::List("bitmap_data")),
                ],
            ),
            shape("bitmap_data", &[("width", Kind::Plain(TagFieldType::ShortInteger))]),
        ]
    };
    let mut catalog = empty_catalog();
    catalog.incompatible_pairs.push(IncompatiblePairRule {
        group: "bitmap".to_owned(),
        source_games: names(&["halo2_mcc"]),
        target_games: names(&["haloreach_mcc"]),
        reason: "nothing in the target indexes the pixels; convert through Halo 3 instead"
            .to_owned(),
    });
    definitions(
        ["halo2_mcc", "halo3_mcc", "halo3odst_mcc", "haloreach_mcc"]
            .iter()
            .map(|name| game(name, vec![schema("bitmap", "bitm", &shapes())]))
            .collect(),
        catalog,
    )
}

#[test]
fn a_halo_2_bitmap_reaches_reach_through_halo_3() {
    let definitions = bitmap_definitions();
    let source = fresh(&definitions, "halo2_mcc", "bitmap");
    let direct = convert_with_kit(
        &source,
        "halo2_mcc",
        "haloreach_mcc",
        &definitions,
        None,
    );
    let refused = refusal(direct).to_ascii_lowercase();
    assert!(refused.contains("halo 3") || refused.contains("halo3"), "{refused}");
    let routed =
        convert_by_routes(&source, "halo2_mcc", "haloreach_mcc", &definitions, &())
            .expect("routing through Halo 3 carries it");
    assert_eq!(routed.route, vec!["halo2_mcc", "halo3_mcc", "haloreach_mcc"]);
    assert_eq!(routed.target_extension, "bitmap");
    assert_eq!(routed.tag.header.group_tag, u32::from_be_bytes(*b"bitm"));
}

#[test]
fn a_halo_2_bitmap_or_shader_is_refused_rather_than_written_unusable() {
    let mut definitions = bitmap_definitions();
    for own in definitions.games.iter_mut() {
        if own.game == "halo2_mcc" || own.game == "halo3_mcc" || own.game == "haloreach_mcc" {
            let extra = schema(
                "shader",
                "shad",
                &[shape("shader", &[("flags", Kind::Plain(TagFieldType::LongInteger))])],
            );
            own.groups.insert(extra.group_tag, &extra.group_name);
            own.schemas.push(extra);
        }
    }
    definitions.catalog.incompatible_pairs.push(IncompatiblePairRule {
        group: "shader".to_owned(),
        source_games: names(&["halo2_mcc"]),
        target_games: names(&["halo3_mcc", "haloreach_mcc"]),
        reason: "a shader of one is no shader of the other".to_owned(),
    });
    for (group, targets) in [
        ("bitmap", &["haloreach_mcc"][..]),
        ("shader", &["halo3_mcc", "haloreach_mcc"][..]),
    ] {
        let source = fresh(&definitions, "halo2_mcc", group);
        for target in targets {
            let error =
                refusal(convert_directly(&source, "halo2_mcc", target, &definitions, None));
            assert!(error.contains("explicitly incompatible"), "{group} -> {target}: {error}");
        }
    }
}

fn weapon_shapes() -> [Shape; 1] {
    [shape(
        "weapon",
        &[
            ("flags", Kind::Plain(TagFieldType::LongInteger)),
            ("heat recovery rate", Kind::Plain(TagFieldType::Real)),
            ("icon", Kind::Plain(TagFieldType::TagReference)),
            ("label", Kind::Plain(TagFieldType::StringId)),
        ],
    )]
}

fn weapon_definitions() -> ConversionDefinitions {
    definitions(
        ["halo3_mcc", "halo3odst_mcc", "haloreach_mcc", "halo4_mcc", "halo2amp_mcc"]
            .iter()
            .map(|name| {
                let mut own = game(name, vec![schema("weapon", "weap", &weapon_shapes())]);
                own.groups.insert(fourcc("bitm"), "bitmap");
                own
            })
            .collect(),
        empty_catalog(),
    )
}

#[test]
fn a_direct_conversion_is_not_routed() {
    let definitions = weapon_definitions();
    let source = fresh(&definitions, "halo3_mcc", "weapon");
    let draft = convert_by_routes(&source, "halo3_mcc", "haloreach_mcc", &definitions, &())
        .unwrap();
    assert!(draft.route.is_empty(), "{:?}", draft.route);
}

#[test]
fn an_unroutable_pair_reports_every_route_it_tried() {
    let definitions = weapon_definitions();
    let source = fresh(&definitions, "halo3_mcc", "weapon");
    let error = refusal(convert_by_routes(
        &source,
        "halo3_mcc",
        CAMPAIGN_EVOLVED_GAME,
        &definitions,
        &(),
    ));
    assert!(error.contains(CAMPAIGN_EVOLVED_PARENT), "{error}");
}

#[test]
fn halo3_weapon_analyzes_for_every_supported_later_profile() {
    let definitions = weapon_definitions();
    let source = fresh(&definitions, "halo3_mcc", "weapon");
    for target in ["haloreach_mcc", "halo4_mcc", "halo2amp_mcc"] {
        let draft = convert_directly(&source, "halo3_mcc", target, &definitions, None)
            .unwrap_or_else(|error| panic!("{target}: {error}"));
        assert_eq!(draft.tag.header.group_tag, u32::from_be_bytes(*b"weap"));
        assert_eq!(draft.tag.header.build_version, 1);
        assert_eq!(
            draft.tag.header.build_number,
            if target == "haloreach_mcc" || target == "halo4_mcc" || target == "halo2amp_mcc" {
                2
            } else {
                1
            }
        );
        assert_eq!(draft.tag.header.version, u32::MAX);
    }
}

#[test]
fn editing_kit_header_defaults_match_profile_generations() {
    let definitions = weapon_definitions();
    for (game, build_number) in [
        ("halo3_mcc", 1),
        ("halo3odst_mcc", 1),
        ("haloreach_mcc", 2),
        ("halo4_mcc", 2),
        ("halo2amp_mcc", 2),
    ] {
        let mut tag = fresh(&definitions, game, "weapon");
        apply_editing_kit_mcc_header(&mut tag, game).unwrap();
        assert_eq!(tag.header.build_version, 1);
        assert_eq!(tag.header.build_number, build_number);
        assert_eq!(tag.header.version, u32::MAX);
    }
}

#[test]
fn missing_target_group_is_rejected() {
    let button = [shape(
        "gui_button_key_definition",
        &[("flags", Kind::Plain(TagFieldType::LongInteger))],
    )];
    let definitions = definitions(
        vec![
            game("halo3_mcc", vec![schema("gui_button_key_definition", "bkey", &button)]),
            game("haloreach_mcc", vec![schema("weapon", "weap", &weapon_shapes())]),
        ],
        empty_catalog(),
    );
    let source = fresh(&definitions, "halo3_mcc", "gui_button_key_definition");
    let error =
        refusal(convert_directly(&source, "halo3_mcc", "haloreach_mcc", &definitions, None));
    assert!(error.contains("has no gui_button_key_definition tag group"), "{error}");
}

// ---------------------------------------------------------------------------
// Values
// ---------------------------------------------------------------------------
fn number_of(field: Option<&TagField>) -> Option<f32> {
    match field?.value()? {
        TagFieldData::Real(bits) => Some(f32::from_bits(*bits)),
        _ => None,
    }
}

#[test]
fn light_values_reparent_into_halo4_midnight_parameters() {
    let mut catalog = empty_catalog();
    catalog.struct_mappings.push(StructMappingRule {
        group: "light".to_owned(),
        source_games: names(&["halo3_mcc"]),
        target_games: names(&["halo4_mcc"]),
        source_path: "".to_owned(),
        target_path: "midnight_light_parameters".to_owned(),
        bidirectional: false,
    });
    let definitions = definitions(
        vec![
            game(
                "halo3_mcc",
                vec![schema(
                    "light",
                    "ligh",
                    &[shape(
                        "light",
                        &[
                            ("flags", Kind::Plain(TagFieldType::LongInteger)),
                            ("destroy light after", Kind::Plain(TagFieldType::Real)),
                        ],
                    )],
                )],
            ),
            game(
                "halo4_mcc",
                vec![schema(
                    "light",
                    "ligh",
                    &[
                        shape(
                            "light",
                            &[("midnight_light_parameters", Kind::Nested("midnight_light"))],
                        ),
                        shape(
                            "midnight_light",
                            &[
                                ("flags", Kind::Plain(TagFieldType::LongInteger)),
                                ("destroy light after", Kind::Plain(TagFieldType::Real)),
                            ],
                        ),
                    ],
                )],
            ),
        ],
        catalog,
    );
    let mut source = fresh(&definitions, "halo3_mcc", "light");
    set(&mut source.root, "destroy light after", TagFieldData::Real(7.5f32.to_bits()));
    let draft =
        convert_directly(&source, "halo3_mcc", "halo4_mcc", &definitions, None).unwrap();
    let midnight = struct_field_by_key(&draft.tag.root, "midnight_light_parameters").unwrap();
    assert_eq!(number_of(field_by_key(midnight, "destroy light after")), Some(7.5));
}

#[test]
fn halo3_reverb_values_reparent_into_reach_settings() {
    let mut catalog = empty_catalog();
    catalog.struct_mappings.push(StructMappingRule {
        group: "sound_environment".to_owned(),
        source_games: names(&["halo3_mcc"]),
        target_games: names(&["haloreach_mcc"]),
        source_path: "".to_owned(),
        target_path: "reverb settings".to_owned(),
        bidirectional: true,
    });
    let definitions = definitions(
        vec![
            game(
                "halo3_mcc",
                vec![schema(
                    "sound_environment",
                    "snde",
                    &[shape(
                        "sound_environment",
                        &[("room intensity", Kind::Plain(TagFieldType::Real))],
                    )],
                )],
            ),
            game(
                "haloreach_mcc",
                vec![schema(
                    "sound_environment",
                    "snde",
                    &[
                        shape(
                            "sound_environment",
                            &[("reverb settings", Kind::Nested("reverb"))],
                        ),
                        shape("reverb", &[("room intensity", Kind::Plain(TagFieldType::Real))]),
                    ],
                )],
            ),
        ],
        catalog,
    );
    let mut source = fresh(&definitions, "halo3_mcc", "sound_environment");
    set(&mut source.root, "room intensity", TagFieldData::Real((-4.25f32).to_bits()));
    let draft =
        convert_directly(&source, "halo3_mcc", "haloreach_mcc", &definitions, None).unwrap();
    let reverb = struct_field_by_key(&draft.tag.root, "reverb settings").unwrap();
    assert_eq!(number_of(field_by_key(reverb, "room intensity")), Some(-4.25));
}

#[test]
fn a_nan_in_the_source_does_not_reach_the_converted_tag() {
    let definitions = weapon_definitions();
    let mut source = fresh(&definitions, "halo3_mcc", "weapon");
    set(&mut source.root, "heat recovery rate", TagFieldData::Real(f32::NAN.to_bits()));
    let draft = convert_with_kit(
        &source,
        "halo3_mcc",
        "haloreach_mcc",
        &definitions,
        None,
    )
    .expect("a weapon converts");
    let carried = number_of(field_by_key(&draft.tag.root, "heat recovery rate")).unwrap();
    assert!(carried.is_finite());
    assert!(
        draft.report.issues.iter().any(|issue| issue.message.contains("not a finite number")),
        "{:?}",
        draft.report.issues
    );
}

#[test]
fn runtime_sensitive_groups_fail_instead_of_dropping_authored_fields() {
    let definitions = definitions(
        vec![
            game(
                "halo3_mcc",
                vec![schema(
                    "light",
                    "ligh",
                    &[shape(
                        "light",
                        &[
                            ("flags", Kind::Plain(TagFieldType::LongInteger)),
                            ("percent spherical", Kind::Plain(TagFieldType::Real)),
                        ],
                    )],
                )],
            ),
            game(
                "haloreach_mcc",
                vec![schema(
                    "light",
                    "ligh",
                    &[shape("light", &[("flags", Kind::Plain(TagFieldType::LongInteger))])],
                )],
            ),
        ],
        empty_catalog(),
    );
    let mut source = fresh(&definitions, "halo3_mcc", "light");
    set(&mut source.root, "percent spherical", TagFieldData::Real(0.75f32.to_bits()));
    let error =
        refusal(convert_directly(&source, "halo3_mcc", "haloreach_mcc", &definitions, None));
    assert!(error.contains("light conversion would lose 1 meaningful"), "{error}");
    assert!(error.contains("percent spherical"), "{error}");
}

#[test]
fn reference_fidelity_rejects_missing_non_empty_reference() {
    let definitions = weapon_definitions();
    let mut source = fresh(&definitions, "halo3_mcc", "weapon");
    set_struct_reference(&mut source.root, "icon", fourcc("bitm"), "objects\\test\\icon");
    let target = fresh(&definitions, "haloreach_mcc", "weapon");
    let aliases = SchemaFieldAliases::new();
    let env = ConversionEnvironment {
        source_groups: &definitions.games[0].groups,
        target: &definitions.games[2],
        templates: None,
        source_field_aliases: &aliases,
        target_field_aliases: &aliases,
        mapping_catalog: &definitions.catalog,
        answers: &definitions.answers,
        source_layout: &source.layout,
        source_game: "halo3_mcc",
        target_game: "haloreach_mcc",
        group_name: "weapon",
    };
    let mut report = TagConversionReport::new();
    let error = validate_reference_fidelity(&source.root, &target.root, &env, &mut report)
        .unwrap_err();
    assert!(error.contains("objects\\test\\icon"), "{error}");
}

// ---------------------------------------------------------------------------
// Layouts that changed
// ---------------------------------------------------------------------------
fn melee_shapes_of_three_hits() -> [Shape; 2] {
    let reference = Kind::Plain(TagFieldType::TagReference);
    [
        shape(
            "weapon",
            &[
                ("flags", Kind::Plain(TagFieldType::LongInteger)),
                ("melee damage parameters", Kind::Nested("melee")),
            ],
        ),
        shape(
            "melee",
            &[
                ("1st hit melee damage", reference),
                ("1st hit melee response", reference),
                ("2nd hit melee damage", reference),
                ("2nd hit melee response", reference),
                ("3rd hit melee damage", reference),
                ("3rd hit melee response", reference),
            ],
        ),
    ]
}

fn melee_shapes_of_a_block() -> [Shape; 2] {
    let reference = Kind::Plain(TagFieldType::TagReference);
    [
        shape(
            "weapon",
            &[
                ("flags", Kind::Plain(TagFieldType::LongInteger)),
                ("melee damage parameters", Kind::List("melee")),
            ],
        ),
        shape(
            "melee",
            &[
                ("1st hit melee damage", reference),
                ("1st hit melee response", reference),
                ("2nd hit melee damage", reference),
                ("2nd hit melee response", reference),
                ("3rd hit melee damage", reference),
                ("3rd hit melee response", reference),
                ("melee damage", reference),
                ("melee response", reference),
            ],
        ),
    ]
}

#[test]
fn halo3_melee_hit_references_map_to_unique_reach_block_entries() {
    let with_damage = |name: &str, shapes: &[Shape]| {
        let mut own = game(name, vec![schema("weapon", "weap", shapes)]);
        own.groups.insert(fourcc("jpt!"), "damage_effect");
        own
    };
    let definitions = definitions(
        vec![
            with_damage("halo3_mcc", &melee_shapes_of_three_hits()),
            with_damage("haloreach_mcc", &melee_shapes_of_a_block()),
        ],
        empty_catalog(),
    );
    let mut source = fresh(&definitions, "halo3_mcc", "weapon");
    let damage_group = u32::from_be_bytes(*b"jpt!");
    let ordinal = field_ordinal_by_key(&source.root, "melee damage parameters").unwrap();
    let melee = source.root.at_mut(ordinal).as_struct_mut().unwrap();
    for (prefix, damage) in [
        ("1st hit", "objects\\weapons\\damage_effects\\strike_melee"),
        ("2nd hit", "objects\\weapons\\damage_effects\\strike_melee"),
        ("3rd hit", "objects\\weapons\\damage_effects\\smash_melee"),
    ] {
        set_struct_reference(melee, &format!("{prefix} melee damage"), damage_group, damage);
        set_struct_reference(
            melee,
            &format!("{prefix} melee response"),
            damage_group,
            "globals\\trigger_melee",
        );
    }
    let draft =
        convert_directly(&source, "halo3_mcc", "haloreach_mcc", &definitions, None).unwrap();
    let melee_block = block_field_by_key(&draft.tag.root, "melee damage parameters").unwrap();
    assert_eq!(melee_block.len(), 2);
    let mut references = Vec::new();
    collect_reference_values(&draft.tag.root, "", &mut references);
    for path in [
        "objects\\weapons\\damage_effects\\strike_melee",
        "globals\\trigger_melee",
        "objects\\weapons\\damage_effects\\smash_melee",
    ] {
        assert!(references.iter().any(|reference| reference.tag_path == path), "{path}");
    }
}

#[test]
fn halo3_effect_looping_sound_maps_into_reach_block() {
    let reference = Kind::Plain(TagFieldType::TagReference);
    let with_sound = |name: &str, shapes: &[Shape]| {
        let mut own = game(name, vec![schema("effect", "effe", shapes)]);
        own.groups.insert(fourcc("lsnd"), "sound_looping");
        own
    };
    let definitions = definitions(
        vec![
            with_sound(
                "halo3_mcc",
                &[shape(
                    "effect",
                    &[
                        ("flags", Kind::Plain(TagFieldType::LongInteger)),
                        ("looping sound", reference),
                        ("location", Kind::Plain(TagFieldType::CharBlockIndex)),
                        ("bind scale to event", Kind::Plain(TagFieldType::CharBlockIndex)),
                    ],
                )],
            ),
            with_sound(
                "haloreach_mcc",
                &[
                    shape(
                        "effect",
                        &[
                            ("flags", Kind::Plain(TagFieldType::LongInteger)),
                            ("looping sounds", Kind::List("looping")),
                        ],
                    ),
                    shape(
                        "looping",
                        &[
                            ("looping sound", reference),
                            ("location", Kind::Plain(TagFieldType::ShortBlockIndex)),
                            ("bind scale to event", Kind::Plain(TagFieldType::ShortBlockIndex)),
                        ],
                    ),
                ],
            ),
        ],
        empty_catalog(),
    );
    let mut source = fresh(&definitions, "halo3_mcc", "effect");
    set_struct_reference(
        &mut source.root,
        "looping sound",
        u32::from_be_bytes(*b"lsnd"),
        "sound\\visual_fx\\fire_large\\fire_large",
    );
    for (key, value) in [("location", 3), ("bind scale to event", 2)] {
        set(&mut source.root, key, TagFieldData::CharBlockIndex(value));
    }
    let draft =
        convert_directly(&source, "halo3_mcc", "haloreach_mcc", &definitions, None).unwrap();
    let looping = block_field_by_key(&draft.tag.root, "looping sounds").unwrap();
    assert_eq!(looping.len(), 1);
    let element = looping.at(0);
    assert!(matches!(
        field_by_key(element, "looping sound").and_then(|field| field.value()),
        Some(TagFieldData::TagReference(TagReferenceData {
            group_tag_and_name: Some((group, path)),
        })) if *group == u32::from_be_bytes(*b"lsnd")
            && path == "sound\\visual_fx\\fire_large\\fire_large"
    ));
    assert!(matches!(
        field_by_key(element, "location").and_then(|field| field.value()),
        Some(TagFieldData::ShortBlockIndex(3))
    ));
    assert!(matches!(
        field_by_key(element, "bind scale to event").and_then(|field| field.value()),
        Some(TagFieldData::ShortBlockIndex(2))
    ));
}

#[test]
fn halo3_lens_flare_occlusion_enum_maps_to_reach_scale() {
    let definitions = definitions(
        vec![
            game(
                "halo3_mcc",
                vec![schema(
                    "lens_flare",
                    "lens",
                    &[shape(
                        "lens_flare",
                        &[(
                            "occlusion inner radius scale",
                            Kind::Options(TagFieldType::ShortEnum, &["none", "1/2", "1/4", "1/8"]),
                        )],
                    )],
                )],
            ),
            game(
                "haloreach_mcc",
                vec![schema(
                    "lens_flare",
                    "lens",
                    &[shape(
                        "lens_flare",
                        &[("occlusion inner radius scale", Kind::Plain(TagFieldType::Real))],
                    )],
                )],
            ),
        ],
        empty_catalog(),
    );
    let mut source = fresh(&definitions, "halo3_mcc", "lens_flare");
    set(
        &mut source.root,
        "occlusion inner radius scale",
        TagFieldData::ShortEnum { value: 3, name: Some("1/8".to_owned()) },
    );
    let draft =
        convert_directly(&source, "halo3_mcc", "haloreach_mcc", &definitions, None).unwrap();
    assert_eq!(
        number_of(field_by_key(&draft.tag.root, "occlusion inner radius scale")),
        Some(0.125)
    );
}

// ---------------------------------------------------------------------------
// Animation graphs
// ---------------------------------------------------------------------------
fn halo3_graph() -> Vec<Shape> {
    vec![
        shape("model_animation_graph", &[("definitions", Kind::Nested("definitions"))]),
        shape("definitions", &[("animations*|ABCDCC", Kind::List("animation"))]),
        shape("animation", &[("node count*", Kind::Plain(TagFieldType::CharInteger))]),
    ]
}

fn reach_graph() -> Vec<Shape> {
    vec![
        shape("model_animation_graph", &[("definitions", Kind::Nested("definitions"))]),
        shape(
            "definitions",
            &[
                ("animations*|ABCDCC", Kind::List("animation")),
                ("sound references|ABCDCC!*#Legacy field", Kind::List("sound_reference")),
            ],
        ),
        shape(
            "animation",
            &[
                ("shared animation reference*", Kind::Nested("shared_reference")),
                ("shared animation data*", Kind::List("shared_model_animation_block")),
            ],
        ),
        shape(
            "shared_reference",
            &[
                ("graph reference*", Kind::Plain(TagFieldType::TagReference)),
                ("shared animation index*", Kind::Plain(TagFieldType::ShortBlockIndex)),
            ],
        ),
        shape(
            "shared_model_animation_block",
            &[("node count*", Kind::Plain(TagFieldType::CharInteger))],
        ),
        shape("sound_reference", &[("sound", Kind::Plain(TagFieldType::TagReference))]),
    ]
}

fn field_starting<'a>(structure: &'a TagStruct, start: &str) -> Option<&'a TagField> {
    (0..structure.len())
        .map(|i| structure.at(i))
        .find(|field| clean_field_key(field.name()).starts_with(start))
}

#[test]
fn reach_animation_entries_default_unmapped_shared_reference_to_none() {
    let definitions = definitions(
        vec![
            game("halo3_mcc", vec![schema("model_animation_graph", "jmad", &halo3_graph())]),
            game("haloreach_mcc", vec![schema("model_animation_graph", "jmad", &reach_graph())]),
        ],
        empty_catalog(),
    );
    let mut source = fresh(&definitions, "halo3_mcc", "model_animation_graph");
    let layout = source.layout.duplicate();
    let own = source.root.at_mut(0).as_struct_mut().unwrap();
    let animations = own.at_mut(0).as_block_mut().unwrap();
    let index = animations.add_element(&layout);
    let animation = animations.at_mut(index);
    let _ = animation.at_mut(0).set(TagFieldData::CharInteger(7));
    assert_eq!(
        struct_at_path(&source.root, "definitions")
            .and_then(|s| field_starting(s, "animations"))
            .and_then(|field| field.as_block())
            .map(|block| block.len()),
        Some(1)
    );
    let draft =
        convert_directly(&source, "halo3_mcc", "haloreach_mcc", &definitions, None).unwrap();
    let target = struct_at_path(&draft.tag.root, "definitions").unwrap();
    let animations = field_starting(target, "animations").and_then(|f| f.as_block()).unwrap();
    assert_eq!(animations.len(), 1, "animation block was not transferred");
    let animation = animations.at(0);
    let shared = field_starting(animation, "shared animation reference")
        .and_then(|field| field.as_struct())
        .unwrap();
    assert!(matches!(
        field_starting(shared, "graph reference").and_then(|field| field.value()),
        Some(TagFieldData::TagReference(TagReferenceData { group_tag_and_name: None }))
    ));
    assert!(matches!(
        field_starting(shared, "shared animation index").and_then(|field| field.value()),
        Some(TagFieldData::ShortBlockIndex(-1))
    ));
    let data = field_starting(animation, "shared animation data")
        .and_then(|field| field.as_block())
        .unwrap();
    assert_eq!(data.len(), 1);
    assert!(matches!(
        field_starting(data.at(0), "node count").and_then(|field| field.value()),
        Some(TagFieldData::CharInteger(7))
    ));
    assert_eq!(
        field_starting(target, "sound references")
            .and_then(|field| field.as_block())
            .map(|block| block.len()),
        Some(0)
    );
}

fn campaign_graph() -> Vec<Shape> {
    let mut shapes = reach_graph();
    for s in shapes.iter_mut() {
        if s.name == "shared_model_animation_block" {
            s.size = 200;
        }
    }
    shapes
}

#[test]
fn a_reach_animation_graph_converts_into_campaign_evolved() {
    let mut reach = reach_graph();
    for s in reach.iter_mut() {
        if s.name == "shared_model_animation_block" {
            s.size = 212;
        }
    }
    let definitions = definitions(
        vec![
            game("haloreach_mcc", vec![schema("model_animation_graph", "jmad", &reach)]),
            game(
                CAMPAIGN_EVOLVED_GAME,
                vec![schema("model_animation_graph", "jmad", &campaign_graph())],
            ),
        ],
        empty_catalog(),
    );
    let source = fresh(&definitions, "haloreach_mcc", "model_animation_graph");
    let draft = convert_directly(
        &source,
        "haloreach_mcc",
        CAMPAIGN_EVOLVED_GAME,
        &definitions,
        None,
    )
    .expect("a Reach animation graph must convert into Campaign Evolved");
    let root = draft.tag.definitions().root_struct();
    let find = |s: &TagStructDefinition<'_>, start: &str| {
        s.fields()
            .into_iter()
            .find(|field| clean_field_key(field.name()).starts_with(start))
            .map(|field| field.field_index)
            .unwrap()
    };
    let at = |index: usize| TagFieldDefinition::new(&draft.tag.layout, index);
    let own = at(find(&root, "definitions")).as_struct().unwrap();
    let pool = at(find(&own, "animations")).as_block().unwrap().struct_definition();
    let shared = at(find(&pool, "shared animation data")).as_block().unwrap().struct_definition();
    assert_eq!(shared.name(), "shared_model_animation_block");
    assert_eq!(shared.size(), 200);
    assert_eq!(
        (
            draft.tag.header.build_version,
            draft.tag.header.build_number,
            draft.tag.header.version,
        ),
        CAMPAIGN_EVOLVED_GENERATION,
    );
}

fn paged_graph(payload: TagFieldType) -> Vec<Shape> {
    vec![
        shape(
            "model_animation_graph",
            &[("tag resource groups", Kind::List("resource_group"))],
        ),
        shape("resource_group", &[("tag_resource", Kind::Paged("resource"))]),
        shape("resource", &[("frames", Kind::Plain(payload))]),
    ]
}

fn with_payload(source: &mut TagFile) {
    let layout = source.layout.duplicate();
    let groups = source.root.at_mut(0).as_block_mut().unwrap();
    let index = groups.add_element(&layout);
    let field = groups.at_mut(index).at_mut(0);
    let resource = field.as_resource_mut().unwrap();
    let body = fresh_struct_of(&layout, resource.struct_index());
    resource.set_content(TagResourceContent::exploded(vec![1, 2, 3, 4], body, None));
}

fn count_non_null_resources(structure: &TagStruct) -> usize {
    (0..structure.len())
        .map(|i| {
            let field = structure.at(i);
            let here = field.as_resource().map(|r| usize::from(!r.is_null())).unwrap_or(0);
            let nested = field.as_struct().map(count_non_null_resources).unwrap_or(0);
            let listed = field
                .as_block()
                .map(|b| (0..b.len()).map(|k| count_non_null_resources(b.at(k))).sum())
                .unwrap_or(0);
            here + nested + listed
        })
        .sum()
}

#[test]
fn a_real_hrek_animation_graph_carries_its_payload_into_campaign_evolved() {
    let definitions = definitions(
        ["haloreach_mcc", CAMPAIGN_EVOLVED_GAME]
            .iter()
            .map(|name| {
                game(
                    name,
                    vec![schema(
                        "model_animation_graph",
                        "jmad",
                        &paged_graph(TagFieldType::LongInteger),
                    )],
                )
            })
            .collect(),
        empty_catalog(),
    );
    let mut source = fresh(&definitions, "haloreach_mcc", "model_animation_graph");
    with_payload(&mut source);
    let resources_in = count_non_null_resources(&source.root);
    assert!(resources_in > 0);
    let draft = convert_directly(
        &source,
        "haloreach_mcc",
        CAMPAIGN_EVOLVED_GAME,
        &definitions,
        None,
    )
    .unwrap_or_else(|error| panic!("a real Reach animation graph must convert: {error}"));
    assert_eq!(draft.report.transferred_resources, resources_in);
    assert_eq!(count_non_null_resources(&draft.tag.root), resources_in);
}

#[test]
fn real_h3_animation_payload_is_rejected_instead_of_written_incomplete() {
    let definitions = definitions(
        vec![
            game(
                "halo3_mcc",
                vec![schema(
                    "model_animation_graph",
                    "jmad",
                    &paged_graph(TagFieldType::LongInteger),
                )],
            ),
            game(
                "haloreach_mcc",
                vec![schema(
                    "model_animation_graph",
                    "jmad",
                    &paged_graph(TagFieldType::ShortInteger),
                )],
            ),
        ],
        empty_catalog(),
    );
    let mut source = fresh(&definitions, "halo3_mcc", "model_animation_graph");
    with_payload(&mut source);
    let error =
        refusal(convert_directly(&source, "halo3_mcc", "haloreach_mcc", &definitions, None));
    assert!(
        error.contains("pageable runtime resources")
            || error.contains("model_animation_graph conversion would lose"),
        "unexpected animation safety error: {error}"
    );
}

#[test]
fn h3_contrail_uses_native_reach_layout_when_kits_are_available() {
    let shapes = [shape("contrail_system", &[("flags", Kind::Plain(TagFieldType::LongInteger))])];
    let definitions = definitions(
        ["halo3_mcc", "haloreach_mcc"]
            .iter()
            .map(|name| game(name, vec![schema("contrail_system", "cntl", &shapes)]))
            .collect(),
        empty_catalog(),
    );
    let mut source = fresh(&definitions, "halo3_mcc", "contrail_system");
    set(&mut source.root, "flags", TagFieldData::LongInteger(5));
    let mut native = fresh(&definitions, "haloreach_mcc", "contrail_system");
    native.header.version = 7;
    set(&mut native.root, "flags", TagFieldData::LongInteger(9));
    let kit = vec![NativeTemplate {
        path: "fx/native.contrail_system".to_owned(),
        tag: Some(native),
        unwritable: None,
    }];
    let draft =
        convert_directly(&source, "halo3_mcc", "haloreach_mcc", &definitions, Some(kit)).unwrap();
    assert_eq!(draft.native_layout_template.as_deref(), Some("fx/native.contrail_system"));
    assert!(matches!(
        field_by_key(&draft.tag.root, "flags").and_then(|f| f.value()),
        Some(TagFieldData::LongInteger(5))
    ));
}

// ---------------------------------------------------------------------------
// What is promised of every conversion
// ---------------------------------------------------------------------------
#[test]
fn every_hop_keeps_what_it_found() {
    let mut definitions = bitmap_definitions();
    let wide = [
        shape(
            "bitmap",
            &[
                ("usage", Kind::Plain(TagFieldType::ShortInteger)),
                ("sprite budget", Kind::Plain(TagFieldType::ShortInteger)),
            ],
        ),
    ];
    definitions.games[0] = game("halo2_mcc", vec![schema("bitmap", "bitm", &wide)]);
    let mut source = fresh(&definitions, "halo2_mcc", "bitmap");
    set(&mut source.root, "usage", TagFieldData::ShortInteger(3));
    set(&mut source.root, "sprite budget", TagFieldData::ShortInteger(4));
    let routed =
        convert_by_routes(&source, "halo2_mcc", "haloreach_mcc", &definitions, &())
            .unwrap();
    assert!(routed.report.issues.iter().any(|issue| {
        issue.path == "sprite budget"
            && issue.kind == ConversionIssueKind::Unsupported
            && issue.message.starts_with("[halo2_mcc \u{2192} halo3_mcc] ")
    }));
    assert!(matches!(
        field_by_key(&routed.tag.root, "usage").and_then(|f| f.value()),
        Some(TagFieldData::ShortInteger(3))
    ));
}

#[test]
fn a_value_is_carried_or_reported() {
    let mut definitions = weapon_definitions();
    let narrow = [shape(
        "weapon",
        &[("flags", Kind::Plain(TagFieldType::ByteInteger))],
    )];
    let mut target = game("haloreach_mcc", vec![schema("weapon", "weap", &narrow)]);
    target.groups.insert(fourcc("bitm"), "bitmap");
    definitions.games[2] = target;
    let mut source = fresh(&definitions, "halo3_mcc", "weapon");
    set(&mut source.root, "flags", TagFieldData::LongInteger(300));
    set(&mut source.root, "label", TagFieldData::StringId("rifle".to_owned()));
    let draft =
        convert_directly(&source, "halo3_mcc", "haloreach_mcc", &definitions, None).unwrap();
    let said = |path: &str| {
        draft
            .report
            .issues
            .iter()
            .find(|issue| issue.path == path)
            .map(|issue| issue.message.as_str())
    };
    assert_eq!(said("flags"), Some("Value 300 does not fit target ByteInteger"));
    assert_eq!(said("label"), Some("No compatible target field for StringId"));
    assert_eq!(said("heat recovery rate"), None);
    assert_eq!(draft.report.unsupported_source, 2);
}

#[test]
fn templates_are_tried_in_the_order_of_their_paths() {
    let definitions = weapon_definitions();
    let files = ["b/z.weapon", "a/z.weapon", "a/b.bitmap", "a/a.weapon", "note.txt"]
        .iter()
        .map(|path| NativeTemplate {
            path: (*path).to_owned(),
            tag: None,
            unwritable: None,
        })
        .collect();
    let index = NativeTemplateIndex::build(files, &definitions.games[0]);
    let weapons = index.by_group.iter().find(|(tag, _)| *tag == fourcc("weap")).unwrap();
    let paths: Vec<&str> = weapons.1.iter().map(|t| t.path.as_str()).collect();
    assert_eq!(paths, vec!["a/a.weapon", "a/z.weapon", "b/z.weapon"]);
    assert_eq!(index.by_group.len(), 2);
}

#[test]
fn some_groups_need_a_native_layout() {
    assert!(requires_native_layout_template("Model"));
    assert!(requires_native_layout_template("particle"));
    assert!(!requires_native_layout_template("weapon"));
}

#[test]
fn a_classic_target_needs_a_kit() {
    let mut definitions = weapon_definitions();
    definitions.games.push(game("halo2_mcc", vec![schema("weapon", "weap", &weapon_shapes())]));
    let source = fresh(&definitions, "halo3_mcc", "weapon");
    let error =
        refusal(convert_directly(&source, "halo3_mcc", "halo2_mcc", &definitions, None));
    assert!(error.starts_with("Converting to halo2_mcc needs a weapon tag"), "{error}");
    let mut big = fresh(&definitions, "halo3_mcc", "weapon");
    big.big_endian = true;
    assert_eq!(
        refusal(convert_directly(&big, "halo3_mcc", "haloreach_mcc", &definitions, None)),
        "Only little-endian MCC tags can be converted"
    );
}

// ---------------------------------------------------------------------------
// What lies between two hops
// ---------------------------------------------------------------------------
#[test]
fn the_next_hop_reads_what_was_opened_again() {
    let definitions = bitmap_definitions();
    let mut source = fresh(&definitions, "halo2_mcc", "bitmap");
    set(&mut source.root, "usage", TagFieldData::ShortInteger(3));
    let mut saved: Vec<String> = Vec::new();
    let mut save = |mut tag: TagFile, game: &str| {
        saved.push(game.to_owned());
        assert_eq!(tag.dependency_list, Some(vec![1, 2, 3]));
        set(&mut tag.root, "usage", TagFieldData::ShortInteger(8));
        Ok(tag)
    };
    let draft = convert_saving(
        &source,
        "halo2_mcc",
        "haloreach_mcc",
        &definitions,
        &(),
        &mut save,
    )
    .unwrap();
    assert_eq!(saved, vec!["halo3_mcc"]);
    assert!(matches!(
        field_by_key(&draft.tag.root, "usage").and_then(|f| f.value()),
        Some(TagFieldData::ShortInteger(8))
    ));
}

#[test]
fn a_tag_that_does_not_survive_a_save_refuses_its_route() {
    let definitions = bitmap_definitions();
    let source = fresh(&definitions, "halo2_mcc", "bitmap");
    let mut save = |tag: TagFile, game: &str| {
        if game == "halo3_mcc" {
            Err(HopFault::Unwritable("no room".to_owned()))
        } else {
            Ok(tag)
        }
    };
    let draft = convert_saving(
        &source,
        "halo2_mcc",
        "haloreach_mcc",
        &definitions,
        &(),
        &mut save,
    )
    .unwrap();
    assert_eq!(draft.route, vec!["halo2_mcc", "halo3odst_mcc", "haloreach_mcc"]);

    let mut lose = |_: TagFile, game: &str| {
        if game == "halo3_mcc" {
            Err(HopFault::Unwritable("no room".to_owned()))
        } else {
            reparse_intermediate(HopReading::Modern(Err("cut short".to_owned())))
        }
    };
    let error = refusal(convert_saving(
        &source,
        "halo2_mcc",
        "haloreach_mcc",
        &definitions,
        &(),
        &mut lose,
    ));
    assert!(
        error.contains(
            "halo2_mcc \u{2192} halo3_mcc \u{2192} haloreach_mcc: \
             halo2_mcc \u{2192} halo3_mcc produced an unwritable tag: no room\n"
        ),
        "{error}"
    );
    assert!(
        error.contains(
            "halo2_mcc \u{2192} halo3odst_mcc \u{2192} haloreach_mcc: \
             halo2_mcc \u{2192} halo3odst_mcc produced a tag that will not reopen: cut short"
        ),
        "{error}"
    );
    assert!(
        error.starts_with("Could not convert halo2_mcc to haloreach_mcc. Tried 4 route(s):\n  "),
        "{error}"
    );
}

#[test]
fn a_classic_intermediate_is_opened_with_its_definition() {
    let unopenable = |reading: HopReading| match reparse_intermediate(reading) {
        Err(HopFault::Unopenable(why)) => why,
        other => panic!("{other:?}"),
    };
    assert_eq!(unopenable(HopReading::UnknownGroup), "unknown group for classic intermediate");
    assert_eq!(
        unopenable(HopReading::NoLayout {
            definition: "definitions/halo2_mcc/weapon.json".to_owned(),
            why: "no such file".to_owned(),
        }),
        "failed to load definitions/halo2_mcc/weapon.json: no such file"
    );
    assert_eq!(unopenable(HopReading::Classic(Err("cut short".to_owned()))), "cut short");
    let definitions = bitmap_definitions();
    let tag = fresh(&definitions, "halo2_mcc", "bitmap");
    assert_eq!(
        reparse_intermediate(HopReading::Classic(Ok(tag.duplicate()))),
        Ok(tag)
    );
}

#[test]
fn one_hop_at_a_time() {
    let definitions = bitmap_definitions();
    let source = fresh(&definitions, "halo2_mcc", "bitmap");
    let route = names(&["halo2_mcc", "halo3_mcc", "haloreach_mcc"]);
    let first = run_hop(&source, &route, 0, Vec::new(), &definitions, &(), listed()).unwrap();
    let HopOutcome::Reopen { tag, issues } = first else { panic!("the route goes on") };
    let opened = take_reopened("halo2_mcc", "halo3_mcc", Ok(tag)).unwrap();
    let last = run_hop(&opened, &route, 1, issues, &definitions, &(), listed()).unwrap();
    let HopOutcome::Done(draft) = last else { panic!("the route ends") };
    assert_eq!(draft.route, route);
    assert_eq!(
        run_hop(&source, &route, 2, Vec::new(), &definitions, &(), listed()),
        Err("A conversion route needs at least two profiles".to_owned())
    );
    assert_eq!(
        take_reopened("a", "b", Err(HopFault::Unopenable("why".to_owned()))),
        Err("a \u{2192} b produced a tag that will not reopen: why".to_owned())
    );
}

#[test]
fn a_game_is_not_converted_into_itself() {
    let definitions = weapon_definitions();
    let source = fresh(&definitions, "halo3_mcc", "weapon");
    assert_eq!(
        refusal(convert_by_routes(&source, "halo3_mcc", "halo3_mcc", &definitions, &())),
        "Choose a different target game profile"
    );
}

// ---------------------------------------------------------------------------
// What cannot be read, listed or written
// ---------------------------------------------------------------------------
#[test]
fn the_dependencies_are_listed_of_the_converted_tag() {
    let definitions = weapon_definitions();
    let mut source = fresh(&definitions, "halo3_mcc", "weapon");
    set(&mut source.root, "flags", TagFieldData::LongInteger(5));
    let pending =
        begin_conversion(&source, "halo3_mcc", "haloreach_mcc", &definitions, None).unwrap();
    assert!(pending.list_due);
    assert!(matches!(
        field_by_key(&pending.tag.root, "flags").and_then(|f| f.value()),
        Some(TagFieldData::LongInteger(5))
    ));
    let draft = finish_conversion(
        &source,
        "halo3_mcc",
        "haloreach_mcc",
        &definitions,
        pending,
        Ok(vec![7]),
    )
    .unwrap();
    assert_eq!(draft.tag.dependency_list, Some(vec![7]));

    let error = analyze_conversion(
        &source,
        "halo3_mcc",
        "haloreach_mcc",
        &definitions,
        None,
        Err("bad schema".to_owned()),
    );
    assert_eq!(refusal(error), "Could not rebuild target dependencies: bad schema");
}

#[test]
fn a_game_without_a_dependency_schema_lists_none() {
    let mut definitions = weapon_definitions();
    definitions.games[2].has_dependency_schema = false;
    let source = fresh(&definitions, "halo3_mcc", "weapon");
    let draft = analyze_conversion(
        &source,
        "halo3_mcc",
        "haloreach_mcc",
        &definitions,
        None,
        Err("not asked for".to_owned()),
    )
    .unwrap();
    assert_eq!(draft.tag.dependency_list, None);
    assert!(draft.report.issues.iter().any(|issue| {
        issue.path == "dependency list"
            && issue.message
                == "Target dependency schema is missing: \
                    definitions/haloreach_mcc/tag_dependency_list.json"
    }));
}

#[test]
fn a_template_that_cannot_be_written_is_an_error() {
    let definitions = weapon_definitions();
    let source = fresh(&definitions, "halo3_mcc", "weapon");
    let mut native = fresh(&definitions, "haloreach_mcc", "weapon");
    native.header.version = 7;
    let kit = vec![NativeTemplate {
        path: "objects/rifle.weapon".to_owned(),
        tag: Some(native),
        unwritable: Some("a field is too long".to_owned()),
    }];
    assert_eq!(
        refusal(convert_directly(
            &source,
            "halo3_mcc",
            "haloreach_mcc",
            &definitions,
            Some(kit)
        )),
        "Could not cache native template objects/rifle.weapon: a field is too long"
    );
}

#[test]
fn a_template_loses_the_streams_of_its_tag() {
    let definitions = weapon_definitions();
    let mut tag = fresh(&definitions, "haloreach_mcc", "weapon");
    tag.dependency_list = Some(vec![1]);
    tag.import_info = Some(vec![2]);
    tag.asset_depot_storage = Some(vec![3]);
    assert!(reset_tag_to_defaults(&mut tag, None).is_ok());
    assert_eq!(tag.dependency_list, None);
    assert_eq!(tag.import_info, None);
    assert_eq!(tag.asset_depot_storage, None);
}

#[test]
fn a_classic_tag_under_a_modern_profile_names_its_engine() {
    let definitions = weapon_definitions();
    let mut source = fresh(&definitions, "halo3_mcc", "weapon");
    source.classic = Some("Halo2V4".to_owned());
    assert_eq!(
        refusal(convert_directly(&source, "halo3_mcc", "haloreach_mcc", &definitions, None)),
        "halo3_mcc is not a classic profile, but this tag is a classic Some(Halo2V4) container"
    );
}

#[test]
fn what_could_not_be_read_is_said() {
    let mut definitions = weapon_definitions();
    let source = fresh(&definitions, "halo3_mcc", "weapon");
    definitions.games[2].schemas.clear();
    let why = "Could not parse definitions/haloreach_mcc/weapon.json: no value".to_owned();
    definitions.games[2].schema_faults.push(("weapon".to_owned(), why.clone()));
    assert_eq!(
        refusal(convert_directly(&source, "halo3_mcc", "haloreach_mcc", &definitions, None)),
        why
    );
    definitions.games.remove(2);
    let why = "Could not read definitions/haloreach_mcc/_meta.json: gone".to_owned();
    definitions.faults.push(("haloreach_mcc".to_owned(), why.clone()));
    assert_eq!(
        refusal(convert_directly(&source, "halo3_mcc", "haloreach_mcc", &definitions, None)),
        why
    );
}

#[test]
fn a_schema_without_a_layout_is_refused() {
    let mut definitions = weapon_definitions();
    let source = fresh(&definitions, "halo3_mcc", "weapon");
    definitions.games[2].schemas[0].layout = Err("no such block".to_owned());
    let error =
        refusal(convert_directly(&source, "halo3_mcc", "haloreach_mcc", &definitions, None));
    assert!(error.ends_with("definitions/haloreach_mcc/weapon.json: no such block"), "{error}");
}

#[test]
fn a_classic_tag_is_opened_with_its_definition() {
    assert_eq!(
        classic_definition(Some("halo2_mcc"), Some("definitions"), Some("weapon")),
        Ok("definitions/halo2_mcc/weapon.json".to_owned())
    );
    assert_eq!(
        classic_definition(None, None, None),
        Err("classic tag requires a detected game profile".to_owned())
    );
    assert_eq!(
        classic_definition(Some("halo2_mcc"), None, None),
        Err("classic tag requires a definitions root".to_owned())
    );
    assert_eq!(
        classic_definition(Some("halo2_mcc"), Some("definitions"), None),
        Err("unknown group for classic tag layout".to_owned())
    );
    let read = |reading: TagReading| read_tag_for_conversion("kit/a.weapon", reading);
    assert_eq!(
        read(TagReading::Unreadable("locked".to_owned())),
        Err("Could not read kit/a.weapon: locked".to_owned())
    );
    assert_eq!(
        read(TagReading::Modern(Err("cut short".to_owned()))),
        Err("Could not read kit/a.weapon: cut short".to_owned())
    );
    assert_eq!(
        read(TagReading::Undefined("no profile".to_owned())),
        Err("no profile".to_owned())
    );
    assert_eq!(
        read(TagReading::NoLayout { definition: "d.json".to_owned(), why: "gone".to_owned() }),
        Err("failed to load classic layout d.json: gone".to_owned())
    );
    assert_eq!(
        read(TagReading::Classic(Err("cut short".to_owned()))),
        Err("failed to decode classic tag: cut short".to_owned())
    );
    let definitions = weapon_definitions();
    let tag = fresh(&definitions, "halo3_mcc", "weapon");
    assert_eq!(read(TagReading::Modern(Ok(tag.duplicate()))), Ok(tag));
}

// ---------------------------------------------------------------------------
// What the engine's decoders say
// ---------------------------------------------------------------------------
fn pair_of_games(group: &str, tag: &str, from: &[Shape], to: &[Shape]) -> ConversionDefinitions {
    definitions(
        vec![
            game("halo3_mcc", vec![schema(group, tag, from)]),
            game("haloreach_mcc", vec![schema(group, tag, to)]),
        ],
        empty_catalog(),
    )
}

fn message_at<'a>(draft: &'a TagConversionDraft, path: &str) -> Option<&'a str> {
    draft.report.issues.iter().find(|issue| issue.path == path).map(|i| i.message.as_str())
}

#[test]
fn an_occlusion_scale_without_a_name_is_told_by_its_number() {
    let key = "occlusion inner radius scale";
    let real = [shape(
        "lens_flare",
        &[("flags", Kind::Plain(TagFieldType::LongInteger)), (key, Kind::Plain(TagFieldType::Real))],
    )];
    let named = [shape(
        "lens_flare",
        &[
            ("flags", Kind::Plain(TagFieldType::LongInteger)),
            (key, Kind::Options(TagFieldType::ShortEnum, &["none", "1/2"])),
        ],
    )];
    let mut definitions = pair_of_games("lens_flare", "lens", &real, &named);
    let bits = 0.75f32.to_bits();
    definitions.answers.numbers.push((1, "no number".to_owned()));
    definitions.answers.numbers.push((bits, 0.75f32.to_string()));
    let mut source = fresh(&definitions, "halo3_mcc", "lens_flare");
    set(&mut source.root, key, TagFieldData::Real(bits));
    let env = ConversionEnvironment {
        source_groups: &definitions.games[0].groups,
        target: &definitions.games[1],
        templates: None,
        source_field_aliases: &definitions.games[0].schemas[0].aliases,
        target_field_aliases: &definitions.games[1].schemas[0].aliases,
        mapping_catalog: &definitions.catalog,
        answers: &definitions.answers,
        source_layout: &source.layout,
        source_game: "halo3_mcc",
        target_game: "haloreach_mcc",
        group_name: "lens_flare",
    };
    let mut questions = Vec::new();
    ask_of_struct(&source.root, &mut questions);
    assert_eq!(questions, vec![Question::Number(bits)]);
    let mut target = fresh(&definitions, "haloreach_mcc", "lens_flare");
    let mut context = ConversionContext::new();
    let at = field_ordinal_by_key(&target.root, key).unwrap();
    let from = field_ordinal_by_key(&source.root, key).unwrap();
    assert!(convert_lens_flare_occlusion_scale(
        source.root.at(from),
        target.root.at_mut(at),
        key,
        &env,
        &mut context
    ));
    assert_eq!(
        context.report.issues[0].message,
        "Legacy lens-flare schema cannot represent occlusion scale 0.75"
    );
    assert_eq!(definitions.answers.text_of_number(7), "7");
}

#[test]
fn the_decoder_decides_over_a_curve() {
    let bytes = |kind: u8| -> Vec<u8> { (0..32).map(|i| if i == 0 { kind } else { i }).collect() };
    let blocks = [
        shape(
            "effect",
            &[("flags", Kind::Plain(TagFieldType::LongInteger)), ("data", Kind::List("byte"))],
        ),
        shape("byte", &[("value", Kind::Plain(TagFieldType::CharInteger))]),
    ];
    let blobs = [shape(
        "effect",
        &[
            ("flags", Kind::Plain(TagFieldType::LongInteger)),
            ("data", Kind::Blob("function_definition_data")),
        ],
    )];
    let mut definitions = pair_of_games("sound_mix", "snmx", &blocks, &blobs);
    let mut source = fresh(&definitions, "halo3_mcc", "sound_mix");
    let layout = source.layout.duplicate();
    let at = field_ordinal_by_key(&source.root, "data").unwrap();
    let list = source.root.at_mut(at).as_block_mut().unwrap();
    for byte in bytes(3) {
        let index = list.add_element(&layout);
        set(list.at_mut(index), "value", TagFieldData::CharInteger(byte as i8));
    }
    let draft =
        convert_directly(&source, "halo3_mcc", "haloreach_mcc", &definitions, None).unwrap();
    assert_eq!(
        message_at(&draft, "data"),
        Some(
            "32 bytes of function curve did not parse as a function definition, so they were \
             not carried across"
        )
    );
    let modern = retarget_function_bytes(&bytes(3), false, true).unwrap();
    let mut questions = Vec::new();
    ask_of_struct(&source.root, &mut questions);
    assert_eq!(questions, vec![Question::Curve(modern.clone())]);
    definitions.answers.curves.push(bytes(3));
    definitions.answers.curves.push(modern.clone());
    let draft =
        convert_directly(&source, "halo3_mcc", "haloreach_mcc", &definitions, None).unwrap();
    assert_eq!(message_at(&draft, "data"), None);
    assert_eq!(
        field_by_key(&draft.tag.root, "data").and_then(|f| f.as_data()),
        Some(&modern)
    );
}

#[test]
fn an_option_is_shown_with_its_marks_escaped() {
    assert_eq!(quote("plain option"), "\"plain option\"");
    assert_eq!(quote("say \"no\""), "\"say \\\"no\\\"\"");
    assert_eq!(quote("a\\b\tc\n\r"), "\"a\\\\b\\tc\\n\\r\"");
    assert_eq!(quote("it's"), "\"it's\"");
    assert_eq!(quote("\u{7}\u{200b}é"), "\"\\u{7}\\u{200b}é\"");
    let from = [shape(
        "weapon",
        &[
            ("flags", Kind::Plain(TagFieldType::LongInteger)),
            ("mode", Kind::Options(TagFieldType::ShortEnum, &["a\"b"])),
        ],
    )];
    let to = [shape(
        "weapon",
        &[
            ("flags", Kind::Plain(TagFieldType::LongInteger)),
            ("mode", Kind::Options(TagFieldType::ShortEnum, &["other"])),
        ],
    )];
    let definitions = pair_of_games("weapon", "weap", &from, &to);
    let mut source = fresh(&definitions, "halo3_mcc", "weapon");
    set(
        &mut source.root,
        "mode",
        TagFieldData::ShortEnum { value: 0, name: Some("a\"b".to_owned()) },
    );
    let env = ConversionEnvironment {
        source_groups: &definitions.games[0].groups,
        target: &definitions.games[1],
        templates: None,
        source_field_aliases: &definitions.games[0].schemas[0].aliases,
        target_field_aliases: &definitions.games[1].schemas[0].aliases,
        mapping_catalog: &definitions.catalog,
        answers: &definitions.answers,
        source_layout: &source.layout,
        source_game: "halo3_mcc",
        target_game: "haloreach_mcc",
        group_name: "weapon",
    };
    let mut target = fresh(&definitions, "haloreach_mcc", "weapon");
    let mut context = ConversionContext::new();
    let at = field_ordinal_by_key(&target.root, "mode").unwrap();
    convert_enum(source.root.at(at), target.root.at_mut(at), "mode", &env, &mut context);
    assert_eq!(context.report.issues[0].message, "Target enum has no \"a\\\"b\" option");
}

#[test]
fn a_resource_crosses_or_is_left_behind() {
    let shapes = [
        shape("sound", &[("resource", Kind::Paged("node"))]),
        shape("node", &[("name", Kind::Plain(TagFieldType::StringId))]),
    ];
    let definitions = pair_of_games("sound", "snd!", &shapes, &shapes);
    let mut source = fresh(&definitions, "halo3_mcc", "sound");
    let resource = source.root.at_mut(0).as_resource_mut().unwrap();
    resource.set_content(TagResourceContent::xsync(1, vec![9]));
    let mut target = fresh(&definitions, "haloreach_mcc", "sound");
    let mut context = ConversionContext::new();
    let refused = Err("it does not fit".to_owned());
    let carried = transfer_resource(
        source.root.at(0),
        target.root.at_mut(0),
        refused,
        "resource",
        &mut context,
    );
    assert!(!carried);
    assert_eq!(context.resources_left_behind, vec!["resource"]);
    assert_eq!(
        context.report.issues[0].message,
        "The pageable resource could not be carried across: it does not fit"
    );
    let carried = transfer_resource(
        source.root.at(0),
        target.root.at_mut(0),
        Ok(()),
        "resource",
        &mut context,
    );
    assert!(carried);
    assert_eq!(target.root.at(0).as_resource(), source.root.at(0).as_resource());
}
