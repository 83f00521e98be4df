//! Decal systems and decorator sets.
use blam_tags::decal_system::{DecalPass, DecalShader, DecalSystem, DecalSystemError, shader_struct};
use blam_tags::decorator_set::{
    DecoratorSet, DecoratorSetError, DecoratorType, LightingSamplePattern, RenderShader,
};
use blam_tags::fields::{TagFieldData, TagFieldType, TagReferenceData, label_of_type};
use blam_tags::file::TagFile;
use blam_tags::layout::{
    TagArrayLayout, TagBlockLayout, TagFieldLayout, TagFieldTypeLayout, TagLayout,
    TagResourceLayout, TagStructLayout,
};
use blam_tags::reads::place_of_field;
use blam_tags::tag::TagStruct;

/// What a field of a test layout is.
#[derive(Clone, Copy)]
enum Kind {
    Plain(TagFieldType),
    Options(TagFieldType, &'static [&'static str]),
    Blob(&'static str),
    Nested(&'static str),
    List(&'static str),
    Fixed(&'static str, u32),
    Paged(&'static str),
}

/// A struct of a test layout.
struct Shape {
    name: &'static str,
    guid: [u8; 16],
    size: usize,
    fields: Vec<(&'static str, Kind)>,
}

fn shape(name: &'static str, fields: &[(&'static str, Kind)]) -> Shape {
    Shape { name, guid: [0; 16], size: 4 * fields.len(), fields: fields.to_vec() }
}

fn text(list: &mut Vec<String>, value: &str) -> u32 {
    if let Some(at) = list.iter().position(|entry| entry == value) {
        return at as u32;
    }
    list.push(value.to_owned());
    (list.len() - 1) as u32
}

/// A layout whose root is the first of the structs.
fn layout_of(shapes: &[Shape]) -> TagLayout {
    let place = |name: &str| -> u32 {
        shapes.iter().position(|s| s.name == name).expect("a struct of the layout") as u32
    };
    let mut layout = TagLayout {
        tag_group_block_index: 0,
        strings: Vec::new(),
        string_lists: Vec::new(),
        data_names: Vec::new(),
        field_types: Vec::new(),
        fields: Vec::new(),
        struct_layouts: Vec::new(),
        block_layouts: Vec::new(),
        array_layouts: Vec::new(),
        resource_layouts: Vec::new(),
        interop_layouts: Vec::new(),
        struct_tags: Vec::new(),
        struct_version_table: Vec::new(),
    };
    let mut types: Vec<TagFieldType> = Vec::new();
    for (index, s) in shapes.iter().enumerate() {
        let name_offset = text(&mut layout.strings, s.name);
        // Every struct has a block of its own, in the same place.
        layout.block_layouts.push(TagBlockLayout {
            index: index as u32,
            name_offset,
            max_count: 1024,
            struct_index: index as u32,
        });
    }
    for (index, s) in shapes.iter().enumerate() {
        let first = layout.fields.len() as u32;
        let mut offset: u32 = 0;
        for (name, kind) in s.fields.iter().chain([("", Kind::Plain(TagFieldType::Terminator))].iter()) {
            let (field_type, definition) = match kind {
                Kind::Plain(t) => {
                    let indexed = matches!(
                        t,
                        TagFieldType::CharBlockIndex
                            | TagFieldType::ShortBlockIndex
                            | TagFieldType::LongBlockIndex
                    );
                    (*t, if indexed { 0 } else { u32::MAX })
                }
                Kind::Options(t, names) => {
                    layout.string_lists.push(names.iter().map(|n| (*n).to_owned()).collect());
                    (*t, (layout.string_lists.len() - 1) as u32)
                }
                Kind::Blob(definition) => {
                    let at = text(&mut layout.strings, definition);
                    layout.data_names.push(at);
                    (TagFieldType::Data, (layout.data_names.len() - 1) as u32)
                }
                Kind::Nested(of) => (TagFieldType::Struct, place(of)),
                Kind::List(of) => (TagFieldType::Block, place(of)),
                Kind::Fixed(of, count) => {
                    let name_offset = text(&mut layout.strings, of);
                    layout.array_layouts.push(TagArrayLayout {
                        name_offset,
                        count: *count,
                        struct_index: place(of),
                    });
                    (TagFieldType::Array, (layout.array_layouts.len() - 1) as u32)
                }
                Kind::Paged(of) => {
                    let name_offset = text(&mut layout.strings, of);
                    layout.resource_layouts.push(TagResourceLayout {
                        name_offset,
                        struct_index: place(of),
                    });
                    (TagFieldType::PageableResource, (layout.resource_layouts.len() - 1) as u32)
                }
            };
            let type_index = match types.iter().position(|t| *t == field_type) {
                Some(at) => at as u32,
                None => {
                    types.push(field_type);
                    let name_offset = text(&mut layout.strings, label_of_type(field_type));
                    layout.field_types.push(TagFieldTypeLayout {
                        name_offset,
                        size: 4,
                        needs_sub_chunk: matches!(
                            field_type,
                            TagFieldType::Struct
                                | TagFieldType::Block
                                | TagFieldType::Array
                                | TagFieldType::Data
                                | TagFieldType::TagReference
                                | TagFieldType::StringId
                                | TagFieldType::PageableResource
                        ),
                    });
                    (types.len() - 1) as u32
                }
            };
            let name_offset = text(&mut layout.strings, name);
            layout.fields.push(TagFieldLayout {
                name_offset,
                type_index,
                field_type,
                offset,
                definition,
            });
            offset += 4;
        }
        let name_offset = text(&mut layout.strings, s.name);
        layout.struct_layouts.push(TagStructLayout {
            index: index as u32,
            name_offset,
            size: s.size,
            guid: s.guid,
            version: 0,
            first_field_index: first,
        });
    }
    assert!(layout.is_valid());
    layout
}



fn set(s: &mut TagStruct, name: &str, value: TagFieldData) {
    let at = place_of_field(s, name).expect("a field of the struct");
    assert!(s.at_mut(at).set(value).is_ok());
}

#[test]
fn passes_and_shaders_by_number() {
    assert_eq!(DecalPass::from_index(1), DecalPass::PostLighting);
    assert_eq!(DecalPass::from_index(0), DecalPass::PreLighting);
    assert_eq!(DecalPass::from_index(-7), DecalPass::PreLighting);
    assert_eq!(RenderShader::from_u8(0), RenderShader::WindDynamicLights);
    assert_eq!(RenderShader::from_u8(3), RenderShader::DominantLightOnly);
    assert_eq!(RenderShader::from_u8(200), RenderShader::ShadedDynamicLights);
    assert_eq!(LightingSamplePattern::from_u8(1), LightingSamplePattern::Hanging);
    assert_eq!(LightingSamplePattern::from_u8(2), LightingSamplePattern::Ground);
}

#[test]
fn a_decal_system_is_read() {
    let layout = layout_of(&[
        shape(
            "decal_system",
            &[
                ("flags", Kind::Plain(TagFieldType::LongInteger)),
                ("max overlapping", Kind::Plain(TagFieldType::LongInteger)),
                ("distance fade range", Kind::Plain(TagFieldType::RealBounds)),
                ("runtime max radius!", Kind::Plain(TagFieldType::Real)),
                ("decals", Kind::List("decal")),
            ],
        ),
        shape(
            "decal",
            &[
                ("decal name^", Kind::Plain(TagFieldType::StringId)),
                ("actual shader?", Kind::Nested("shader")),
                ("radius", Kind::Plain(TagFieldType::RealBounds)),
                ("clamp angle", Kind::Plain(TagFieldType::Angle)),
                ("runtime pass!", Kind::Plain(TagFieldType::CharInteger)),
            ],
        ),
        shape("shader", &[("definition", Kind::Plain(TagFieldType::TagReference))]),
    ]);
    let mut file = TagFile::new(u32::from_be_bytes(*b"decs"), 1, layout);
    let own = file.layout.duplicate();
    set(&mut file.root, "flags", TagFieldData::LongInteger(-1));
    set(&mut file.root, "max overlapping", TagFieldData::LongInteger(4));
    set(
        &mut file.root,
        "distance fade range",
        TagFieldData::RealBounds(1.0f32.to_bits(), 2.0f32.to_bits()),
    );
    set(&mut file.root, "runtime max radius!", TagFieldData::Real(9.0f32.to_bits()));
    let at = place_of_field(&file.root, "decals").unwrap();
    let decals = file.root.at_mut(at).as_block_mut().unwrap();
    let index = decals.add_element(&own);
    let decal = decals.at_mut(index);
    set(decal, "decal name^", TagFieldData::StringId("scorch".to_owned()));
    set(decal, "runtime pass!", TagFieldData::CharInteger(1));
    let parsed: Vec<Result<u8, String>> = vec![Ok(7)];
    let system = DecalSystem::from_tag(&file, parsed).unwrap();
    assert_eq!(system.flags, u32::MAX);
    assert_eq!(system.max_overlapping, 4);
    assert_eq!(system.distance_fade_range, (1.0f32.to_bits(), 2.0f32.to_bits()));
    assert_eq!(system.overlapping_threshold, 0);
    assert_eq!(system.runtime_max_radius, 9.0f32.to_bits());
    assert_eq!(system.definitions.len(), 1);
    let decal = &system.definitions[0];
    assert_eq!(decal.name, "scorch");
    assert_eq!(decal.pass, DecalPass::PostLighting);
    assert_eq!(decal.clamp_angle_degrees, 0);
    assert_eq!(decal.cull_angle_degrees, 90.0f32.to_bits());
    assert_eq!(decal.specular_multiplier, 1.0f32.to_bits());
    assert_eq!(decal.bitmap_aspect, 1.0f32.to_bits());
    assert_eq!(
        decal.shader,
        Some(DecalShader { group_tag: u32::from_be_bytes(*b"rmd "), method: 7 })
    );
    assert_eq!(system.clone(), system);
    file.header.group_tag = 1;
    let parsed: Vec<Result<u8, String>> = vec![Ok(7)];
    assert_eq!(
        DecalSystem::from_tag(&file, parsed),
        Err(DecalSystemError::WrongGroup { expected: u32::from_be_bytes(*b"decs"), actual: 1 })
    );
}

#[test]
fn a_decorator_set_is_read() {
    let layout = layout_of(&[
        shape(
            "decorator_set",
            &[
                ("render model", Kind::Plain(TagFieldType::TagReference)),
                ("render model instance names", Kind::List("instance")),
                ("render flags", Kind::Plain(TagFieldType::ByteInteger)),
                ("render shader", Kind::Plain(TagFieldType::CharInteger)),
                ("light sampling pattern", Kind::Plain(TagFieldType::CharInteger)),
                ("end fade", Kind::Plain(TagFieldType::Real)),
                ("decorator types", Kind::List("type")),
            ],
        ),
        shape("instance", &[("name", Kind::Plain(TagFieldType::StringId))]),
        shape(
            "type",
            &[
                ("name", Kind::Plain(TagFieldType::StringId)),
                ("color 1", Kind::Plain(TagFieldType::RealRgbColor)),
            ],
        ),
    ]);
    let mut file = TagFile::new(u32::from_be_bytes(*b"dctr"), 1, layout);
    let own = file.layout.duplicate();
    set(
        &mut file.root,
        "render model",
        TagFieldData::TagReference(TagReferenceData {
            group_tag_and_name: Some((1, "a\\thistle".to_owned())),
        }),
    );
    set(&mut file.root, "render flags", TagFieldData::ByteInteger(3));
    set(&mut file.root, "render shader", TagFieldData::CharInteger(2));
    set(&mut file.root, "light sampling pattern", TagFieldData::CharInteger(1));
    set(&mut file.root, "end fade", TagFieldData::Real(3.0f32.to_bits()));
    let at = place_of_field(&file.root, "render model instance names").unwrap();
    let names = file.root.at_mut(at).as_block_mut().unwrap();
    let index = names.add_element(&own);
    set(names.at_mut(index), "name", TagFieldData::StringId("leaf".to_owned()));
    let at = place_of_field(&file.root, "decorator types").unwrap();
    let types = file.root.at_mut(at).as_block_mut().unwrap();
    let index = types.add_element(&own);
    set(types.at_mut(index), "color 1", TagFieldData::RealRgbColor(1, 2, 3));
    let read = DecoratorSet::from_tag(&file).unwrap();
    assert_eq!(read.render_model_path, "a\\thistle");
    assert_eq!(read.texture_path, "");
    assert_eq!(read.render_model_instance_names, vec!["leaf"]);
    assert_eq!(read.render_shader, RenderShader::Static);
    assert_eq!(read.lighting_sample_pattern, LightingSamplePattern::Hanging);
    assert!(read.is_two_sided());
    assert!(read.dont_sample_lighting_through_geometry());
    assert_eq!(read.start_fade_distance, 7.0f32.to_bits());
    assert_eq!(read.end_fade_distance, 3.0f32.to_bits());
    assert_eq!(read.cull_block_size, 5.0f32.to_bits());
    assert_eq!(read.translucency, 0.5f32.to_bits());
    assert_eq!(read.decorator_types.len(), 1);
    let kind = &read.decorator_types[0];
    assert_eq!(kind.color_1, (1, 2, 3));
    assert_eq!(kind.mesh, -1);
    assert_eq!(kind.scale_max, 1.0f32.to_bits());
    file.header.group_tag = 1;
    assert_eq!(
        DecoratorSet::from_tag(&file),
        Err(DecoratorSetError::WrongGroup { expected: u32::from_be_bytes(*b"dctr"), actual: 1 })
    );
}

#[test]
fn a_shader_that_cannot_be_parsed_is_an_error() {
    let layout = layout_of(&[
        shape("decal_system", &[("decals", Kind::List("decal"))]),
        shape("decal", &[("actual shader", Kind::Nested("shader"))]),
        shape("shader", &[("definition", Kind::Plain(TagFieldType::TagReference))]),
    ]);
    let mut file = TagFile::new(u32::from_be_bytes(*b"decs"), 1, layout);
    let own = file.layout.duplicate();
    let at = place_of_field(&file.root, "decals").unwrap();
    let decals = file.root.at_mut(at).as_block_mut().unwrap();
    for _ in 0..3 {
        decals.add_element(&own);
    }
    assert!(shader_struct(decals.at(0)).is_some());
    let parsed: Vec<Result<u8, &str>> = vec![Ok(1), Err("first"), Err("second")];
    assert_eq!(
        DecalSystem::from_tag(&file, parsed),
        Err(DecalSystemError::RenderMethod("first"))
    );
    let parsed: Vec<Result<u8, &str>> = vec![Ok(1), Ok(2), Ok(3)];
    let methods: Vec<u8> = DecalSystem::from_tag(&file, parsed)
        .unwrap()
        .definitions
        .iter()
        .filter_map(|decal| decal.shader.as_ref())
        .map(|shader| shader.method)
        .collect();
    assert_eq!(methods, vec![1, 2, 3]);
}

#[test]
fn a_decal_without_a_shader_needs_no_parse() {
    let layout = layout_of(&[
        shape("decal_system", &[("decals", Kind::List("decal"))]),
        shape("decal", &[("flags", Kind::Plain(TagFieldType::LongInteger))]),
    ]);
    let mut file = TagFile::new(u32::from_be_bytes(*b"decs"), 1, layout);
    let own = file.layout.duplicate();
    let at = place_of_field(&file.root, "decals").unwrap();
    let decals = file.root.at_mut(at).as_block_mut().unwrap();
    decals.add_element(&own);
    assert!(shader_struct(decals.at(0)).is_none());
    let parsed: Vec<Result<u8, &str>> = vec![Err("not looked at")];
    let system = DecalSystem::from_tag(&file, parsed).unwrap();
    assert_eq!(system.definitions[0].shader, None);
}

#[test]
fn defaults_are_the_first_of_each() {
    assert_eq!(DecalPass::default(), DecalPass::PreLighting);
    assert_eq!(RenderShader::default(), RenderShader::WindDynamicLights);
    assert_eq!(LightingSamplePattern::default(), LightingSamplePattern::Ground);
    assert_eq!(DecoratorType::default().scale_min, 0);
    assert!(DecoratorSet::default().decorator_types.is_empty());
    assert!(DecalSystem::<u8>::default().definitions.is_empty());
    let kind = DecoratorType { name: "leaf".to_owned(), mesh: 4, ..DecoratorType::default() };
    assert_eq!(kind.clone(), kind);
}
