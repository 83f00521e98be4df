//! Resources and what is done about those that cannot cross.
use blam_tags::convert::animation::{
    AnimationResourceMember, carry_animation_resources, stream_frames,
};
use blam_tags::convert::carrying::{ControlRead, carry_structure_resources};
use blam_tags::convert::forgiving::{forgive_externally_stored_payload, forgive_hydrated_geometry};
use blam_tags::convert::pixels::{
    DetiledImage, convert_x360_bitmap_pixels, x360_payloads_are_unhydrated,
};
use blam_tags::convert::report::{ConversionContext, ConversionIssueKind, record_unsupported};
use blam_tags::convert::setting::set_int_field;
use blam_tags::convert::settling::settle_uncompiled_geometry;
use blam_tags::convert::turning::{swap_function_curves, swap_geometry_user_data};
use blam_tags::fields::{TagFieldData, TagFieldType, label_of_type};
use blam_tags::file::TagFile;
use blam_tags::layout::{
    TagArrayLayout, TagBlockLayout, TagFieldLayout, TagFieldTypeLayout, TagLayout,
    TagResourceLayout, TagStructLayout,
};
use blam_tags::reads::{block_of, find_field, place_of_field, read_enum_name, read_int_any};
use blam_tags::tag::{TagResourceContent, TagStruct, fresh_struct_of};

/// What a field of a test layout is.
#[derive(Clone, Copy)]
enum Kind {
    Plain(TagFieldType),
    Options(TagFieldType, &'static [&'static str]),
    Blob(&'static str),
    Nested(&'static str),
    List(&'static str),
    Fixed(&'static str, u32),
    Paged(&'static str),
}

/// A struct of a test layout.
struct Shape {
    name: &'static str,
    guid: [u8; 16],
    size: usize,
    fields: Vec<(&'static str, Kind)>,
}

fn shape(name: &'static str, fields: &[(&'static str, Kind)]) -> Shape {
    Shape { name, guid: [0; 16], size: 4 * fields.len(), fields: fields.to_vec() }
}

fn text(list: &mut Vec<String>, value: &str) -> u32 {
    if let Some(at) = list.iter().position(|entry| entry == value) {
        return at as u32;
    }
    list.push(value.to_owned());
    (list.len() - 1) as u32
}

/// A layout whose root is the first of the structs.
fn layout_of(shapes: &[Shape]) -> TagLayout {
    let place = |name: &str| -> u32 {
        shapes.iter().position(|s| s.name == name).expect("a struct of the layout") as u32
    };
    let mut layout = TagLayout {
        tag_group_block_index: 0,
        strings: Vec::new(),
        string_lists: Vec::new(),
        data_names: Vec::new(),
        field_types: Vec::new(),
        fields: Vec::new(),
        struct_layouts: Vec::new(),
        block_layouts: Vec::new(),
        array_layouts: Vec::new(),
        resource_layouts: Vec::new(),
        interop_layouts: Vec::new(),
        struct_tags: Vec::new(),
        struct_version_table: Vec::new(),
    };
    let mut types: Vec<TagFieldType> = Vec::new();
    for (index, s) in shapes.iter().enumerate() {
        let name_offset = text(&mut layout.strings, s.name);
        // Every struct has a block of its own, in the same place.
        layout.block_layouts.push(TagBlockLayout {
            index: index as u32,
            name_offset,
            max_count: 1024,
            struct_index: index as u32,
        });
    }
    for (index, s) in shapes.iter().enumerate() {
        let first = layout.fields.len() as u32;
        let mut offset: u32 = 0;
        for (name, kind) in s.fields.iter().chain([("", Kind::Plain(TagFieldType::Terminator))].iter()) {
            let (field_type, definition) = match kind {
                Kind::Plain(t) => {
                    let indexed = matches!(
                        t,
                        TagFieldType::CharBlockIndex
                            | TagFieldType::ShortBlockIndex
                            | TagFieldType::LongBlockIndex
                    );
                    (*t, if indexed { 0 } else { u32::MAX })
                }
                Kind::Options(t, names) => {
                    layout.string_lists.push(names.iter().map(|n| (*n).to_owned()).collect());
                    (*t, (layout.string_lists.len() - 1) as u32)
                }
                Kind::Blob(definition) => {
                    let at = text(&mut layout.strings, definition);
                    layout.data_names.push(at);
                    (TagFieldType::Data, (layout.data_names.len() - 1) as u32)
                }
                Kind::Nested(of) => (TagFieldType::Struct, place(of)),
                Kind::List(of) => (TagFieldType::Block, place(of)),
                Kind::Fixed(of, count) => {
                    let name_offset = text(&mut layout.strings, of);
                    layout.array_layouts.push(TagArrayLayout {
                        name_offset,
                        count: *count,
                        struct_index: place(of),
                    });
                    (TagFieldType::Array, (layout.array_layouts.len() - 1) as u32)
                }
                Kind::Paged(of) => {
                    let name_offset = text(&mut layout.strings, of);
                    layout.resource_layouts.push(TagResourceLayout {
                        name_offset,
                        struct_index: place(of),
                    });
                    (TagFieldType::PageableResource, (layout.resource_layouts.len() - 1) as u32)
                }
            };
            let type_index = match types.iter().position(|t| *t == field_type) {
                Some(at) => at as u32,
                None => {
                    types.push(field_type);
                    let name_offset = text(&mut layout.strings, label_of_type(field_type));
                    layout.field_types.push(TagFieldTypeLayout {
                        name_offset,
                        size: 4,
                        needs_sub_chunk: matches!(
                            field_type,
                            TagFieldType::Struct
                                | TagFieldType::Block
                                | TagFieldType::Array
                                | TagFieldType::Data
                                | TagFieldType::TagReference
                                | TagFieldType::StringId
                                | TagFieldType::PageableResource
                        ),
                    });
                    (types.len() - 1) as u32
                }
            };
            let name_offset = text(&mut layout.strings, name);
            layout.fields.push(TagFieldLayout {
                name_offset,
                type_index,
                field_type,
                offset,
                definition,
            });
            offset += 4;
        }
        let name_offset = text(&mut layout.strings, s.name);
        layout.struct_layouts.push(TagStructLayout {
            index: index as u32,
            name_offset,
            size: s.size,
            guid: s.guid,
            version: 0,
            first_field_index: first,
        });
    }
    assert!(layout.is_valid());
    layout
}



fn set(s: &mut TagStruct, name: &str, value: TagFieldData) {
    let at = place_of_field(s, name).expect("a field of the struct");
    assert!(s.at_mut(at).set(value).is_ok());
}

fn number(s: &TagStruct, name: &str) -> i128 {
    read_int_any(s, name).expect("a number")
}

fn left_behind(paths: &[&str]) -> ConversionContext {
    let mut context = ConversionContext::new();
    for path in paths {
        context.leave_resource(path);
        record_unsupported(&mut context, path, "lost".to_owned());
    }
    context
}

fn kinds(context: &ConversionContext) -> Vec<(String, bool)> {
    context
        .report
        .issues
        .iter()
        .map(|i| (i.path.clone(), i.kind == ConversionIssueKind::Warning))
        .collect()
}

#[test]
fn forgiving_leaves_a_warning_in_the_place_of_the_refusal() {
    let mut context = left_behind(&["a[0]/api resource", "b/pixels"]);
    forgive_hydrated_geometry(None, "api resource", &mut context);
    assert_eq!(context.resources_left_behind.len(), 2);
    forgive_hydrated_geometry(Some(true), "API resource*", &mut context);
    assert_eq!(context.resources_left_behind, vec!["b/pixels"]);
    assert_eq!(
        kinds(&context),
        vec![("a[0]/api resource".to_owned(), true), ("b/pixels".to_owned(), false)]
    );
    assert!(context.report.issues[0].message.starts_with("The GPU geometry resource was dropped"));
}

fn sound() -> TagFile {
    let mut file = TagFile::new(
        1,
        1,
        layout_of(&[
            shape("sound", &[("data", Kind::Paged("node")), ("parts", Kind::List("part"))]),
            shape("part", &[("data", Kind::Paged("node"))]),
            shape("node", &[("name", Kind::Plain(TagFieldType::StringId))]),
        ]),
    );
    let layout = file.layout.duplicate();
    let parts = file.root.at_mut(1).as_block_mut().unwrap();
    let index = parts.add_element(&layout);
    let filled = || TagResourceContent::xsync(3, vec![1]);
    parts.at_mut(index).at_mut(0).as_resource_mut().unwrap().set_content(filled());
    file.root.at_mut(0).as_resource_mut().unwrap().set_content(filled());
    file
}

#[test]
fn a_payload_that_lives_outside_is_let_go() {
    let mut file = sound();
    let mut context = left_behind(&["data"]);
    forgive_externally_stored_payload(false, "sound", None, &mut file, &mut context);
    forgive_externally_stored_payload(true, "weapon", None, &mut file, &mut context);
    forgive_externally_stored_payload(
        true,
        "scenario_structure_bsp",
        Some(false),
        &mut file,
        &mut context,
    );
    assert_eq!(file, sound());
    forgive_externally_stored_payload(true, "Sound", None, &mut file, &mut context);
    assert!(file.root.at(0).as_resource().unwrap().is_null());
    let parts = file.root.at(1).as_block().unwrap();
    assert!(parts.at(0).at(0).as_resource().unwrap().is_null());
    assert!(context.resources_left_behind.is_empty());
    assert_eq!(
        context.report.issues[0].message,
        "The Xbox 360 payload was dropped; a Sound on this side of the engine carries this \
         resource null and finds what it needs outside the tag"
    );
}

const VERTEX_TYPES: &[&str] = &["world", "rigid", "skinned", "rigid compressed"];

fn geometry() -> TagFile {
    let mut file = TagFile::new(
        1,
        1,
        layout_of(&[
            shape("root", &[("render geometry", Kind::Nested("geometry"))]),
            shape(
                "geometry",
                &[
                    (
                        "runtime flags",
                        Kind::Options(TagFieldType::LongFlags, &["processed", "available"]),
                    ),
                    ("meshes", Kind::List("mesh")),
                ],
            ),
            shape(
                "mesh",
                &[
                    ("index buffer index", Kind::Plain(TagFieldType::ShortInteger)),
                    ("index buffer tessellation", Kind::Plain(TagFieldType::ShortBlockIndex)),
                    ("vertex buffer indices", Kind::Fixed("slot", 2)),
                    ("vertex type", Kind::Options(TagFieldType::CharEnum, VERTEX_TYPES)),
                ],
            ),
            shape("slot", &[("vertex buffer index", Kind::Plain(TagFieldType::WordInteger))]),
        ]),
    );
    let layout = file.layout.duplicate();
    let geometry = file.root.at_mut(0).as_struct_mut().unwrap();
    set(geometry, "runtime flags", TagFieldData::LongFlags { value: 3, names: Vec::new() });
    let meshes = geometry.at_mut(1).as_block_mut().unwrap();
    let index = meshes.add_element(&layout);
    let mesh = meshes.at_mut(index);
    set(mesh, "index buffer index", TagFieldData::ShortInteger(4));
    set(mesh, "vertex type", TagFieldData::CharEnum { value: 3, name: None });
    let slots = mesh.at_mut(2).as_array_mut().unwrap();
    set(slots.at_mut(1), "vertex buffer index", TagFieldData::WordInteger(8));
    file
}

#[test]
fn geometry_without_buffers_is_described_as_uncompiled() {
    let mut file = geometry();
    let mut context = ConversionContext::new();
    settle_uncompiled_geometry(true, Some(false), &mut file, &mut context);
    settle_uncompiled_geometry(false, Some(true), &mut file, &mut context);
    assert_eq!(file, geometry());
    settle_uncompiled_geometry(true, Some(true), &mut file, &mut context);
    let own = file.root.at(0).as_struct().unwrap();
    assert_eq!(number(own, "runtime flags"), 2);
    let mesh = own.at(1).as_block().unwrap().at(0);
    assert_eq!(number(mesh, "index buffer index"), -1);
    assert_eq!(number(mesh, "index buffer tessellation"), -1);
    assert_eq!(number(mesh.at(2).as_array().unwrap().at(1), "vertex buffer index"), 0);
    assert_eq!(read_enum_name(mesh, "vertex type"), Some("rigid"));
    assert_eq!(
        context.report.issues[0].message,
        "1 mesh(es) were re-described as uncompiled, because the compiled geometry buffers \
         they named did not come across"
    );
}

fn user_data(kind: i16) -> TagFile {
    let mut file = TagFile::new(
        1,
        1,
        layout_of(&[
            shape("root", &[("blobs", Kind::List("blob"))]),
            shape(
                "blob",
                &[
                    ("user data header", Kind::Nested("header")),
                    ("user data", Kind::Blob("bytes")),
                ],
            ),
            shape(
                "header",
                &[("data type", Kind::Options(TagFieldType::ShortEnum, &["PRT Info", "other"]))],
            ),
        ]),
    );
    let layout = file.layout.duplicate();
    let blobs = file.root.at_mut(0).as_block_mut().unwrap();
    let index = blobs.add_element(&layout);
    let blob = blobs.at_mut(index);
    set(blob, "user data", TagFieldData::Data(vec![0, 0, 0, 3, 1, 2, 3, 4]));
    let header = blob.at_mut(0).as_struct_mut().unwrap();
    set(header, "data type", TagFieldData::ShortEnum { value: kind, name: None });
    file
}

fn bytes_of(file: &TagFile) -> Vec<u8> {
    let blob = file.root.at(0).as_block().unwrap().at(0);
    blob.at(1).as_data().unwrap().clone()
}

#[test]
fn known_user_data_is_turned_round() {
    let mut context = ConversionContext::new();
    let mut file = user_data(0);
    swap_geometry_user_data(true, &mut file, &mut context);
    assert_eq!(bytes_of(&file), vec![3, 0, 0, 0, 4, 3, 2, 1]);
    assert_eq!(
        context.report.issues[0].message,
        "1 geometry user-data blob(s) were byte-swapped for the target"
    );
    swap_geometry_user_data(true, &mut file, &mut context);
    assert_eq!(file, user_data(0));
    let mut other = user_data(1);
    swap_geometry_user_data(true, &mut other, &mut context);
    assert_eq!(other, user_data(1));
    assert_eq!(context.report.issues.len(), 2);
}

#[test]
fn curves_are_turned_round_by_the_table() {
    let mut context = ConversionContext::new();
    let mut file = user_data(1);
    let before = bytes_of(&file);
    let table = vec![(before.clone(), vec![7, 7])];
    swap_function_curves(false, &table, &mut file, &mut context);
    assert_eq!(bytes_of(&file), before);
    swap_function_curves(true, &table, &mut file, &mut context);
    assert_eq!(bytes_of(&file), vec![7, 7]);
    assert_eq!(
        context.report.issues[0].message,
        "1 function curve(s) were byte-swapped for the target"
    );
}

fn structure() -> TagFile {
    let mut file = TagFile::new(
        u32::from_be_bytes(*b"sbsp"),
        1,
        layout_of(&[
            shape("root", &[("resource interface", Kind::Nested("interface"))]),
            shape(
                "interface",
                &[
                    ("raw_resources", Kind::List("raw")),
                    ("tag_resources", Kind::Paged("items")),
                    ("cache_file_resources", Kind::Paged("items")),
                    ("use resource items", Kind::Plain(TagFieldType::LongInteger)),
                ],
            ),
            shape("raw", &[("raw_items", Kind::Nested("items"))]),
            shape("items", &[("count", Kind::Plain(TagFieldType::LongInteger))]),
        ]),
    );
    let layout = file.layout.duplicate();
    let interface = file.root.at_mut(0).as_struct_mut().unwrap();
    set(interface, "use resource items", TagFieldData::LongInteger(1));
    let body = fresh_struct_of(&layout, 3);
    interface
        .at_mut(1)
        .as_resource_mut()
        .unwrap()
        .set_content(TagResourceContent::exploded(vec![1], body, Some(64)));
    file
}

fn control(in_control: bool, fault: Option<&str>) -> ControlRead {
    let layout = structure().layout;
    let mut items = fresh_struct_of(&layout, 3);
    set(&mut items, "count", TagFieldData::LongInteger(12));
    ControlRead {
        in_control,
        items,
        structs: 1,
        block_elements: 2,
        data_bytes: 3,
        fault: fault.map(str::to_owned),
    }
}

#[test]
fn a_structure_is_brought_inline() {
    let path = "resource interface/tag_resources";
    let source = structure();
    let mut target = structure();
    let mut context = left_behind(&[path]);
    carry_structure_resources(false, &source, &mut target, &mut context, &control(true, None));
    assert_eq!(target, structure());
    carry_structure_resources(true, &source, &mut target, &mut context, &control(true, None));
    let interface = target.root.at(0).as_struct().unwrap();
    assert_eq!(number(interface, "use resource items"), 0);
    assert!(interface.at(1).as_resource().unwrap().is_null());
    let raw = interface.at(0).as_block().unwrap();
    assert_eq!(raw.len(), 1);
    assert_eq!(number(raw.at(0).at(0).as_struct().unwrap(), "count"), 12);
    assert!(context.resources_left_behind.is_empty());
    assert!(context.report.issues[0]
        .message
        .ends_with("(1 struct(s), 2 block element(s), 3 byte(s) of payload)"));
}

#[test]
fn a_structure_that_cannot_be_read_says_why() {
    let source = structure();
    let mut target = structure();
    let mut context = ConversionContext::new();
    carry_structure_resources(true, &source, &mut target, &mut context, &control(false, None));
    assert_eq!(target, structure());
    assert!(context.report.issues[0].message.contains("does not point into its control data"));
    carry_structure_resources(
        true,
        &source,
        &mut target,
        &mut context,
        &control(true, Some("short")),
    );
    assert_eq!(
        context.report.issues[1].message,
        "The Xbox 360 structure resource could not be read: short"
    );
    let interface = target.root.at(0).as_struct().unwrap();
    assert_eq!(number(interface, "use resource items"), 1);
}

fn graph(groups: usize) -> TagFile {
    let mut file = TagFile::new(
        u32::from_be_bytes(*b"jmad"),
        1,
        layout_of(&[
            shape("root", &[("tag resource groups", Kind::List("group"))]),
            shape("group", &[("tag_resource", Kind::Paged("payload"))]),
            shape("payload", &[("group_members", Kind::List("member"))]),
            shape(
                "member",
                &[
                    ("animation_index", Kind::Plain(TagFieldType::ShortInteger)),
                    ("frame count", Kind::Plain(TagFieldType::ShortInteger)),
                    ("data sizes", Kind::Nested("sizes")),
                    ("animation_data", Kind::Blob("stream")),
                ],
            ),
            shape(
                "sizes",
                &[
                    ("first", Kind::Plain(TagFieldType::LongInteger)),
                    ("", Kind::Plain(TagFieldType::Pad)),
                    ("second", Kind::Plain(TagFieldType::LongInteger)),
                ],
            ),
        ]),
    );
    let layout = file.layout.duplicate();
    let list = file.root.at_mut(0).as_block_mut().unwrap();
    for _ in 0..groups {
        let index = list.add_element(&layout);
        let resource = list.at_mut(index).at_mut(0).as_resource_mut().unwrap();
        let body = fresh_struct_of(&layout, 2);
        resource.set_content(TagResourceContent::exploded(Vec::new(), body, Some(1)));
    }
    file
}

fn member(fault: Option<&str>) -> AnimationResourceMember {
    AnimationResourceMember {
        animation_index: 5,
        animation_checksum: 6,
        frame_count: 30,
        node_count: 2,
        movement_data_type: 0,
        data_sizes: vec![11, 22, 33],
        animation_data: vec![1, 2],
        fault: fault.map(str::to_owned),
    }
}

#[test]
fn animations_are_carried_whole() {
    let source = graph(1);
    let mut target = graph(1);
    let mut context = left_behind(&["tag resource groups[0]/tag_resource"]);
    let reads = vec![Some(vec![member(None), member(None)])];
    carry_animation_resources(true, &source, &mut target, &mut context, &reads);
    let groups = target.root.at(0).as_block().unwrap();
    let resource = groups.at(0).at(0).as_resource().unwrap();
    assert!(resource.xsync_state().is_none());
    let mut copy = target.duplicate();
    let list = copy.root.at_mut(0).as_block_mut().unwrap();
    let body = list.at_mut(0).at_mut(0).as_resource_mut().unwrap().body_mut().unwrap();
    let members = body.at(0).as_block().unwrap();
    assert_eq!(members.len(), 2);
    assert_eq!(number(members.at(1), "animation_index"), 5);
    assert_eq!(number(members.at(1), "frame count"), 30);
    let sizes = members.at(1).at(2).as_struct().unwrap();
    assert_eq!((number(sizes, "first"), number(sizes, "second")), (11, 22));
    assert_eq!(members.at(1).at(3).as_data(), Some(&vec![1, 2]));
    assert!(context.resources_left_behind.is_empty());
    assert!(context.report.issues[0].message.contains("(2 animation(s), codec streams"));
}

#[test]
fn half_a_graph_is_not_carried() {
    let source = graph(2);
    let mut target = graph(2);
    let mut context = left_behind(&["tag resource groups[1]/tag_resource"]);
    let reads = vec![Some(vec![member(None)]), Some(vec![member(Some("odd"))])];
    carry_animation_resources(true, &source, &mut target, &mut context, &reads);
    assert_eq!(target, graph(2));
    assert_eq!(
        context.report.issues[1].message,
        "Animation 0 could not be put into this side's byte order: odd"
    );
    assert_eq!(context.report.issues[1].path, "tag resource groups[1]/tag_resource");
    carry_animation_resources(true, &source, &mut target, &mut context, &vec![None, None]);
    assert_eq!(
        context.report.issues[2].message,
        "The Xbox 360 animation resource's control data could not be walked"
    );
    let mut other = graph(1);
    carry_animation_resources(
        true,
        &source,
        &mut other,
        &mut context,
        &vec![Some(Vec::new()), Some(Vec::new())],
    );
    assert_eq!(
        context.report.issues[3].message,
        "The target carries 1 resource group(s) but the source has 2"
    );
}

const FORMATS: &[&str] = &["dxt1", "y8"];

fn bitmap(images: usize) -> TagFile {
    let mut file = TagFile::new(
        u32::from_be_bytes(*b"bitm"),
        1,
        layout_of(&[
            shape(
                "root",
                &[
                    (
                        "Flags",
                        Kind::Options(
                            TagFieldType::WordFlags,
                            &["a", "using tag_interop and tag_resource"],
                        ),
                    ),
                    ("processed pixel data", Kind::Blob("pixels")),
                    ("bitmaps", Kind::List("image")),
                    ("xenon bitmaps", Kind::List("image")),
                    ("hardware textures", Kind::List("texture")),
                ],
            ),
            shape(
                "image",
                &[
                    ("width", Kind::Plain(TagFieldType::ShortInteger)),
                    ("format", Kind::Options(TagFieldType::ShortEnum, FORMATS)),
                    (
                        "more flags",
                        Kind::Options(TagFieldType::ByteFlags, &["xbox360 tiled texture", "b"]),
                    ),
                    ("pixels offset", Kind::Plain(TagFieldType::LongInteger)),
                    ("pixels size", Kind::Plain(TagFieldType::LongInteger)),
                    ("mipmap count", Kind::Plain(TagFieldType::CharInteger)),
                    ("hardware format", Kind::Plain(TagFieldType::LongInteger)),
                ],
            ),
            shape("texture", &[("texture resource", Kind::Paged("payload"))]),
            shape("payload", &[("size", Kind::Plain(TagFieldType::LongInteger))]),
        ]),
    );
    let layout = file.layout.duplicate();
    set(&mut file.root, "Flags", TagFieldData::WordFlags { value: 3, names: Vec::new() });
    for name in ["xenon bitmaps", "hardware textures"] {
        let at = place_of_field(&file.root, name).unwrap();
        let list = file.root.at_mut(at).as_block_mut().unwrap();
        for _ in 0..images {
            let index = list.add_element(&layout);
            if name == "xenon bitmaps" {
                let image = list.at_mut(index);
                set(image, "width", TagFieldData::ShortInteger(64));
                set(image, "hardware format", TagFieldData::LongInteger(99));
                set(image, "more flags", TagFieldData::ByteFlags { value: 3, names: Vec::new() });
            } else {
                let resource = list.at_mut(index).at_mut(0).as_resource_mut().unwrap();
                let body = fresh_struct_of(&layout, 3);
                resource.set_content(TagResourceContent::exploded(vec![1], body, None));
            }
        }
    }
    file
}

fn image(pixels: &[u8]) -> Option<DetiledImage> {
    Some(DetiledImage {
        pixels: Ok(pixels.to_vec()),
        layer_count: 1,
        kind: None,
        format: Some("Dxt1".to_owned()),
        mipmap_levels: 3,
        transcoded: Err("no".to_owned()),
    })
}

fn formats() -> Vec<(String, String)> {
    vec![("dxt1".to_owned(), "Dxt1".to_owned()), ("y8".to_owned(), "Y8".to_owned())]
}

#[test]
fn pixels_are_moved_into_one_blob() {
    let source = bitmap(2);
    let mut target = bitmap(2);
    let mut context = left_behind(&["hardware textures[0]/texture resource"]);
    let images = Ok(vec![image(&[1, 2, 3]), image(&[4, 5])]);
    convert_x360_bitmap_pixels(&source, &mut target, &mut context, &images, &formats());
    let root = &target.root;
    assert_eq!(find_field(root, "processed pixel data").unwrap().as_data(), Some(&vec![1, 2, 3, 4, 5]));
    let list = block_of(root, "bitmaps").unwrap();
    assert_eq!(list.len(), 2);
    assert_eq!(number(list.at(1), "pixels offset"), 3);
    assert_eq!(number(list.at(1), "pixels size"), 2);
    assert_eq!(number(list.at(1), "mipmap count"), 2);
    assert_eq!(number(list.at(1), "width"), 64);
    assert_eq!(number(list.at(1), "more flags"), 2);
    assert_eq!(number(list.at(1), "hardware format"), 0);
    assert_eq!(block_of(root, "hardware textures").unwrap().len(), 0);
    assert_eq!(block_of(root, "xenon bitmaps").unwrap().len(), 0);
    assert_eq!(number(root, "Flags"), 1);
    assert!(context.resources_left_behind.is_empty());
    assert_eq!(
        context.report.issues[0].message,
        "The Xbox 360 texture resource was dropped; its pixels were detiled into processed \
         pixel data instead (hardware textures[0]/texture resource)"
    );
}

#[test]
fn a_bitmap_that_cannot_be_moved_stays_as_it_was() {
    let source = bitmap(1);
    let mut context = ConversionContext::new();
    let mut say = |images: &Result<Vec<Option<DetiledImage>>, String>, source: &TagFile| {
        let mut target = bitmap(1);
        convert_x360_bitmap_pixels(source, &mut target, &mut context, images, &formats());
        assert_eq!(target, bitmap(1));
        context.report.issues.last().map(|i| (i.path.clone(), i.message.clone()))
    };
    let short = || Some(DetiledImage { pixels: Err("short".to_owned()), ..image(&[]).unwrap() });
    assert_eq!(
        say(&Err("bad".to_owned()), &source).unwrap().1,
        "The Xbox 360 pixel data could not be read: bad"
    );
    assert_eq!(
        say(&Ok(vec![None]), &source).unwrap(),
        ("bitmaps[0]".to_owned(), "The Xbox 360 image is missing from the tag".to_owned())
    );
    assert_eq!(
        say(&Ok(vec![short()]), &source).unwrap().1,
        "The Xbox 360 image could not be detiled: short"
    );
    let layered = || {
        let mut i = short().unwrap();
        i.layer_count = 6;
        i.kind = Some("cube map".to_owned());
        Some(i)
    };
    assert_eq!(
        say(&Ok(vec![layered()]), &source).unwrap().1,
        "The 6-layer Xbox 360 cube map could not be detiled: short"
    );
    let mut unfilled = bitmap(1);
    let at = place_of_field(&unfilled.root, "hardware textures").unwrap();
    let list = unfilled.root.at_mut(at).as_block_mut().unwrap();
    list.at_mut(0)
        .at_mut(0)
        .as_resource_mut()
        .unwrap()
        .set_content(TagResourceContent::xsync(0, Vec::new()));
    assert!(x360_payloads_are_unhydrated(&unfilled.root));
    assert!(!x360_payloads_are_unhydrated(&source.root));
    assert!(say(&Ok(vec![image(&[1])]), &unfilled).unwrap().1.contains("no resident pixel data"));
}

#[test]
fn an_image_is_given_the_format_that_the_target_asks_for() {
    let source = bitmap(1);
    let mut target = bitmap(1);
    let layout = target.layout.duplicate();
    let at = place_of_field(&target.root, "bitmaps").unwrap();
    let list = target.root.at_mut(at).as_block_mut().unwrap();
    let index = list.add_element(&layout);
    set(list.at_mut(index), "format", TagFieldData::ShortEnum { value: 1, name: None });
    let mut context = ConversionContext::new();
    let before = target.duplicate();
    let refused = Ok(vec![image(&[1])]);
    convert_x360_bitmap_pixels(&source, &mut target, &mut context, &refused, &formats());
    assert_eq!(target, before);
    assert_eq!(
        context.report.issues[0].message,
        "The Xbox 360 image is Dxt1 and the target asks for Y8, which could not be produced: no"
    );
    let packed = Some(DetiledImage { transcoded: Ok(vec![8, 8]), ..image(&[1]).unwrap() });
    convert_x360_bitmap_pixels(&source, &mut target, &mut context, &Ok(vec![packed]), &formats());
    assert_eq!(
        find_field(&target.root, "processed pixel data").unwrap().as_data(),
        Some(&vec![8, 8])
    );
}

#[test]
fn numbers_are_cut_to_the_width_of_their_field() {
    let mut s = fresh_struct_of(
        &layout_of(&[shape(
            "s",
            &[
                ("small", Kind::Plain(TagFieldType::ByteInteger)),
                ("real", Kind::Plain(TagFieldType::Real)),
            ],
        )]),
        0,
    );
    set_int_field(&mut s, "small", -1);
    assert_eq!(number(&s, "small"), 255);
    set_int_field(&mut s, "small", 0x1_02);
    assert_eq!(number(&s, "small"), 2);
    let before = s.duplicate();
    set_int_field(&mut s, "real", 1);
    set_int_field(&mut s, "no such field", 1);
    assert_eq!(s, before);
}

#[test]
fn a_stream_has_at_least_one_frame() {
    assert_eq!(stream_frames(-4), 1);
    assert_eq!(stream_frames(0), 1);
    assert_eq!(stream_frames(1), 1);
    assert_eq!(stream_frames(700), 700);
    assert_eq!(stream_frames(0x1_0005), 5);
    assert_eq!(stream_frames(i64::MAX), 0xffff);
}
