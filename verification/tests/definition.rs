//! Walking the definitions of a layout.
use blam_tags::definition::TagFieldDefinition;
use blam_tags::fields::{TagFieldType, label_of_type};
use blam_tags::file::TagFile;
use blam_tags::layout::{
    TagArrayLayout, TagBlockLayout, TagFieldLayout, TagFieldTypeLayout, TagInteropLayout,
    TagLayout, TagResourceLayout, TagStructLayout,
};

/// What a field of a test layout is.
#[derive(Clone, Copy)]
enum Kind {
    Plain(TagFieldType),
    Options(TagFieldType, &'static [&'static str]),
    Blob(&'static str),
    Nested(&'static str),
    List(&'static str),
    Fixed(&'static str, u32),
    Paged(&'static str),
}

/// A struct of a test layout.
struct Shape {
    name: &'static str,
    guid: [u8; 16],
    size: usize,
    fields: Vec<(&'static str, Kind)>,
}

fn shape(name: &'static str, fields: &[(&'static str, Kind)]) -> Shape {
    Shape { name, guid: [0; 16], size: 4 * fields.len(), fields: fields.to_vec() }
}

fn text(list: &mut Vec<String>, value: &str) -> u32 {
    if let Some(at) = list.iter().position(|entry| entry == value) {
        return at as u32;
    }
    list.push(value.to_owned());
    (list.len() - 1) as u32
}

/// A layout whose root is the first of the structs.
fn layout_of(shapes: &[Shape]) -> TagLayout {
    let place = |name: &str| -> u32 {
        shapes.iter().position(|s| s.name == name).expect("a struct of the layout") as u32
    };
    let mut layout = TagLayout {
        tag_group_block_index: 0,
        strings: Vec::new(),
        string_lists: Vec::new(),
        data_names: Vec::new(),
        field_types: Vec::new(),
        fields: Vec::new(),
        struct_layouts: Vec::new(),
        block_layouts: Vec::new(),
        array_layouts: Vec::new(),
        resource_layouts: Vec::new(),
        interop_layouts: Vec::new(),
        struct_tags: Vec::new(),
        struct_version_table: Vec::new(),
    };
    let mut types: Vec<TagFieldType> = Vec::new();
    for (index, s) in shapes.iter().enumerate() {
        let name_offset = text(&mut layout.strings, s.name);
        // Every struct has a block of its own, in the same place.
        layout.block_layouts.push(TagBlockLayout {
            index: index as u32,
            name_offset,
            max_count: 1024,
            struct_index: index as u32,
        });
    }
    for (index, s) in shapes.iter().enumerate() {
        let first = layout.fields.len() as u32;
        let mut offset: u32 = 0;
        for (name, kind) in s.fields.iter().chain([("", Kind::Plain(TagFieldType::Terminator))].iter()) {
            let (field_type, definition) = match kind {
                Kind::Plain(t) => {
                    let indexed = matches!(
                        t,
                        TagFieldType::CharBlockIndex
                            | TagFieldType::ShortBlockIndex
                            | TagFieldType::LongBlockIndex
                    );
                    (*t, if indexed { 0 } else { u32::MAX })
                }
                Kind::Options(t, names) => {
                    layout.string_lists.push(names.iter().map(|n| (*n).to_owned()).collect());
                    (*t, (layout.string_lists.len() - 1) as u32)
                }
                Kind::Blob(definition) => {
                    let at = text(&mut layout.strings, definition);
                    layout.data_names.push(at);
                    (TagFieldType::Data, (layout.data_names.len() - 1) as u32)
                }
                Kind::Nested(of) => (TagFieldType::Struct, place(of)),
                Kind::List(of) => (TagFieldType::Block, place(of)),
                Kind::Fixed(of, count) => {
                    let name_offset = text(&mut layout.strings, of);
                    layout.array_layouts.push(TagArrayLayout {
                        name_offset,
                        count: *count,
                        struct_index: place(of),
                    });
                    (TagFieldType::Array, (layout.array_layouts.len() - 1) as u32)
                }
                Kind::Paged(of) => {
                    let name_offset = text(&mut layout.strings, of);
                    layout.resource_layouts.push(TagResourceLayout {
                        name_offset,
                        struct_index: place(of),
                    });
                    (TagFieldType::PageableResource, (layout.resource_layouts.len() - 1) as u32)
                }
            };
            let type_index = match types.iter().position(|t| *t == field_type) {
                Some(at) => at as u32,
                None => {
                    types.push(field_type);
                    let name_offset = text(&mut layout.strings, label_of_type(field_type));
                    layout.field_types.push(TagFieldTypeLayout {
                        name_offset,
                        size: 4,
                        needs_sub_chunk: matches!(
                            field_type,
                            TagFieldType::Struct
                                | TagFieldType::Block
                                | TagFieldType::Array
                                | TagFieldType::Data
                                | TagFieldType::TagReference
                                | TagFieldType::StringId
                                | TagFieldType::PageableResource
                        ),
                    });
                    (types.len() - 1) as u32
                }
            };
            let name_offset = text(&mut layout.strings, name);
            layout.fields.push(TagFieldLayout {
                name_offset,
                type_index,
                field_type,
                offset,
                definition,
            });
            offset += 4;
        }
        let name_offset = text(&mut layout.strings, s.name);
        layout.struct_layouts.push(TagStructLayout {
            index: index as u32,
            name_offset,
            size: s.size,
            guid: s.guid,
            version: 0,
            first_field_index: first,
        });
    }
    assert!(layout.is_valid());
    layout
}



#[test]
fn definitions_can_be_walked() {
    let layout = layout_of(&[
        Shape {
            name: "root",
            guid: [7; 16],
            size: 24,
            fields: vec![
                ("count", Kind::Plain(TagFieldType::LongInteger)),
                ("", Kind::Plain(TagFieldType::Pad)),
                ("parts", Kind::List("part")),
                ("body", Kind::Nested("part")),
                ("slots", Kind::Fixed("part", 3)),
                ("pixels", Kind::Paged("part")),
                ("which", Kind::Plain(TagFieldType::ShortBlockIndex)),
            ],
        },
        shape("part", &[("name", Kind::Plain(TagFieldType::StringId))]),
    ]);
    let file = TagFile::new(5, 1, layout);
    let root = file.definitions().root_struct();
    assert_eq!(root.name(), "root");
    assert_eq!(root.size(), 24);
    assert_eq!(root.guid(), [7; 16]);
    assert_eq!(root.version(), 0);
    let fields = root.fields();
    assert_eq!(fields.len(), 7);
    assert_eq!(fields[0].name(), "count");
    assert_eq!(fields[0].field_type(), TagFieldType::LongInteger);
    assert_eq!(fields[0].kind_name(), "LongInteger");
    assert_eq!(fields[2].offset(), 8);
    assert!(fields[1].is_padding());
    assert!(!fields[0].is_padding());
    assert!(fields[0].as_struct().is_none());
    let parts = fields[2].as_block().unwrap();
    assert_eq!(parts.name(), "part");
    assert_eq!(parts.max_count(), 1024);
    assert_eq!(parts.struct_definition().name(), "part");
    assert_eq!(fields[3].as_struct().unwrap().name(), "part");
    let slots = fields[4].as_array().unwrap();
    assert_eq!((slots.name(), slots.count()), ("part", 3));
    assert_eq!(slots.struct_definition().fields().len(), 1);
    let pixels = fields[5].as_resource().unwrap();
    assert_eq!(pixels.name(), "part");
    assert_eq!(pixels.struct_definition().struct_index, 1);
    assert_eq!(fields[6].block_index_target().unwrap().name(), "root");
    assert!(fields[0].block_index_target().is_none());
    assert!(fields[0].as_api_interop().is_none());
    assert!(fields[0].as_array().is_none());
    assert!(fields[0].as_resource().is_none());
    assert!(fields[0].as_block().is_none());
}

#[test]
fn an_interop_field_leads_to_its_descriptor() {
    let mut layout = layout_of(&[shape("root", &[("a", Kind::Plain(TagFieldType::Real))])]);
    layout.interop_layouts.push(TagInteropLayout {
        name_offset: 0,
        guid: [3; 16],
        struct_index: 0,
    });
    layout.fields[0].field_type = TagFieldType::ApiInterop;
    layout.fields[0].definition = 0;
    assert!(layout.is_valid());
    let field = TagFieldDefinition::new(&layout, 0);
    let interop = field.as_api_interop().unwrap();
    assert_eq!(interop.name(), "root");
    assert_eq!(interop.guid(), [3; 16]);
    assert_eq!(interop.descriptor().struct_index, 0);
}

#[test]
fn an_index_that_leads_nowhere_is_no_layout() {
    let mut layout = layout_of(&[shape("root", &[("a", Kind::Plain(TagFieldType::Real))])]);
    layout.block_layouts[0].struct_index = 9;
    assert!(!layout.is_valid());
}
