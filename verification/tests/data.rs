//! The data of a tag: blocks, and the chunks in which a file holds them.
use blam_tags::blocks::looks_like_h2_classic_layout;
use blam_tags::chunks::{ChunkName, TagReadError};
use blam_tags::data::{
    TagBlockData, TagResourceChunk, TagStructData, TagSubChunkContent, TagSubChunkEntry,
    field_name_matches,
};
use blam_tags::fields::{TagFieldType, label_of_type};
use blam_tags::layout::{
    TagArrayLayout, TagBlockLayout, TagFieldLayout, TagFieldTypeLayout, TagLayout,
    TagResourceLayout, TagStructLayout,
};

/// What a field of a test layout is.
#[derive(Clone, Copy)]
enum Kind {
    Plain(TagFieldType),
    Options(TagFieldType, &'static [&'static str]),
    Blob(&'static str),
    Nested(&'static str),
    List(&'static str),
    Fixed(&'static str, u32),
    Paged(&'static str),
}

/// A struct of a test layout.
struct Shape {
    name: &'static str,
    guid: [u8; 16],
    size: usize,
    fields: Vec<(&'static str, Kind)>,
}

fn shape(name: &'static str, fields: &[(&'static str, Kind)]) -> Shape {
    Shape { name, guid: [0; 16], size: 4 * fields.len(), fields: fields.to_vec() }
}

fn text(list: &mut Vec<String>, value: &str) -> u32 {
    if let Some(at) = list.iter().position(|entry| entry == value) {
        return at as u32;
    }
    list.push(value.to_owned());
    (list.len() - 1) as u32
}

/// A layout whose root is the first of the structs.
fn layout_of(shapes: &[Shape]) -> TagLayout {
    let place = |name: &str| -> u32 {
        shapes.iter().position(|s| s.name == name).expect("a struct of the layout") as u32
    };
    let mut layout = TagLayout {
        tag_group_block_index: 0,
        strings: Vec::new(),
        string_lists: Vec::new(),
        data_names: Vec::new(),
        field_types: Vec::new(),
        fields: Vec::new(),
        struct_layouts: Vec::new(),
        block_layouts: Vec::new(),
        array_layouts: Vec::new(),
        resource_layouts: Vec::new(),
        interop_layouts: Vec::new(),
        struct_tags: Vec::new(),
        struct_version_table: Vec::new(),
    };
    let mut types: Vec<TagFieldType> = Vec::new();
    for (index, s) in shapes.iter().enumerate() {
        let name_offset = text(&mut layout.strings, s.name);
        // Every struct has a block of its own, in the same place.
        layout.block_layouts.push(TagBlockLayout {
            index: index as u32,
            name_offset,
            max_count: 1024,
            struct_index: index as u32,
        });
    }
    for (index, s) in shapes.iter().enumerate() {
        let first = layout.fields.len() as u32;
        let mut offset: u32 = 0;
        for (name, kind) in s.fields.iter().chain([("", Kind::Plain(TagFieldType::Terminator))].iter()) {
            let (field_type, definition) = match kind {
                Kind::Plain(t) => {
                    let indexed = matches!(
                        t,
                        TagFieldType::CharBlockIndex
                            | TagFieldType::ShortBlockIndex
                            | TagFieldType::LongBlockIndex
                    );
                    (*t, if indexed { 0 } else { u32::MAX })
                }
                Kind::Options(t, names) => {
                    layout.string_lists.push(names.iter().map(|n| (*n).to_owned()).collect());
                    (*t, (layout.string_lists.len() - 1) as u32)
                }
                Kind::Blob(definition) => {
                    let at = text(&mut layout.strings, definition);
                    layout.data_names.push(at);
                    (TagFieldType::Data, (layout.data_names.len() - 1) as u32)
                }
                Kind::Nested(of) => (TagFieldType::Struct, place(of)),
                Kind::List(of) => (TagFieldType::Block, place(of)),
                Kind::Fixed(of, count) => {
                    let name_offset = text(&mut layout.strings, of);
                    layout.array_layouts.push(TagArrayLayout {
                        name_offset,
                        count: *count,
                        struct_index: place(of),
                    });
                    (TagFieldType::Array, (layout.array_layouts.len() - 1) as u32)
                }
                Kind::Paged(of) => {
                    let name_offset = text(&mut layout.strings, of);
                    layout.resource_layouts.push(TagResourceLayout {
                        name_offset,
                        struct_index: place(of),
                    });
                    (TagFieldType::PageableResource, (layout.resource_layouts.len() - 1) as u32)
                }
            };
            let type_index = match types.iter().position(|t| *t == field_type) {
                Some(at) => at as u32,
                None => {
                    types.push(field_type);
                    let name_offset = text(&mut layout.strings, label_of_type(field_type));
                    layout.field_types.push(TagFieldTypeLayout {
                        name_offset,
                        size: 4,
                        needs_sub_chunk: matches!(
                            field_type,
                            TagFieldType::Struct
                                | TagFieldType::Block
                                | TagFieldType::Array
                                | TagFieldType::Data
                                | TagFieldType::TagReference
                                | TagFieldType::StringId
                                | TagFieldType::PageableResource
                        ),
                    });
                    (types.len() - 1) as u32
                }
            };
            let name_offset = text(&mut layout.strings, name);
            layout.fields.push(TagFieldLayout {
                name_offset,
                type_index,
                field_type,
                offset,
                definition,
            });
            offset += 4;
        }
        let name_offset = text(&mut layout.strings, s.name);
        layout.struct_layouts.push(TagStructLayout {
            index: index as u32,
            name_offset,
            size: s.size,
            guid: s.guid,
            version: 0,
            first_field_index: first,
        });
    }
    assert!(layout.is_valid());
    layout
}



fn model_layout() -> TagLayout {
    let mut layout = layout_of(&[
        Shape {
            name: "model_variant",
            guid: [0; 16],
            size: 8,
            fields: vec![
                ("name", Kind::Plain(TagFieldType::StringId)),
                ("dialogue", Kind::Plain(TagFieldType::TagReference)),
            ],
        },
        Shape {
            name: "model_variant_v0",
            guid: [0; 16],
            size: 4,
            fields: vec![("name", Kind::Plain(TagFieldType::StringId))],
        },
    ]);
    layout.struct_tags = vec![0, 0];
    layout.struct_version_table = vec![Some(vec![1]), None];
    layout
}

fn block(index: u32) -> TagBlockData {
    TagBlockData {
        block_index: index,
        flags: 0,
        raw_data: Vec::new(),
        big_endian: false,
        elements: Vec::new(),
        classic_block_header: None,
        classic_structural_dirty: false,
        classic_trailing: None,
    }
}

#[test]
fn add_element_preserves_versioned_classic_block_width() {
    let layout = model_layout();
    let block_index = 0;
    let base_struct_index = layout.block_layouts[block_index].struct_index as usize;
    let active_struct_index =
        layout.struct_version_table[base_struct_index].as_ref().unwrap()[0] as usize;
    let active_size = layout.struct_layouts[active_struct_index].size;
    assert_ne!(active_size, layout.struct_layouts[base_struct_index].size);
    let mut block = TagBlockData {
        block_index: block_index as u32,
        flags: 0,
        raw_data: vec![0; active_size],
        big_endian: false,
        elements: vec![TagStructData::new_default(&layout, active_struct_index, false)],
        classic_block_header: Some(vec![0; 16]),
        classic_structural_dirty: false,
        classic_trailing: None,
    };
    block.add_element(&layout);
    assert_eq!(block.raw_data.len(), active_size * 2);
    assert_eq!(block.elements[1].struct_index as usize, active_struct_index);
    assert!(block.classic_structural_dirty);
}

#[test]
fn empty_to_nonempty_and_back_marks_dirty_and_synthesizes_header() {
    let layout = model_layout();
    let mut block = block(0);
    block.add_element(&layout);
    assert!(block.classic_structural_dirty);
    let header = block.classic_block_header.as_deref().expect("header synthesized");
    assert_eq!(&header[0..4], b"dfbt");
    assert_eq!(header.len(), 16);
    assert_eq!(&header[12..16], &8u32.to_le_bytes());
    block.classic_structural_dirty = false;
    block.clear();
    assert!(block.classic_structural_dirty);
    assert!(block.elements.is_empty());
}

#[test]
fn a_layout_without_versions_gets_no_header() {
    let layout = node_layout();
    assert!(!looks_like_h2_classic_layout(&layout));
    let mut block = block(1);
    block.add_element(&layout);
    assert!(block.classic_block_header.is_none());
}

fn numbered(layout: &TagLayout, count: u8) -> TagBlockData {
    let mut b = block(1);
    for _ in 0..count {
        b.add_element(layout);
    }
    for i in 0..count {
        b.raw_data[4 * i as usize] = i + 1;
        b.elements[i as usize].set_chunk(
            layout.struct_layouts[1].first_field_index,
            TagSubChunkContent::StringId(vec![i + 1]),
        );
    }
    b
}

fn order(b: &TagBlockData) -> Vec<u8> {
    b.raw_data.chunks(4).map(|c| c[0]).collect()
}

fn trees(b: &TagBlockData) -> Vec<u8> {
    b.elements
        .iter()
        .map(|e| match &e.sub_chunks[0].content {
            TagSubChunkContent::StringId(bytes) => bytes.first().copied().unwrap_or(0),
            _ => 255,
        })
        .collect()
}

fn node_layout() -> TagLayout {
    layout_of(&[
        shape(
            "root",
            &[
                ("flags", Kind::Plain(TagFieldType::LongInteger)),
                ("nodes", Kind::List("node")),
                ("body", Kind::Nested("node")),
                ("slots", Kind::Fixed("node", 2)),
                ("sound", Kind::Plain(TagFieldType::TagReference)),
                ("blob", Kind::Blob("bytes")),
                ("resource", Kind::Paged("node")),
            ],
        ),
        shape("node", &[("name", Kind::Plain(TagFieldType::StringId))]),
    ])
}

#[test]
fn elements_move_with_their_bytes() {
    let layout = node_layout();
    let mut b = numbered(&layout, 3);
    assert_eq!(order(&b), vec![1, 2, 3]);
    b.swap_elements(&layout, 0, 2);
    assert_eq!(order(&b), vec![3, 2, 1]);
    assert_eq!(trees(&b), vec![3, 2, 1]);
    b.swap_elements(&layout, 0, 2);
    assert_eq!(b, {
        let mut c = numbered(&layout, 3);
        c.classic_structural_dirty = true;
        c
    });
    b.move_element(&layout, 0, 2);
    assert_eq!(order(&b), vec![2, 3, 1]);
    assert_eq!(trees(&b), vec![2, 3, 1]);
    b.move_element(&layout, 2, 0);
    assert_eq!(order(&b), vec![1, 2, 3]);
    b.duplicate_element(&layout, 1);
    assert_eq!(order(&b), vec![1, 2, 2, 3]);
    assert_eq!(trees(&b), vec![1, 2, 2, 3]);
    b.remove_element(&layout, 0);
    assert_eq!(order(&b), vec![2, 2, 3]);
    b.insert_element(&layout, 1);
    assert_eq!(order(&b), vec![2, 0, 2, 3]);
    assert_eq!(trees(&b), vec![2, 0, 2, 3]);
    b.remove_element(&layout, 1);
    assert_eq!(order(&b), vec![2, 2, 3]);
    assert_eq!(b.element_raw(&layout, 2), &[3, 0, 0, 0]);
    assert_eq!(b.element_size(&layout), 4);
    assert_eq!(b.iter_elements(&layout).len(), 3);
}

#[test]
fn a_swap_with_itself_leaves_no_mark() {
    let layout = node_layout();
    let mut b = numbered(&layout, 2);
    b.classic_structural_dirty = false;
    b.swap_elements(&layout, 1, 1);
    b.move_element(&layout, 0, 0);
    assert!(!b.classic_structural_dirty);
}

#[test]
fn a_field_answers_to_the_name_before_its_code() {
    assert!(field_name_matches(Some("animations|ABCDCC"), "animations"));
    assert!(field_name_matches(Some("animations"), "animations"));
    assert!(!field_name_matches(Some("animations"), "anim"));
    assert!(!field_name_matches(None, "animations"));
}

#[test]
fn nested_structs_are_clamped_to_what_is_there() {
    let layout = node_layout();
    let mut s = TagStructData::new_default(&layout, 0, false);
    let body = s.find_field_by_name(&layout, "body").unwrap();
    let flags = s.find_field_by_name(&layout, "flags").unwrap();
    assert!(s.find_field_by_name(&layout, "no such field").is_none());
    let raw: Vec<u8> = (0..28).collect();
    let (nested, bytes) = s.nested_struct(&layout, &raw, body).unwrap();
    assert_eq!(nested.struct_index, 1);
    assert_eq!(bytes, &[8, 9, 10, 11]);
    assert_eq!(s.nested_struct(&layout, &raw[..10], body).unwrap().1, &[8, 9]);
    assert!(s.nested_struct(&layout, &raw[..8], body).is_none());
    assert!(s.nested_struct(&layout, &raw, flags).is_none());
    let (_, from, to) = s.nested_struct_mut(&layout, 10, body).unwrap();
    assert_eq!((from, to), (8, 10));
    assert!(s.nested_struct_mut(&layout, 8, body).is_none());
    assert_eq!(
        s.field_names(&layout),
        vec!["flags", "nodes", "body", "slots", "sound", "blob", "resource"]
    );
}

// ---------------------------------------------------------------------------
// Chunks
// ---------------------------------------------------------------------------
fn sample(layout: &TagLayout) -> TagBlockData {
    let mut root = TagBlockData::new_root_default(layout, 0, false);
    let first = layout.struct_layouts[0].first_field_index;
    let name = layout.struct_layouts[1].first_field_index;
    root.raw_data = (0..28).collect();
    let mut nodes = numbered(layout, 2);
    nodes.classic_structural_dirty = false;
    let tree = &mut root.elements[0];
    tree.set_chunk(first + 1, TagSubChunkContent::Block(nodes));
    tree.set_chunk(first + 4, TagSubChunkContent::TagReference(b"snd!a\\b".to_vec()));
    tree.set_chunk(first + 5, TagSubChunkContent::Data(vec![9; 5]));
    let mut inner = TagStructData::new_default(layout, 1, false);
    inner.set_chunk(name, TagSubChunkContent::StringId(b"head".to_vec()));
    tree.set_chunk(
        first + 6,
        TagSubChunkContent::Resource(TagResourceChunk::Exploded {
            exploded: vec![1, 2, 3],
            struct_data: inner,
            xsync_state: None,
        }),
    );
    root
}

#[test]
fn a_written_block_reads_back() {
    let layout = node_layout();
    let root = sample(&layout);
    let mut bytes = vec![0xaa; 3];
    root.write(&mut bytes);
    let end = bytes.len();
    bytes.extend_from_slice(&[0xbb; 2]);
    let (read, at) = TagBlockData::read(&layout, 0, &bytes, false, 3).unwrap();
    assert_eq!(read, root);
    assert_eq!(at, end);
}

#[test]
fn a_fresh_root_reads_back() {
    let layout = node_layout();
    let root = TagBlockData::new_root_default(&layout, 0, false);
    assert_eq!(root.raw_data.len(), 28);
    let mut bytes = Vec::new();
    root.write(&mut bytes);
    assert_eq!(&bytes[0..4], b"lbgt");
    assert_eq!(TagBlockData::read(&layout, 0, &bytes, false, 0), Ok((root, bytes.len())));
}

#[test]
fn resources_of_every_kind_read_back() {
    let layout = node_layout();
    let field = layout.struct_layouts[0].first_field_index + 6;
    for resource in [
        TagResourceChunk::Null,
        TagResourceChunk::Xsync { version: 3, payload: vec![7, 7] },
    ] {
        let mut root = sample(&layout);
        root.elements[0].set_chunk(field, TagSubChunkContent::Resource(resource));
        let mut bytes = Vec::new();
        root.write(&mut bytes);
        assert_eq!(TagBlockData::read(&layout, 0, &bytes, false, 0), Ok((root, bytes.len())));
    }
}

#[test]
fn placeholders_before_and_behind_are_kept() {
    let layout = node_layout();
    let mut root = sample(&layout);
    let placeholder =
        || TagSubChunkEntry { field_index: None, content: TagSubChunkContent::EmptyPlaceholder };
    root.elements[0].sub_chunks.insert(1, placeholder());
    root.elements[0].sub_chunks.push(placeholder());
    let mut bytes = Vec::new();
    root.write(&mut bytes);
    assert_eq!(TagBlockData::read(&layout, 0, &bytes, false, 0), Ok((root, bytes.len())));
}

#[test]
fn a_simple_block_has_no_chunks() {
    let layout = node_layout();
    let mut b = block(1);
    b.flags = 1;
    b.raw_data = vec![5; 8];
    b.elements = vec![
        TagStructData::new_default(&layout, 1, false),
        TagStructData::new_default(&layout, 1, false),
    ];
    let mut bytes = Vec::new();
    b.write(&mut bytes);
    assert_eq!(bytes.len(), 12 + 8 + 8);
    assert_eq!(TagBlockData::read(&layout, 1, &bytes, false, 0), Ok((b, bytes.len())));
}

fn header(signature: &[u8; 4], version: u32, size: u32) -> Vec<u8> {
    let mut out = u32::from_be_bytes(*signature).to_le_bytes().to_vec();
    out.extend_from_slice(&version.to_le_bytes());
    out.extend_from_slice(&size.to_le_bytes());
    out
}

fn struct_fault(bytes: Vec<u8>) -> TagReadError {
    TagStructData::read(&node_layout(), 1, &bytes, false, 0).err().unwrap()
}

#[test]
fn broken_chunks_are_refused() {
    assert_eq!(struct_fault(vec![0; 5]), TagReadError::UnexpectedEnd);
    assert_eq!(
        struct_fault(header(b"tgbl", 0, 0)),
        TagReadError::BadChunkSignature {
            offset: 0,
            expected: u32::from_be_bytes(*b"tgst"),
            got: u32::from_be_bytes(*b"tgbl"),
        }
    );
    assert_eq!(
        struct_fault(header(b"tgst", 1, 2)),
        TagReadError::ChunkSizeMismatch {
            chunk: ChunkName::Struct,
            started_at: 12,
            ended_at: 13,
            expected_end: 14,
        }
    );
    let mut bytes = header(b"tgst", 12, 12);
    bytes.extend_from_slice(&header(b"tgsi", 4, 0));
    assert_eq!(
        struct_fault(bytes),
        TagReadError::BadChunkVersion { chunk: ChunkName::StringId, version: 4 }
    );
    let mut bytes = header(b"tgst", 20, 20);
    bytes.extend_from_slice(&header(b"tgsi", 0, 0));
    bytes.extend_from_slice(&header(b"tgda", 0, 0));
    assert_eq!(
        struct_fault(bytes),
        TagReadError::ChunkSizeMismatch {
            chunk: ChunkName::Struct,
            started_at: 12,
            ended_at: 24,
            expected_end: 32,
        }
    );
}

#[test]
fn an_empty_struct_is_a_fresh_one() {
    let layout = node_layout();
    assert_eq!(
        TagStructData::read(&layout, 1, &header(b"tgst", 0, 0), false, 0),
        Ok((TagStructData::new_default(&layout, 1, false), 12))
    );
}

#[test]
fn numbers_of_the_other_byte_order_are_read() {
    let layout = node_layout();
    let mut bytes = Vec::new();
    for word in [u32::from_be_bytes(*b"tgst"), 16, 16, u32::from_be_bytes(*b"tgsi"), 0, 4] {
        bytes.extend_from_slice(&word.to_be_bytes());
    }
    bytes.extend_from_slice(b"head");
    let (s, end) = TagStructData::read(&layout, 1, &bytes, true, 0).unwrap();
    assert_eq!(end, 28);
    assert_eq!(s.sub_chunks[0].content, TagSubChunkContent::StringId(b"head".to_vec()));
}

#[test]
fn an_unknown_resource_is_refused() {
    let layout = layout_of(&[
        shape("root", &[("resource", Kind::Paged("node"))]),
        shape("node", &[("name", Kind::Plain(TagFieldType::StringId))]),
    ]);
    let mut bytes = header(b"tgst", 12, 12);
    bytes.extend_from_slice(&header(b"what", 0, 0));
    assert_eq!(
        TagStructData::read(&layout, 0, &bytes, false, 0),
        Err(TagReadError::UnknownSubChunkSignature { signature: u32::from_be_bytes(*b"what") })
    );
}

#[test]
fn a_field_of_an_unknown_kind_with_a_chunk_is_refused() {
    let mut layout =
        layout_of(&[shape("root", &[("odd", Kind::Plain(TagFieldType::Real))])]);
    let at = layout.fields[0].type_index;
    layout.field_types[at as usize].needs_sub_chunk = true;
    let mut bytes = header(b"tgst", 12, 12);
    bytes.extend_from_slice(&header(b"tgda", 0, 0));
    assert_eq!(
        TagStructData::read(&layout, 0, &bytes, false, 0),
        Err(TagReadError::UnsupportedFieldType { type_index: at })
    );
}

#[test]
fn arrays_that_hold_each_other_are_refused() {
    let layout = layout_of(&[shape("root", &[("again", Kind::Fixed("root", 1))])]);
    let mut bytes = header(b"tgst", 12, 12);
    bytes.extend_from_slice(&header(b"tgda", 0, 0));
    assert_eq!(
        TagStructData::read(&layout, 0, &bytes, false, 0),
        Err(TagReadError::NestingTooDeep)
    );
}

#[test]
fn what_was_read_is_written_byte_for_byte() {
    let layout = node_layout();
    let mut bytes = Vec::new();
    sample(&layout).write(&mut bytes);
    let (read, end) = TagBlockData::read(&layout, 0, &bytes, false, 0).unwrap();
    let mut again = Vec::new();
    read.write(&mut again);
    assert_eq!(again, bytes[..end]);
}

#[test]
fn an_empty_struct_with_chunks_is_written_longer() {
    let layout = node_layout();
    let (read, end) =
        TagStructData::read(&layout, 1, &header(b"tgst", 0, 0), false, 0).unwrap();
    let mut again = Vec::new();
    read.write(&mut again);
    assert_eq!(end, 12);
    assert_eq!(again.len(), 24);
}

#[test]
fn elements_go_and_move_without_their_struct() {
    let layout = node_layout();
    let mut b = numbered(&layout, 3);
    for element in &mut b.elements {
        element.struct_index = 99;
    }
    assert_eq!(b.element_size(&layout), 4);
    b.swap_elements(&layout, 0, 2);
    assert_eq!(order(&b), vec![3, 2, 1]);
    b.remove_element(&layout, 1);
    assert_eq!(order(&b), vec![3, 1]);
    b.duplicate_element(&layout, 0);
    assert_eq!(trees(&b), vec![3, 3, 1]);
    assert_eq!(b.clone(), b);
}

#[test]
fn a_removed_insertion_needs_no_numbered_structs() {
    let mut layout = node_layout();
    layout.struct_layouts[1].index = 7;
    let mut b = block(1);
    let before = b.clone();
    b.insert_element(&layout, 0);
    b.remove_element(&layout, 0);
    assert_eq!(b.raw_data, before.raw_data);
    assert_eq!(b.elements, before.elements);
}
