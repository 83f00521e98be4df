//! Where companions are written.
use blam_tags::convert::analysis::TagConversionDraft;
use blam_tags::convert::companions::COMPANION_REFERENCE_PREFIX;
use blam_tags::convert::finishing::{OutputCheck, take_output_lists, verify_roundtrip};
use blam_tags::convert::outputs::{output_reference_path, prepare_companion_outputs};
use blam_tags::convert::references::collect_reference_values;
use blam_tags::convert::report::{CompanionTagDraft, TagConversionReport};
use blam_tags::fields::{TagFieldData, TagFieldType, TagReferenceData, label_of_type};
use blam_tags::file::TagFile;
use blam_tags::keys::PathComponent;
use blam_tags::layout::{
    TagArrayLayout, TagBlockLayout, TagFieldLayout, TagFieldTypeLayout, TagLayout,
    TagResourceLayout, TagStructLayout,
};

/// What a field of a test layout is.
#[derive(Clone, Copy)]
enum Kind {
    Plain(TagFieldType),
    Options(TagFieldType, &'static [&'static str]),
    Blob(&'static str),
    Nested(&'static str),
    List(&'static str),
    Fixed(&'static str, u32),
    Paged(&'static str),
}

/// A struct of a test layout.
struct Shape {
    name: &'static str,
    guid: [u8; 16],
    size: usize,
    fields: Vec<(&'static str, Kind)>,
}

fn shape(name: &'static str, fields: &[(&'static str, Kind)]) -> Shape {
    Shape { name, guid: [0; 16], size: 4 * fields.len(), fields: fields.to_vec() }
}

fn text(list: &mut Vec<String>, value: &str) -> u32 {
    if let Some(at) = list.iter().position(|entry| entry == value) {
        return at as u32;
    }
    list.push(value.to_owned());
    (list.len() - 1) as u32
}

/// A layout whose root is the first of the structs.
fn layout_of(shapes: &[Shape]) -> TagLayout {
    let place = |name: &str| -> u32 {
        shapes.iter().position(|s| s.name == name).expect("a struct of the layout") as u32
    };
    let mut layout = TagLayout {
        tag_group_block_index: 0,
        strings: Vec::new(),
        string_lists: Vec::new(),
        data_names: Vec::new(),
        field_types: Vec::new(),
        fields: Vec::new(),
        struct_layouts: Vec::new(),
        block_layouts: Vec::new(),
        array_layouts: Vec::new(),
        resource_layouts: Vec::new(),
        interop_layouts: Vec::new(),
        struct_tags: Vec::new(),
        struct_version_table: Vec::new(),
    };
    let mut types: Vec<TagFieldType> = Vec::new();
    for (index, s) in shapes.iter().enumerate() {
        let name_offset = text(&mut layout.strings, s.name);
        // Every struct has a block of its own, in the same place.
        layout.block_layouts.push(TagBlockLayout {
            index: index as u32,
            name_offset,
            max_count: 1024,
            struct_index: index as u32,
        });
    }
    for (index, s) in shapes.iter().enumerate() {
        let first = layout.fields.len() as u32;
        let mut offset: u32 = 0;
        for (name, kind) in s.fields.iter().chain([("", Kind::Plain(TagFieldType::Terminator))].iter()) {
            let (field_type, definition) = match kind {
                Kind::Plain(t) => {
                    let indexed = matches!(
                        t,
                        TagFieldType::CharBlockIndex
                            | TagFieldType::ShortBlockIndex
                            | TagFieldType::LongBlockIndex
                    );
                    (*t, if indexed { 0 } else { u32::MAX })
                }
                Kind::Options(t, names) => {
                    layout.string_lists.push(names.iter().map(|n| (*n).to_owned()).collect());
                    (*t, (layout.string_lists.len() - 1) as u32)
                }
                Kind::Blob(definition) => {
                    let at = text(&mut layout.strings, definition);
                    layout.data_names.push(at);
                    (TagFieldType::Data, (layout.data_names.len() - 1) as u32)
                }
                Kind::Nested(of) => (TagFieldType::Struct, place(of)),
                Kind::List(of) => (TagFieldType::Block, place(of)),
                Kind::Fixed(of, count) => {
                    let name_offset = text(&mut layout.strings, of);
                    layout.array_layouts.push(TagArrayLayout {
                        name_offset,
                        count: *count,
                        struct_index: place(of),
                    });
                    (TagFieldType::Array, (layout.array_layouts.len() - 1) as u32)
                }
                Kind::Paged(of) => {
                    let name_offset = text(&mut layout.strings, of);
                    layout.resource_layouts.push(TagResourceLayout {
                        name_offset,
                        struct_index: place(of),
                    });
                    (TagFieldType::PageableResource, (layout.resource_layouts.len() - 1) as u32)
                }
            };
            let type_index = match types.iter().position(|t| *t == field_type) {
                Some(at) => at as u32,
                None => {
                    types.push(field_type);
                    let name_offset = text(&mut layout.strings, label_of_type(field_type));
                    layout.field_types.push(TagFieldTypeLayout {
                        name_offset,
                        size: 4,
                        needs_sub_chunk: matches!(
                            field_type,
                            TagFieldType::Struct
                                | TagFieldType::Block
                                | TagFieldType::Array
                                | TagFieldType::Data
                                | TagFieldType::TagReference
                                | TagFieldType::StringId
                                | TagFieldType::PageableResource
                        ),
                    });
                    (types.len() - 1) as u32
                }
            };
            let name_offset = text(&mut layout.strings, name);
            layout.fields.push(TagFieldLayout {
                name_offset,
                type_index,
                field_type,
                offset,
                definition,
            });
            offset += 4;
        }
        let name_offset = text(&mut layout.strings, s.name);
        layout.struct_layouts.push(TagStructLayout {
            index: index as u32,
            name_offset,
            size: s.size,
            guid: s.guid,
            version: 0,
            first_field_index: first,
        });
    }
    assert!(layout.is_valid());
    layout
}



fn normal(name: &str) -> PathComponent {
    PathComponent::Normal(name.to_owned())
}

fn path(parts: &[&str]) -> Vec<PathComponent> {
    let mut out = vec![PathComponent::RootDir];
    out.extend(parts.iter().map(|part| normal(part)));
    out
}

fn weapon() -> TagFile {
    TagFile::new(
        1,
        1,
        layout_of(&[
            shape("weapon", &[("responses", Kind::List("response"))]),
            shape("response", &[("tag", Kind::Plain(TagFieldType::TagReference))]),
        ]),
    )
}

fn with_reference(mut file: TagFile, target: &str) -> TagFile {
    let layout = file.layout.duplicate();
    let list = file.root.at_mut(0).as_block_mut().unwrap();
    let index = list.add_element(&layout);
    let value = TagFieldData::TagReference(TagReferenceData {
        group_tag_and_name: Some((9, target.to_owned())),
    });
    assert!(list.at_mut(index).at_mut(0).set(value).is_ok());
    file
}

fn reference_in(file: &TagFile) -> String {
    let mut found = Vec::new();
    collect_reference_values(&file.root, "", &mut found);
    found[0].tag_path.clone()
}

fn companion(key: &str, suffix: &str, tag: TagFile) -> CompanionTagDraft {
    CompanionTagDraft {
        key: key.to_owned(),
        file_suffix: suffix.to_owned(),
        group_name: "damage_response".to_owned(),
        extension: "damage_response".to_owned(),
        tag,
        native_layout_template: None,
    }
}

fn draft(tag: TagFile, companion_tags: Vec<CompanionTagDraft>) -> TagConversionDraft {
    TagConversionDraft {
        tag,
        companion_tags,
        report: TagConversionReport::new(),
        target_group_name: "weapon".to_owned(),
        target_extension: "weapon".to_owned(),
        native_layout_template: None,
        route: Vec::new(),
    }
}

#[test]
fn companions_go_beside_the_tag_and_are_referred_to() {
    let key = format!("{}first", COMPANION_REFERENCE_PREFIX);
    let own = companion("first", "_response", with_reference(weapon(), &key));
    let mut d = draft(with_reference(weapon(), &key), vec![own]);
    let outputs = prepare_companion_outputs(
        &mut d,
        &path(&["kit", "tags", "objects", "rifle.v2.weapon"]),
        &path(&["kit", "tags"]),
    )
    .unwrap();
    assert_eq!(
        outputs,
        vec![path(&["kit", "tags", "objects", "rifle.v2_response.damage_response"])]
    );
    assert_eq!(reference_in(&d.tag), "objects\\rifle.v2_response");
    assert_eq!(reference_in(&d.companion_tags[0].tag), "objects\\rifle.v2_response");
}

#[test]
fn other_references_stay() {
    let mut d = draft(with_reference(weapon(), "a\\b"), Vec::new());
    assert_eq!(
        prepare_companion_outputs(&mut d, &path(&["t", "x.weapon"]), &path(&["t"])),
        Ok(Vec::new())
    );
    assert_eq!(reference_in(&d.tag), "a\\b");
}

#[test]
fn what_cannot_be_prepared_is_refused() {
    let root = path(&["kit", "tags"]);
    let mut d = draft(weapon(), Vec::new());
    assert_eq!(
        prepare_companion_outputs(&mut d, &vec![PathComponent::RootDir], &root),
        Err("/ has no parent folder".to_owned())
    );
    assert_eq!(
        prepare_companion_outputs(
            &mut d,
            &vec![PathComponent::RootDir, normal("a"), PathComponent::ParentDir],
            &root
        ),
        Err("/a/.. has no valid file name".to_owned())
    );
    let mut d = draft(weapon(), vec![companion("k", "_r", weapon())]);
    assert_eq!(
        prepare_companion_outputs(&mut d, &path(&["elsewhere", "x.weapon"]), &root),
        Err("Companion output /elsewhere/x_r.damage_response is outside target tags root \
             /kit/tags"
            .to_owned())
    );
    let mut d =
        draft(weapon(), vec![companion("k", "_r", weapon()), companion("k", "_s", weapon())]);
    assert_eq!(
        prepare_companion_outputs(&mut d, &path(&["kit", "tags", "x.weapon"]), &root),
        Err("Duplicate companion key k".to_owned())
    );
    let key = format!("{}gone", COMPANION_REFERENCE_PREFIX);
    let mut d = draft(with_reference(weapon(), &key), Vec::new());
    assert_eq!(
        prepare_companion_outputs(&mut d, &path(&["kit", "tags", "x.weapon"]), &root),
        Err("Missing generated companion output for gone".to_owned())
    );
}

#[test]
fn reference_paths_leave_out_the_root_and_the_extension() {
    let root = path(&["kit", "tags"]);
    assert_eq!(
        output_reference_path(&path(&["kit", "tags", "a", "b.c.weapon"]), &root),
        Ok("a\\b.c".to_owned())
    );
    assert_eq!(
        output_reference_path(&path(&["kit", "tags", "a", ".weapon"]), &root),
        Ok("a\\.weapon".to_owned())
    );
    assert_eq!(
        output_reference_path(
            &vec![
                PathComponent::RootDir,
                normal("kit"),
                normal("x"),
                PathComponent::ParentDir,
                normal("tags"),
                normal("b.weapon"),
            ],
            &root
        ),
        Ok("b".to_owned())
    );
}

fn outcome(written: Result<(), &str>, reopened: Result<(), &str>) -> OutputCheck {
    OutputCheck {
        written: written.map_err(str::to_owned),
        reopened: reopened.map_err(str::to_owned),
    }
}

#[test]
fn every_tag_gets_its_own_list() {
    let mut d = draft(weapon(), vec![companion("a", "_a", weapon()), companion("b", "_b", weapon())]);
    let lists = vec![Ok(vec![1]), Ok(vec![2]), Ok(vec![3])];
    assert_eq!(take_output_lists(&mut d, lists), Ok(()));
    assert_eq!(d.tag.dependency_list, Some(vec![1]));
    assert_eq!(d.companion_tags[0].tag.dependency_list, Some(vec![2]));
    assert_eq!(d.companion_tags[1].tag.dependency_list, Some(vec![3]));
    assert_eq!(d.tag.root, weapon().root);
}

#[test]
fn the_first_list_that_cannot_be_made_is_said() {
    let mut d = draft(weapon(), vec![companion("a", "_a", weapon()), companion("b", "_b", weapon())]);
    let lists = vec![Ok(vec![1]), Err("no schema".to_owned()), Err("later".to_owned())];
    assert_eq!(
        take_output_lists(&mut d, lists),
        Err("Could not rebuild damage_response companion dependencies: no schema".to_owned())
    );
    assert_eq!(d.tag.dependency_list, Some(vec![1]));
    assert_eq!(d.companion_tags[0].tag.dependency_list, None);
    let lists = vec![Err("no schema".to_owned()), Ok(vec![2]), Ok(vec![3])];
    assert_eq!(
        take_output_lists(&mut d, lists),
        Err("Could not rebuild converted tag dependencies: no schema".to_owned())
    );
}

#[test]
fn a_tag_that_cannot_be_written_or_opened_stops_the_rest() {
    let main = path(&["kit", "tags", "x.weapon"]);
    let outputs = vec![path(&["kit", "tags", "x_a.damage_response"])];
    let mut d = draft(weapon(), vec![companion("a", "_a", weapon())]);
    let fine = || outcome(Ok(()), Ok(()));
    assert_eq!(verify_roundtrip(&d, &main, &outputs, &vec![fine(), fine()]), Ok(()));
    assert_eq!(
        verify_roundtrip(&d, &main, &outputs, &vec![outcome(Err("full"), Ok(())), fine()]),
        Err("Could not serialize /kit/tags/x.weapon: full".to_owned())
    );
    let cut = || outcome(Ok(()), Err("cut short"));
    assert_eq!(
        verify_roundtrip(&d, &main, &outputs, &vec![fine(), cut()]),
        Err("Could not reopen /kit/tags/x_a.damage_response: cut short".to_owned())
    );
    d.tag.classic = Some("Halo2V4".to_owned());
    assert_eq!(verify_roundtrip(&d, &main, &outputs, &vec![cut(), fine()]), Ok(()));
}
