//! The layout of a tag: the tables that say which structs, fields, blocks,
//! arrays, resources and interop types its data is made of.
use crate::fields::TagFieldType;
use crate::games::{lemma_routes_push, route_views};
use crate::text::{copy_texts, texts};
use vstd::prelude::*;

verus! {

/// A field type that a layout declares.
#[derive(Clone, Copy, Debug, PartialEq, Eq)]
pub struct TagFieldTypeLayout {
    pub name_offset: u32,
    pub size: u32,
    /// Whether a field of this type has a chunk of its own after the raw bytes.
    pub needs_sub_chunk: bool,
}

/// One field of a struct. A run of fields ends with a terminator.
#[derive(Clone, Copy, Debug, PartialEq, Eq)]
pub struct TagFieldLayout {
    pub name_offset: u32,
    pub type_index: u32,
    pub field_type: TagFieldType,
    /// Where the field's bytes start within its struct.
    pub offset: u32,
    /// What the field is made of: an index into the table for its type.
    pub definition: u32,
}

/// One struct.
#[derive(Clone, Copy, Debug, PartialEq, Eq)]
pub struct TagStructLayout {
    pub index: u32,
    pub name_offset: u32,
    pub size: usize,
    pub guid: [u8; 16],
    pub version: u32,
    pub first_field_index: u32,
}

/// One block: a list of structs of one kind.
#[derive(Clone, Copy, Debug, PartialEq, Eq)]
pub struct TagBlockLayout {
    pub index: u32,
    pub name_offset: u32,
    pub max_count: u32,
    pub struct_index: u32,
}

/// One array: a fixed number of structs of one kind.
#[derive(Clone, Copy, Debug, PartialEq, Eq)]
pub struct TagArrayLayout {
    pub name_offset: u32,
    pub count: u32,
    pub struct_index: u32,
}

/// One pageable resource.
#[derive(Clone, Copy, Debug, PartialEq, Eq)]
pub struct TagResourceLayout {
    pub name_offset: u32,
    pub struct_index: u32,
}

/// One interop type.
#[derive(Clone, Copy, Debug, PartialEq, Eq)]
pub struct TagInteropLayout {
    pub name_offset: u32,
    pub guid: [u8; 16],
    pub struct_index: u32,
}

/// The tables of a layout.
///
/// A name is given by its position in `strings`. The options of an enum or flags
/// field are the list in `string_lists` that the field's definition names; the
/// bit of a flag is its position.
#[derive(Debug, PartialEq, Eq)]
pub struct TagLayout {
    pub tag_group_block_index: u32,
    pub strings: Vec<String>,
    pub string_lists: Vec<Vec<String>>,
    pub data_names: Vec<u32>,
    pub field_types: Vec<TagFieldTypeLayout>,
    pub fields: Vec<TagFieldLayout>,
    pub struct_layouts: Vec<TagStructLayout>,
    pub block_layouts: Vec<TagBlockLayout>,
    pub array_layouts: Vec<TagArrayLayout>,
    pub resource_layouts: Vec<TagResourceLayout>,
    pub interop_layouts: Vec<TagInteropLayout>,
    pub struct_tags: Vec<u32>,
    pub struct_version_table: Vec<Option<Vec<u32>>>,
}

/// A layout as contracts speak of it.
pub ghost struct LayoutView {
    pub group_block: u32,
    pub strings: Seq<Seq<char>>,
    pub string_lists: Seq<Seq<Seq<char>>>,
    pub data_names: Seq<u32>,
    pub field_types: Seq<TagFieldTypeLayout>,
    pub fields: Seq<TagFieldLayout>,
    pub structs: Seq<TagStructLayout>,
    pub blocks: Seq<TagBlockLayout>,
    pub arrays: Seq<TagArrayLayout>,
    pub resources: Seq<TagResourceLayout>,
    pub interops: Seq<TagInteropLayout>,
    pub struct_tags: Seq<u32>,
    pub struct_versions: Seq<Option<Seq<u32>>>,
}

/// The views of a table of versions.
pub open spec fn version_views(v: Seq<Option<Vec<u32>>>) -> Seq<Option<Seq<u32>>> {
    Seq::new(
        v.len(),
        |i: int|
            match v[i] {
                Some(list) => Some(list@),
                None => None,
            },
    )
}

impl LayoutView {
    /// The string at `offset`, empty where there is none.
    pub open spec fn string(self, offset: u32) -> Seq<char> {
        if offset < self.strings.len() {
            self.strings[offset as int]
        } else {
            Seq::empty()
        }
    }

    /// Whether what a field is made of is in the table for its type.
    pub open spec fn definition_in_range(self, field: TagFieldLayout) -> bool {
        match field.field_type {
            TagFieldType::Struct => field.definition < self.structs.len(),
            TagFieldType::Block
            | TagFieldType::CharBlockIndex
            | TagFieldType::ShortBlockIndex
            | TagFieldType::LongBlockIndex => field.definition < self.blocks.len(),
            TagFieldType::Array => field.definition < self.arrays.len(),
            TagFieldType::PageableResource => field.definition < self.resources.len(),
            TagFieldType::ApiInterop => field.definition < self.interops.len(),
            _ => true,
        }
    }

    /// Whether every index in the tables leads somewhere, and every run of
    /// fields ends.
    pub open spec fn wf(self) -> bool {
        &&& self.group_block < self.blocks.len()
        &&& self.fields.len() > 0
        &&& self.fields.last().field_type == TagFieldType::Terminator
        &&& forall|i: int|
            0 <= i < self.fields.len() ==> (#[trigger] self.fields[i]).type_index
                < self.field_types.len() && self.definition_in_range(self.fields[i])
        &&& forall|i: int|
            0 <= i < self.structs.len() ==> (#[trigger] self.structs[i]).first_field_index
                < self.fields.len()
        &&& forall|i: int|
            0 <= i < self.blocks.len() ==> (#[trigger] self.blocks[i]).struct_index
                < self.structs.len()
        &&& forall|i: int|
            0 <= i < self.arrays.len() ==> (#[trigger] self.arrays[i]).struct_index
                < self.structs.len()
        &&& forall|i: int|
            0 <= i < self.resources.len() ==> (#[trigger] self.resources[i]).struct_index
                < self.structs.len()
        &&& forall|i: int|
            0 <= i < self.interops.len() ==> (#[trigger] self.interops[i]).struct_index
                < self.structs.len()
    }

    /// Where the run of fields from `from` on ends: the position of the first
    /// terminator, or the end of the table.
    pub open spec fn run_end(self, from: int) -> int
        decreases self.fields.len() - from,
    {
        if 0 <= from < self.fields.len() && self.fields[from].field_type
            != TagFieldType::Terminator {
            self.run_end(from + 1)
        } else {
            from
        }
    }

    /// The name of a field.
    pub open spec fn field_name(self, field: int) -> Seq<char> {
        self.string(self.fields[field].name_offset)
    }

    /// The name of a field's type.
    pub open spec fn field_kind_name(self, field: int) -> Seq<char> {
        if self.fields[field].type_index < self.field_types.len() {
            self.string(self.field_types[self.fields[field].type_index as int].name_offset)
        } else {
            Seq::empty()
        }
    }
}

/// A copy of a list of plain values.
pub fn copy_list<T: Copy>(list: &Vec<T>) -> (r: Vec<T>)
    ensures
        r@ == list@,
{
    let mut r: Vec<T> = Vec::new();
    let mut i: usize = 0;
    while i < list.len()
        invariant
            i <= list.len(),
            r@ == list@.take(i as int),
        decreases list.len() - i,
    {
        r.push(list[i]);
        i = i + 1;
        assert(r@ =~= list@.take(i as int));
    }
    assert(r@ =~= list@);
    r
}

fn copy_string_lists(list: &Vec<Vec<String>>) -> (r: Vec<Vec<String>>)
    ensures
        route_views(r@) == route_views(list@),
{
    let mut r: Vec<Vec<String>> = Vec::new();
    let mut i: usize = 0;
    while i < list.len()
        invariant
            i <= list.len(),
            route_views(r@) == route_views(list@).take(i as int),
        decreases list.len() - i,
    {
        let item: Vec<String> = copy_texts(&list[i]);
        proof {
            lemma_routes_push(r@, item);
        }
        r.push(item);
        i = i + 1;
        assert(route_views(r@) =~= route_views(list@).take(i as int));
    }
    assert(route_views(r@) =~= route_views(list@));
    r
}

fn copy_versions(list: &Vec<Option<Vec<u32>>>) -> (r: Vec<Option<Vec<u32>>>)
    ensures
        version_views(r@) == version_views(list@),
{
    let mut r: Vec<Option<Vec<u32>>> = Vec::new();
    let mut i: usize = 0;
    while i < list.len()
        invariant
            i <= list.len(),
            r@.len() == i,
            forall|j: int| 0 <= j < i ==> version_views(r@)[j] == version_views(list@)[j],
        decreases list.len() - i,
    {
        let ghost before = r@;
        let item: Option<Vec<u32>> = match &list[i] {
            Some(versions) => Some(copy_list(versions)),
            None => None,
        };
        r.push(item);
        assert forall|j: int| 0 <= j <= i implies version_views(r@)[j] == version_views(list@)[j] by {
            if j < i {
                assert(version_views(r@)[j] == version_views(before)[j]);
            }
        }
        i = i + 1;
    }
    assert(version_views(r@) =~= version_views(list@));
    r
}

impl TagLayout {
    /// The layout as contracts speak of it.
    pub open spec fn view(&self) -> LayoutView {
        LayoutView {
            group_block: self.tag_group_block_index,
            strings: texts(self.strings@),
            string_lists: route_views(self.string_lists@),
            data_names: self.data_names@,
            field_types: self.field_types@,
            fields: self.fields@,
            structs: self.struct_layouts@,
            blocks: self.block_layouts@,
            arrays: self.array_layouts@,
            resources: self.resource_layouts@,
            interops: self.interop_layouts@,
            struct_tags: self.struct_tags@,
            struct_versions: version_views(self.struct_version_table@),
        }
    }

    /// A copy of the layout.
    pub fn duplicate(&self) -> (r: TagLayout)
        ensures
            r@ == self@,
    {
        TagLayout {
            tag_group_block_index: self.tag_group_block_index,
            strings: copy_texts(&self.strings),
            string_lists: copy_string_lists(&self.string_lists),
            data_names: copy_list(&self.data_names),
            field_types: copy_list(&self.field_types),
            fields: copy_list(&self.fields),
            struct_layouts: copy_list(&self.struct_layouts),
            block_layouts: copy_list(&self.block_layouts),
            array_layouts: copy_list(&self.array_layouts),
            resource_layouts: copy_list(&self.resource_layouts),
            interop_layouts: copy_list(&self.interop_layouts),
            struct_tags: copy_list(&self.struct_tags),
            struct_version_table: copy_versions(&self.struct_version_table),
        }
    }

    /// The string at `offset`.
    pub fn get_string(&self, offset: u32) -> (r: Option<&str>)
        ensures
            match r {
                Some(s) => offset < self@.strings.len() && s@ == self@.strings[offset as int],
                None => offset >= self@.strings.len(),
            },
    {
        if (offset as usize) < self.strings.len() {
            Some(self.strings[offset as usize].as_str())
        } else {
            None
        }
    }

    /// The string at `offset`, empty where there is none.
    pub fn string_or_empty(&self, offset: u32) -> (r: &str)
        ensures
            r@ == self@.string(offset),
    {
        match self.get_string(offset) {
            Some(s) => s,
            None => {
                proof {
                    reveal_strlit("");
                    assert(""@ =~= Seq::<char>::empty());
                }
                ""
            },
        }
    }

    /// The end of the run of fields from `from` on.
    pub fn end_of_run(&self, from: usize) -> (r: usize)
        ensures
            r as int == self@.run_end(from as int),
            from <= r,
            r > from ==> r <= self@.fields.len(),
            forall|i: int|
                from <= i < r ==> (#[trigger] self@.fields[i]).field_type
                    != TagFieldType::Terminator,
    {
        let mut i: usize = from;
        while i < self.fields.len() && self.fields[i].field_type != TagFieldType::Terminator
            invariant
                from <= i,
                i > from ==> i <= self@.fields.len(),
                self@.run_end(from as int) == self@.run_end(i as int),
                forall|j: int|
                    from <= j < i ==> (#[trigger] self@.fields[j]).field_type
                        != TagFieldType::Terminator,
            decreases self.fields.len() - i,
        {
            i = i + 1;
        }
        i
    }

    fn field_is_valid(&self, field: &TagFieldLayout) -> (r: bool)
        ensures
            r == (field.type_index < self@.field_types.len() && self@.definition_in_range(*field)),
    {
        if field.type_index as usize >= self.field_types.len() {
            return false;
        }
        let definition: usize = field.definition as usize;
        match field.field_type {
            TagFieldType::Struct => definition < self.struct_layouts.len(),
            TagFieldType::Block
            | TagFieldType::CharBlockIndex
            | TagFieldType::ShortBlockIndex
            | TagFieldType::LongBlockIndex => definition < self.block_layouts.len(),
            TagFieldType::Array => definition < self.array_layouts.len(),
            TagFieldType::PageableResource => definition < self.resource_layouts.len(),
            TagFieldType::ApiInterop => definition < self.interop_layouts.len(),
            _ => true,
        }
    }

    /// Whether every index in the tables leads somewhere.
    #[verifier::loop_isolation(false)]
    pub fn is_valid(&self) -> (r: bool)
        ensures
            r == self@.wf(),
    {
        if self.tag_group_block_index as usize >= self.block_layouts.len() || self.fields.len()
            == 0 || self.fields[self.fields.len() - 1].field_type != TagFieldType::Terminator {
            return false;
        }
        let structs: usize = self.struct_layouts.len();
        let mut i: usize = 0;
        while i < self.fields.len()
            invariant
                i <= self.fields.len(),
                forall|j: int|
                    0 <= j < i ==> (#[trigger] self@.fields[j]).type_index
                        < self@.field_types.len() && self@.definition_in_range(self@.fields[j]),
            decreases self.fields.len() - i,
        {
            if !self.field_is_valid(&self.fields[i]) {
                return false;
            }
            i = i + 1;
        }
        let mut i: usize = 0;
        while i < self.struct_layouts.len()
            invariant
                i <= self.struct_layouts.len(),
                forall|j: int|
                    0 <= j < i ==> (#[trigger] self@.structs[j]).first_field_index
                        < self@.fields.len(),
            decreases self.struct_layouts.len() - i,
        {
            if self.struct_layouts[i].first_field_index as usize >= self.fields.len() {
                assert(self@.structs[i as int].first_field_index >= self@.fields.len());
                return false;
            }
            i = i + 1;
        }
        let mut i: usize = 0;
        while i < self.block_layouts.len()
            invariant
                i <= self.block_layouts.len(),
                forall|j: int| 0 <= j < i ==> (#[trigger] self@.blocks[j]).struct_index < structs,
            decreases self.block_layouts.len() - i,
        {
            if self.block_layouts[i].struct_index as usize >= structs {
                assert(self@.blocks[i as int].struct_index >= structs);
                return false;
            }
            i = i + 1;
        }
        let mut i: usize = 0;
        while i < self.array_layouts.len()
            invariant
                i <= self.array_layouts.len(),
                forall|j: int| 0 <= j < i ==> (#[trigger] self@.arrays[j]).struct_index < structs,
            decreases self.array_layouts.len() - i,
        {
            if self.array_layouts[i].struct_index as usize >= structs {
                assert(self@.arrays[i as int].struct_index >= structs);
                return false;
            }
            i = i + 1;
        }
        let mut i: usize = 0;
        while i < self.resource_layouts.len()
            invariant
                i <= self.resource_layouts.len(),
                forall|j: int|
                    0 <= j < i ==> (#[trigger] self@.resources[j]).struct_index < structs,
            decreases self.resource_layouts.len() - i,
        {
            if self.resource_layouts[i].struct_index as usize >= structs {
                assert(self@.resources[i as int].struct_index >= structs);
                return false;
            }
            i = i + 1;
        }
        let mut i: usize = 0;
        while i < self.interop_layouts.len()
            invariant
                i <= self.interop_layouts.len(),
                forall|j: int| 0 <= j < i ==> (#[trigger] self@.interops[j]).struct_index < structs,
            decreases self.interop_layouts.len() - i,
        {
            if self.interop_layouts[i].struct_index as usize >= structs {
                assert(self@.interops[i as int].struct_index >= structs);
                return false;
            }
            i = i + 1;
        }
        true
    }
}

}
