//! Handles over a layout, by which its definitions can be walked without touching
//! its tables.
use crate::fields::TagFieldType;
use crate::file::TagFile;
use crate::layout::{
    TagArrayLayout, TagBlockLayout, TagFieldLayout, TagInteropLayout, TagLayout,
    TagResourceLayout, TagStructLayout,
};
use vstd::prelude::*;

verus! {

impl TagFile {
    /// The definitions of the tag.
    pub fn definitions(&self) -> (r: TagDefinitions<'_>)
        ensures
            *r.layout == self.layout,
    {
        TagDefinitions { layout: &self.layout }
    }
}

/// The definitions of a layout.
#[derive(Clone, Copy, Debug)]
pub struct TagDefinitions<'a> {
    pub layout: &'a TagLayout,
}

impl<'a> TagDefinitions<'a> {
    /// The struct of the tag's group.
    pub fn root_struct(&self) -> (r: TagStructDefinition<'a>)
        requires
            self.layout@.wf(),
        ensures
            r.valid(),
            r.layout == self.layout,
            r.struct_index == self.layout@.blocks[self.layout@.group_block as int].struct_index,
    {
        let root: TagBlockLayout = self.layout.block_layouts[self.layout.tag_group_block_index as usize];
        assert(root == self.layout@.blocks[self.layout@.group_block as int]);
        TagStructDefinition { layout: self.layout, struct_index: root.struct_index as usize }
    }
}

// ---------------------------------------------------------------------------
// Structs
// ---------------------------------------------------------------------------
/// The definition of a struct.
#[derive(Clone, Copy, Debug)]
pub struct TagStructDefinition<'a> {
    pub layout: &'a TagLayout,
    pub struct_index: usize,
}

impl<'a> TagStructDefinition<'a> {
    /// Whether the definition is one of the layout.
    pub open spec fn valid(self) -> bool {
        &&& self.layout@.wf()
        &&& self.struct_index < self.layout@.structs.len()
    }

    /// What the layout says of the struct.
    pub open spec fn record(self) -> TagStructLayout {
        self.layout@.structs[self.struct_index as int]
    }

    pub fn new(layout: &'a TagLayout, struct_index: usize) -> (r: TagStructDefinition<'a>)
        ensures
            r.layout == layout,
            r.struct_index == struct_index,
    {
        TagStructDefinition { layout, struct_index }
    }

    pub fn name(&self) -> (r: &'a str)
        requires
            self.valid(),
        ensures
            r@ == self.layout@.string(self.record().name_offset),
    {
        self.layout.string_or_empty(self.layout.struct_layouts[self.struct_index].name_offset)
    }

    /// The bytes that one instance takes.
    pub fn size(&self) -> (r: usize)
        requires
            self.valid(),
        ensures
            r == self.record().size,
    {
        self.layout.struct_layouts[self.struct_index].size
    }

    /// The identifier of the struct, which changes with its shape.
    pub fn guid(&self) -> (r: [u8; 16])
        requires
            self.valid(),
        ensures
            r == self.record().guid,
    {
        self.layout.struct_layouts[self.struct_index].guid
    }

    pub fn version(&self) -> (r: u32)
        requires
            self.valid(),
        ensures
            r == self.record().version,
    {
        self.layout.struct_layouts[self.struct_index].version
    }

    /// The fields in the order of their declaration, paddings among them, up to the
    /// terminator.
    pub fn fields(&self) -> (r: Vec<TagFieldDefinition<'a>>)
        requires
            self.valid(),
        ensures
            r@.len() == self.layout@.run_end(self.record().first_field_index as int)
                - self.record().first_field_index,
            forall|i: int|
                0 <= i < r@.len() ==> (#[trigger] r@[i]).valid() && r@[i].layout == self.layout
                    && r@[i].field_index == self.record().first_field_index + i
                    && r@[i].record().field_type != TagFieldType::Terminator,
    {
        let first: usize = self.layout.struct_layouts[self.struct_index].first_field_index as usize;
        assert(first == self.record().first_field_index);
        let end: usize = self.layout.end_of_run(first);
        let mut r: Vec<TagFieldDefinition<'a>> = Vec::new();
        let mut i: usize = first;
        while i < end
            invariant
                first <= i <= end,
                self.layout@.wf(),
                end > first ==> end <= self.layout@.fields.len(),
                forall|j: int|
                    first <= j < end ==> (#[trigger] self.layout@.fields[j]).field_type
                        != TagFieldType::Terminator,
                r@.len() == i - first,
                forall|j: int|
                    0 <= j < r@.len() ==> (#[trigger] r@[j]).valid() && r@[j].layout == self.layout
                        && r@[j].field_index == first + j && r@[j].record().field_type
                        != TagFieldType::Terminator,
            decreases end - i,
        {
            let field: TagFieldDefinition<'a> = TagFieldDefinition {
                layout: self.layout,
                field_index: i,
            };
            assert(field.record() == self.layout@.fields[i as int]);
            r.push(field);
            i = i + 1;
        }
        r
    }
}

// ---------------------------------------------------------------------------
// Fields
// ---------------------------------------------------------------------------
/// The definition of a field.
#[derive(Clone, Copy, Debug)]
pub struct TagFieldDefinition<'a> {
    pub layout: &'a TagLayout,
    pub field_index: usize,
}

impl<'a> TagFieldDefinition<'a> {
    /// Whether the definition is one of the layout.
    pub open spec fn valid(self) -> bool {
        &&& self.layout@.wf()
        &&& self.field_index < self.layout@.fields.len()
    }

    /// What the layout says of the field.
    pub open spec fn record(self) -> TagFieldLayout {
        self.layout@.fields[self.field_index as int]
    }

    pub fn new(layout: &'a TagLayout, field_index: usize) -> (r: TagFieldDefinition<'a>)
        ensures
            r.layout == layout,
            r.field_index == field_index,
    {
        TagFieldDefinition { layout, field_index }
    }

    pub fn name(&self) -> (r: &'a str)
        requires
            self.valid(),
        ensures
            r@ == self.layout@.string(self.record().name_offset),
    {
        self.layout.string_or_empty(self.layout.fields[self.field_index].name_offset)
    }

    /// The name of the field's type.
    pub fn kind_name(&self) -> (r: &'a str)
        requires
            self.valid(),
        ensures
            r@ == self.layout@.string(
                self.layout@.field_types[self.record().type_index as int].name_offset,
            ),
    {
        let record: TagFieldLayout = self.layout.fields[self.field_index];
        assert(record == self.record());
        self.layout.string_or_empty(
            self.layout.field_types[record.type_index as usize].name_offset,
        )
    }

    pub fn field_type(&self) -> (r: TagFieldType)
        requires
            self.valid(),
        ensures
            r == self.record().field_type,
    {
        self.layout.fields[self.field_index].field_type
    }

    /// Where the field's bytes begin in its struct.
    pub fn offset(&self) -> (r: u32)
        requires
            self.valid(),
        ensures
            r == self.record().offset,
    {
        self.layout.fields[self.field_index].offset
    }

    /// Whether the field has no value to show.
    pub fn is_padding(&self) -> (r: bool)
        requires
            self.valid(),
        ensures
            r == padding(self.record().field_type),
    {
        match self.field_type() {
            TagFieldType::Pad
            | TagFieldType::UselessPad
            | TagFieldType::Skip
            | TagFieldType::Explanation
            | TagFieldType::Unknown
            | TagFieldType::Terminator => true,
            _ => false,
        }
    }

    /// What the field's type leads to, where it is of the type `wanted`.
    fn target(&self, wanted: TagFieldType) -> (r: Option<usize>)
        requires
            self.valid(),
        ensures
            r == (if self.record().field_type == wanted {
                Some(self.record().definition as usize)
            } else {
                None
            }),
            self.layout@.definition_in_range(self.record()),
    {
        let record: TagFieldLayout = self.layout.fields[self.field_index];
        assert(record == self.layout@.fields[self.field_index as int]);
        if record.field_type == wanted {
            Some(record.definition as usize)
        } else {
            None
        }
    }

    /// The struct of a struct field.
    pub fn as_struct(&self) -> (r: Option<TagStructDefinition<'a>>)
        requires
            self.valid(),
        ensures
            match r {
                Some(d) => self.record().field_type == TagFieldType::Struct && d.valid() && d.layout
                    == self.layout && d.struct_index == self.record().definition,
                None => self.record().field_type != TagFieldType::Struct,
            },
    {
        match self.target(TagFieldType::Struct) {
            Some(index) => Some(TagStructDefinition { layout: self.layout, struct_index: index }),
            None => None,
        }
    }

    /// The block of a block field.
    pub fn as_block(&self) -> (r: Option<TagBlockDefinition<'a>>)
        requires
            self.valid(),
        ensures
            match r {
                Some(d) => self.record().field_type == TagFieldType::Block && d.valid() && d.layout
                    == self.layout && d.block_layout_index == self.record().definition,
                None => self.record().field_type != TagFieldType::Block,
            },
    {
        match self.target(TagFieldType::Block) {
            Some(index) => Some(
                TagBlockDefinition { layout: self.layout, block_layout_index: index },
            ),
            None => None,
        }
    }

    /// The block that a block index points into; none for a custom index, whose
    /// block the layout does not tell.
    pub fn block_index_target(&self) -> (r: Option<TagBlockDefinition<'a>>)
        requires
            self.valid(),
        ensures
            match r {
                Some(d) => plain_block_index(self.record().field_type) && d.valid() && d.layout
                    == self.layout && d.block_layout_index == self.record().definition,
                None => !plain_block_index(self.record().field_type),
            },
    {
        let record: TagFieldLayout = self.layout.fields[self.field_index];
        assert(record == self.layout@.fields[self.field_index as int]);
        match record.field_type {
            TagFieldType::CharBlockIndex
            | TagFieldType::ShortBlockIndex
            | TagFieldType::LongBlockIndex => Some(
                TagBlockDefinition {
                    layout: self.layout,
                    block_layout_index: record.definition as usize,
                },
            ),
            _ => None,
        }
    }

    /// The array of an array field.
    pub fn as_array(&self) -> (r: Option<TagArrayDefinition<'a>>)
        requires
            self.valid(),
        ensures
            match r {
                Some(d) => self.record().field_type == TagFieldType::Array && d.valid() && d.layout
                    == self.layout && d.array_layout_index == self.record().definition,
                None => self.record().field_type != TagFieldType::Array,
            },
    {
        match self.target(TagFieldType::Array) {
            Some(index) => Some(
                TagArrayDefinition { layout: self.layout, array_layout_index: index },
            ),
            None => None,
        }
    }

    /// The resource of a resource field.
    pub fn as_resource(&self) -> (r: Option<TagResourceDefinition<'a>>)
        requires
            self.valid(),
        ensures
            match r {
                Some(d) => self.record().field_type == TagFieldType::PageableResource && d.valid()
                    && d.layout == self.layout && d.resource_layout_index
                    == self.record().definition,
                None => self.record().field_type != TagFieldType::PageableResource,
            },
    {
        match self.target(TagFieldType::PageableResource) {
            Some(index) => Some(
                TagResourceDefinition { layout: self.layout, resource_layout_index: index },
            ),
            None => None,
        }
    }

    /// The type that an interop field points at.
    pub fn as_api_interop(&self) -> (r: Option<TagApiInteropDefinition<'a>>)
        requires
            self.valid(),
        ensures
            match r {
                Some(d) => self.record().field_type == TagFieldType::ApiInterop && d.valid()
                    && d.layout == self.layout && d.interop_layout_index
                    == self.record().definition,
                None => self.record().field_type != TagFieldType::ApiInterop,
            },
    {
        match self.target(TagFieldType::ApiInterop) {
            Some(index) => Some(
                TagApiInteropDefinition { layout: self.layout, interop_layout_index: index },
            ),
            None => None,
        }
    }
}

/// The types of fields that have no value to show.
pub open spec fn padding(field_type: TagFieldType) -> bool {
    match field_type {
        TagFieldType::Pad
        | TagFieldType::UselessPad
        | TagFieldType::Skip
        | TagFieldType::Explanation
        | TagFieldType::Unknown
        | TagFieldType::Terminator => true,
        _ => false,
    }
}

/// The types of block indices whose block the layout tells.
pub open spec fn plain_block_index(field_type: TagFieldType) -> bool {
    match field_type {
        TagFieldType::CharBlockIndex
        | TagFieldType::ShortBlockIndex
        | TagFieldType::LongBlockIndex => true,
        _ => false,
    }
}

// ---------------------------------------------------------------------------
// Blocks, arrays, interop types and resources
// ---------------------------------------------------------------------------
/// The definition of a block.
#[derive(Clone, Copy, Debug)]
pub struct TagBlockDefinition<'a> {
    pub layout: &'a TagLayout,
    pub block_layout_index: usize,
}

impl<'a> TagBlockDefinition<'a> {
    pub open spec fn valid(self) -> bool {
        &&& self.layout@.wf()
        &&& self.block_layout_index < self.layout@.blocks.len()
    }

    pub open spec fn record(self) -> TagBlockLayout {
        self.layout@.blocks[self.block_layout_index as int]
    }

    pub fn new(layout: &'a TagLayout, block_layout_index: usize) -> (r: TagBlockDefinition<'a>)
        ensures
            r.layout == layout,
            r.block_layout_index == block_layout_index,
    {
        TagBlockDefinition { layout, block_layout_index }
    }

    pub fn name(&self) -> (r: &'a str)
        requires
            self.valid(),
        ensures
            r@ == self.layout@.string(self.record().name_offset),
    {
        self.layout.string_or_empty(self.layout.block_layouts[self.block_layout_index].name_offset)
    }

    /// The most elements that the layout declares; nothing holds a tag to it.
    pub fn max_count(&self) -> (r: u32)
        requires
            self.valid(),
        ensures
            r == self.record().max_count,
    {
        self.layout.block_layouts[self.block_layout_index].max_count
    }

    /// The struct of one element.
    pub fn struct_definition(&self) -> (r: TagStructDefinition<'a>)
        requires
            self.valid(),
        ensures
            r.valid(),
            r.layout == self.layout,
            r.struct_index == self.record().struct_index,
    {
        let record: TagBlockLayout = self.layout.block_layouts[self.block_layout_index];
        assert(record == self.layout@.blocks[self.block_layout_index as int]);
        TagStructDefinition { layout: self.layout, struct_index: record.struct_index as usize }
    }
}

/// The definition of an array.
#[derive(Clone, Copy, Debug)]
pub struct TagArrayDefinition<'a> {
    pub layout: &'a TagLayout,
    pub array_layout_index: usize,
}

impl<'a> TagArrayDefinition<'a> {
    pub open spec fn valid(self) -> bool {
        &&& self.layout@.wf()
        &&& self.array_layout_index < self.layout@.arrays.len()
    }

    pub open spec fn record(self) -> TagArrayLayout {
        self.layout@.arrays[self.array_layout_index as int]
    }

    pub fn new(layout: &'a TagLayout, array_layout_index: usize) -> (r: TagArrayDefinition<'a>)
        ensures
            r.layout == layout,
            r.array_layout_index == array_layout_index,
    {
        TagArrayDefinition { layout, array_layout_index }
    }

    pub fn name(&self) -> (r: &'a str)
        requires
            self.valid(),
        ensures
            r@ == self.layout@.string(self.record().name_offset),
    {
        self.layout.string_or_empty(self.layout.array_layouts[self.array_layout_index].name_offset)
    }

    /// How many elements the array has.
    pub fn count(&self) -> (r: u32)
        requires
            self.valid(),
        ensures
            r == self.record().count,
    {
        self.layout.array_layouts[self.array_layout_index].count
    }

    /// The struct of one element.
    pub fn struct_definition(&self) -> (r: TagStructDefinition<'a>)
        requires
            self.valid(),
        ensures
            r.valid(),
            r.layout == self.layout,
            r.struct_index == self.record().struct_index,
    {
        let record: TagArrayLayout = self.layout.array_layouts[self.array_layout_index];
        assert(record == self.layout@.arrays[self.array_layout_index as int]);
        TagStructDefinition { layout: self.layout, struct_index: record.struct_index as usize }
    }
}

/// The definition of an interop type.
#[derive(Clone, Copy, Debug)]
pub struct TagApiInteropDefinition<'a> {
    pub layout: &'a TagLayout,
    pub interop_layout_index: usize,
}

impl<'a> TagApiInteropDefinition<'a> {
    pub open spec fn valid(self) -> bool {
        &&& self.layout@.wf()
        &&& self.interop_layout_index < self.layout@.interops.len()
    }

    pub open spec fn record(self) -> TagInteropLayout {
        self.layout@.interops[self.interop_layout_index as int]
    }

    pub fn name(&self) -> (r: &'a str)
        requires
            self.valid(),
        ensures
            r@ == self.layout@.string(self.record().name_offset),
    {
        self.layout.string_or_empty(
            self.layout.interop_layouts[self.interop_layout_index].name_offset,
        )
    }

    /// The identifier of the type.
    pub fn guid(&self) -> (r: [u8; 16])
        requires
            self.valid(),
        ensures
            r == self.record().guid,
    {
        self.layout.interop_layouts[self.interop_layout_index].guid
    }

    /// The shape of the object at run time; no data of a file has it.
    pub fn descriptor(&self) -> (r: TagStructDefinition<'a>)
        requires
            self.valid(),
        ensures
            r.valid(),
            r.layout == self.layout,
            r.struct_index == self.record().struct_index,
    {
        let record: TagInteropLayout = self.layout.interop_layouts[self.interop_layout_index];
        assert(record == self.layout@.interops[self.interop_layout_index as int]);
        TagStructDefinition { layout: self.layout, struct_index: record.struct_index as usize }
    }
}

/// The definition of a pageable resource.
#[derive(Clone, Copy, Debug)]
pub struct TagResourceDefinition<'a> {
    pub layout: &'a TagLayout,
    pub resource_layout_index: usize,
}

impl<'a> TagResourceDefinition<'a> {
    pub open spec fn valid(self) -> bool {
        &&& self.layout@.wf()
        &&& self.resource_layout_index < self.layout@.resources.len()
    }

    pub open spec fn record(self) -> TagResourceLayout {
        self.layout@.resources[self.resource_layout_index as int]
    }

    pub fn new(layout: &'a TagLayout, resource_layout_index: usize) -> (r: TagResourceDefinition<
        'a,
    >)
        ensures
            r.layout == layout,
            r.resource_layout_index == resource_layout_index,
    {
        TagResourceDefinition { layout, resource_layout_index }
    }

    pub fn name(&self) -> (r: &'a str)
        requires
            self.valid(),
        ensures
            r@ == self.layout@.string(self.record().name_offset),
    {
        self.layout.string_or_empty(
            self.layout.resource_layouts[self.resource_layout_index].name_offset,
        )
    }

    /// The struct of the resource's own data.
    pub fn struct_definition(&self) -> (r: TagStructDefinition<'a>)
        requires
            self.valid(),
        ensures
            r.valid(),
            r.layout == self.layout,
            r.struct_index == self.record().struct_index,
    {
        let record: TagResourceLayout = self.layout.resource_layouts[self.resource_layout_index];
        assert(record == self.layout@.resources[self.resource_layout_index as int]);
        TagStructDefinition { layout: self.layout, struct_index: record.struct_index as usize }
    }
}

}
