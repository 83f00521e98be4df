//! A tag in memory: its header, its layout and the tree of its values.
//!
//! A struct is a list of fields; a field holds a value, or a struct, a block, an
//! array or a resource in turn. Each node carries the names that the layout gave
//! it, so that two tags of different layouts can be read side by side.
use crate::fields::{
    FieldValue, OptionsView, TagFieldData, TagFieldType, TagOptions, copy_bytes, copy_text_option,
    enum_type, flag_names, flags_type, is_enum_type, is_flags_type, resolve_value, resolved,
    text_option, zero_of, zero_value,
};
use crate::layout::{
    LayoutView, TagArrayLayout, TagBlockLayout, TagFieldLayout, TagLayout, TagStructLayout,
};
use crate::text::{copy, copy_texts, same, texts};
use vstd::prelude::*;

verus! {

// ---------------------------------------------------------------------------
// The tree as contracts speak of it
// ---------------------------------------------------------------------------
pub ghost struct StructView {
    pub index: u32,
    pub name: Seq<char>,
    pub guid: Seq<u8>,
    pub size: usize,
    pub fields: Seq<FieldView>,
}

pub ghost struct FieldView {
    pub name: Seq<char>,
    pub kind_name: Seq<char>,
    pub field_type: TagFieldType,
    pub options: OptionsView,
    pub data_definition: Option<Seq<char>>,
    pub content: ContentView,
}

pub ghost enum ContentView {
    /// Padding and the like: nothing.
    Empty,
    Value(FieldValue),
    Struct(StructView),
    Block(BlockView),
    Array(Seq<StructView>),
    Resource(ResourceView),
}

pub ghost struct BlockView {
    pub block_index: u32,
    pub struct_index: u32,
    pub element_size: usize,
    pub max_count: u32,
    pub elements: Seq<StructView>,
}

pub ghost struct ResourceView {
    pub struct_index: u32,
    pub content: ResourceContentView,
}

pub ghost enum ResourceContentView {
    Null,
    /// Unpacked: the payload, the header struct, and the root address of the
    /// control data it was read with, where there was any.
    Exploded { payload: Seq<u8>, body: StructView, state: Option<u32> },
    Xsync { version: u32, payload: Seq<u8> },
}

// ---------------------------------------------------------------------------
// The tree
// ---------------------------------------------------------------------------
/// A struct of a tag.
#[derive(Debug, PartialEq, Eq)]
pub struct TagStruct {
    index: u32,
    name: String,
    guid: [u8; 16],
    size: usize,
    fields: Vec<TagField>,
}

/// A field of a struct.
#[derive(Debug, PartialEq, Eq)]
pub struct TagField {
    name: String,
    kind_name: String,
    field_type: TagFieldType,
    options: TagOptions,
    data_definition: Option<String>,
    content: TagFieldContent,
}

/// What a field holds.
#[derive(Debug, PartialEq, Eq)]
pub enum TagFieldContent {
    Empty,
    Value(TagFieldData),
    Struct(TagStruct),
    Block(TagBlock),
    Array(TagArray),
    Resource(TagResource),
}

/// A list of structs of one kind.
#[derive(Debug, PartialEq, Eq)]
pub struct TagBlock {
    block_index: u32,
    struct_index: u32,
    element_size: usize,
    max_count: u32,
    elements: Vec<TagStruct>,
}

/// A fixed number of structs of one kind.
#[derive(Debug, PartialEq, Eq)]
pub struct TagArray {
    elements: Vec<TagStruct>,
}

/// A pageable resource.
#[derive(Debug, PartialEq, Eq)]
pub struct TagResource {
    struct_index: u32,
    content: TagResourceContent,
}

/// What a resource holds.
#[derive(Debug, PartialEq, Eq)]
pub enum TagResourceContent {
    Null,
    Exploded { payload: Vec<u8>, body: TagStruct, state: Option<u32> },
    Xsync { version: u32, payload: Vec<u8> },
}

/// The views of a list of fields.
pub closed spec fn field_views(v: Seq<TagField>) -> Seq<FieldView>
    decreases v,
{
    Seq::new(
        v.len(),
        |i: int|
            if 0 <= i < v.len() {
                v[i].view()
            } else {
                arbitrary()
            },
    )
}

/// The views of a list of structs.
pub closed spec fn struct_views(v: Seq<TagStruct>) -> Seq<StructView>
    decreases v,
{
    Seq::new(
        v.len(),
        |i: int|
            if 0 <= i < v.len() {
                v[i].view()
            } else {
                arbitrary()
            },
    )
}

impl TagStruct {
    pub closed spec fn view(&self) -> StructView
        decreases self,
    {
        StructView {
            index: self.index,
            name: self.name@,
            guid: self.guid@,
            size: self.size,
            fields: field_views(self.fields@),
        }
    }
}

impl TagField {
    pub closed spec fn view(&self) -> FieldView
        decreases self,
    {
        FieldView {
            name: self.name@,
            kind_name: self.kind_name@,
            field_type: self.field_type,
            options: self.options@,
            data_definition: text_option(self.data_definition),
            content: self.content.view(),
        }
    }
}

impl TagFieldContent {
    pub closed spec fn view(&self) -> ContentView
        decreases self,
    {
        match self {
            TagFieldContent::Empty => ContentView::Empty,
            TagFieldContent::Value(v) => ContentView::Value(v@),
            TagFieldContent::Struct(s) => ContentView::Struct(s.view()),
            TagFieldContent::Block(b) => ContentView::Block(b.view()),
            TagFieldContent::Array(a) => ContentView::Array(a.view()),
            TagFieldContent::Resource(r) => ContentView::Resource(r.view()),
        }
    }
}

impl TagBlock {
    pub closed spec fn view(&self) -> BlockView
        decreases self,
    {
        BlockView {
            block_index: self.block_index,
            struct_index: self.struct_index,
            element_size: self.element_size,
            max_count: self.max_count,
            elements: struct_views(self.elements@),
        }
    }
}

impl TagArray {
    pub closed spec fn view(&self) -> Seq<StructView>
        decreases self,
    {
        struct_views(self.elements@)
    }
}

impl TagResource {
    pub closed spec fn view(&self) -> ResourceView
        decreases self,
    {
        ResourceView { struct_index: self.struct_index, content: self.content.view() }
    }
}

impl TagResourceContent {
    pub closed spec fn view(&self) -> ResourceContentView
        decreases self,
    {
        match self {
            TagResourceContent::Null => ResourceContentView::Null,
            TagResourceContent::Exploded { payload, body, state } => ResourceContentView::Exploded {
                payload: payload@,
                body: body.view(),
                state: *state,
            },
            TagResourceContent::Xsync { version, payload } => ResourceContentView::Xsync {
                version: *version,
                payload: payload@,
            },
        }
    }
}

// ---------------------------------------------------------------------------
// Making trees
// ---------------------------------------------------------------------------
proof fn lemma_field_views_push(v: Seq<TagField>, f: TagField)
    ensures
        field_views(v.push(f)) == field_views(v).push(f@),
{
    assert(field_views(v.push(f)) =~= field_views(v).push(f@));
}

proof fn lemma_struct_views_push(v: Seq<TagStruct>, s: TagStruct)
    ensures
        struct_views(v.push(s)) == struct_views(v).push(s@),
{
    assert(struct_views(v.push(s)) =~= struct_views(v).push(s@));
}

proof fn lemma_field_views_update(v: Seq<TagField>, i: int, f: TagField)
    requires
        0 <= i < v.len(),
    ensures
        field_views(v.update(i, f)) == field_views(v).update(i, f@),
{
    assert(field_views(v.update(i, f)) =~= field_views(v).update(i, f@));
}

proof fn lemma_struct_views_update(v: Seq<TagStruct>, i: int, s: TagStruct)
    requires
        0 <= i < v.len(),
    ensures
        struct_views(v.update(i, s)) == struct_views(v).update(i, s@),
{
    assert(struct_views(v.update(i, s)) =~= struct_views(v).update(i, s@));
}

/// An empty list of fields.
pub fn no_fields() -> (r: Vec<TagField>)
    ensures
        field_views(r@) == Seq::<FieldView>::empty(),
{
    let r: Vec<TagField> = Vec::new();
    assert(field_views(r@) =~= Seq::<FieldView>::empty());
    r
}

/// An empty list of structs.
pub fn no_structs() -> (r: Vec<TagStruct>)
    ensures
        struct_views(r@) == Seq::<StructView>::empty(),
{
    let r: Vec<TagStruct> = Vec::new();
    assert(struct_views(r@) =~= Seq::<StructView>::empty());
    r
}

impl TagStruct {
    pub fn new(
        index: u32,
        name: String,
        guid: [u8; 16],
        size: usize,
        fields: Vec<TagField>,
    ) -> (r: TagStruct)
        ensures
            r@ == (StructView { index, name: name@, guid: guid@, size, fields: field_views(fields@) }),
    {
        TagStruct { index, name, guid, size, fields }
    }

    /// The position of the struct's definition in its layout.
    pub fn index(&self) -> (r: u32)
        ensures
            r == self@.index,
    {
        self.index
    }

    pub fn name(&self) -> (r: &str)
        ensures
            r@ == self@.name,
    {
        self.name.as_str()
    }

    pub fn guid(&self) -> (r: [u8; 16])
        ensures
            r@ == self@.guid,
    {
        self.guid
    }

    /// The number of bytes that one such struct takes.
    pub fn size(&self) -> (r: usize)
        ensures
            r == self@.size,
    {
        self.size
    }

    /// The number of fields.
    pub fn len(&self) -> (r: usize)
        ensures
            r == self@.fields.len(),
    {
        self.fields.len()
    }

    /// The field at `ordinal`.
    pub fn at(&self, ordinal: usize) -> (r: &TagField)
        requires
            ordinal < self@.fields.len(),
        ensures
            r@ == self@.fields[ordinal as int],
    {
        &self.fields[ordinal]
    }

    /// The field at `ordinal`, to be changed.
    pub fn at_mut(&mut self, ordinal: usize) -> (r: &mut TagField)
        requires
            ordinal < old(self)@.fields.len(),
        ensures
            r@ == old(self)@.fields[ordinal as int],
            final(self)@ == (StructView {
                fields: old(self)@.fields.update(ordinal as int, final(r)@),
                ..old(self)@
            }),
    {
        let ghost before = self.fields@;
        let r = &mut self.fields[ordinal];
        proof {
            lemma_field_views_update(before, ordinal as int, *final(r));
        }
        r
    }
}

impl FieldView {
    /// The value that the field holds.
    pub open spec fn value(self) -> Option<FieldValue> {
        match self.content {
            ContentView::Value(v) => Some(v),
            _ => None,
        }
    }

    /// Whether the field's bytes are a function definition.
    pub open spec fn is_function_data(self) -> bool {
        self.data_definition == Some("function_definition_data"@)
    }

    /// The field with `v` written into it.
    pub open spec fn with_value(self, v: FieldValue) -> FieldView {
        FieldView { content: ContentView::Value(resolved(v, self.options)), ..self }
    }
}

impl StructView {
    /// The struct with the block `b` in field `k`.
    pub open spec fn with_block(self, k: int, b: BlockView) -> StructView {
        StructView {
            fields: self.fields.update(
                k,
                FieldView { content: ContentView::Block(b), ..self.fields[k] },
            ),
            ..self
        }
    }

    /// The struct with the struct `s` in field `k`.
    pub open spec fn with_nested(self, k: int, s: StructView) -> StructView {
        StructView {
            fields: self.fields.update(
                k,
                FieldView { content: ContentView::Struct(s), ..self.fields[k] },
            ),
            ..self
        }
    }
}

/// Why a value could not be written.
#[derive(Clone, Copy, Debug, PartialEq, Eq, Structural)]
pub enum TagSetError {
    /// The value is not of the field's type.
    TypeMismatch,
}

impl TagField {
    pub fn new(
        name: String,
        kind_name: String,
        field_type: TagFieldType,
        options: TagOptions,
        data_definition: Option<String>,
        content: TagFieldContent,
    ) -> (r: TagField)
        ensures
            r@ == (FieldView {
                name: name@,
                kind_name: kind_name@,
                field_type,
                options: options@,
                data_definition: text_option(data_definition),
                content: content@,
            }),
    {
        TagField { name, kind_name, field_type, options, data_definition, content }
    }

    pub fn name(&self) -> (r: &str)
        ensures
            r@ == self@.name,
    {
        self.name.as_str()
    }

    /// The name of the field's type.
    pub fn kind_name(&self) -> (r: &str)
        ensures
            r@ == self@.kind_name,
    {
        self.kind_name.as_str()
    }

    pub fn field_type(&self) -> (r: TagFieldType)
        ensures
            r == self@.field_type,
    {
        self.field_type
    }

    pub fn options(&self) -> (r: &TagOptions)
        ensures
            r@ == self@.options,
    {
        &self.options
    }

    /// The name of the definition of the field's bytes.
    pub fn data_definition_name(&self) -> (r: Option<&str>)
        ensures
            match r {
                Some(s) => self@.data_definition == Some(s@),
                None => self@.data_definition is None,
            },
    {
        match &self.data_definition {
            Some(s) => Some(s.as_str()),
            None => None,
        }
    }

    pub fn is_function_data(&self) -> (r: bool)
        ensures
            r == self@.is_function_data(),
    {
        match self.data_definition_name() {
            Some(s) => same(s, "function_definition_data"),
            None => false,
        }
    }

    pub fn value(&self) -> (r: Option<&TagFieldData>)
        ensures
            match r {
                Some(v) => self@.content == ContentView::Value(v@),
                None => !(self@.content is Value),
            },
    {
        match &self.content {
            TagFieldContent::Value(v) => Some(v),
            _ => None,
        }
    }

    /// The bytes that the field holds.
    pub fn as_data(&self) -> (r: Option<&Vec<u8>>)
        ensures
            match r {
                Some(b) => self@.content == ContentView::Value(
                    FieldValue::Bytes { kind: TagFieldType::Data, bytes: b@ },
                ),
                None => !(self@.content matches ContentView::Value(
                    FieldValue::Bytes { kind: TagFieldType::Data, .. },
                )),
            },
    {
        match &self.content {
            TagFieldContent::Value(TagFieldData::Data(bytes)) => Some(bytes),
            _ => None,
        }
    }

    pub fn as_struct(&self) -> (r: Option<&TagStruct>)
        ensures
            match r {
                Some(s) => self@.content == ContentView::Struct(s@),
                None => !(self@.content is Struct),
            },
    {
        match &self.content {
            TagFieldContent::Struct(s) => Some(s),
            _ => None,
        }
    }

    pub fn as_block(&self) -> (r: Option<&TagBlock>)
        ensures
            match r {
                Some(b) => self@.content == ContentView::Block(b@),
                None => !(self@.content is Block),
            },
    {
        match &self.content {
            TagFieldContent::Block(b) => Some(b),
            _ => None,
        }
    }

    pub fn as_array(&self) -> (r: Option<&TagArray>)
        ensures
            match r {
                Some(a) => self@.content == ContentView::Array(a@),
                None => !(self@.content is Array),
            },
    {
        match &self.content {
            TagFieldContent::Array(a) => Some(a),
            _ => None,
        }
    }

    pub fn as_resource(&self) -> (r: Option<&TagResource>)
        ensures
            match r {
                Some(x) => self@.content == ContentView::Resource(x@),
                None => !(self@.content is Resource),
            },
    {
        match &self.content {
            TagFieldContent::Resource(x) => Some(x),
            _ => None,
        }
    }

    /// Whether the field holds a struct.
    pub fn holds_struct(&self) -> (r: bool)
        ensures
            r == (self@.content is Struct),
    {
        self.as_struct().is_some()
    }

    /// Whether the field holds a block.
    pub fn holds_block(&self) -> (r: bool)
        ensures
            r == (self@.content is Block),
    {
        self.as_block().is_some()
    }

    pub fn as_struct_mut(&mut self) -> (r: Option<&mut TagStruct>)
        ensures
            match r {
                Some(s) => old(self)@.content == ContentView::Struct(s@) && final(self)@ == (
                FieldView { content: ContentView::Struct(final(s)@), ..old(self)@ }),
                None => !(old(self)@.content is Struct) && final(self)@ == old(self)@,
            },
    {
        match &mut self.content {
            TagFieldContent::Struct(s) => Some(s),
            _ => None,
        }
    }

    pub fn as_block_mut(&mut self) -> (r: Option<&mut TagBlock>)
        ensures
            match r {
                Some(b) => old(self)@.content == ContentView::Block(b@) && final(self)@ == (
                FieldView { content: ContentView::Block(final(b)@), ..old(self)@ }),
                None => !(old(self)@.content is Block) && final(self)@ == old(self)@,
            },
    {
        match &mut self.content {
            TagFieldContent::Block(b) => Some(b),
            _ => None,
        }
    }

    pub fn as_array_mut(&mut self) -> (r: Option<&mut TagArray>)
        ensures
            match r {
                Some(a) => old(self)@.content == ContentView::Array(a@) && final(self)@ == (
                FieldView { content: ContentView::Array(final(a)@), ..old(self)@ }),
                None => !(old(self)@.content is Array) && final(self)@ == old(self)@,
            },
    {
        match &mut self.content {
            TagFieldContent::Array(a) => Some(a),
            _ => None,
        }
    }

    pub fn as_resource_mut(&mut self) -> (r: Option<&mut TagResource>)
        ensures
            match r {
                Some(x) => old(self)@.content == ContentView::Resource(x@) && final(self)@ == (
                FieldView { content: ContentView::Resource(final(x)@), ..old(self)@ }),
                None => !(old(self)@.content is Resource) && final(self)@ == old(self)@,
            },
    {
        match &mut self.content {
            TagFieldContent::Resource(x) => Some(x),
            _ => None,
        }
    }

    /// Writes a value of the field's own type. The names of an option and of set
    /// flags are read back from the field's own options.
    pub fn set(&mut self, value: TagFieldData) -> (r: Result<(), TagSetError>)
        ensures
            r is Ok <==> value@.kind() == old(self)@.field_type,
            r is Ok ==> final(self)@ == old(self)@.with_value(value@),
            r is Err ==> final(self)@ == old(self)@ && r->Err_0 == TagSetError::TypeMismatch,
    {
        if value.kind() != self.field_type {
            return Err(TagSetError::TypeMismatch);
        }
        self.content = TagFieldContent::Value(resolve_value(value, &self.options));
        Ok(())
    }
}

impl TagFieldContent {
    pub fn empty() -> (r: TagFieldContent)
        ensures
            r@ == ContentView::Empty,
    {
        TagFieldContent::Empty
    }

    pub fn of_value(v: TagFieldData) -> (r: TagFieldContent)
        ensures
            r@ == ContentView::Value(v@),
    {
        TagFieldContent::Value(v)
    }

    pub fn of_struct(s: TagStruct) -> (r: TagFieldContent)
        ensures
            r@ == ContentView::Struct(s@),
    {
        TagFieldContent::Struct(s)
    }

    pub fn of_block(b: TagBlock) -> (r: TagFieldContent)
        ensures
            r@ == ContentView::Block(b@),
    {
        TagFieldContent::Block(b)
    }

    pub fn of_array(elements: Vec<TagStruct>) -> (r: TagFieldContent)
        ensures
            r@ == ContentView::Array(struct_views(elements@)),
    {
        TagFieldContent::Array(TagArray { elements })
    }

    pub fn of_resource(x: TagResource) -> (r: TagFieldContent)
        ensures
            r@ == ContentView::Resource(x@),
    {
        TagFieldContent::Resource(x)
    }
}

impl TagArray {
    pub fn len(&self) -> (r: usize)
        ensures
            r == self@.len(),
    {
        self.elements.len()
    }

    pub fn at(&self, index: usize) -> (r: &TagStruct)
        requires
            index < self@.len(),
        ensures
            r@ == self@[index as int],
    {
        &self.elements[index]
    }

    pub fn at_mut(&mut self, index: usize) -> (r: &mut TagStruct)
        requires
            index < old(self)@.len(),
        ensures
            r@ == old(self)@[index as int],
            final(self)@ == old(self)@.update(index as int, final(r)@),
    {
        let ghost before = self.elements@;
        let r = &mut self.elements[index];
        proof {
            lemma_struct_views_update(before, index as int, *final(r));
        }
        r
    }
}

impl BlockView {
    /// The block without its elements.
    pub open spec fn cleared(self) -> BlockView {
        BlockView { elements: Seq::empty(), ..self }
    }

    /// The block with a fresh element at its end, where `layout` knows the
    /// struct of its elements.
    pub open spec fn grown(self, layout: LayoutView) -> BlockView {
        if self.struct_index < layout.structs.len() {
            BlockView {
                elements: self.elements.push(fresh_struct(layout, self.struct_index)),
                ..self
            }
        } else {
            self
        }
    }
}

impl TagBlock {
    pub fn new(
        block_index: u32,
        struct_index: u32,
        element_size: usize,
        max_count: u32,
        elements: Vec<TagStruct>,
    ) -> (r: TagBlock)
        ensures
            r@ == (BlockView {
                block_index,
                struct_index,
                element_size,
                max_count,
                elements: struct_views(elements@),
            }),
    {
        TagBlock { block_index, struct_index, element_size, max_count, elements }
    }

    pub fn len(&self) -> (r: usize)
        ensures
            r == self@.elements.len(),
    {
        self.elements.len()
    }

    pub fn is_empty(&self) -> (r: bool)
        ensures
            r == (self@.elements.len() == 0),
    {
        self.elements.len() == 0
    }

    pub fn max_count(&self) -> (r: u32)
        ensures
            r == self@.max_count,
    {
        self.max_count
    }

    pub fn element_size(&self) -> (r: usize)
        ensures
            r == self@.element_size,
    {
        self.element_size
    }

    pub fn at(&self, index: usize) -> (r: &TagStruct)
        requires
            index < self@.elements.len(),
        ensures
            r@ == self@.elements[index as int],
    {
        &self.elements[index]
    }

    pub fn at_mut(&mut self, index: usize) -> (r: &mut TagStruct)
        requires
            index < old(self)@.elements.len(),
        ensures
            r@ == old(self)@.elements[index as int],
            final(self)@ == (BlockView {
                elements: old(self)@.elements.update(index as int, final(r)@),
                ..old(self)@
            }),
    {
        let ghost before = self.elements@;
        let r = &mut self.elements[index];
        proof {
            lemma_struct_views_update(before, index as int, *final(r));
        }
        r
    }

    /// Takes every element out.
    pub fn clear(&mut self)
        ensures
            final(self)@ == old(self)@.cleared(),
    {
        self.elements = no_structs();
    }

    /// Appends a fresh element and returns its position.
    pub fn add_element(&mut self, layout: &TagLayout) -> (r: usize)
        ensures
            final(self)@ == old(self)@.grown(layout@),
            r == old(self)@.elements.len(),
    {
        let index: usize = self.elements.len();
        if (self.struct_index as usize) < layout.struct_layouts.len() {
            let element: TagStruct = fresh_struct_of(layout, self.struct_index);
            proof {
                lemma_struct_views_push(self.elements@, element);
            }
            self.elements.push(element);
        }
        index
    }
}

impl TagResource {
    pub fn new(struct_index: u32, content: TagResourceContent) -> (r: TagResource)
        ensures
            r@ == (ResourceView { struct_index, content: content@ }),
    {
        TagResource { struct_index, content }
    }

    pub fn struct_index(&self) -> (r: u32)
        ensures
            r == self@.struct_index,
    {
        self.struct_index
    }

    pub fn is_null(&self) -> (r: bool)
        ensures
            r == (self@.content is Null),
    {
        match &self.content {
            TagResourceContent::Null => true,
            _ => false,
        }
    }

    /// The root address of the control data that the resource was read with.
    pub fn xsync_state(&self) -> (r: Option<u32>)
        ensures
            r == match self@.content {
                ResourceContentView::Exploded { state, .. } => state,
                _ => None,
            },
    {
        match &self.content {
            TagResourceContent::Exploded { state, .. } => *state,
            _ => None,
        }
    }

    /// Whether the resource is one that was never filled.
    pub fn is_xsync(&self) -> (r: bool)
        ensures
            r == (self@.content is Xsync),
    {
        match &self.content {
            TagResourceContent::Xsync { .. } => true,
            _ => false,
        }
    }

    pub fn exploded_payload(&self) -> (r: Option<&Vec<u8>>)
        ensures
            match r {
                Some(b) => self@.content matches ResourceContentView::Exploded { payload, .. }
                    && payload == b@,
                None => !(self@.content is Exploded),
            },
    {
        match &self.content {
            TagResourceContent::Exploded { payload, .. } => Some(payload),
            _ => None,
        }
    }

    /// The header struct of an unpacked resource, to be changed.
    pub fn body_mut(&mut self) -> (r: Option<&mut TagStruct>)
        ensures
            match r {
                Some(s) => old(self)@.content matches ResourceContentView::Exploded {
                    payload,
                    body,
                    state,
                } && body == s@ && final(self)@ == (ResourceView {
                    content: ResourceContentView::Exploded { payload, body: final(s)@, state },
                    ..old(self)@
                }),
                None => !(old(self)@.content is Exploded) && final(self)@ == old(self)@,
            },
    {
        match &mut self.content {
            TagResourceContent::Exploded { body, .. } => Some(body),
            _ => None,
        }
    }

    pub fn set_content(&mut self, content: TagResourceContent)
        ensures
            final(self)@ == (ResourceView { content: content@, ..old(self)@ }),
    {
        self.content = content;
    }

    pub fn content(&self) -> (r: &TagResourceContent)
        ensures
            r@ == self@.content,
    {
        &self.content
    }
}

impl TagResourceContent {
    pub fn null() -> (r: TagResourceContent)
        ensures
            r@ == ResourceContentView::Null,
    {
        TagResourceContent::Null
    }

    pub fn exploded(payload: Vec<u8>, body: TagStruct, state: Option<u32>) -> (r:
        TagResourceContent)
        ensures
            r@ == (ResourceContentView::Exploded { payload: payload@, body: body@, state }),
    {
        TagResourceContent::Exploded { payload, body, state }
    }

    pub fn xsync(version: u32, payload: Vec<u8>) -> (r: TagResourceContent)
        ensures
            r@ == (ResourceContentView::Xsync { version, payload: payload@ }),
    {
        TagResourceContent::Xsync { version, payload }
    }
}

// ---------------------------------------------------------------------------
// Copies
// ---------------------------------------------------------------------------
impl TagStruct {
    pub fn duplicate(&self) -> (r: TagStruct)
        ensures
            r@ == self@,
        decreases self, 0nat,
    {
        let mut fields: Vec<TagField> = no_fields();
        let ghost all = field_views(self.fields@);
        let mut i: usize = 0;
        assert(field_views(fields@) =~= all.take(0));
        while i < self.fields.len()
            invariant
                i <= self.fields.len(),
                all == field_views(self.fields@),
                field_views(fields@) == all.take(i as int),
            decreases self.fields.len() - i,
        {
            let item: TagField = self.fields[i].duplicate();
            proof {
                lemma_field_views_push(fields@, item);
            }
            fields.push(item);
            i = i + 1;
            assert(field_views(fields@) =~= all.take(i as int));
        }
        assert(field_views(fields@) =~= all);
        TagStruct { index: self.index, name: copy(&self.name), guid: self.guid, size: self.size, fields }
    }
}

impl TagField {
    pub fn duplicate(&self) -> (r: TagField)
        ensures
            r@ == self@,
        decreases self, 0nat,
    {
        TagField {
            name: copy(&self.name),
            kind_name: copy(&self.kind_name),
            field_type: self.field_type,
            options: self.options.duplicate(),
            data_definition: copy_text_option(&self.data_definition),
            content: self.content.duplicate(),
        }
    }
}

impl TagFieldContent {
    pub fn duplicate(&self) -> (r: TagFieldContent)
        ensures
            r@ == self@,
        decreases self, 0nat,
    {
        match self {
            TagFieldContent::Empty => TagFieldContent::Empty,
            TagFieldContent::Value(v) => TagFieldContent::Value(v.duplicate()),
            TagFieldContent::Struct(s) => TagFieldContent::Struct(s.duplicate()),
            TagFieldContent::Block(b) => TagFieldContent::Block(
                TagBlock {
                    block_index: b.block_index,
                    struct_index: b.struct_index,
                    element_size: b.element_size,
                    max_count: b.max_count,
                    elements: duplicate_structs(&b.elements),
                },
            ),
            TagFieldContent::Array(a) => TagFieldContent::Array(
                TagArray { elements: duplicate_structs(&a.elements) },
            ),
            TagFieldContent::Resource(x) => TagFieldContent::Resource(
                TagResource { struct_index: x.struct_index, content: x.content.duplicate() },
            ),
        }
    }
}

impl TagResourceContent {
    pub fn duplicate(&self) -> (r: TagResourceContent)
        ensures
            r@ == self@,
        decreases self, 0nat,
    {
        match self {
            TagResourceContent::Null => TagResourceContent::Null,
            TagResourceContent::Exploded { payload, body, state } => TagResourceContent::Exploded {
                payload: copy_bytes(payload),
                body: body.duplicate(),
                state: *state,
            },
            TagResourceContent::Xsync { version, payload } => TagResourceContent::Xsync {
                version: *version,
                payload: copy_bytes(payload),
            },
        }
    }
}

fn duplicate_structs(list: &Vec<TagStruct>) -> (r: Vec<TagStruct>)
    ensures
        struct_views(r@) == struct_views(list@),
    decreases list, 1nat,
{
    let mut r: Vec<TagStruct> = no_structs();
    let ghost all = struct_views(list@);
    let mut i: usize = 0;
    assert(struct_views(r@) =~= all.take(0));
    while i < list.len()
        invariant
            i <= list.len(),
            all == struct_views(list@),
            struct_views(r@) == all.take(i as int),
        decreases list.len() - i,
    {
        let item: TagStruct = list[i].duplicate();
        proof {
            lemma_struct_views_push(r@, item);
        }
        r.push(item);
        i = i + 1;
        assert(struct_views(r@) =~= all.take(i as int));
    }
    assert(struct_views(r@) =~= all);
    r
}

// ---------------------------------------------------------------------------
// Fresh structs
// ---------------------------------------------------------------------------
/// A list of names as flags, each at the bit of its position.
pub open spec fn numbered(names: Seq<Seq<char>>) -> Seq<(u32, Seq<char>)> {
    Seq::new(names.len(), |i: int| (i as u32, names[i]))
}

/// The options that a field is declared with.
pub open spec fn declared_options(layout: LayoutView, field: TagFieldLayout) -> OptionsView {
    if field.definition < layout.string_lists.len() {
        let names = layout.string_lists[field.definition as int];
        if enum_type(field.field_type) {
            OptionsView::Enum(names)
        } else if flags_type(field.field_type) {
            OptionsView::Flags(numbered(names))
        } else {
            OptionsView::Absent
        }
    } else {
        OptionsView::Absent
    }
}

/// The name of the definition of a data field's bytes.
pub open spec fn declared_data(layout: LayoutView, field: TagFieldLayout) -> Option<Seq<char>> {
    if field.field_type == TagFieldType::Data && field.definition < layout.data_names.len() {
        Some(layout.string(layout.data_names[field.definition as int]))
    } else {
        None
    }
}

/// What a field of a fresh struct holds, with structs nested `depth` deep.
pub open spec fn default_content(
    layout: LayoutView,
    field: TagFieldLayout,
    depth: nat,
) -> ContentView
    decreases depth, 0nat,
{
    match field.field_type {
        TagFieldType::Struct => if depth == 0 {
            ContentView::Empty
        } else {
            ContentView::Struct(default_struct(layout, field.definition, (depth - 1) as nat))
        },
        TagFieldType::Block => if field.definition < layout.blocks.len() {
            let block = layout.blocks[field.definition as int];
            ContentView::Block(
                BlockView {
                    block_index: block.index,
                    struct_index: block.struct_index,
                    element_size: if block.struct_index < layout.structs.len() {
                        layout.structs[block.struct_index as int].size
                    } else {
                        0
                    },
                    max_count: block.max_count,
                    elements: Seq::empty(),
                },
            )
        } else {
            ContentView::Empty
        },
        TagFieldType::Array => if depth == 0 || field.definition >= layout.arrays.len() {
            ContentView::Empty
        } else {
            let array = layout.arrays[field.definition as int];
            ContentView::Array(
                Seq::new(
                    array.count as nat,
                    |i: int| default_struct(layout, array.struct_index, (depth - 1) as nat),
                ),
            )
        },
        TagFieldType::PageableResource => ContentView::Resource(
            ResourceView {
                struct_index: if field.definition < layout.resources.len() {
                    layout.resources[field.definition as int].struct_index
                } else {
                    0
                },
                content: ResourceContentView::Null,
            },
        ),
        t => match zero_of(t) {
            Some(v) => ContentView::Value(resolved(v, declared_options(layout, field))),
            None => ContentView::Empty,
        },
    }
}

/// A field of a fresh struct.
pub open spec fn default_field(layout: LayoutView, at: int, depth: nat) -> FieldView
    decreases depth, 1nat,
{
    let field = layout.fields[at];
    FieldView {
        name: layout.field_name(at),
        kind_name: layout.field_kind_name(at),
        field_type: field.field_type,
        options: declared_options(layout, field),
        data_definition: declared_data(layout, field),
        content: default_content(layout, field, depth),
    }
}

/// A struct all of whose bytes are zero, whose blocks are empty and whose
/// resources are null, with structs nested `depth` deep.
pub open spec fn default_struct(layout: LayoutView, index: u32, depth: nat) -> StructView
    decreases depth, 2nat,
{
    if index < layout.structs.len() {
        let s = layout.structs[index as int];
        let first = s.first_field_index as int;
        StructView {
            index: s.index,
            name: layout.string(s.name_offset),
            guid: s.guid@,
            size: s.size,
            fields: Seq::new(
                (layout.run_end(first) - first) as nat,
                |k: int| default_field(layout, first + k, depth),
            ),
        }
    } else {
        StructView {
            index,
            name: Seq::empty(),
            guid: Seq::new(16, |i: int| 0u8),
            size: 0,
            fields: Seq::empty(),
        }
    }
}

/// A fresh struct: no layout nests its structs deeper than it has structs.
pub open spec fn fresh_struct(layout: LayoutView, index: u32) -> StructView {
    default_struct(layout, index, layout.structs.len())
}

fn options_of(layout: &TagLayout, field: &TagFieldLayout) -> (r: TagOptions)
    ensures
        r@ == declared_options(layout@, *field),
{
    if (field.definition as usize) < layout.string_lists.len() {
        let names: &Vec<String> = &layout.string_lists[field.definition as usize];
        assert(layout@.string_lists[field.definition as int] == texts(names@));
        if is_enum_type(field.field_type) {
            return TagOptions::Enum(copy_texts(names));
        }
        if is_flags_type(field.field_type) {
            let mut flags: Vec<(u32, String)> = Vec::new();
            let ghost all = numbered(texts(names@));
            let mut i: usize = 0;
            assert(flag_names(flags@) =~= all.take(0));
            while i < names.len()
                invariant
                    i <= names.len(),
                    all == numbered(texts(names@)),
                    flag_names(flags@) == all.take(i as int),
                decreases names.len() - i,
            {
                let ghost before = flags@;
                let item: (u32, String) = (truncated(i), copy(&names[i]));
                flags.push(item);
                assert(flag_names(flags@) =~= flag_names(before).push((item.0, item.1@)));
                i = i + 1;
                assert(flag_names(flags@) =~= all.take(i as int));
            }
            assert(flag_names(flags@) =~= all);
            return TagOptions::Flags(flags);
        }
    }
    TagOptions::Absent
}

/// The low word of `n`.
pub fn truncated(n: usize) -> (r: u32)
    ensures
        r == n as u32,
{
    #[verifier::truncate]
    (n as u32)
}

fn data_name_of(layout: &TagLayout, field: &TagFieldLayout) -> (r: Option<String>)
    ensures
        text_option(r) == declared_data(layout@, *field),
{
    if field.field_type == TagFieldType::Data && (field.definition as usize)
        < layout.data_names.len() {
        Some(copy(layout.string_or_empty(layout.data_names[field.definition as usize])))
    } else {
        None
    }
}

fn default_content_of(layout: &TagLayout, field: &TagFieldLayout, depth: usize) -> (r:
    TagFieldContent)
    ensures
        r@ == default_content(layout@, *field, depth as nat),
    decreases depth, 0nat,
{
    let definition: usize = field.definition as usize;
    match field.field_type {
        TagFieldType::Struct => if depth == 0 {
            TagFieldContent::Empty
        } else {
            TagFieldContent::Struct(default_struct_of(layout, field.definition, depth - 1))
        },
        TagFieldType::Block => if definition < layout.block_layouts.len() {
            let block: TagBlockLayout = layout.block_layouts[definition];
            let element_size: usize = if (block.struct_index as usize) < layout.struct_layouts.len() {
                layout.struct_layouts[block.struct_index as usize].size
            } else {
                0
            };
            TagFieldContent::Block(
                TagBlock {
                    block_index: block.index,
                    struct_index: block.struct_index,
                    element_size,
                    max_count: block.max_count,
                    elements: no_structs(),
                },
            )
        } else {
            TagFieldContent::Empty
        },
        TagFieldType::Array => if depth == 0 || definition >= layout.array_layouts.len() {
            TagFieldContent::Empty
        } else {
            let array: TagArrayLayout = layout.array_layouts[definition];
            let ghost one = default_struct(layout@, array.struct_index, (depth - 1) as nat);
            let mut elements: Vec<TagStruct> = no_structs();
            let mut i: u32 = 0;
            assert(struct_views(elements@) =~= Seq::new(0, |k: int| one));
            while i < array.count
                invariant
                    i <= array.count,
                    depth > 0,
                    one == default_struct(layout@, array.struct_index, (depth - 1) as nat),
                    struct_views(elements@) == Seq::new(i as nat, |k: int| one),
                decreases array.count - i,
            {
                let element: TagStruct = default_struct_of(layout, array.struct_index, depth - 1);
                proof {
                    lemma_struct_views_push(elements@, element);
                }
                elements.push(element);
                i = i + 1;
                assert(struct_views(elements@) =~= Seq::new(i as nat, |k: int| one));
            }
            let ghost wanted = default_content(layout@, *field, depth as nat);
            assert(struct_views(elements@) =~= wanted->Array_0);
            TagFieldContent::Array(TagArray { elements })
        },
        TagFieldType::PageableResource => TagFieldContent::Resource(
            TagResource {
                struct_index: if definition < layout.resource_layouts.len() {
                    layout.resource_layouts[definition].struct_index
                } else {
                    0
                },
                content: TagResourceContent::Null,
            },
        ),
        t => match zero_value(t) {
            Some(v) => TagFieldContent::Value(resolve_value(v, &options_of(layout, field))),
            None => TagFieldContent::Empty,
        },
    }
}

fn default_field_of(layout: &TagLayout, at: usize, depth: usize) -> (r: TagField)
    requires
        at < layout@.fields.len(),
    ensures
        r@ == default_field(layout@, at as int, depth as nat),
    decreases depth, 1nat,
{
    let field: TagFieldLayout = layout.fields[at];
    let kind_name: &str = if (field.type_index as usize) < layout.field_types.len() {
        layout.string_or_empty(layout.field_types[field.type_index as usize].name_offset)
    } else {
        proof {
            reveal_strlit("");
            assert(""@ =~= Seq::<char>::empty());
        }
        ""
    };
    TagField {
        name: copy(layout.string_or_empty(field.name_offset)),
        kind_name: copy(kind_name),
        field_type: field.field_type,
        options: options_of(layout, &field),
        data_definition: data_name_of(layout, &field),
        content: default_content_of(layout, &field, depth),
    }
}

fn default_struct_of(layout: &TagLayout, index: u32, depth: usize) -> (r: TagStruct)
    ensures
        r@ == default_struct(layout@, index, depth as nat),
    decreases depth, 2nat,
{
    let mut fields: Vec<TagField> = no_fields();
    if (index as usize) < layout.struct_layouts.len() {
        let s: TagStructLayout = layout.struct_layouts[index as usize];
        let first: usize = s.first_field_index as usize;
        let end: usize = layout.end_of_run(first);
        let ghost wanted = default_struct(layout@, index, depth as nat).fields;
        let mut i: usize = first;
        assert(field_views(fields@) =~= wanted.take(0));
        while i < end
            invariant
                first <= i <= end,
                end > first ==> end <= layout@.fields.len(),
                wanted.len() == end - first,
                forall|k: int|
                    0 <= k < end - first ==> wanted[k] == default_field(
                        layout@,
                        first + k,
                        depth as nat,
                    ),
                field_views(fields@) == wanted.take(i - first),
            decreases end - i,
        {
            let field: TagField = default_field_of(layout, i, depth);
            proof {
                lemma_field_views_push(fields@, field);
                assert(wanted[i - first] == field@);
            }
            fields.push(field);
            i = i + 1;
            assert(field_views(fields@) =~= wanted.take(i - first));
        }
        assert(field_views(fields@) =~= wanted);
        TagStruct {
            index: s.index,
            name: copy(layout.string_or_empty(s.name_offset)),
            guid: s.guid,
            size: s.size,
            fields,
        }
    } else {
        let guid: [u8; 16] = [0u8; 16];
        assert(guid@ =~= Seq::new(16, |i: int| 0u8));
        let name: String = String::new();
        TagStruct { index, name, guid, size: 0, fields }
    }
}

/// A fresh struct of the layout.
pub fn fresh_struct_of(layout: &TagLayout, index: u32) -> (r: TagStruct)
    ensures
        r@ == fresh_struct(layout@, index),
{
    default_struct_of(layout, index, layout.struct_layouts.len())
}

// ---------------------------------------------------------------------------
// What is inside what
// ---------------------------------------------------------------------------
/// A struct is larger than each of its fields.
pub proof fn field_is_inside(s: StructView, i: int)
    requires
        0 <= i < s.fields.len(),
    ensures
        decreases_to!(s => s.fields[i]),
{
    assert(decreases_to!(s => s.fields));
    assert(decreases_to!(s.fields => s.fields[i]));
}

/// A field is larger than the struct it holds.
pub proof fn struct_is_inside(f: FieldView, s: StructView)
    requires
        f.content == ContentView::Struct(s),
    ensures
        decreases_to!(f => s),
{
    assert(decreases_to!(f => f.content));
    assert(decreases_to!(f.content => f.content->Struct_0));
}

/// A field is larger than the elements of the block it holds.
pub proof fn elements_are_inside(f: FieldView, b: BlockView)
    requires
        f.content == ContentView::Block(b),
    ensures
        decreases_to!(f => b.elements),
        forall|i: int|
            0 <= i < b.elements.len() ==> decreases_to!(f => #[trigger] b.elements[i]),
{
    assert(decreases_to!(f => f.content));
    assert(decreases_to!(f.content => f.content->Block_0));
    assert(decreases_to!(f.content->Block_0 => f.content->Block_0.elements));
    assert forall|i: int| 0 <= i < b.elements.len() implies decreases_to!(
        f => #[trigger] b.elements[i]
    ) by {
        assert(decreases_to!(b.elements => b.elements[i]));
    }
}

/// A field is larger than the elements of the array it holds.
pub proof fn items_are_inside(f: FieldView, a: Seq<StructView>)
    requires
        f.content == ContentView::Array(a),
    ensures
        decreases_to!(f => a),
        forall|i: int| 0 <= i < a.len() ==> decreases_to!(f => #[trigger] a[i]),
{
    assert(decreases_to!(f => f.content));
    assert(decreases_to!(f.content => f.content->Array_0));
    assert forall|i: int| 0 <= i < a.len() implies decreases_to!(f => #[trigger] a[i]) by {
        assert(decreases_to!(a => a[i]));
    }
}

}
