//! The data of a tag as its file holds it: blocks of raw bytes, and beside them a
//! tree of the chunks that belong to the fields.
use crate::convert::catalog::str_option;
use crate::fields::{TagFieldType, copy_bytes, zero_bytes};
use crate::json::bytes_option;
use crate::layout::{LayoutView, TagArrayLayout, TagFieldLayout, TagLayout, TagStructLayout};
use crate::tag::truncated;
use crate::text::{before, copy, lemma_texts_push, no_texts, same, text_before, texts};
use vstd::prelude::*;
use vstd::slice::slice_subrange;

verus! {

// ---------------------------------------------------------------------------
// The tree as contracts speak of it
// ---------------------------------------------------------------------------
pub ghost struct StructDataView {
    pub struct_index: u32,
    pub header: Option<Seq<u8>>,
    pub entries: Seq<EntryView>,
}

pub ghost struct EntryView {
    pub field: Option<u32>,
    pub content: ChunkView,
}

pub ghost enum ChunkView {
    Struct(StructDataView),
    Block(BlockDataView),
    Array(Seq<StructDataView>),
    TagReference(Seq<u8>),
    StringId(Seq<u8>),
    OldStringId(Seq<u8>),
    Data(Seq<u8>),
    ApiInterop(Seq<u8>),
    Resource(ResourceChunkView),
    EmptyPlaceholder,
}

pub ghost enum ResourceChunkView {
    Null,
    Exploded { exploded: Seq<u8>, data: StructDataView, state: Option<u32> },
    Xsync { version: u32, payload: Seq<u8> },
}

pub ghost struct BlockDataView {
    pub block_index: u32,
    pub flags: u32,
    pub raw: Seq<u8>,
    pub big_endian: bool,
    pub elements: Seq<StructDataView>,
    pub header: Option<Seq<u8>>,
    pub dirty: bool,
    pub trailing: Option<Seq<u8>>,
}

// ---------------------------------------------------------------------------
// The tree
// ---------------------------------------------------------------------------
/// A struct within a tag's data. Its bytes are in the enclosing block.
#[derive(Debug, PartialEq, Eq)]
pub struct TagStructData {
    /// The position of the struct's definition in the layout.
    pub struct_index: u32,
    /// The header before a tagged struct of the classic second generation.
    pub classic_struct_header: Option<Vec<u8>>,
    /// The chunks of the struct's fields, in the order in which they are written.
    pub sub_chunks: Vec<TagSubChunkEntry>,
}

/// A chunk of a struct, and the field it belongs to.
#[derive(Debug, PartialEq, Eq)]
pub struct TagSubChunkEntry {
    /// The position of the field in the layout; none for an empty placeholder.
    pub field_index: Option<u32>,
    pub content: TagSubChunkContent,
}

/// What a chunk holds.
#[derive(Debug, PartialEq, Eq)]
pub enum TagSubChunkContent {
    Struct(TagStructData),
    Block(TagBlockData),
    Array(Vec<TagStructData>),
    TagReference(Vec<u8>),
    StringId(Vec<u8>),
    OldStringId(Vec<u8>),
    Data(Vec<u8>),
    ApiInterop(Vec<u8>),
    Resource(TagResourceChunk),
    EmptyPlaceholder,
}

/// A pageable resource in its file.
#[derive(Debug, PartialEq, Eq)]
pub enum TagResourceChunk {
    Null,
    /// The payload, the resource's own struct, and the root address of the
    /// control data it was read with; the address is not written back.
    Exploded { exploded: Vec<u8>, struct_data: TagStructData, xsync_state: Option<u32> },
    Xsync { version: u32, payload: Vec<u8> },
}

/// A block: the bytes of its elements one after another, and their trees.
#[derive(Debug, PartialEq, Eq)]
pub struct TagBlockData {
    pub block_index: u32,
    /// Bit 0 says that the elements have no chunks of their own.
    pub flags: u32,
    pub raw_data: Vec<u8>,
    /// Whether the numbers in the bytes are big-endian.
    pub big_endian: bool,
    pub elements: Vec<TagStructData>,
    /// The header of a block of the classic second generation.
    pub classic_block_header: Option<Vec<u8>>,
    /// Whether elements came, went or moved since the block was read.
    pub classic_structural_dirty: bool,
    /// What follows the body of a classic tag; of the root block alone.
    pub classic_trailing: Option<Vec<u8>>,
}

/// The views of a list of structs.
pub open spec fn struct_data_views(v: Seq<TagStructData>) -> Seq<StructDataView>
    decreases v,
{
    Seq::new(
        v.len(),
        |i: int|
            if 0 <= i < v.len() {
                v[i].view()
            } else {
                arbitrary()
            },
    )
}

/// The views of a list of chunks.
pub open spec fn entry_views(v: Seq<TagSubChunkEntry>) -> Seq<EntryView>
    decreases v,
{
    Seq::new(
        v.len(),
        |i: int|
            if 0 <= i < v.len() {
                v[i].view()
            } else {
                arbitrary()
            },
    )
}

impl TagStructData {
    pub open spec fn view(&self) -> StructDataView
        decreases self,
    {
        StructDataView {
            struct_index: self.struct_index,
            header: bytes_option(self.classic_struct_header),
            entries: entry_views(self.sub_chunks@),
        }
    }
}

impl TagSubChunkEntry {
    pub open spec fn view(&self) -> EntryView
        decreases self,
    {
        EntryView { field: self.field_index, content: self.content.view() }
    }
}

impl TagSubChunkContent {
    pub open spec fn view(&self) -> ChunkView
        decreases self,
    {
        match self {
            TagSubChunkContent::Struct(s) => ChunkView::Struct(s.view()),
            TagSubChunkContent::Block(b) => ChunkView::Block(b.view()),
            TagSubChunkContent::Array(a) => ChunkView::Array(struct_data_views(a@)),
            TagSubChunkContent::TagReference(b) => ChunkView::TagReference(b@),
            TagSubChunkContent::StringId(b) => ChunkView::StringId(b@),
            TagSubChunkContent::OldStringId(b) => ChunkView::OldStringId(b@),
            TagSubChunkContent::Data(b) => ChunkView::Data(b@),
            TagSubChunkContent::ApiInterop(b) => ChunkView::ApiInterop(b@),
            TagSubChunkContent::Resource(r) => ChunkView::Resource(r.view()),
            TagSubChunkContent::EmptyPlaceholder => ChunkView::EmptyPlaceholder,
        }
    }
}

impl TagResourceChunk {
    pub open spec fn view(&self) -> ResourceChunkView
        decreases self,
    {
        match self {
            TagResourceChunk::Null => ResourceChunkView::Null,
            TagResourceChunk::Exploded { exploded, struct_data, xsync_state } => {
                ResourceChunkView::Exploded {
                    exploded: exploded@,
                    data: struct_data.view(),
                    state: *xsync_state,
                }
            },
            TagResourceChunk::Xsync { version, payload } => ResourceChunkView::Xsync {
                version: *version,
                payload: payload@,
            },
        }
    }
}

impl TagBlockData {
    pub open spec fn view(&self) -> BlockDataView
        decreases self,
    {
        BlockDataView {
            block_index: self.block_index,
            flags: self.flags,
            raw: self.raw_data@,
            big_endian: self.big_endian,
            elements: struct_data_views(self.elements@),
            header: bytes_option(self.classic_block_header),
            dirty: self.classic_structural_dirty,
            trailing: bytes_option(self.classic_trailing),
        }
    }
}

/// Appending a struct appends its view.
pub proof fn lemma_struct_data_push(v: Seq<TagStructData>, s: TagStructData)
    ensures
        struct_data_views(v.push(s)) == struct_data_views(v).push(s@),
{
    assert(struct_data_views(v.push(s)) =~= struct_data_views(v).push(s@));
}

/// Appending a chunk appends its view.
pub proof fn lemma_entry_push(v: Seq<TagSubChunkEntry>, e: TagSubChunkEntry)
    ensures
        entry_views(v.push(e)) == entry_views(v).push(e@),
{
    assert(entry_views(v.push(e)) =~= entry_views(v).push(e@));
}

/// An empty list of chunks.
pub fn no_entries() -> (r: Vec<TagSubChunkEntry>)
    ensures
        entry_views(r@) == Seq::<EntryView>::empty(),
{
    let r: Vec<TagSubChunkEntry> = Vec::new();
    assert(entry_views(r@) =~= Seq::<EntryView>::empty());
    r
}

/// An empty list of structs.
pub fn no_struct_data() -> (r: Vec<TagStructData>)
    ensures
        struct_data_views(r@) == Seq::<StructDataView>::empty(),
{
    let r: Vec<TagStructData> = Vec::new();
    assert(struct_data_views(r@) =~= Seq::<StructDataView>::empty());
    r
}

// ---------------------------------------------------------------------------
// Fresh structs
// ---------------------------------------------------------------------------
/// An empty block of the layout.
pub open spec fn empty_block(layout: LayoutView, definition: u32, big_endian: bool) -> BlockDataView {
    BlockDataView {
        block_index: layout.blocks[definition as int].index,
        flags: 0,
        raw: Seq::empty(),
        big_endian,
        elements: Seq::empty(),
        header: None,
        dirty: false,
        trailing: None,
    }
}

/// What a field's chunk holds in a fresh struct, for a field that has one;
/// structs nest `depth` deep.
pub open spec fn default_chunk(
    layout: LayoutView,
    field: TagFieldLayout,
    big_endian: bool,
    depth: nat,
) -> Option<ChunkView>
    decreases depth, 0nat, 0nat,
{
    match field.field_type {
        TagFieldType::Struct => if depth == 0 {
            None
        } else {
            Some(
                ChunkView::Struct(
                    default_data(layout, field.definition, big_endian, (depth - 1) as nat),
                ),
            )
        },
        TagFieldType::Block => Some(
            ChunkView::Block(empty_block(layout, field.definition, big_endian)),
        ),
        TagFieldType::Array => if depth == 0 {
            None
        } else {
            let array = layout.arrays[field.definition as int];
            Some(
                ChunkView::Array(
                    Seq::new(
                        array.count as nat,
                        |i: int|
                            default_data(
                                layout,
                                array.struct_index,
                                big_endian,
                                (depth - 1) as nat,
                            ),
                    ),
                ),
            )
        },
        TagFieldType::TagReference => Some(ChunkView::TagReference(Seq::empty())),
        TagFieldType::StringId => Some(ChunkView::StringId(Seq::empty())),
        TagFieldType::OldStringId => Some(ChunkView::OldStringId(Seq::empty())),
        TagFieldType::Data => Some(ChunkView::Data(Seq::empty())),
        TagFieldType::ApiInterop => Some(ChunkView::ApiInterop(Seq::new(12, |i: int| 0u8))),
        TagFieldType::PageableResource => Some(ChunkView::Resource(ResourceChunkView::Null)),
        _ => None,
    }
}

/// The chunks of the first `n` fields from `first` on of a fresh struct.
pub open spec fn default_entries(
    layout: LayoutView,
    first: int,
    n: nat,
    big_endian: bool,
    depth: nat,
) -> Seq<EntryView>
    decreases depth, 1nat, n,
{
    if n == 0 {
        Seq::empty()
    } else {
        let rest = default_entries(layout, first, (n - 1) as nat, big_endian, depth);
        match default_chunk(layout, layout.fields[first + n - 1], big_endian, depth) {
            Some(content) => rest.push(
                EntryView { field: Some((first + n - 1) as u32), content },
            ),
            None => rest,
        }
    }
}

/// A fresh struct: every chunk empty. Its bytes are for the block to provide.
pub open spec fn default_data(
    layout: LayoutView,
    index: u32,
    big_endian: bool,
    depth: nat,
) -> StructDataView
    decreases depth, 2nat, 0nat,
{
    let s = layout.structs[index as int];
    let first = s.first_field_index as int;
    StructDataView {
        struct_index: s.index,
        header: None,
        entries: default_entries(
            layout,
            first,
            (layout.run_end(first) - first) as nat,
            big_endian,
            depth,
        ),
    }
}

/// A fresh struct, its structs nested as deep as the layout has structs.
pub open spec fn fresh_data(layout: LayoutView, index: u32, big_endian: bool) -> StructDataView {
    default_data(layout, index, big_endian, layout.structs.len())
}

fn empty_block_of(layout: &TagLayout, definition: u32, big_endian: bool) -> (r: TagBlockData)
    requires
        definition < layout@.blocks.len(),
    ensures
        r@ == empty_block(layout@, definition, big_endian),
{
    let r: TagBlockData = TagBlockData {
        block_index: layout.block_layouts[definition as usize].index,
        flags: 0,
        raw_data: Vec::new(),
        big_endian,
        elements: no_struct_data(),
        classic_block_header: None,
        classic_structural_dirty: false,
        classic_trailing: None,
    };
    assert(r@.raw =~= Seq::<u8>::empty());
    r
}

/// No bytes.
pub fn no_bytes() -> (r: Vec<u8>)
    ensures
        r@ == Seq::<u8>::empty(),
{
    let r: Vec<u8> = Vec::new();
    assert(r@ =~= Seq::<u8>::empty());
    r
}

/// The view of an optional chunk.
pub open spec fn chunk_option(v: Option<TagSubChunkContent>) -> Option<ChunkView> {
    match v {
        Some(c) => Some(c@),
        None => None,
    }
}

fn default_array(
    layout: &TagLayout,
    struct_index: u32,
    count: u32,
    big_endian: bool,
    depth: usize,
) -> (r: Vec<TagStructData>)
    requires
        layout@.wf(),
        struct_index < layout@.structs.len(),
    ensures
        struct_data_views(r@) == Seq::new(
            count as nat,
            |i: int| default_data(layout@, struct_index, big_endian, depth as nat),
        ),
    decreases depth, 3nat,
{
    let ghost one = default_data(layout@, struct_index, big_endian, depth as nat);
    let mut elements: Vec<TagStructData> = no_struct_data();
    let mut i: u32 = 0;
    assert(struct_data_views(elements@) =~= Seq::new(0, |k: int| one));
    while i < count
        invariant
            i <= count,
            layout@.wf(),
            struct_index < layout@.structs.len(),
            one == default_data(layout@, struct_index, big_endian, depth as nat),
            struct_data_views(elements@) == Seq::new(i as nat, |k: int| one),
        decreases count - i,
    {
        let element: TagStructData = default_data_of(layout, struct_index, big_endian, depth);
        proof {
            lemma_struct_data_push(elements@, element);
        }
        elements.push(element);
        i = i + 1;
        assert(struct_data_views(elements@) =~= Seq::new(i as nat, |k: int| one));
    }
    assert(struct_data_views(elements@) =~= Seq::new(
        count as nat,
        |i: int| default_data(layout@, struct_index, big_endian, depth as nat),
    ));
    elements
}

fn default_chunk_of(
    layout: &TagLayout,
    field: &TagFieldLayout,
    big_endian: bool,
    depth: usize,
) -> (r: Option<TagSubChunkContent>)
    requires
        layout@.wf(),
        layout@.definition_in_range(*field),
    ensures
        chunk_option(r) == default_chunk(layout@, *field, big_endian, depth as nat),
    decreases depth, 0nat,
{
    match field.field_type {
        TagFieldType::Struct => if depth == 0 {
            None
        } else {
            Some(
                TagSubChunkContent::Struct(
                    default_data_of(layout, field.definition, big_endian, depth - 1),
                ),
            )
        },
        TagFieldType::Block => Some(
            TagSubChunkContent::Block(empty_block_of(layout, field.definition, big_endian)),
        ),
        TagFieldType::Array => if depth == 0 {
            None
        } else {
            let array: TagArrayLayout = layout.array_layouts[field.definition as usize];
            assert(array == layout@.arrays[field.definition as int]);
            let elements: Vec<TagStructData> = default_array(
                layout,
                array.struct_index,
                array.count,
                big_endian,
                depth - 1,
            );
            let ghost wanted = default_chunk(layout@, *field, big_endian, depth as nat)->0;
            assert(struct_data_views(elements@) =~= wanted->Array_0);
            Some(TagSubChunkContent::Array(elements))
        },
        TagFieldType::TagReference => Some(TagSubChunkContent::TagReference(no_bytes())),
        TagFieldType::StringId => Some(TagSubChunkContent::StringId(no_bytes())),
        TagFieldType::OldStringId => Some(TagSubChunkContent::OldStringId(no_bytes())),
        TagFieldType::Data => Some(TagSubChunkContent::Data(no_bytes())),
        TagFieldType::ApiInterop => Some(TagSubChunkContent::ApiInterop(zero_bytes(12))),
        TagFieldType::PageableResource => Some(
            TagSubChunkContent::Resource(TagResourceChunk::Null),
        ),
        _ => None,
    }
}

fn default_data_of(
    layout: &TagLayout,
    index: u32,
    big_endian: bool,
    depth: usize,
) -> (r: TagStructData)
    requires
        layout@.wf(),
        index < layout@.structs.len(),
    ensures
        r@ == default_data(layout@, index, big_endian, depth as nat),
    decreases depth, 2nat,
{
    let s: TagStructLayout = layout.struct_layouts[index as usize];
    assert(s == layout@.structs[index as int]);
    let first: usize = s.first_field_index as usize;
    let end: usize = layout.end_of_run(first);
    let mut sub_chunks: Vec<TagSubChunkEntry> = no_entries();
    let mut i: usize = first;
    while i < end
        invariant
            first <= i <= end,
            first as u32 == first,
            end > first ==> end <= layout.fields.len(),
            layout@.wf(),
            entry_views(sub_chunks@) == default_entries(
                layout@,
                first as int,
                (i - first) as nat,
                big_endian,
                depth as nat,
            ),
        decreases end - i,
    {
        let field: TagFieldLayout = layout.fields[i];
        assert(field == layout@.fields[i as int]);
        if let Some(content) = default_chunk_of(layout, &field, big_endian, depth) {
            let entry: TagSubChunkEntry = TagSubChunkEntry {
                field_index: Some(truncated(i)),
                content,
            };
            proof {
                lemma_entry_push(sub_chunks@, entry);
            }
            sub_chunks.push(entry);
        }
        i = i + 1;
    }
    TagStructData { struct_index: s.index, classic_struct_header: None, sub_chunks }
}

impl TagStructData {
    /// A fresh struct of the layout.
    pub fn new_default(layout: &TagLayout, struct_index: usize, big_endian: bool) -> (r:
        TagStructData)
        requires
            layout@.wf(),
            struct_index < layout@.structs.len(),
            struct_index <= u32::MAX,
        ensures
            r@ == fresh_data(layout@, struct_index as u32, big_endian),
    {
        default_data_of(
            layout,
            struct_index as u32,
            big_endian,
            layout.struct_layouts.len(),
        )
    }
}

// ---------------------------------------------------------------------------
// Copies
// ---------------------------------------------------------------------------
/// A copy of optional bytes.
pub fn copy_bytes_option(v: &Option<Vec<u8>>) -> (r: Option<Vec<u8>>)
    ensures
        bytes_option(r) == bytes_option(*v),
{
    match v {
        Some(b) => Some(copy_bytes(b)),
        None => None,
    }
}

impl TagStructData {
    pub fn duplicate(&self) -> (r: TagStructData)
        ensures
            r@ == self@,
        decreases self, 0nat,
    {
        let ghost all = entry_views(self.sub_chunks@);
        let mut sub_chunks: Vec<TagSubChunkEntry> = no_entries();
        let mut i: usize = 0;
        assert(entry_views(sub_chunks@) =~= all.take(0));
        while i < self.sub_chunks.len()
            invariant
                i <= self.sub_chunks.len(),
                all == entry_views(self.sub_chunks@),
                entry_views(sub_chunks@) == all.take(i as int),
            decreases self.sub_chunks.len() - i,
        {
            let entry: TagSubChunkEntry = TagSubChunkEntry {
                field_index: self.sub_chunks[i].field_index,
                content: self.sub_chunks[i].content.duplicate(),
            };
            proof {
                lemma_entry_push(sub_chunks@, entry);
            }
            sub_chunks.push(entry);
            i = i + 1;
            assert(entry_views(sub_chunks@) =~= all.take(i as int));
        }
        assert(entry_views(sub_chunks@) =~= all);
        TagStructData {
            struct_index: self.struct_index,
            classic_struct_header: copy_bytes_option(&self.classic_struct_header),
            sub_chunks,
        }
    }
}

impl TagSubChunkContent {
    pub fn duplicate(&self) -> (r: TagSubChunkContent)
        ensures
            r@ == self@,
        decreases self, 0nat,
    {
        match self {
            TagSubChunkContent::Struct(s) => TagSubChunkContent::Struct(s.duplicate()),
            TagSubChunkContent::Block(b) => TagSubChunkContent::Block(b.duplicate()),
            TagSubChunkContent::Array(a) => TagSubChunkContent::Array(duplicate_data(a)),
            TagSubChunkContent::TagReference(b) => TagSubChunkContent::TagReference(copy_bytes(b)),
            TagSubChunkContent::StringId(b) => TagSubChunkContent::StringId(copy_bytes(b)),
            TagSubChunkContent::OldStringId(b) => TagSubChunkContent::OldStringId(copy_bytes(b)),
            TagSubChunkContent::Data(b) => TagSubChunkContent::Data(copy_bytes(b)),
            TagSubChunkContent::ApiInterop(b) => TagSubChunkContent::ApiInterop(copy_bytes(b)),
            TagSubChunkContent::Resource(r) => TagSubChunkContent::Resource(r.duplicate()),
            TagSubChunkContent::EmptyPlaceholder => TagSubChunkContent::EmptyPlaceholder,
        }
    }
}

impl TagResourceChunk {
    pub fn duplicate(&self) -> (r: TagResourceChunk)
        ensures
            r@ == self@,
        decreases self, 0nat,
    {
        match self {
            TagResourceChunk::Null => TagResourceChunk::Null,
            TagResourceChunk::Exploded { exploded, struct_data, xsync_state } => {
                TagResourceChunk::Exploded {
                    exploded: copy_bytes(exploded),
                    struct_data: struct_data.duplicate(),
                    xsync_state: *xsync_state,
                }
            },
            TagResourceChunk::Xsync { version, payload } => TagResourceChunk::Xsync {
                version: *version,
                payload: copy_bytes(payload),
            },
        }
    }
}

impl TagBlockData {
    pub fn duplicate(&self) -> (r: TagBlockData)
        ensures
            r@ == self@,
        decreases self, 0nat,
    {
        TagBlockData {
            block_index: self.block_index,
            flags: self.flags,
            raw_data: copy_bytes(&self.raw_data),
            big_endian: self.big_endian,
            elements: duplicate_data(&self.elements),
            classic_block_header: copy_bytes_option(&self.classic_block_header),
            classic_structural_dirty: self.classic_structural_dirty,
            classic_trailing: copy_bytes_option(&self.classic_trailing),
        }
    }
}

fn duplicate_data(list: &Vec<TagStructData>) -> (r: Vec<TagStructData>)
    ensures
        struct_data_views(r@) == struct_data_views(list@),
    decreases list, 1nat,
{
    let ghost all = struct_data_views(list@);
    let mut r: Vec<TagStructData> = no_struct_data();
    let mut i: usize = 0;
    assert(struct_data_views(r@) =~= all.take(0));
    while i < list.len()
        invariant
            i <= list.len(),
            all == struct_data_views(list@),
            struct_data_views(r@) == all.take(i as int),
        decreases list.len() - i,
    {
        let item: TagStructData = list[i].duplicate();
        proof {
            lemma_struct_data_push(r@, item);
        }
        r.push(item);
        i = i + 1;
        assert(struct_data_views(r@) =~= all.take(i as int));
    }
    assert(struct_data_views(r@) =~= all);
    r
}

impl Clone for TagStructData {
    fn clone(&self) -> (r: Self)
        ensures
            r@ == self@,
    {
        self.duplicate()
    }
}

impl Clone for TagSubChunkContent {
    fn clone(&self) -> (r: Self)
        ensures
            r@ == self@,
    {
        self.duplicate()
    }
}

impl Clone for TagSubChunkEntry {
    fn clone(&self) -> (r: Self)
        ensures
            r@ == self@,
    {
        TagSubChunkEntry { field_index: self.field_index, content: self.content.duplicate() }
    }
}

impl Clone for TagResourceChunk {
    fn clone(&self) -> (r: Self)
        ensures
            r@ == self@,
    {
        self.duplicate()
    }
}

impl Clone for TagBlockData {
    fn clone(&self) -> (r: Self)
        ensures
            r@ == self@,
    {
        self.duplicate()
    }
}

// ---------------------------------------------------------------------------
// Looking up fields
// ---------------------------------------------------------------------------
/// Whether a stored name answers to a query: what stands before its first `|` is
/// the query.
pub open spec fn name_answers(stored: Option<Seq<char>>, query: Seq<char>) -> bool {
    stored matches Some(s) && before(s, "|"@) == query
}

/// Whether a field's stored name answers to a query; a name code behind `|` is no
/// part of the name.
pub fn field_name_matches(stored: Option<&str>, query: &str) -> (r: bool)
    ensures
        r == name_answers(str_option(stored), query@),
{
    match stored {
        Some(s) => same(&text_before(s, "|"), query),
        None => false,
    }
}

/// The string at an offset.
pub open spec fn stored_string(layout: LayoutView, offset: u32) -> Option<Seq<char>> {
    if offset < layout.strings.len() {
        Some(layout.strings[offset as int])
    } else {
        None
    }
}

/// The first field at or behind `from` and before the end of its run that answers
/// to a name.
pub open spec fn field_named(layout: LayoutView, name: Seq<char>, from: int) -> Option<int>
    decreases layout.fields.len() - from,
{
    if from < 0 || from >= layout.fields.len() || layout.fields[from].field_type
        == TagFieldType::Terminator {
        None
    } else if name_answers(stored_string(layout, layout.fields[from].name_offset), name) {
        Some(from)
    } else {
        field_named(layout, name, from + 1)
    }
}

/// Whether a field is one that a user can address by name.
pub open spec fn addressable(t: TagFieldType) -> bool {
    match t {
        TagFieldType::Pad
        | TagFieldType::UselessPad
        | TagFieldType::Skip
        | TagFieldType::Explanation
        | TagFieldType::Unknown => false,
        _ => true,
    }
}

/// The names of the addressable ones among the first `n` fields from `first` on,
/// empty names left out.
pub open spec fn names_among(layout: LayoutView, first: int, n: nat) -> Seq<Seq<char>>
    decreases n,
{
    if n == 0 {
        Seq::empty()
    } else {
        let rest = names_among(layout, first, (n - 1) as nat);
        let field = layout.fields[first + n - 1];
        match stored_string(layout, field.name_offset) {
            Some(name) => if addressable(field.field_type) && name.len() > 0 {
                rest.push(name)
            } else {
                rest
            },
            None => rest,
        }
    }
}

/// The position of the chunk of a field at or behind `from`.
pub open spec fn chunk_place(entries: Seq<EntryView>, field: u32, from: nat) -> Option<nat>
    decreases entries.len() - from,
{
    if from >= entries.len() {
        None
    } else if entries[from as int].field == Some(field) {
        Some(from)
    } else {
        chunk_place(entries, field, from + 1)
    }
}

impl TagStructData {
    /// The position in the layout of the field that answers to a name.
    pub fn find_field_by_name(&self, layout: &TagLayout, name: &str) -> (r: Option<usize>)
        requires
            layout@.wf(),
            self@.struct_index < layout@.structs.len(),
        ensures
            match r {
                Some(f) => field_named(
                    layout@,
                    name@,
                    layout@.structs[self@.struct_index as int].first_field_index as int,
                ) == Some(f as int),
                None => field_named(
                    layout@,
                    name@,
                    layout@.structs[self@.struct_index as int].first_field_index as int,
                ) is None,
            },
    {
        let first: usize =
            layout.struct_layouts[self.struct_index as usize].first_field_index as usize;
        let mut i: usize = first;
        while i < layout.fields.len() && layout.fields[i].field_type != TagFieldType::Terminator
            invariant
                i <= layout.fields.len(),
                field_named(layout@, name@, first as int) == field_named(layout@, name@, i as int),
                first == layout@.structs[self@.struct_index as int].first_field_index,
            decreases layout.fields.len() - i,
        {
            let stored: Option<&str> = layout.get_string(layout.fields[i].name_offset);
            if field_name_matches(stored, name) {
                return Some(i);
            }
            i = i + 1;
        }
        None
    }

    /// The names of the fields that a user can address.
    pub fn field_names(&self, layout: &TagLayout) -> (r: Vec<String>)
        requires
            layout@.wf(),
            self@.struct_index < layout@.structs.len(),
        ensures
            ({
                let first =
                    layout@.structs[self@.struct_index as int].first_field_index as int;
                texts(r@) == names_among(layout@, first, (layout@.run_end(first) - first) as nat)
            }),
    {
        let first: usize =
            layout.struct_layouts[self.struct_index as usize].first_field_index as usize;
        let end: usize = layout.end_of_run(first);
        let mut r: Vec<String> = no_texts();
        let mut i: usize = first;
        while i < end
            invariant
                first <= i <= end,
                end > first ==> end <= layout.fields.len(),
                texts(r@) == names_among(layout@, first as int, (i - first) as nat),
            decreases end - i,
        {
            let field: TagFieldLayout = layout.fields[i];
            let shown = match field.field_type {
                TagFieldType::Pad
                | TagFieldType::UselessPad
                | TagFieldType::Skip
                | TagFieldType::Explanation
                | TagFieldType::Unknown => false,
                _ => true,
            };
            if let Some(name) = layout.get_string(field.name_offset) {
                if shown && !name.is_empty() {
                    let item: String = copy(name);
                    proof {
                        lemma_texts_push(r@, item);
                    }
                    r.push(item);
                }
            }
            i = i + 1;
        }
        r
    }

    /// The position of the chunk of a field.
    pub fn chunk_of_field(&self, field_index: u32) -> (r: Option<usize>)
        ensures
            match r {
                Some(p) => p < self@.entries.len() && chunk_place(self@.entries, field_index, 0)
                    == Some(p as nat),
                None => chunk_place(self@.entries, field_index, 0) is None,
            },
    {
        let mut i: usize = 0;
        while i < self.sub_chunks.len()
            invariant
                i <= self.sub_chunks.len(),
                chunk_place(self@.entries, field_index, 0) == chunk_place(
                    self@.entries,
                    field_index,
                    i as nat,
                ),
            decreases self.sub_chunks.len() - i,
        {
            assert(self@.entries[i as int] == self.sub_chunks@[i as int]@);
            if let Some(own) = self.sub_chunks[i].field_index {
                if own == field_index {
                    return Some(i);
                }
            }
            i = i + 1;
        }
        None
    }

    /// The struct that a field holds, with the bytes of it that are present: a
    /// truncated element may hold only a part of them, or none.
    pub fn nested_struct<'a>(
        &'a self,
        layout: &TagLayout,
        element_raw: &'a [u8],
        field_index: usize,
    ) -> (r: Option<(&'a TagStructData, &'a [u8])>)
        requires
            layout@.wf(),
            field_index < layout@.fields.len(),
            field_index <= u32::MAX,
            forall|i: int|
                0 <= i < self@.entries.len() ==> ((#[trigger] self@.entries[i]).content matches ChunkView::Struct(
                    s,
                ) ==> s.struct_index < layout@.structs.len()),
        ensures
            match r {
                Some((s, bytes)) => nested_data(
                    layout@,
                    self@,
                    element_raw@,
                    field_index as int,
                ) == Some((s@, bytes@)),
                None => nested_data(layout@, self@, element_raw@, field_index as int) is None,
            },
    {
        let field: TagFieldLayout = layout.fields[field_index];
        if field.field_type != TagFieldType::Struct {
            return None;
        }
        let p: usize = match self.chunk_of_field(field_index as u32) {
            Some(p) => p,
            None => {
                return None;
            },
        };
        assert(self@.entries[p as int] == self.sub_chunks@[p as int]@);
        match &self.sub_chunks[p].content {
            TagSubChunkContent::Struct(nested) => {
                assert(self@.entries[p as int].content == ChunkView::Struct(nested@));
                let size: usize = layout.struct_layouts[nested.struct_index as usize].size;
                let offset: usize = field.offset as usize;
                let present: usize = element_raw.len();
                if offset >= present {
                    return None;
                }
                let end: usize = if size <= present - offset {
                    offset + size
                } else {
                    present
                };
                Some((nested, slice_subrange(element_raw, offset, end)))
            },
            _ => None,
        }
    }
}

impl StructDataView {
    /// The struct with `content` for the chunk at `place`.
    pub open spec fn with_content(self, place: int, content: ChunkView) -> StructDataView {
        StructDataView {
            entries: self.entries.update(
                place,
                EntryView { field: self.entries[place].field, content },
            ),
            ..self
        }
    }
}

proof fn lemma_entry_update(v: Seq<TagSubChunkEntry>, i: int, e: TagSubChunkEntry)
    requires
        0 <= i < v.len(),
    ensures
        entry_views(v.update(i, e)) == entry_views(v).update(i, e@),
{
    assert(entry_views(v.update(i, e)) =~= entry_views(v).update(i, e@));
}

impl TagStructData {
    /// What the chunk at `place` holds, to be changed.
    pub fn content_mut(&mut self, place: usize) -> (r: &mut TagSubChunkContent)
        requires
            place < old(self)@.entries.len(),
        ensures
            r@ == old(self)@.entries[place as int].content,
            final(self)@ == old(self)@.with_content(place as int, final(r)@),
    {
        let ghost before = self.sub_chunks@;
        assert(before[place as int]@ == self@.entries[place as int]);
        let entry: &mut TagSubChunkEntry = &mut self.sub_chunks[place];
        proof {
            lemma_entry_update(before, place as int, *final(entry));
        }
        &mut entry.content
    }

    /// Puts what a value is written as in the chunk of its field. A field that has
    /// a chunk has one from the start.
    pub fn set_chunk(&mut self, field_index: u32, content: TagSubChunkContent)
        requires
            chunk_place(old(self)@.entries, field_index, 0) is Some,
        ensures
            final(self)@ == old(self)@.with_content(
                chunk_place(old(self)@.entries, field_index, 0)->0 as int,
                content@,
            ),
    {
        if let Some(p) = self.chunk_of_field(field_index) {
            *self.content_mut(p) = content;
        }
    }

    /// The struct that a field holds, to be changed, with the place of those of its
    /// bytes that are present among the `present` bytes of the whole.
    pub fn nested_struct_mut(
        &mut self,
        layout: &TagLayout,
        present: usize,
        field_index: usize,
    ) -> (r: Option<(&mut TagStructData, usize, usize)>)
        requires
            layout@.wf(),
            field_index < layout@.fields.len(),
            field_index <= u32::MAX,
            forall|i: int|
                0 <= i < old(self)@.entries.len() ==> ((#[trigger] old(
                    self,
                )@.entries[i]).content matches ChunkView::Struct(s) ==> s.struct_index
                    < layout@.structs.len()),
        ensures
            match r {
                Some((s, from, to)) => {
                    &&& from <= to <= present
                    &&& forall|raw: Seq<u8>|
                        raw.len() == present ==> #[trigger] nested_data(
                            layout@,
                            old(self)@,
                            raw,
                            field_index as int,
                        ) == Some((s@, raw.subrange(from as int, to as int)))
                    &&& final(self)@ == old(self)@.with_content(
                        chunk_place(old(self)@.entries, field_index as u32, 0)->0 as int,
                        ChunkView::Struct(final(s)@),
                    )
                },
                None => {
                    &&& forall|raw: Seq<u8>|
                        raw.len() == present ==> #[trigger] nested_data(
                            layout@,
                            old(self)@,
                            raw,
                            field_index as int,
                        ) is None
                    &&& final(self)@ == old(self)@
                },
            },
    {
        let field: TagFieldLayout = layout.fields[field_index];
        if field.field_type != TagFieldType::Struct {
            return None;
        }
        let p: usize = match self.chunk_of_field(field_index as u32) {
            Some(p) => p,
            None => {
                return None;
            },
        };
        assert(self@.entries[p as int] == self.sub_chunks@[p as int]@);
        let offset: usize = field.offset as usize;
        let size: usize = match &self.sub_chunks[p].content {
            TagSubChunkContent::Struct(nested) => {
                assert(self@.entries[p as int].content == ChunkView::Struct(nested@));
                layout.struct_layouts[nested.struct_index as usize].size
            },
            _ => {
                return None;
            },
        };
        if offset >= present {
            return None;
        }
        let end: usize = if size <= present - offset {
            offset + size
        } else {
            present
        };
        match self.content_mut(p) {
            TagSubChunkContent::Struct(nested) => Some((nested, offset, end)),
            _ => None,
        }
    }
}

/// The struct that a field holds, with the bytes of it that are present.
pub open spec fn nested_data(
    layout: LayoutView,
    s: StructDataView,
    raw: Seq<u8>,
    field: int,
) -> Option<(StructDataView, Seq<u8>)> {
    let f = layout.fields[field];
    let offset = f.offset as int;
    if f.field_type != TagFieldType::Struct {
        None
    } else {
        match chunk_place(s.entries, field as u32, 0) {
            None => None,
            Some(p) => match s.entries[p as int].content {
                ChunkView::Struct(nested) => {
                    let size = layout.structs[nested.struct_index as int].size;
                    if offset >= raw.len() {
                        None
                    } else if offset + size <= raw.len() {
                        Some((nested, raw.subrange(offset, offset + size)))
                    } else {
                        Some((nested, raw.subrange(offset, raw.len() as int)))
                    }
                },
                _ => None,
            },
        }
    }
}

}
