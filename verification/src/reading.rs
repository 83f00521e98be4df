//! Reading the chunks of a tag's data.
use crate::blocks::numbered_structs;
use crate::bytes::copy_of_range;
use crate::chunks::{
    ChunkName, INTEROP, TG0C, TGBL, TGDA, TGDT, TGRC, TGRF, TGSI, TGST, TGXC, TagReadError,
    check_chunk_end, end_fault, header_at, in_memory, plain_content_at, read_chunk_header,
    read_plain_content, read_validated_chunk_header, validated_header_at, word_at, word_of,
};
use crate::data::{
    BlockDataView, ChunkView, EntryView, ResourceChunkView, StructDataView, TagBlockData,
    TagResourceChunk, TagStructData, TagSubChunkContent, TagSubChunkEntry, entry_views,
    fresh_data, lemma_entry_push, lemma_struct_data_push, no_entries, no_struct_data,
    struct_data_views,
};
use crate::fields::TagFieldType;
use crate::layout::{
    LayoutView, TagArrayLayout, TagBlockLayout, TagFieldLayout, TagLayout, TagResourceLayout,
    TagStructLayout,
};
use crate::tag::truncated;
use vstd::prelude::*;

verus! {

// ---------------------------------------------------------------------------
// What reading gives
// ---------------------------------------------------------------------------
/// The chunks read so far, and where reading goes on.
pub type EntriesRead = Result<(Seq<EntryView>, int), TagReadError>;

/// The structs read so far, and where reading goes on.
pub type StructsRead = Result<(Seq<StructDataView>, int), TagReadError>;

/// A struct, and where reading goes on.
pub type StructRead = Result<(StructDataView, int), TagReadError>;

/// An empty struct chunk that belongs to no field.
pub open spec fn placeholder() -> EntryView {
    EntryView { field: None, content: ChunkView::EmptyPlaceholder }
}

/// Whether structs of a definition hold fields with chunks.
pub open spec fn expects_chunks(layout: LayoutView, index: u32) -> bool {
    let first = layout.structs[index as int].first_field_index as int;
    exists|i: int|
        first <= i < layout.run_end(first) && layout.field_types[(
        #[trigger] layout.fields[i]).type_index as int].needs_sub_chunk
}

/// The empty struct chunks before a nested struct.
pub open spec fn skip_placeholders(
    bytes: Seq<u8>,
    big: bool,
    pos: int,
    entries: Seq<EntryView>,
) -> EntriesRead
    decreases bytes.len() - pos,
{
    match header_at(bytes, big, pos) {
        None => Err(TagReadError::UnexpectedEnd),
        Some(h) => if h.signature != TGST {
            Err(
                TagReadError::BadChunkSignature {
                    offset: pos as u64,
                    expected: TGST,
                    got: h.signature,
                },
            )
        } else if h.size != 0 {
            Ok((entries, pos))
        } else if h.version != 0 {
            Err(
                TagReadError::BadChunkVersion {
                    chunk: ChunkName::PlaceholderStruct,
                    version: h.version,
                },
            )
        } else {
            skip_placeholders(bytes, big, pos + 12, entries.push(placeholder()))
        },
    }
}

/// The empty struct chunks at the end of a struct, which begins at `start` and has
/// to end at `expected`.
pub open spec fn absorb_placeholders(
    bytes: Seq<u8>,
    big: bool,
    start: int,
    expected: int,
    pos: int,
    entries: Seq<EntryView>,
) -> EntriesRead
    decreases bytes.len() - pos,
{
    if pos == expected {
        Ok((entries, pos))
    } else {
        match header_at(bytes, big, pos) {
            None => Err(TagReadError::UnexpectedEnd),
            Some(h) => if h.signature != TGST || h.size != 0 {
                Err(
                    TagReadError::ChunkSizeMismatch {
                        chunk: ChunkName::Struct,
                        started_at: start as u64,
                        ended_at: pos as u64,
                        expected_end: expected as u64,
                    },
                )
            } else if h.version != 0 {
                Err(
                    TagReadError::BadChunkVersion {
                        chunk: ChunkName::TrailingStruct,
                        version: h.version,
                    },
                )
            } else {
                absorb_placeholders(
                    bytes,
                    big,
                    start,
                    expected,
                    pos + 12,
                    entries.push(placeholder()),
                )
            },
        }
    }
}

/// The struct of definition `index` that begins at `pos`.
pub open spec fn read_struct(
    layout: LayoutView,
    bytes: Seq<u8>,
    big: bool,
    index: u32,
    pos: int,
) -> StructRead
    decreases bytes.len() - pos, 0nat, 3nat, 0nat,
{
    match header_at(bytes, big, pos) {
        None => Err(TagReadError::UnexpectedEnd),
        Some(h) => if h.signature != TGST {
            Err(
                TagReadError::BadChunkSignature {
                    offset: pos as u64,
                    expected: TGST,
                    got: h.signature,
                },
            )
        } else if h.version != h.size {
            Err(
                TagReadError::ChunkSizeMismatch {
                    chunk: ChunkName::Struct,
                    started_at: (pos + 12) as u64,
                    ended_at: (pos + 12 + h.version) as u64,
                    expected_end: (pos + 12 + h.size) as u64,
                },
            )
        } else if h.size == 0 {
            Ok((fresh_data(layout, layout.structs[index as int].index, big), pos + 12))
        } else {
            let s = layout.structs[index as int];
            let first = s.first_field_index as int;
            match read_entries(
                layout,
                bytes,
                big,
                first,
                (layout.run_end(first) - first) as nat,
                pos + 12,
                Seq::empty(),
                layout.structs.len(),
            ) {
                Err(e) => Err(e),
                Ok((entries, end)) => match absorb_placeholders(
                    bytes,
                    big,
                    pos + 12,
                    pos + 12 + h.size,
                    end,
                    entries,
                ) {
                    Err(e) => Err(e),
                    Ok((all, last)) => Ok(
                        (
                            StructDataView { struct_index: s.index, header: None, entries: all },
                            last,
                        ),
                    ),
                },
            }
        },
    }
}

/// The chunks of the `n` fields from `field` on, behind those in `entries`.
pub open spec fn read_entries(
    layout: LayoutView,
    bytes: Seq<u8>,
    big: bool,
    field: int,
    n: nat,
    pos: int,
    entries: Seq<EntryView>,
    depth: nat,
) -> EntriesRead
    decreases bytes.len() - pos, depth, 5nat, n,
{
    if n == 0 || pos > bytes.len() {
        Ok((entries, pos))
    } else {
        match read_field(layout, bytes, big, field, pos, entries, depth) {
            Err(e) => Err(e),
            Ok((more, end)) => if pos <= end <= bytes.len() {
                read_entries(layout, bytes, big, field + 1, (n - 1) as nat, end, more, depth)
            } else {
                Err(TagReadError::UnexpectedEnd)
            },
        }
    }
}

/// A chunk that holds bytes alone.
pub open spec fn with_chunk(
    entries: Seq<EntryView>,
    field: int,
    chunk: ChunkView,
) -> Seq<EntryView> {
    entries.push(EntryView { field: Some(field as u32), content: chunk })
}

/// The chunk of the field `field`, behind those in `entries`; a field without one
/// adds none.
pub open spec fn read_field(
    layout: LayoutView,
    bytes: Seq<u8>,
    big: bool,
    field: int,
    pos: int,
    entries: Seq<EntryView>,
    depth: nat,
) -> EntriesRead
    decreases bytes.len() - pos, depth, 4nat, 0nat,
{
    let f = layout.fields[field];
    match f.field_type {
        TagFieldType::Struct => match if expects_chunks(layout, f.definition) {
            skip_placeholders(bytes, big, pos, entries)
        } else {
            Ok((entries, pos))
        } {
            Err(e) => Err(e),
            Ok((more, at)) => if pos <= at <= bytes.len() {
                match read_struct(layout, bytes, big, f.definition, at) {
                    Err(e) => Err(e),
                    Ok((s, end)) => Ok((with_chunk(more, field, ChunkView::Struct(s)), end)),
                }
            } else {
                Err(TagReadError::UnexpectedEnd)
            },
        },
        TagFieldType::Array => if depth == 0 {
            Err(TagReadError::NestingTooDeep)
        } else {
            let array = layout.arrays[f.definition as int];
            match read_items(
                layout,
                bytes,
                big,
                array.struct_index,
                array.count as nat,
                pos,
                Seq::empty(),
                (depth - 1) as nat,
            ) {
                Err(e) => Err(e),
                Ok((items, end)) => Ok((with_chunk(entries, field, ChunkView::Array(items)), end)),
            }
        },
        TagFieldType::Block => match read_block(layout, bytes, big, f.definition, pos) {
            Err(e) => Err(e),
            Ok((b, end)) => Ok((with_chunk(entries, field, ChunkView::Block(b)), end)),
        },
        TagFieldType::PageableResource => match read_resource(
            layout,
            bytes,
            big,
            layout.resources[f.definition as int].struct_index,
            pos,
        ) {
            Err(e) => Err(e),
            Ok((r, end)) => Ok((with_chunk(entries, field, ChunkView::Resource(r)), end)),
        },
        _ => read_leaf(layout, bytes, big, field, pos, entries),
    }
}

/// The chunk of a field that holds bytes alone.
pub open spec fn read_leaf(
    layout: LayoutView,
    bytes: Seq<u8>,
    big: bool,
    field: int,
    pos: int,
    entries: Seq<EntryView>,
) -> EntriesRead {
    let f = layout.fields[field];
    match f.field_type {
        TagFieldType::TagReference => match plain_content_at(
            bytes,
            big,
            TGRF,
            ChunkName::TagReference,
            pos,
        ) {
            Err(e) => Err(e),
            Ok((content, end)) => Ok(
                (with_chunk(entries, field, ChunkView::TagReference(content)), end),
            ),
        },
        TagFieldType::StringId => match plain_content_at(
            bytes,
            big,
            TGSI,
            ChunkName::StringId,
            pos,
        ) {
            Err(e) => Err(e),
            Ok((content, end)) => Ok(
                (with_chunk(entries, field, ChunkView::StringId(content)), end),
            ),
        },
        TagFieldType::OldStringId => match plain_content_at(
            bytes,
            big,
            TGSI,
            ChunkName::OldStringId,
            pos,
        ) {
            Err(e) => Err(e),
            Ok((content, end)) => Ok(
                (with_chunk(entries, field, ChunkView::OldStringId(content)), end),
            ),
        },
        TagFieldType::Data => match plain_content_at(bytes, big, TGDA, ChunkName::Data, pos) {
            Err(e) => Err(e),
            Ok((content, end)) => Ok((with_chunk(entries, field, ChunkView::Data(content)), end)),
        },
        TagFieldType::ApiInterop => match plain_content_at(
            bytes,
            big,
            INTEROP,
            ChunkName::ApiInterop,
            pos,
        ) {
            Err(e) => Err(e),
            Ok((content, end)) => Ok(
                (with_chunk(entries, field, ChunkView::ApiInterop(content)), end),
            ),
        },
        _ => if layout.field_types[f.type_index as int].needs_sub_chunk {
            Err(TagReadError::UnsupportedFieldType { type_index: f.type_index })
        } else {
            Ok((entries, pos))
        },
    }
}

/// `n` elements of an array, behind those in `items`. They have no header of
/// their own.
pub open spec fn read_items(
    layout: LayoutView,
    bytes: Seq<u8>,
    big: bool,
    index: u32,
    n: nat,
    pos: int,
    items: Seq<StructDataView>,
    depth: nat,
) -> StructsRead
    decreases bytes.len() - pos, depth, 6nat, n,
{
    if n == 0 || pos > bytes.len() {
        Ok((items, pos))
    } else {
        let s = layout.structs[index as int];
        let first = s.first_field_index as int;
        match read_entries(
            layout,
            bytes,
            big,
            first,
            (layout.run_end(first) - first) as nat,
            pos,
            Seq::empty(),
            depth,
        ) {
            Err(e) => Err(e),
            Ok((entries, end)) => if pos <= end <= bytes.len() {
                read_items(
                    layout,
                    bytes,
                    big,
                    index,
                    (n - 1) as nat,
                    end,
                    items.push(
                        StructDataView { struct_index: s.index, header: None, entries },
                    ),
                    depth,
                )
            } else {
                Err(TagReadError::UnexpectedEnd)
            },
        }
    }
}

/// `n` structs, behind those in `items`.
pub open spec fn read_structs(
    layout: LayoutView,
    bytes: Seq<u8>,
    big: bool,
    index: u32,
    n: nat,
    pos: int,
    items: Seq<StructDataView>,
) -> StructsRead
    decreases bytes.len() - pos, 0nat, 6nat, n,
{
    if n == 0 || pos > bytes.len() {
        Ok((items, pos))
    } else {
        match read_struct(layout, bytes, big, index, pos) {
            Err(e) => Err(e),
            Ok((s, end)) => if pos <= end <= bytes.len() {
                read_structs(layout, bytes, big, index, (n - 1) as nat, end, items.push(s))
            } else {
                Err(TagReadError::UnexpectedEnd)
            },
        }
    }
}

/// `n` fresh structs.
pub open spec fn fresh_structs(layout: LayoutView, index: u32, big: bool, n: nat) -> Seq<
    StructDataView,
> {
    Seq::new(n, |i: int| fresh_data(layout, layout.structs[index as int].index, big))
}

/// The block of definition `definition` that begins at `pos`.
pub open spec fn read_block(
    layout: LayoutView,
    bytes: Seq<u8>,
    big: bool,
    definition: u32,
    pos: int,
) -> Result<(BlockDataView, int), TagReadError>
    decreases bytes.len() - pos, 0nat, 3nat, 0nat,
{
    match validated_header_at(bytes, big, TGBL, ChunkName::Block, pos) {
        Err(e) => Err(e),
        Ok(size) => if pos + 20 > bytes.len() {
            Err(TagReadError::UnexpectedEnd)
        } else {
            let count = word_at(bytes, big, pos + 12);
            let flags = word_at(bytes, big, pos + 16);
            let block = layout.blocks[definition as int];
            let raw_len = layout.structs[block.struct_index as int].size * count;
            let body = pos + 20 + raw_len;
            if body < pos + 20 || body > bytes.len() {
                Err(TagReadError::UnexpectedEnd)
            } else {
                match if flags % 2 == 0 {
                    read_structs(
                        layout,
                        bytes,
                        big,
                        block.struct_index,
                        count as nat,
                        body,
                        Seq::empty(),
                    )
                } else {
                    Ok((fresh_structs(layout, block.struct_index, big, count as nat), body))
                } {
                    Err(e) => Err(e),
                    Ok((elements, end)) => match end_fault(
                        ChunkName::Block,
                        pos + 12,
                        size,
                        end,
                    ) {
                        Some(e) => Err(e),
                        None => Ok(
                            (
                                BlockDataView {
                                    block_index: block.index,
                                    flags,
                                    raw: bytes.subrange(pos + 20, body),
                                    big_endian: big,
                                    elements,
                                    header: None,
                                    dirty: false,
                                    trailing: None,
                                },
                                end,
                            ),
                        ),
                    },
                }
            }
        },
    }
}

/// The payload and the struct of an exploded resource, its content from `pos` on.
pub open spec fn read_exploded(
    layout: LayoutView,
    bytes: Seq<u8>,
    big: bool,
    index: u32,
    pos: int,
) -> Result<(ResourceChunkView, int), TagReadError>
    decreases bytes.len() - pos, 0nat, 4nat, 0nat,
{
    match validated_header_at(bytes, big, TGDT, ChunkName::ExplodedData, pos) {
        Err(e) => Err(e),
        Ok(size) => if pos + 12 + size > bytes.len() {
            Err(TagReadError::UnexpectedEnd)
        } else {
            match read_struct(layout, bytes, big, index, pos + 12 + size) {
                Err(e) => Err(e),
                Ok((data, end)) => Ok(
                    (
                        ResourceChunkView::Exploded {
                            exploded: bytes.subrange(pos + 12, pos + 12 + size),
                            data,
                            state: None,
                        },
                        end,
                    ),
                ),
            }
        },
    }
}

/// The resource that begins at `pos`; its own struct is of definition `index`.
pub open spec fn read_resource(
    layout: LayoutView,
    bytes: Seq<u8>,
    big: bool,
    index: u32,
    pos: int,
) -> Result<(ResourceChunkView, int), TagReadError>
    decreases bytes.len() - pos, 0nat, 3nat, 0nat,
{
    match header_at(bytes, big, pos) {
        None => Err(TagReadError::UnexpectedEnd),
        Some(h) => match if h.signature == TG0C {
            if h.version != 0 {
                Err(
                    TagReadError::BadChunkVersion {
                        chunk: ChunkName::NullResource,
                        version: h.version,
                    },
                )
            } else {
                Ok((ResourceChunkView::Null, pos + 12))
            }
        } else if h.signature == TGRC {
            if h.version != 0 {
                Err(
                    TagReadError::BadChunkVersion {
                        chunk: ChunkName::ExplodedResource,
                        version: h.version,
                    },
                )
            } else {
                read_exploded(layout, bytes, big, index, pos + 12)
            }
        } else if h.signature == TGXC {
            if pos + 12 + h.size > bytes.len() {
                Err(TagReadError::UnexpectedEnd)
            } else {
                Ok(
                    (
                        ResourceChunkView::Xsync {
                            version: h.version,
                            payload: bytes.subrange(pos + 12, pos + 12 + h.size),
                        },
                        pos + 12 + h.size,
                    ),
                )
            }
        } else {
            Err(TagReadError::UnknownSubChunkSignature { signature: h.signature })
        } {
            Err(e) => Err(e),
            Ok((r, end)) => match end_fault(ChunkName::PageableResource, pos + 12, h.size, end) {
                Some(e) => Err(e),
                None => Ok((r, end)),
            },
        },
    }
}

// ---------------------------------------------------------------------------
// Reading
// ---------------------------------------------------------------------------
/// A layout that a tag can be read with: every index leads somewhere, and structs
/// and blocks are numbered by their places.
pub open spec fn readable(layout: LayoutView) -> bool {
    &&& layout.wf()
    &&& numbered_structs(layout)
    &&& layout.structs.len() <= u32::MAX
}

/// What a step that adds to `entries` has read.
pub open spec fn entries_outcome(r: Result<usize, TagReadError>, entries: Seq<EntryView>) -> EntriesRead {
    match r {
        Ok(end) => Ok((entries, end as int)),
        Err(e) => Err(e),
    }
}

/// Whether a step that began at `pos` has stayed inside the bytes.
pub open spec fn inside(r: Result<usize, TagReadError>, pos: int, len: nat) -> bool {
    match r {
        Ok(end) => pos <= end <= len,
        Err(_) => true,
    }
}

fn placeholder_entry() -> (r: TagSubChunkEntry)
    ensures
        r@ == placeholder(),
{
    TagSubChunkEntry { field_index: None, content: TagSubChunkContent::EmptyPlaceholder }
}

fn push_chunk(entries: &mut Vec<TagSubChunkEntry>, field: usize, content: TagSubChunkContent)
    ensures
        entry_views(final(entries)@) == with_chunk(entry_views(old(entries)@), field as int, content@),
{
    let entry: TagSubChunkEntry = TagSubChunkEntry {
        field_index: Some(truncated(field)),
        content,
    };
    proof {
        lemma_entry_push(entries@, entry);
    }
    entries.push(entry);
}

fn holds_chunk_fields(layout: &TagLayout, index: u32) -> (r: bool)
    requires
        layout@.wf(),
        index < layout@.structs.len(),
    ensures
        r == expects_chunks(layout@, index),
{
    let first: usize = layout.struct_layouts[index as usize].first_field_index as usize;
    assert(first == layout@.structs[index as int].first_field_index);
    let end: usize = layout.end_of_run(first);
    let mut i: usize = first;
    while i < end
        invariant
            first <= i <= end,
            first == layout@.structs[index as int].first_field_index,
            end == layout@.run_end(first as int),
            end > first ==> end <= layout.fields.len(),
            layout@.wf(),
            forall|j: int|
                first <= j < i ==> !layout@.field_types[(
                #[trigger] layout@.fields[j]).type_index as int].needs_sub_chunk,
        decreases end - i,
    {
        let field: TagFieldLayout = layout.fields[i];
        assert(field == layout@.fields[i as int]);
        if layout.field_types[field.type_index as usize].needs_sub_chunk {
            return true;
        }
        i = i + 1;
    }
    false
}

fn read_placeholders(
    bytes: &Vec<u8>,
    big: bool,
    start: usize,
    entries: &mut Vec<TagSubChunkEntry>,
) -> (r: Result<usize, TagReadError>)
    requires
        start <= bytes@.len(),
    ensures
        inside(r, start as int, bytes@.len()),
        entries_outcome(r, entry_views(final(entries)@)) == skip_placeholders(
            bytes@,
            big,
            start as int,
            entry_views(old(entries)@),
        ),
{
    let ghost before = entry_views(entries@);
    let total: usize = bytes.len();
    let mut pos: usize = start;
    loop
        invariant
            start <= pos <= bytes@.len(),
            total == bytes@.len(),
            before == entry_views(old(entries)@),
            skip_placeholders(bytes@, big, start as int, before) == skip_placeholders(
                bytes@,
                big,
                pos as int,
                entry_views(entries@),
            ),
        decreases bytes@.len() - pos,
    {
        match read_chunk_header(bytes, big, pos) {
            None => {
                return Err(TagReadError::UnexpectedEnd);
            },
            Some(h) => {
                if h.signature != TGST {
                    return Err(
                        TagReadError::BadChunkSignature {
                            offset: pos as u64,
                            expected: TGST,
                            got: h.signature,
                        },
                    );
                }
                if h.size != 0 {
                    return Ok(pos);
                }
                if h.version != 0 {
                    return Err(
                        TagReadError::BadChunkVersion {
                            chunk: ChunkName::PlaceholderStruct,
                            version: h.version,
                        },
                    );
                }
                let entry: TagSubChunkEntry = placeholder_entry();
                proof {
                    lemma_entry_push(entries@, entry);
                }
                entries.push(entry);
                pos = pos + 12;
            },
        }
    }
}

fn read_trailing(
    bytes: &Vec<u8>,
    big: bool,
    content: usize,
    size: u32,
    start: usize,
    entries: &mut Vec<TagSubChunkEntry>,
) -> (r: Result<usize, TagReadError>)
    requires
        start <= bytes@.len(),
        content <= bytes@.len(),
        in_memory(bytes@),
    ensures
        inside(r, start as int, bytes@.len()),
        entries_outcome(r, entry_views(final(entries)@)) == absorb_placeholders(
            bytes@,
            big,
            content as int,
            content + size,
            start as int,
            entry_views(old(entries)@),
        ),
{
    let ghost before = entry_views(entries@);
    let total: usize = bytes.len();
    let expected: u64 = content as u64 + size as u64;
    let mut pos: usize = start;
    loop
        invariant
            start <= pos <= bytes@.len(),
            total == bytes@.len(),
            before == entry_views(old(entries)@),
            expected == content + size,
            in_memory(bytes@),
            absorb_placeholders(
                bytes@,
                big,
                content as int,
                content + size,
                start as int,
                before,
            ) == absorb_placeholders(
                bytes@,
                big,
                content as int,
                content + size,
                pos as int,
                entry_views(entries@),
            ),
        decreases bytes@.len() - pos,
    {
        if pos as u64 == expected {
            return Ok(pos);
        }
        match read_chunk_header(bytes, big, pos) {
            None => {
                return Err(TagReadError::UnexpectedEnd);
            },
            Some(h) => {
                if h.signature != TGST || h.size != 0 {
                    return Err(
                        TagReadError::ChunkSizeMismatch {
                            chunk: ChunkName::Struct,
                            started_at: content as u64,
                            ended_at: pos as u64,
                            expected_end: expected,
                        },
                    );
                }
                if h.version != 0 {
                    return Err(
                        TagReadError::BadChunkVersion {
                            chunk: ChunkName::TrailingStruct,
                            version: h.version,
                        },
                    );
                }
                let entry: TagSubChunkEntry = placeholder_entry();
                proof {
                    lemma_entry_push(entries@, entry);
                }
                entries.push(entry);
                pos = pos + 12;
            },
        }
    }
}

fn read_leaf_of(
    layout: &TagLayout,
    bytes: &Vec<u8>,
    big: bool,
    field: usize,
    pos: usize,
    entries: &mut Vec<TagSubChunkEntry>,
) -> (r: Result<usize, TagReadError>)
    requires
        layout@.wf(),
        field < layout@.fields.len(),
        pos <= bytes@.len(),
        in_memory(bytes@),
    ensures
        inside(r, pos as int, bytes@.len()),
        entries_outcome(r, entry_views(final(entries)@)) == read_leaf(
            layout@,
            bytes@,
            big,
            field as int,
            pos as int,
            entry_views(old(entries)@),
        ),
{
    let f: TagFieldLayout = layout.fields[field];
    assert(f == layout@.fields[field as int]);
    match f.field_type {
        TagFieldType::TagReference => match read_plain_content(
            bytes,
            big,
            TGRF,
            ChunkName::TagReference,
            pos,
        ) {
            Err(e) => Err(e),
            Ok((content, end)) => {
                push_chunk(entries, field, TagSubChunkContent::TagReference(content));
                Ok(end)
            },
        },
        TagFieldType::StringId => match read_plain_content(
            bytes,
            big,
            TGSI,
            ChunkName::StringId,
            pos,
        ) {
            Err(e) => Err(e),
            Ok((content, end)) => {
                push_chunk(entries, field, TagSubChunkContent::StringId(content));
                Ok(end)
            },
        },
        TagFieldType::OldStringId => match read_plain_content(
            bytes,
            big,
            TGSI,
            ChunkName::OldStringId,
            pos,
        ) {
            Err(e) => Err(e),
            Ok((content, end)) => {
                push_chunk(entries, field, TagSubChunkContent::OldStringId(content));
                Ok(end)
            },
        },
        TagFieldType::Data => match read_plain_content(bytes, big, TGDA, ChunkName::Data, pos) {
            Err(e) => Err(e),
            Ok((content, end)) => {
                push_chunk(entries, field, TagSubChunkContent::Data(content));
                Ok(end)
            },
        },
        TagFieldType::ApiInterop => match read_plain_content(
            bytes,
            big,
            INTEROP,
            ChunkName::ApiInterop,
            pos,
        ) {
            Err(e) => Err(e),
            Ok((content, end)) => {
                push_chunk(entries, field, TagSubChunkContent::ApiInterop(content));
                Ok(end)
            },
        },
        _ => if layout.field_types[f.type_index as usize].needs_sub_chunk {
            Err(TagReadError::UnsupportedFieldType { type_index: f.type_index })
        } else {
            Ok(pos)
        },
    }
}

/// What reading a struct has given.
pub open spec fn struct_outcome(r: Result<(TagStructData, usize), TagReadError>) -> StructRead {
    match r {
        Ok((s, end)) => Ok((s@, end as int)),
        Err(e) => Err(e),
    }
}

/// What reading a list of structs has given.
pub open spec fn structs_outcome(r: Result<(Vec<TagStructData>, usize), TagReadError>) -> StructsRead {
    match r {
        Ok((list, end)) => Ok((struct_data_views(list@), end as int)),
        Err(e) => Err(e),
    }
}

/// What reading a block has given.
pub open spec fn block_outcome(r: Result<(TagBlockData, usize), TagReadError>) -> Result<
    (BlockDataView, int),
    TagReadError,
> {
    match r {
        Ok((b, end)) => Ok((b@, end as int)),
        Err(e) => Err(e),
    }
}

/// What reading a resource has given.
pub open spec fn resource_outcome(r: Result<(TagResourceChunk, usize), TagReadError>) -> Result<
    (ResourceChunkView, int),
    TagReadError,
> {
    match r {
        Ok((c, end)) => Ok((c@, end as int)),
        Err(e) => Err(e),
    }
}

/// Whether reading has stayed inside the bytes.
pub open spec fn ends_inside<T>(r: Result<(T, usize), TagReadError>, pos: int, len: nat) -> bool {
    match r {
        Ok((_, end)) => pos <= end <= len,
        Err(_) => true,
    }
}

impl TagStructData {
    /// Reads the struct of definition `index` that begins at `pos`.
    pub fn read(layout: &TagLayout, index: u32, bytes: &Vec<u8>, big: bool, pos: usize) -> (r: Result<
        (TagStructData, usize),
        TagReadError,
    >)
        requires
            readable(layout@),
            index < layout@.structs.len(),
            pos <= bytes@.len(),
            in_memory(bytes@),
        ensures
            ends_inside(r, pos as int, bytes@.len()),
            struct_outcome(r) == read_struct(layout@, bytes@, big, index, pos as int),
        decreases bytes@.len() - pos, 0nat, 3nat, 0nat,
    {
        match read_chunk_header(bytes, big, pos) {
            None => Err(TagReadError::UnexpectedEnd),
            Some(h) => {
                let total: usize = bytes.len();
                let content: usize = pos + 12;
                if h.signature != TGST {
                    return Err(
                        TagReadError::BadChunkSignature {
                            offset: pos as u64,
                            expected: TGST,
                            got: h.signature,
                        },
                    );
                }
                if h.version != h.size {
                    return Err(
                        TagReadError::ChunkSizeMismatch {
                            chunk: ChunkName::Struct,
                            started_at: content as u64,
                            ended_at: content as u64 + h.version as u64,
                            expected_end: content as u64 + h.size as u64,
                        },
                    );
                }
                let s: TagStructLayout = layout.struct_layouts[index as usize];
                assert(s == layout@.structs[index as int]);
                if h.size == 0 {
                    return Ok(
                        (TagStructData::new_default(layout, s.index as usize, big), content),
                    );
                }
                let mut entries: Vec<TagSubChunkEntry> = no_entries();
                match read_sub_chunks(
                    layout,
                    index,
                    bytes,
                    big,
                    content,
                    &mut entries,
                    layout.struct_layouts.len(),
                ) {
                    Err(e) => Err(e),
                    Ok(end) => match read_trailing(
                        bytes,
                        big,
                        content,
                        h.size,
                        end,
                        &mut entries,
                    ) {
                        Err(e) => Err(e),
                        Ok(last) => Ok(
                            (
                                TagStructData {
                                    struct_index: s.index,
                                    classic_struct_header: None,
                                    sub_chunks: entries,
                                },
                                last,
                            ),
                        ),
                    },
                }
            },
        }
    }
}

/// Reads the chunks of the fields of definition `index`, one after another.
pub fn read_sub_chunks(
    layout: &TagLayout,
    index: u32,
    bytes: &Vec<u8>,
    big: bool,
    start: usize,
    entries: &mut Vec<TagSubChunkEntry>,
    depth: usize,
) -> (r: Result<usize, TagReadError>)
    requires
        readable(layout@),
        index < layout@.structs.len(),
        start <= bytes@.len(),
        in_memory(bytes@),
    ensures
        inside(r, start as int, bytes@.len()),
        ({
            let first = layout@.structs[index as int].first_field_index as int;
            entries_outcome(r, entry_views(final(entries)@)) == read_entries(
                layout@,
                bytes@,
                big,
                first,
                (layout@.run_end(first) - first) as nat,
                start as int,
                entry_views(old(entries)@),
                depth as nat,
            )
        }),
    decreases bytes@.len() - start, depth, 5nat, 0nat,
{
    let first: usize = layout.struct_layouts[index as usize].first_field_index as usize;
    assert(first == layout@.structs[index as int].first_field_index);
    let end: usize = layout.end_of_run(first);
    let ghost before = entry_views(entries@);
    let mut pos: usize = start;
    let mut i: usize = first;
    while i < end
        invariant
            first <= i <= end,
            first == layout@.structs[index as int].first_field_index,
            end == layout@.run_end(first as int),
            end > first ==> end <= layout@.fields.len(),
            readable(layout@),
            in_memory(bytes@),
            start <= pos <= bytes@.len(),
            before == entry_views(old(entries)@),
            read_entries(
                layout@,
                bytes@,
                big,
                first as int,
                (end - first) as nat,
                start as int,
                before,
                depth as nat,
            ) == read_entries(
                layout@,
                bytes@,
                big,
                i as int,
                (end - i) as nat,
                pos as int,
                entry_views(entries@),
                depth as nat,
            ),
        decreases end - i,
    {
        match read_field_of(layout, bytes, big, i, pos, entries, depth) {
            Err(e) => {
                return Err(e);
            },
            Ok(next) => {
                pos = next;
            },
        }
        i = i + 1;
    }
    Ok(pos)
}

fn read_field_of(
    layout: &TagLayout,
    bytes: &Vec<u8>,
    big: bool,
    field: usize,
    pos: usize,
    entries: &mut Vec<TagSubChunkEntry>,
    depth: usize,
) -> (r: Result<usize, TagReadError>)
    requires
        readable(layout@),
        field < layout@.fields.len(),
        pos <= bytes@.len(),
        in_memory(bytes@),
    ensures
        inside(r, pos as int, bytes@.len()),
        entries_outcome(r, entry_views(final(entries)@)) == read_field(
            layout@,
            bytes@,
            big,
            field as int,
            pos as int,
            entry_views(old(entries)@),
            depth as nat,
        ),
    decreases bytes@.len() - pos, depth, 4nat, 0nat,
{
    let f: TagFieldLayout = layout.fields[field];
    assert(f == layout@.fields[field as int]);
    match f.field_type {
        TagFieldType::Struct => {
            let mut at: usize = pos;
            if holds_chunk_fields(layout, f.definition) {
                match read_placeholders(bytes, big, pos, entries) {
                    Err(e) => {
                        return Err(e);
                    },
                    Ok(next) => {
                        at = next;
                    },
                }
            }
            match TagStructData::read(layout, f.definition, bytes, big, at) {
                Err(e) => Err(e),
                Ok((s, end)) => {
                    push_chunk(entries, field, TagSubChunkContent::Struct(s));
                    Ok(end)
                },
            }
        },
        TagFieldType::Array => {
            if depth == 0 {
                return Err(TagReadError::NestingTooDeep);
            }
            let array: TagArrayLayout = layout.array_layouts[f.definition as usize];
            assert(array == layout@.arrays[f.definition as int]);
            match read_array(layout, array.struct_index, array.count, bytes, big, pos, depth - 1) {
                Err(e) => Err(e),
                Ok((items, end)) => {
                    push_chunk(entries, field, TagSubChunkContent::Array(items));
                    Ok(end)
                },
            }
        },
        TagFieldType::Block => match TagBlockData::read(layout, f.definition, bytes, big, pos) {
            Err(e) => Err(e),
            Ok((b, end)) => {
                push_chunk(entries, field, TagSubChunkContent::Block(b));
                Ok(end)
            },
        },
        TagFieldType::PageableResource => {
            let resource: TagResourceLayout = layout.resource_layouts[f.definition as usize];
            assert(resource == layout@.resources[f.definition as int]);
            match read_resource_of(layout, resource.struct_index, bytes, big, pos) {
                Err(e) => Err(e),
                Ok((c, end)) => {
                    push_chunk(entries, field, TagSubChunkContent::Resource(c));
                    Ok(end)
                },
            }
        },
        _ => read_leaf_of(layout, bytes, big, field, pos, entries),
    }
}

fn read_array(
    layout: &TagLayout,
    index: u32,
    count: u32,
    bytes: &Vec<u8>,
    big: bool,
    start: usize,
    depth: usize,
) -> (r: Result<(Vec<TagStructData>, usize), TagReadError>)
    requires
        readable(layout@),
        index < layout@.structs.len(),
        start <= bytes@.len(),
        in_memory(bytes@),
    ensures
        ends_inside(r, start as int, bytes@.len()),
        structs_outcome(r) == read_items(
            layout@,
            bytes@,
            big,
            index,
            count as nat,
            start as int,
            Seq::empty(),
            depth as nat,
        ),
    decreases bytes@.len() - start, depth, 6nat, 0nat,
{
    let s: TagStructLayout = layout.struct_layouts[index as usize];
    assert(s == layout@.structs[index as int]);
    let mut items: Vec<TagStructData> = no_struct_data();
    let mut pos: usize = start;
    let mut i: u32 = 0;
    while i < count
        invariant
            i <= count,
            readable(layout@),
            index < layout@.structs.len(),
            s == layout@.structs[index as int],
            in_memory(bytes@),
            start <= pos <= bytes@.len(),
            read_items(
                layout@,
                bytes@,
                big,
                index,
                count as nat,
                start as int,
                Seq::empty(),
                depth as nat,
            ) == read_items(
                layout@,
                bytes@,
                big,
                index,
                (count - i) as nat,
                pos as int,
                struct_data_views(items@),
                depth as nat,
            ),
        decreases count - i,
    {
        let mut entries: Vec<TagSubChunkEntry> = no_entries();
        match read_sub_chunks(layout, index, bytes, big, pos, &mut entries, depth) {
            Err(e) => {
                return Err(e);
            },
            Ok(next) => {
                let item: TagStructData = TagStructData {
                    struct_index: s.index,
                    classic_struct_header: None,
                    sub_chunks: entries,
                };
                proof {
                    lemma_struct_data_push(items@, item);
                }
                items.push(item);
                pos = next;
            },
        }
        i = i + 1;
    }
    Ok((items, pos))
}

fn read_struct_list(
    layout: &TagLayout,
    index: u32,
    count: u32,
    bytes: &Vec<u8>,
    big: bool,
    start: usize,
) -> (r: Result<(Vec<TagStructData>, usize), TagReadError>)
    requires
        readable(layout@),
        index < layout@.structs.len(),
        start <= bytes@.len(),
        in_memory(bytes@),
    ensures
        ends_inside(r, start as int, bytes@.len()),
        structs_outcome(r) == read_structs(
            layout@,
            bytes@,
            big,
            index,
            count as nat,
            start as int,
            Seq::empty(),
        ),
    decreases bytes@.len() - start, 0nat, 6nat, 0nat,
{
    let mut items: Vec<TagStructData> = no_struct_data();
    let mut pos: usize = start;
    let mut i: u32 = 0;
    while i < count
        invariant
            i <= count,
            readable(layout@),
            index < layout@.structs.len(),
            in_memory(bytes@),
            start <= pos <= bytes@.len(),
            read_structs(
                layout@,
                bytes@,
                big,
                index,
                count as nat,
                start as int,
                Seq::empty(),
            ) == read_structs(
                layout@,
                bytes@,
                big,
                index,
                (count - i) as nat,
                pos as int,
                struct_data_views(items@),
            ),
        decreases count - i,
    {
        match TagStructData::read(layout, index, bytes, big, pos) {
            Err(e) => {
                return Err(e);
            },
            Ok((item, next)) => {
                proof {
                    lemma_struct_data_push(items@, item);
                }
                items.push(item);
                pos = next;
            },
        }
        i = i + 1;
    }
    Ok((items, pos))
}

fn fresh_struct_list(layout: &TagLayout, index: u32, count: u32, big: bool) -> (r: Vec<TagStructData>)
    requires
        readable(layout@),
        index < layout@.structs.len(),
    ensures
        struct_data_views(r@) == fresh_structs(layout@, index, big, count as nat),
{
    let mut items: Vec<TagStructData> = no_struct_data();
    let place: usize = layout.struct_layouts[index as usize].index as usize;
    assert(place == layout@.structs[index as int].index);
    let mut i: u32 = 0;
    assert(struct_data_views(items@) =~= fresh_structs(layout@, index, big, 0));
    while i < count
        invariant
            i <= count,
            readable(layout@),
            index < layout@.structs.len(),
            place == layout@.structs[index as int].index,
            struct_data_views(items@) == fresh_structs(layout@, index, big, i as nat),
        decreases count - i,
    {
        let item: TagStructData = TagStructData::new_default(layout, place, big);
        proof {
            lemma_struct_data_push(items@, item);
        }
        items.push(item);
        i = i + 1;
        assert(struct_data_views(items@) =~= fresh_structs(layout@, index, big, i as nat));
    }
    items
}

/// The bytes of `count` elements of the size `size`, where there are as many
/// behind `pos`.
fn end_of_elements(size: usize, count: u32, pos: usize, total: usize) -> (r: Option<usize>)
    requires
        pos <= total,
    ensures
        match r {
            Some(end) => end == pos + size * count && end <= total,
            None => pos + size * count > total,
        },
{
    proof {
        assert(size * count >= 0) by (nonlinear_arith)
            requires
                size >= 0,
                count >= 0,
        ;
    }
    match size.checked_mul(count as usize) {
        None => None,
        Some(len) => if len > total - pos {
            None
        } else {
            Some(pos + len)
        },
    }
}

impl TagBlockData {
    /// Reads the block of definition `definition` that begins at `pos`.
    pub fn read(
        layout: &TagLayout,
        definition: u32,
        bytes: &Vec<u8>,
        big: bool,
        pos: usize,
    ) -> (r: Result<(TagBlockData, usize), TagReadError>)
        requires
            readable(layout@),
            definition < layout@.blocks.len(),
            pos <= bytes@.len(),
            in_memory(bytes@),
        ensures
            ends_inside(r, pos as int, bytes@.len()),
            block_outcome(r) == read_block(layout@, bytes@, big, definition, pos as int),
        decreases bytes@.len() - pos, 0nat, 3nat, 0nat,
    {
        let size: u32 = match read_validated_chunk_header(bytes, big, TGBL, ChunkName::Block, pos) {
            Err(e) => {
                return Err(e);
            },
            Ok(size) => size,
        };
        let total: usize = bytes.len();
        if total - pos < 20 {
            return Err(TagReadError::UnexpectedEnd);
        }
        let count: u32 = word_of(bytes, big, pos + 12);
        let flags: u32 = word_of(bytes, big, pos + 16);
        let block: TagBlockLayout = layout.block_layouts[definition as usize];
        assert(block == layout@.blocks[definition as int]);
        let width: usize = layout.struct_layouts[block.struct_index as usize].size;
        assert(width == layout@.structs[block.struct_index as int].size);
        let body: usize = match end_of_elements(width, count, pos + 20, total) {
            None => {
                return Err(TagReadError::UnexpectedEnd);
            },
            Some(body) => body,
        };
        assert(width * count >= 0) by (nonlinear_arith)
            requires
                width >= 0,
                count >= 0,
        ;
        let (elements, end): (Vec<TagStructData>, usize) = if flags % 2 == 0 {
            match read_struct_list(layout, block.struct_index, count, bytes, big, body) {
                Err(e) => {
                    return Err(e);
                },
                Ok(read) => read,
            }
        } else {
            (fresh_struct_list(layout, block.struct_index, count, big), body)
        };
        match check_chunk_end(ChunkName::Block, pos + 12, size, end) {
            Some(e) => Err(e),
            None => Ok(
                (
                    TagBlockData {
                        block_index: block.index,
                        flags,
                        raw_data: copy_of_range(bytes, pos + 20, body),
                        big_endian: big,
                        elements,
                        classic_block_header: None,
                        classic_structural_dirty: false,
                        classic_trailing: None,
                    },
                    end,
                ),
            ),
        }
    }
}

fn read_exploded_of(layout: &TagLayout, index: u32, bytes: &Vec<u8>, big: bool, pos: usize) -> (r: Result<
    (TagResourceChunk, usize),
    TagReadError,
>)
    requires
        readable(layout@),
        index < layout@.structs.len(),
        pos <= bytes@.len(),
        in_memory(bytes@),
    ensures
        ends_inside(r, pos as int, bytes@.len()),
        resource_outcome(r) == read_exploded(layout@, bytes@, big, index, pos as int),
    decreases bytes@.len() - pos, 0nat, 4nat, 0nat,
{
    match read_validated_chunk_header(bytes, big, TGDT, ChunkName::ExplodedData, pos) {
        Err(e) => Err(e),
        Ok(size) => {
            let left: usize = bytes.len() - pos - 12;
            if (left as u64) < size as u64 {
                return Err(TagReadError::UnexpectedEnd);
            }
            let body: usize = pos + 12 + size as usize;
            match TagStructData::read(layout, index, bytes, big, body) {
                Err(e) => Err(e),
                Ok((struct_data, end)) => Ok(
                    (
                        TagResourceChunk::Exploded {
                            exploded: copy_of_range(bytes, pos + 12, body),
                            struct_data,
                            xsync_state: None,
                        },
                        end,
                    ),
                ),
            }
        },
    }
}

fn read_resource_of(layout: &TagLayout, index: u32, bytes: &Vec<u8>, big: bool, pos: usize) -> (r: Result<
    (TagResourceChunk, usize),
    TagReadError,
>)
    requires
        readable(layout@),
        index < layout@.structs.len(),
        pos <= bytes@.len(),
        in_memory(bytes@),
    ensures
        ends_inside(r, pos as int, bytes@.len()),
        resource_outcome(r) == read_resource(layout@, bytes@, big, index, pos as int),
    decreases bytes@.len() - pos, 0nat, 3nat, 0nat,
{
    match read_chunk_header(bytes, big, pos) {
        None => Err(TagReadError::UnexpectedEnd),
        Some(h) => {
            let total: usize = bytes.len();
            let (resource, end): (TagResourceChunk, usize) = if h.signature == TG0C {
                if h.version != 0 {
                    return Err(
                        TagReadError::BadChunkVersion {
                            chunk: ChunkName::NullResource,
                            version: h.version,
                        },
                    );
                }
                (TagResourceChunk::Null, pos + 12)
            } else if h.signature == TGRC {
                if h.version != 0 {
                    return Err(
                        TagReadError::BadChunkVersion {
                            chunk: ChunkName::ExplodedResource,
                            version: h.version,
                        },
                    );
                }
                match read_exploded_of(layout, index, bytes, big, pos + 12) {
                    Err(e) => {
                        return Err(e);
                    },
                    Ok(read) => read,
                }
            } else if h.signature == TGXC {
                let left: usize = total - pos - 12;
                if (left as u64) < h.size as u64 {
                    return Err(TagReadError::UnexpectedEnd);
                }
                let end: usize = pos + 12 + h.size as usize;
                (
                    TagResourceChunk::Xsync {
                        version: h.version,
                        payload: copy_of_range(bytes, pos + 12, end),
                    },
                    end,
                )
            } else {
                return Err(TagReadError::UnknownSubChunkSignature { signature: h.signature });
            };
            match check_chunk_end(ChunkName::PageableResource, pos + 12, h.size, end) {
                Some(e) => Err(e),
                None => Ok((resource, end)),
            }
        },
    }
}

}
