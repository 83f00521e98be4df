//! What is written is read back.
use crate::bytes::{le_bytes, le_bytes_read_back};
use crate::chunks::{
    ChunkHeader, INTEROP, TG0C, TGBL, TGDA, TGDT, TGRC, TGRF, TGSI, TGST, TGXC, TagReadError,
    content_at, header_at, word_at,
};
use crate::data::{
    BlockDataView, ChunkView, EntryView, ResourceChunkView, StructDataView, fresh_data,
};
use crate::fields::TagFieldType;
use crate::layout::{LayoutView, TagFieldLayout};
use crate::reading::{
    absorb_placeholders, expects_chunks, fresh_structs, placeholder, read_block, read_entries,
    read_field, read_items, read_resource, read_struct, read_structs, skip_placeholders,
    with_chunk,
};
use crate::writing::{
    block_body, block_bytes, chunk_bytes, content_bytes, entries_bytes, header_bytes, items_bytes,
    resource_bytes, struct_bytes, structs_bytes,
};
use vstd::prelude::*;

verus! {

// ---------------------------------------------------------------------------
// Data that a layout describes
// ---------------------------------------------------------------------------
/// Whether the bytes are few enough for a size to count.
pub open spec fn countable(content: Seq<u8>) -> bool {
    content.len() <= u32::MAX
}

/// Whether a struct is one of definition `index`. A struct whose chunks take no
/// bytes is a fresh one; otherwise its chunks are those of the fields in their
/// order, and placeholders may follow.
pub open spec fn described_struct(layout: LayoutView, index: u32, s: StructDataView) -> bool
    decreases s, 0nat, 0nat,
{
    let d = layout.structs[index as int];
    let first = d.first_field_index as int;
    &&& s.struct_index == d.index
    &&& s.header is None
    &&& countable(entries_bytes(s.entries, 0))
    &&& if entries_bytes(s.entries, 0).len() == 0 {
        s == fresh_data(layout, d.index, false)
    } else {
        match described_entries(
            layout,
            first,
            (layout.run_end(first) - first) as nat,
            s.entries,
            0,
            layout.structs.len(),
        ) {
            Some(end) => forall|k: int|
                end <= k < s.entries.len() ==> #[trigger] s.entries[k] == placeholder(),
            None => false,
        }
    }
}

/// Whether the chunks from `i` on begin with those of the `n` fields from `field`
/// on: where these end.
pub open spec fn described_entries(
    layout: LayoutView,
    field: int,
    n: nat,
    entries: Seq<EntryView>,
    i: nat,
    depth: nat,
) -> Option<nat>
    decreases entries, entries.len() - i, n,
{
    if n == 0 {
        Some(i)
    } else {
        let f = layout.fields[field];
        if !takes_chunk(layout, f) {
            if layout.field_types[f.type_index as int].needs_sub_chunk {
                None
            } else {
                described_entries(layout, field + 1, (n - 1) as nat, entries, i, depth)
            }
        } else if i >= entries.len() {
            None
        } else if entries[i as int] == placeholder() {
            if f.field_type == TagFieldType::Struct && expects_chunks(layout, f.definition) {
                described_entries(layout, field, n, entries, i + 1, depth)
            } else {
                None
            }
        } else if entries[i as int].field == Some(field as u32) && described_chunk(
            layout,
            f,
            entries[i as int].content,
            depth,
        ) {
            described_entries(layout, field + 1, (n - 1) as nat, entries, i + 1, depth)
        } else {
            None
        }
    }
}

/// Whether a field has a chunk of its own.
pub open spec fn takes_chunk(layout: LayoutView, f: TagFieldLayout) -> bool {
    match f.field_type {
        TagFieldType::Struct
        | TagFieldType::Array
        | TagFieldType::Block
        | TagFieldType::PageableResource
        | TagFieldType::TagReference
        | TagFieldType::StringId
        | TagFieldType::OldStringId
        | TagFieldType::Data
        | TagFieldType::ApiInterop => true,
        _ => false,
    }
}

/// Whether a chunk is one of the field `f`. A nested struct that is expected to
/// hold chunks holds some: an empty one reads as a placeholder.
pub open spec fn described_chunk(
    layout: LayoutView,
    f: TagFieldLayout,
    chunk: ChunkView,
    depth: nat,
) -> bool
    decreases chunk, 0nat, 0nat,
{
    match (f.field_type, chunk) {
        (TagFieldType::Struct, ChunkView::Struct(s)) => {
            &&& described_struct(layout, f.definition, s)
            &&& expects_chunks(layout, f.definition) ==> entries_bytes(s.entries, 0).len() > 0
        },
        (TagFieldType::Array, ChunkView::Array(items)) => {
            let array = layout.arrays[f.definition as int];
            &&& depth > 0
            &&& items.len() == array.count
            &&& described_items(layout, array.struct_index, items, 0, (depth - 1) as nat)
        },
        (TagFieldType::Block, ChunkView::Block(b)) => described_block(layout, f.definition, b),
        (TagFieldType::PageableResource, ChunkView::Resource(r)) => described_resource(
            layout,
            layout.resources[f.definition as int].struct_index,
            r,
        ),
        (TagFieldType::TagReference, ChunkView::TagReference(c)) => countable(c),
        (TagFieldType::StringId, ChunkView::StringId(c)) => countable(c),
        (TagFieldType::OldStringId, ChunkView::OldStringId(c)) => countable(c),
        (TagFieldType::Data, ChunkView::Data(c)) => countable(c),
        (TagFieldType::ApiInterop, ChunkView::ApiInterop(c)) => countable(c),
        _ => false,
    }
}

/// Whether the elements of an array from `i` on are of definition `index`.
pub open spec fn described_items(
    layout: LayoutView,
    index: u32,
    items: Seq<StructDataView>,
    i: nat,
    depth: nat,
) -> bool
    decreases items, items.len() - i, 0nat,
{
    i >= items.len() || {
        let d = layout.structs[index as int];
        let first = d.first_field_index as int;
        let s = items[i as int];
        &&& s.struct_index == d.index
        &&& s.header is None
        &&& described_entries(
            layout,
            first,
            (layout.run_end(first) - first) as nat,
            s.entries,
            0,
            depth,
        ) == Some(s.entries.len())
        &&& described_items(layout, index, items, i + 1, depth)
    }
}

/// Whether the structs from `i` on are of definition `index`.
pub open spec fn described_structs(
    layout: LayoutView,
    index: u32,
    items: Seq<StructDataView>,
    i: nat,
) -> bool
    decreases items, items.len() - i, 0nat,
{
    i >= items.len() || (described_struct(layout, index, items[i as int]) && described_structs(
        layout,
        index,
        items,
        i + 1,
    ))
}

/// Whether a block is one of definition `definition`, as a file of the day holds
/// it. The elements of a block without chunks are fresh.
pub open spec fn described_block(layout: LayoutView, definition: u32, b: BlockDataView) -> bool
    decreases b, 0nat, 0nat,
{
    let d = layout.blocks[definition as int];
    &&& b.block_index == d.index
    &&& !b.big_endian
    &&& b.header is None
    &&& !b.dirty
    &&& b.trailing is None
    &&& b.elements.len() <= u32::MAX
    &&& b.raw.len() == layout.structs[d.struct_index as int].size * b.elements.len()
    &&& countable(block_body(b))
    &&& if b.flags % 2 == 0 {
        described_structs(layout, d.struct_index, b.elements, 0)
    } else {
        b.elements == fresh_structs(layout, d.struct_index, false, b.elements.len())
    }
}

/// Whether a resource is one whose own struct is of definition `index`.
pub open spec fn described_resource(layout: LayoutView, index: u32, r: ResourceChunkView) -> bool
    decreases r, 0nat, 0nat,
{
    match r {
        ResourceChunkView::Null => true,
        ResourceChunkView::Exploded { exploded, data, state } => {
            &&& state is None
            &&& described_struct(layout, index, data)
            &&& countable(chunk_bytes(TGDT, 0, exploded) + struct_bytes(data))
        },
        ResourceChunkView::Xsync { version, payload } => countable(payload),
    }
}

// ---------------------------------------------------------------------------
// Where bytes stand
// ---------------------------------------------------------------------------
/// Whether `part` stands at `pos`.
pub open spec fn stands_at(bytes: Seq<u8>, pos: int, part: Seq<u8>) -> bool {
    &&& 0 <= pos
    &&& pos + part.len() <= bytes.len()
    &&& bytes.subrange(pos, pos + part.len()) == part
}

proof fn lemma_split(bytes: Seq<u8>, pos: int, a: Seq<u8>, b: Seq<u8>)
    requires
        stands_at(bytes, pos, a + b),
    ensures
        stands_at(bytes, pos, a),
        stands_at(bytes, pos + a.len(), b),
{
    let whole = a + b;
    assert(bytes.subrange(pos, pos + a.len()) =~= a) by {
        assert(bytes.subrange(pos, pos + a.len()) =~= whole.subrange(0, a.len() as int));
        assert(whole.subrange(0, a.len() as int) =~= a);
    }
    assert(bytes.subrange(pos + a.len(), pos + a.len() + b.len()) =~= b) by {
        assert(bytes.subrange(pos + a.len(), pos + a.len() + b.len()) =~= whole.subrange(
            a.len() as int,
            (a.len() + b.len()) as int,
        ));
        assert(whole.subrange(a.len() as int, (a.len() + b.len()) as int) =~= b);
    }
}

proof fn lemma_word(bytes: Seq<u8>, pos: int, n: u32)
    requires
        stands_at(bytes, pos, le_bytes(n)),
    ensures
        word_at(bytes, false, pos) == n,
        pos + 4 <= bytes.len(),
{
    le_bytes_read_back(n);
}

proof fn lemma_header(bytes: Seq<u8>, pos: int, signature: u32, version: u32, size: u32)
    requires
        stands_at(bytes, pos, header_bytes(signature, version, size)),
    ensures
        header_at(bytes, false, pos) == Some(ChunkHeader { signature, version, size }),
        header_bytes(signature, version, size).len() == 12,
{
    lemma_split(bytes, pos, le_bytes(signature) + le_bytes(version), le_bytes(size));
    lemma_split(bytes, pos, le_bytes(signature), le_bytes(version));
    lemma_word(bytes, pos, signature);
    lemma_word(bytes, pos + 4, version);
    lemma_word(bytes, pos + 8, size);
}

proof fn lemma_content(bytes: Seq<u8>, pos: int, signature: u32, version: u32, content: Seq<u8>)
    requires
        stands_at(bytes, pos, chunk_bytes(signature, version, content)),
        countable(content),
    ensures
        header_at(bytes, false, pos) == Some(
            ChunkHeader { signature, version, size: content.len() as u32 },
        ),
        stands_at(bytes, pos + 12, content),
        content_at(bytes, false, signature, pos) == Ok::<(u32, Seq<u8>, int), TagReadError>(
            (version, content, pos + 12 + content.len()),
        ),
        chunk_bytes(signature, version, content).len() == 12 + content.len(),
{
    lemma_split(
        bytes,
        pos,
        header_bytes(signature, version, content.len() as u32),
        content,
    );
    lemma_header(bytes, pos, signature, version, content.len() as u32);
}

/// The bytes of a chunk from `i` on are those of the first, then the rest.
proof fn lemma_entries_step(bytes: Seq<u8>, pos: int, entries: Seq<EntryView>, i: nat)
    requires
        i < entries.len(),
        stands_at(bytes, pos, entries_bytes(entries, i)),
    ensures
        stands_at(bytes, pos, content_bytes(entries[i as int].content)),
        stands_at(
            bytes,
            pos + content_bytes(entries[i as int].content).len(),
            entries_bytes(entries, i + 1),
        ),
        entries_bytes(entries, i).len() == content_bytes(entries[i as int].content).len()
            + entries_bytes(entries, i + 1).len(),
{
    lemma_split(
        bytes,
        pos,
        content_bytes(entries[i as int].content),
        entries_bytes(entries, i + 1),
    );
}

// ---------------------------------------------------------------------------
// Reading back
// ---------------------------------------------------------------------------
/// Where the bytes of the chunks before `j` end.
pub open spec fn entries_span(entries: Seq<EntryView>, i: nat, j: nat) -> int {
    entries_bytes(entries, i).len() - entries_bytes(entries, j).len()
}

proof fn lemma_described_end(
    layout: LayoutView,
    field: int,
    n: nat,
    entries: Seq<EntryView>,
    i: nat,
    depth: nat,
)
    ensures
        match described_entries(layout, field, n, entries, i, depth) {
            Some(end) => i <= end && (i <= entries.len() ==> end <= entries.len()),
            None => true,
        },
    decreases entries.len() - i, n,
{
    if n > 0 {
        let f = layout.fields[field];
        if !takes_chunk(layout, f) {
            lemma_described_end(layout, field + 1, (n - 1) as nat, entries, i, depth);
        } else if i < entries.len() {
            if entries[i as int] == placeholder() {
                lemma_described_end(layout, field, n, entries, i + 1, depth);
            } else {
                lemma_described_end(layout, field + 1, (n - 1) as nat, entries, i + 1, depth);
            }
        }
    }
}

proof fn lemma_trailing(
    bytes: Seq<u8>,
    start: int,
    expected: int,
    pos: int,
    entries: Seq<EntryView>,
    i: nat,
    sofar: Seq<EntryView>,
)
    requires
        i <= entries.len(),
        stands_at(bytes, pos, entries_bytes(entries, i)),
        expected == pos + entries_bytes(entries, i).len(),
        forall|k: int| i <= k < entries.len() ==> #[trigger] entries[k] == placeholder(),
    ensures
        absorb_placeholders(bytes, false, start, expected, pos, sofar) == Ok::<
            (Seq<EntryView>, int),
            TagReadError,
        >((sofar + entries.skip(i as int), expected)),
    decreases entries.len() - i,
{
    if i == entries.len() {
        assert(sofar + entries.skip(i as int) =~= sofar);
    } else {
        assert(entries[i as int] == placeholder());
        lemma_entries_step(bytes, pos, entries, i);
        lemma_header(bytes, pos, TGST, 0, 0);
        lemma_trailing(bytes, start, expected, pos + 12, entries, i + 1, sofar.push(placeholder()));
        assert(sofar.push(placeholder()) + entries.skip(i as int + 1) =~= sofar + entries.skip(i as int));
    }
}

proof fn lemma_struct_back(layout: LayoutView, bytes: Seq<u8>, index: u32, pos: int, s: StructDataView)
    requires
        described_struct(layout, index, s),
        stands_at(bytes, pos, struct_bytes(s)),
    ensures
        read_struct(layout, bytes, false, index, pos) == Ok::<(StructDataView, int), TagReadError>(
            (s, pos + struct_bytes(s).len()),
        ),
        struct_bytes(s).len() == 12 + entries_bytes(s.entries, 0).len(),
    decreases s, 1nat, 0nat,
{
    let content = entries_bytes(s.entries, 0);
    lemma_content(bytes, pos, TGST, content.len() as u32, content);
    if content.len() > 0 {
        let d = layout.structs[index as int];
        let first = d.first_field_index as int;
        let n = (layout.run_end(first) - first) as nat;
        let depth = layout.structs.len();
        let end = described_entries(layout, first, n, s.entries, 0, depth)->0;
        lemma_described_end(layout, first, n, s.entries, 0, depth);
        lemma_entries_back(layout, bytes, first, n, pos + 12, s.entries, 0, Seq::empty(), depth);
        let sofar = Seq::<EntryView>::empty() + s.entries.subrange(0, end as int);
        assert(sofar =~= s.entries.take(end as int));
        let after = pos + 12 + entries_span(s.entries, 0, end);
        lemma_trailing(
            bytes,
            pos + 12,
            pos + 12 + content.len(),
            after,
            s.entries,
            end,
            sofar,
        );
        assert(sofar + s.entries.skip(end as int) =~= s.entries);
    }
}

proof fn lemma_entries_back(
    layout: LayoutView,
    bytes: Seq<u8>,
    field: int,
    n: nat,
    pos: int,
    entries: Seq<EntryView>,
    i: nat,
    sofar: Seq<EntryView>,
    depth: nat,
)
    requires
        i <= entries.len(),
        described_entries(layout, field, n, entries, i, depth) is Some,
        stands_at(bytes, pos, entries_bytes(entries, i)),
    ensures
        ({
            let end = described_entries(layout, field, n, entries, i, depth)->0;
            &&& i <= end <= entries.len()
            &&& read_entries(layout, bytes, false, field, n, pos, sofar, depth) == Ok::<
                (Seq<EntryView>, int),
                TagReadError,
            >(
                (
                    sofar + entries.subrange(i as int, end as int),
                    pos + entries_span(entries, i, end),
                ),
            )
            &&& stands_at(bytes, pos + entries_span(entries, i, end), entries_bytes(entries, end))
            &&& 0 <= entries_span(entries, i, end)
        }),
    decreases entries, entries.len() - i, n,
{
    lemma_described_end(layout, field, n, entries, i, depth);
    if n == 0 {
        assert(sofar + entries.subrange(i as int, i as int) =~= sofar);
    } else {
        let f = layout.fields[field];
        if !takes_chunk(layout, f) {
            lemma_entries_back(
                layout,
                bytes,
                field + 1,
                (n - 1) as nat,
                pos,
                entries,
                i,
                sofar,
                depth,
            );
        } else {
            let e = entries[i as int];
            let end = described_entries(layout, field, n, entries, i, depth)->0;
            lemma_entries_step(bytes, pos, entries, i);
            let width = content_bytes(e.content).len() as int;
            if e == placeholder() {
                lemma_header(bytes, pos, TGST, 0, 0);
                lemma_entries_back(
                    layout,
                    bytes,
                    field,
                    n,
                    pos + 12,
                    entries,
                    i + 1,
                    sofar.push(e),
                    depth,
                );
                assert(read_field(layout, bytes, false, field, pos, sofar, depth) == read_field(
                    layout,
                    bytes,
                    false,
                    field,
                    pos + 12,
                    sofar.push(e),
                    depth,
                )) by {
                    lemma_skip_grows(bytes, pos + 12, sofar.push(e));
                }
                assert(sofar.push(e) + entries.subrange(i as int + 1, end as int) =~= sofar
                    + entries.subrange(i as int, end as int));
            } else {
                lemma_chunk_back(layout, bytes, field, pos, e.content, sofar, depth);
                let more = with_chunk(sofar, field, e.content);
                assert(more =~= sofar.push(e));
                lemma_entries_back(
                    layout,
                    bytes,
                    field + 1,
                    (n - 1) as nat,
                    pos + width,
                    entries,
                    i + 1,
                    more,
                    depth,
                );
                assert(more + entries.subrange(i as int + 1, end as int) =~= sofar + entries.subrange(
                    i as int,
                    end as int,
                ));
            }
        }
    }
}

/// Skipping placeholders never goes back.
proof fn lemma_skip_grows(bytes: Seq<u8>, pos: int, entries: Seq<EntryView>)
    ensures
        match skip_placeholders(bytes, false, pos, entries) {
            Ok((_, end)) => pos <= end <= bytes.len(),
            Err(_) => true,
        },
    decreases bytes.len() - pos,
{
    match header_at(bytes, false, pos) {
        None => {},
        Some(h) => {
            if h.signature == TGST && h.size == 0 && h.version == 0 {
                lemma_skip_grows(bytes, pos + 12, entries.push(placeholder()));
            }
        },
    }
}

proof fn lemma_chunk_back(
    layout: LayoutView,
    bytes: Seq<u8>,
    field: int,
    pos: int,
    chunk: ChunkView,
    sofar: Seq<EntryView>,
    depth: nat,
)
    requires
        described_chunk(layout, layout.fields[field], chunk, depth),
        stands_at(bytes, pos, content_bytes(chunk)),
    ensures
        read_field(layout, bytes, false, field, pos, sofar, depth) == Ok::<
            (Seq<EntryView>, int),
            TagReadError,
        >((with_chunk(sofar, field, chunk), pos + content_bytes(chunk).len())),
    decreases chunk, 1nat, 0nat,
{
    let f = layout.fields[field];
    match chunk {
        ChunkView::Struct(s) => {
            lemma_struct_back(layout, bytes, f.definition, pos, s);
            let content = entries_bytes(s.entries, 0);
            lemma_content(bytes, pos, TGST, content.len() as u32, content);
        },
        ChunkView::Array(items) => {
            let array = layout.arrays[f.definition as int];
            lemma_items_back(
                layout,
                bytes,
                array.struct_index,
                pos,
                items,
                0,
                Seq::empty(),
                (depth - 1) as nat,
            );
            assert(Seq::<StructDataView>::empty() + items.skip(0) =~= items);
        },
        ChunkView::Block(b) => {
            lemma_block_back(layout, bytes, f.definition, pos, b);
        },
        ChunkView::Resource(r) => {
            lemma_resource_back(
                layout,
                bytes,
                layout.resources[f.definition as int].struct_index,
                pos,
                r,
            );
        },
        ChunkView::TagReference(c) => lemma_content(bytes, pos, TGRF, 0, c),
        ChunkView::StringId(c) => lemma_content(bytes, pos, TGSI, 0, c),
        ChunkView::OldStringId(c) => lemma_content(bytes, pos, TGSI, 0, c),
        ChunkView::Data(c) => lemma_content(bytes, pos, TGDA, 0, c),
        ChunkView::ApiInterop(c) => lemma_content(bytes, pos, INTEROP, 0, c),
        ChunkView::EmptyPlaceholder => {},
    }
}

proof fn lemma_items_back(
    layout: LayoutView,
    bytes: Seq<u8>,
    index: u32,
    pos: int,
    items: Seq<StructDataView>,
    i: nat,
    sofar: Seq<StructDataView>,
    depth: nat,
)
    requires
        i <= items.len(),
        described_items(layout, index, items, i, depth),
        stands_at(bytes, pos, items_bytes(items, i)),
    ensures
        read_items(
            layout,
            bytes,
            false,
            index,
            (items.len() - i) as nat,
            pos,
            sofar,
            depth,
        ) == Ok::<(Seq<StructDataView>, int), TagReadError>(
            (sofar + items.skip(i as int), pos + items_bytes(items, i).len()),
        ),
    decreases items, items.len() - i, 0nat,
{
    if i == items.len() {
        assert(sofar + items.skip(i as int) =~= sofar);
    } else {
        let d = layout.structs[index as int];
        let first = d.first_field_index as int;
        let s = items[i as int];
        let own = entries_bytes(s.entries, 0);
        lemma_split(bytes, pos, own, items_bytes(items, i + 1));
        lemma_entries_back(
            layout,
            bytes,
            first,
            (layout.run_end(first) - first) as nat,
            pos,
            s.entries,
            0,
            Seq::empty(),
            depth,
        );
        assert(Seq::<EntryView>::empty() + s.entries.subrange(0, s.entries.len() as int)
            =~= s.entries);
        assert(entries_bytes(s.entries, s.entries.len()).len() == 0);
        lemma_items_back(
            layout,
            bytes,
            index,
            pos + own.len(),
            items,
            i + 1,
            sofar.push(s),
            depth,
        );
        assert(sofar.push(s) + items.skip(i as int + 1) =~= sofar + items.skip(i as int));
    }
}

proof fn lemma_structs_back(
    layout: LayoutView,
    bytes: Seq<u8>,
    index: u32,
    pos: int,
    items: Seq<StructDataView>,
    i: nat,
    sofar: Seq<StructDataView>,
)
    requires
        i <= items.len(),
        described_structs(layout, index, items, i),
        stands_at(bytes, pos, structs_bytes(items, i)),
    ensures
        read_structs(layout, bytes, false, index, (items.len() - i) as nat, pos, sofar) == Ok::<
            (Seq<StructDataView>, int),
            TagReadError,
        >((sofar + items.skip(i as int), pos + structs_bytes(items, i).len())),
    decreases items, items.len() - i, 0nat,
{
    if i == items.len() {
        assert(sofar + items.skip(i as int) =~= sofar);
    } else {
        let s = items[i as int];
        lemma_split(bytes, pos, struct_bytes(s), structs_bytes(items, i + 1));
        lemma_struct_back(layout, bytes, index, pos, s);
        lemma_structs_back(
            layout,
            bytes,
            index,
            pos + struct_bytes(s).len(),
            items,
            i + 1,
            sofar.push(s),
        );
        assert(sofar.push(s) + items.skip(i as int + 1) =~= sofar + items.skip(i as int));
    }
}

proof fn lemma_block_back(
    layout: LayoutView,
    bytes: Seq<u8>,
    definition: u32,
    pos: int,
    b: BlockDataView,
)
    requires
        described_block(layout, definition, b),
        stands_at(bytes, pos, block_bytes(b)),
    ensures
        read_block(layout, bytes, false, definition, pos) == Ok::<
            (BlockDataView, int),
            TagReadError,
        >((b, pos + block_bytes(b).len())),
    decreases b, 1nat, 0nat,
{
    let d = layout.blocks[definition as int];
    let count = b.elements.len() as u32;
    let body = block_body(b);
    lemma_content(bytes, pos, TGBL, 0, body);
    let tail = if b.flags % 2 == 0 {
        structs_bytes(b.elements, 0)
    } else {
        Seq::empty()
    };
    lemma_split(bytes, pos + 12, le_bytes(count) + le_bytes(b.flags) + b.raw, tail);
    lemma_split(bytes, pos + 12, le_bytes(count) + le_bytes(b.flags), b.raw);
    lemma_split(bytes, pos + 12, le_bytes(count), le_bytes(b.flags));
    lemma_word(bytes, pos + 12, count);
    lemma_word(bytes, pos + 16, b.flags);
    let after = pos + 20 + b.raw.len();
    if b.flags % 2 == 0 {
        lemma_structs_back(layout, bytes, d.struct_index, after, b.elements, 0, Seq::empty());
        assert(Seq::<StructDataView>::empty() + b.elements.skip(0) =~= b.elements);
    }
    assert(body.len() == 8 + b.raw.len() + tail.len());
}

proof fn lemma_resource_back(
    layout: LayoutView,
    bytes: Seq<u8>,
    index: u32,
    pos: int,
    r: ResourceChunkView,
)
    requires
        described_resource(layout, index, r),
        stands_at(bytes, pos, resource_bytes(r)),
    ensures
        read_resource(layout, bytes, false, index, pos) == Ok::<
            (ResourceChunkView, int),
            TagReadError,
        >((r, pos + resource_bytes(r).len())),
    decreases r, 1nat, 0nat,
{
    match r {
        ResourceChunkView::Null => lemma_header(bytes, pos, TG0C, 0, 0),
        ResourceChunkView::Exploded { exploded, data, .. } => {
            let own = chunk_bytes(TGDT, 0, exploded);
            let inner = own + struct_bytes(data);
            lemma_content(bytes, pos, TGRC, 0, inner);
            lemma_split(bytes, pos + 12, own, struct_bytes(data));
            assert(countable(exploded));
            lemma_content(bytes, pos + 12, TGDT, 0, exploded);
            lemma_struct_back(layout, bytes, index, pos + 12 + own.len(), data);
        },
        ResourceChunkView::Xsync { version, payload } => lemma_content(
            bytes,
            pos,
            TGXC,
            version,
            payload,
        ),
    }
}

// ---------------------------------------------------------------------------
// Laws
// ---------------------------------------------------------------------------
/// A struct that a layout describes is read back from the bytes it was written
/// as, wherever they stand, and reading stops where they end.
pub proof fn a_written_struct_reads_back(
    layout: LayoutView,
    index: u32,
    s: StructDataView,
    before: Seq<u8>,
    after: Seq<u8>,
)
    requires
        described_struct(layout, index, s),
    ensures
        read_struct(
            layout,
            before + struct_bytes(s) + after,
            false,
            index,
            before.len() as int,
        ) == Ok::<(StructDataView, int), TagReadError>(
            (s, (before.len() + struct_bytes(s).len()) as int),
        ),
{
    let bytes = before + struct_bytes(s) + after;
    let pos = before.len() as int;
    assert(bytes.subrange(pos, pos + struct_bytes(s).len()) =~= struct_bytes(s));
    lemma_struct_back(layout, bytes, index, pos, s);
}

/// A block that a layout describes is read back from the bytes it was written as,
/// wherever they stand, and reading stops where they end.
pub proof fn a_written_block_reads_back(
    layout: LayoutView,
    definition: u32,
    b: BlockDataView,
    before: Seq<u8>,
    after: Seq<u8>,
)
    requires
        described_block(layout, definition, b),
    ensures
        read_block(
            layout,
            before + block_bytes(b) + after,
            false,
            definition,
            before.len() as int,
        ) == Ok::<(BlockDataView, int), TagReadError>(
            (b, (before.len() + block_bytes(b).len()) as int),
        ),
{
    let bytes = before + block_bytes(b) + after;
    let pos = before.len() as int;
    assert(bytes.subrange(pos, pos + block_bytes(b).len()) =~= block_bytes(b));
    lemma_block_back(layout, bytes, definition, pos, b);
}

}
