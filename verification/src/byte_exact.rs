//! What was read is written back byte for byte.
use crate::bytes::{le_bytes, le_value};
use crate::chunks::{
    ChunkName, INTEROP, TG0C, TGBL, TGDA, TGDT, TGRC, TGRF, TGSI, TGST, TGXC, header_at,
    plain_content_at, validated_header_at, word_at,
};
use crate::data::{ChunkView, EntryView, ResourceChunkView, StructDataView, fresh_data};
use crate::fields::TagFieldType;
use crate::layout::LayoutView;
use crate::reading::{
    absorb_placeholders, expects_chunks, placeholder, read_block, read_entries, read_exploded,
    read_field, read_items, read_leaf, read_resource, read_struct, read_structs,
    skip_placeholders,
};
use crate::roundtrip::stands_at;
use crate::writing::{
    block_body, block_bytes, chunk_bytes, content_bytes, entries_bytes, header_bytes, items_bytes,
    resource_bytes, struct_bytes, structs_bytes,
};
use vstd::prelude::*;

verus! {

// ---------------------------------------------------------------------------
// Bytes that were read, and bytes that are written
// ---------------------------------------------------------------------------
/// Whether what is written for the bytes from `pos` to `end` is at least as long,
/// and the same where it is no longer.
pub open spec fn gives_back(bytes: Seq<u8>, pos: int, end: int, written: Seq<u8>) -> bool {
    &&& 0 <= pos <= end <= bytes.len()
    &&& written.len() >= end - pos
    &&& written.len() == end - pos ==> stands_at(bytes, pos, written)
}

proof fn lemma_join(bytes: Seq<u8>, pos: int, middle: int, end: int, a: Seq<u8>, b: Seq<u8>)
    requires
        gives_back(bytes, pos, middle, a),
        gives_back(bytes, middle, end, b),
    ensures
        gives_back(bytes, pos, end, a + b),
{
    if a.len() + b.len() == end - pos {
        assert(bytes.subrange(pos, end) =~= a + b) by {
            assert(bytes.subrange(pos, end) =~= bytes.subrange(pos, middle) + bytes.subrange(
                middle,
                end,
            ));
        }
    }
}

proof fn lemma_nothing(bytes: Seq<u8>, pos: int)
    requires
        0 <= pos <= bytes.len(),
    ensures
        gives_back(bytes, pos, pos, Seq::empty()),
{
    assert(bytes.subrange(pos, pos) =~= Seq::<u8>::empty());
}

proof fn lemma_part(bytes: Seq<u8>, pos: int, end: int)
    requires
        0 <= pos <= end <= bytes.len(),
    ensures
        gives_back(bytes, pos, end, bytes.subrange(pos, end)),
{
}

/// Four bytes are those of the number that they are.
pub proof fn a_word_is_written_as_it_was_read(b: Seq<u8>)
    requires
        b.len() == 4,
    ensures
        le_bytes(le_value(b)) == b,
{
    let n = le_value(b);
    let whole = b[0] as int + b[1] as int * 0x100 + b[2] as int * 0x1_0000 + b[3] as int
        * 0x100_0000;
    assert(n == whole);
    assert(whole % 256 == b[0]);
    assert((whole / 0x100) % 256 == b[1]);
    assert((whole / 0x1_0000) % 256 == b[2]);
    assert((whole / 0x100_0000) % 256 == b[3]);
    assert(le_bytes(n) =~= b);
}

proof fn lemma_word_back(bytes: Seq<u8>, pos: int)
    requires
        0 <= pos,
        pos + 4 <= bytes.len(),
    ensures
        gives_back(bytes, pos, pos + 4, le_bytes(word_at(bytes, false, pos))),
{
    a_word_is_written_as_it_was_read(bytes.subrange(pos, pos + 4));
}

proof fn lemma_header_back(bytes: Seq<u8>, pos: int)
    requires
        header_at(bytes, false, pos) is Some,
    ensures
        ({
            let h = header_at(bytes, false, pos)->0;
            gives_back(bytes, pos, pos + 12, header_bytes(h.signature, h.version, h.size))
        }),
{
    let h = header_at(bytes, false, pos)->0;
    lemma_word_back(bytes, pos);
    lemma_word_back(bytes, pos + 4);
    lemma_word_back(bytes, pos + 8);
    lemma_join(bytes, pos, pos + 4, pos + 8, le_bytes(h.signature), le_bytes(h.version));
    lemma_join(
        bytes,
        pos,
        pos + 8,
        pos + 12,
        le_bytes(h.signature) + le_bytes(h.version),
        le_bytes(h.size),
    );
}

/// A chunk is given back where its content is, and its header says how long the
/// content was.
proof fn lemma_chunk_given_back(
    bytes: Seq<u8>,
    pos: int,
    end: int,
    signature: u32,
    version: u32,
    content: Seq<u8>,
)
    requires
        header_at(bytes, false, pos) matches Some(h) && h.signature == signature && h.size == end
            - pos - 12 && (content.len() == h.size ==> h.version == version),
        gives_back(bytes, pos + 12, end, content),
    ensures
        gives_back(bytes, pos, end, chunk_bytes(signature, version, content)),
{
    let h = header_at(bytes, false, pos)->0;
    lemma_header_back(bytes, pos);
    let head = header_bytes(signature, version, content.len() as u32);
    assert(head.len() == 12);
    if content.len() == h.size {
        lemma_join(bytes, pos, pos + 12, end, head, content);
    }
}

// ---------------------------------------------------------------------------
// Runs of chunks
// ---------------------------------------------------------------------------
/// The bytes of the chunks from `i` to `j`.
pub open spec fn span_bytes(entries: Seq<EntryView>, i: nat, j: nat) -> Seq<u8>
    decreases j - i,
{
    if i >= j {
        Seq::empty()
    } else {
        content_bytes(entries[i as int].content) + span_bytes(entries, i + 1, j)
    }
}

proof fn lemma_span_is_all(entries: Seq<EntryView>, i: nat)
    requires
        i <= entries.len(),
    ensures
        span_bytes(entries, i, entries.len()) == entries_bytes(entries, i),
    decreases entries.len() - i,
{
    if i < entries.len() {
        lemma_span_is_all(entries, i + 1);
    }
}

proof fn lemma_span_splits(entries: Seq<EntryView>, i: nat, j: nat, k: nat)
    requires
        i <= j <= k,
    ensures
        span_bytes(entries, i, k) == span_bytes(entries, i, j) + span_bytes(entries, j, k),
    decreases j - i,
{
    if i < j {
        lemma_span_splits(entries, i + 1, j, k);
        assert(span_bytes(entries, i, k) =~= span_bytes(entries, i, j) + span_bytes(
            entries,
            j,
            k,
        ));
    } else {
        assert(span_bytes(entries, i, k) =~= span_bytes(entries, i, j) + span_bytes(
            entries,
            j,
            k,
        ));
    }
}

proof fn lemma_span_same(a: Seq<EntryView>, b: Seq<EntryView>, i: nat, j: nat)
    requires
        forall|k: int| i <= k < j ==> a[k] == b[k],
    ensures
        span_bytes(a, i, j) == span_bytes(b, i, j),
    decreases j - i,
{
    if i < j {
        assert(a[i as int] == b[i as int]);
        lemma_span_same(a, b, i + 1, j);
    }
}

/// Whether a list goes on from another.
pub open spec fn goes_on(before: Seq<EntryView>, after: Seq<EntryView>) -> bool {
    &&& before.len() <= after.len()
    &&& forall|k: int| 0 <= k < before.len() ==> before[k] == after[k]
}

/// Whether the chunks that were added are given back.
pub open spec fn added_given_back(
    bytes: Seq<u8>,
    pos: int,
    end: int,
    before: Seq<EntryView>,
    after: Seq<EntryView>,
) -> bool {
    &&& goes_on(before, after)
    &&& gives_back(bytes, pos, end, span_bytes(after, before.len(), after.len()))
}

proof fn lemma_added_join(
    bytes: Seq<u8>,
    pos: int,
    middle: int,
    end: int,
    a: Seq<EntryView>,
    b: Seq<EntryView>,
    c: Seq<EntryView>,
)
    requires
        added_given_back(bytes, pos, middle, a, b),
        added_given_back(bytes, middle, end, b, c),
    ensures
        added_given_back(bytes, pos, end, a, c),
{
    lemma_span_same(b, c, a.len(), b.len());
    lemma_span_splits(c, a.len(), b.len(), c.len());
    lemma_join(
        bytes,
        pos,
        middle,
        end,
        span_bytes(b, a.len(), b.len()),
        span_bytes(c, b.len(), c.len()),
    );
}

proof fn lemma_added_none(bytes: Seq<u8>, pos: int, entries: Seq<EntryView>)
    requires
        0 <= pos <= bytes.len(),
    ensures
        added_given_back(bytes, pos, pos, entries, entries),
{
    lemma_nothing(bytes, pos);
}

proof fn lemma_added_one(
    bytes: Seq<u8>,
    pos: int,
    end: int,
    entries: Seq<EntryView>,
    e: EntryView,
)
    requires
        gives_back(bytes, pos, end, content_bytes(e.content)),
    ensures
        added_given_back(bytes, pos, end, entries, entries.push(e)),
{
    let after = entries.push(e);
    let n = entries.len();
    assert(span_bytes(after, n + 1, n + 1) =~= Seq::<u8>::empty());
    assert(span_bytes(after, n, n + 1) =~= content_bytes(e.content));
}

proof fn lemma_skipped(bytes: Seq<u8>, pos: int, entries: Seq<EntryView>)
    ensures
        skip_placeholders(bytes, false, pos, entries) matches Ok((after, end)) ==> added_given_back(
            bytes,
            pos,
            end,
            entries,
            after,
        ),
    decreases bytes.len() - pos,
{
    if let Some(h) = header_at(bytes, false, pos) {
        if h.signature == TGST {
            if h.size != 0 {
                lemma_added_none(bytes, pos, entries);
            } else if h.version == 0 {
                let more = entries.push(placeholder());
                lemma_header_back(bytes, pos);
                lemma_added_one(bytes, pos, pos + 12, entries, placeholder());
                lemma_skipped(bytes, pos + 12, more);
                if let Ok((after, end)) = skip_placeholders(bytes, false, pos + 12, more) {
                    lemma_added_join(bytes, pos, pos + 12, end, entries, more, after);
                }
            }
        }
    }
}

proof fn lemma_absorbed(
    bytes: Seq<u8>,
    start: int,
    expected: int,
    pos: int,
    entries: Seq<EntryView>,
)
    requires
        0 <= pos <= bytes.len(),
    ensures
        absorb_placeholders(bytes, false, start, expected, pos, entries) matches Ok((after, end))
            ==> end == expected && added_given_back(bytes, pos, end, entries, after),
    decreases bytes.len() - pos,
{
    if pos == expected {
        lemma_added_none(bytes, pos, entries);
    } else if let Some(h) = header_at(bytes, false, pos) {
        if h.signature == TGST && h.size == 0 && h.version == 0 {
            let more = entries.push(placeholder());
            lemma_header_back(bytes, pos);
            lemma_added_one(bytes, pos, pos + 12, entries, placeholder());
            lemma_absorbed(bytes, start, expected, pos + 12, more);
            if let Ok((after, end)) = absorb_placeholders(
                bytes,
                false,
                start,
                expected,
                pos + 12,
                more,
            ) {
                lemma_added_join(bytes, pos, pos + 12, end, entries, more, after);
            }
        }
    }
}

// ---------------------------------------------------------------------------
// Leaves
// ---------------------------------------------------------------------------
proof fn lemma_plain_given_back(bytes: Seq<u8>, signature: u32, chunk: ChunkName, pos: int)
    ensures
        plain_content_at(bytes, false, signature, chunk, pos) matches Ok((content, end))
            ==> gives_back(bytes, pos, end, chunk_bytes(signature, 0, content)),
{
    if let Ok((content, end)) = plain_content_at(bytes, false, signature, chunk, pos) {
        lemma_part(bytes, pos + 12, end);
        lemma_chunk_given_back(bytes, pos, end, signature, 0, content);
    }
}

proof fn lemma_leaf_given_back(
    layout: LayoutView,
    bytes: Seq<u8>,
    field: int,
    pos: int,
    entries: Seq<EntryView>,
)
    requires
        0 <= pos <= bytes.len(),
    ensures
        read_leaf(layout, bytes, false, field, pos, entries) matches Ok((after, end))
            ==> added_given_back(bytes, pos, end, entries, after),
{
    if let Ok((after, end)) = read_leaf(layout, bytes, false, field, pos, entries) {
        lemma_plain_given_back(bytes, TGRF, ChunkName::TagReference, pos);
        lemma_plain_given_back(bytes, TGSI, ChunkName::StringId, pos);
        lemma_plain_given_back(bytes, TGSI, ChunkName::OldStringId, pos);
        lemma_plain_given_back(bytes, TGDA, ChunkName::Data, pos);
        lemma_plain_given_back(bytes, INTEROP, ChunkName::ApiInterop, pos);
        if after.len() > entries.len() {
            lemma_added_one(bytes, pos, end, entries, after.last());
            assert(after =~= entries.push(after.last()));
        } else {
            lemma_added_none(bytes, pos, entries);
        }
    }
}

// ---------------------------------------------------------------------------
// Structs and blocks
// ---------------------------------------------------------------------------
proof fn lemma_struct_given_back(layout: LayoutView, bytes: Seq<u8>, index: u32, pos: int)
    ensures
        read_struct(layout, bytes, false, index, pos) matches Ok((s, end)) ==> gives_back(
            bytes,
            pos,
            end,
            struct_bytes(s),
        ) && pos + 12 <= end,
    decreases bytes.len() - pos, 0nat, 3nat, 0nat,
{
    if let Ok((s, end)) = read_struct(layout, bytes, false, index, pos) {
        let h = header_at(bytes, false, pos)->0;
        let content = entries_bytes(s.entries, 0);
        if h.size == 0 {
            lemma_nothing(bytes, pos + 12);
            if content.len() == 0 {
                assert(content =~= Seq::<u8>::empty());
            }
        } else {
            let d = layout.structs[index as int];
            let first = d.first_field_index as int;
            let n = (layout.run_end(first) - first) as nat;
            let none = Seq::<EntryView>::empty();
            lemma_entries_given_back(
                layout,
                bytes,
                first,
                n,
                pos + 12,
                none,
                layout.structs.len(),
            );
            let (own, at) = read_entries(
                layout,
                bytes,
                false,
                first,
                n,
                pos + 12,
                none,
                layout.structs.len(),
            )->Ok_0;
            lemma_absorbed(bytes, pos + 12, pos + 12 + h.size, at, own);
            lemma_added_join(bytes, pos + 12, at, end, none, own, s.entries);
            lemma_span_is_all(s.entries, 0);
        }
        lemma_chunk_given_back(bytes, pos, end, TGST, content.len() as u32, content);
    }
}

proof fn lemma_entries_given_back(
    layout: LayoutView,
    bytes: Seq<u8>,
    field: int,
    n: nat,
    pos: int,
    entries: Seq<EntryView>,
    depth: nat,
)
    requires
        0 <= pos <= bytes.len(),
    ensures
        read_entries(layout, bytes, false, field, n, pos, entries, depth) matches Ok((after, end))
            ==> added_given_back(bytes, pos, end, entries, after),
    decreases bytes.len() - pos, depth, 5nat, n,
{
    if n == 0 {
        lemma_added_none(bytes, pos, entries);
    } else {
        lemma_field_given_back(layout, bytes, field, pos, entries, depth);
        if let Ok((more, at)) = read_field(layout, bytes, false, field, pos, entries, depth) {
            lemma_entries_given_back(layout, bytes, field + 1, (n - 1) as nat, at, more, depth);
            if let Ok((after, end)) = read_entries(
                layout,
                bytes,
                false,
                field + 1,
                (n - 1) as nat,
                at,
                more,
                depth,
            ) {
                lemma_added_join(bytes, pos, at, end, entries, more, after);
            }
        }
    }
}

proof fn lemma_field_given_back(
    layout: LayoutView,
    bytes: Seq<u8>,
    field: int,
    pos: int,
    entries: Seq<EntryView>,
    depth: nat,
)
    requires
        0 <= pos <= bytes.len(),
    ensures
        read_field(layout, bytes, false, field, pos, entries, depth) matches Ok((after, end))
            ==> added_given_back(bytes, pos, end, entries, after),
    decreases bytes.len() - pos, depth, 4nat, 0nat,
{
    let f = layout.fields[field];
    if let Ok((after, end)) = read_field(layout, bytes, false, field, pos, entries, depth) {
        match f.field_type {
            TagFieldType::Struct => {
                let (more, at) = if expects_chunks(layout, f.definition) {
                    lemma_skipped(bytes, pos, entries);
                    skip_placeholders(bytes, false, pos, entries)->Ok_0
                } else {
                    lemma_added_none(bytes, pos, entries);
                    (entries, pos)
                };
                lemma_struct_given_back(layout, bytes, f.definition, at);
                let (s, last) = read_struct(layout, bytes, false, f.definition, at)->Ok_0;
                let e = EntryView { field: Some(field as u32), content: ChunkView::Struct(s) };
                lemma_added_one(bytes, at, end, more, e);
                lemma_added_join(bytes, pos, at, end, entries, more, after);
            },
            TagFieldType::Array => {
                let array = layout.arrays[f.definition as int];
                let none = Seq::<StructDataView>::empty();
                lemma_items_given_back(
                    layout,
                    bytes,
                    array.struct_index,
                    array.count as nat,
                    pos,
                    none,
                    (depth - 1) as nat,
                );
                lemma_added_one(bytes, pos, end, entries, after.last());
            },
            TagFieldType::Block => {
                lemma_block_given_back(layout, bytes, f.definition, pos);
                lemma_added_one(bytes, pos, end, entries, after.last());
            },
            TagFieldType::PageableResource => {
                lemma_resource_given_back(
                    layout,
                    bytes,
                    layout.resources[f.definition as int].struct_index,
                    pos,
                );
                lemma_added_one(bytes, pos, end, entries, after.last());
            },
            _ => {
                lemma_leaf_given_back(layout, bytes, field, pos, entries);
            },
        }
    }
}

/// The elements of an array from the end of `before` on.
proof fn lemma_items_given_back(
    layout: LayoutView,
    bytes: Seq<u8>,
    index: u32,
    n: nat,
    pos: int,
    before: Seq<StructDataView>,
    depth: nat,
)
    requires
        0 <= pos <= bytes.len(),
    ensures
        read_items(layout, bytes, false, index, n, pos, before, depth) matches Ok((after, end))
            ==> {
            &&& before.len() <= after.len()
            &&& forall|k: int| 0 <= k < before.len() ==> before[k] == after[k]
            &&& gives_back(bytes, pos, end, items_bytes(after, before.len()))
        },
    decreases bytes.len() - pos, depth, 6nat, n,
{
    if n == 0 {
        lemma_nothing(bytes, pos);
    } else {
        let d = layout.structs[index as int];
        let first = d.first_field_index as int;
        let fields = (layout.run_end(first) - first) as nat;
        let none = Seq::<EntryView>::empty();
        lemma_entries_given_back(layout, bytes, first, fields, pos, none, depth);
        if let Ok((own, at)) = read_entries(
            layout,
            bytes,
            false,
            first,
            fields,
            pos,
            none,
            depth,
        ) {
            let s = StructDataView { struct_index: d.index, header: None, entries: own };
            let more = before.push(s);
            lemma_items_given_back(layout, bytes, index, (n - 1) as nat, at, more, depth);
            if let Ok((after, end)) = read_items(
                layout,
                bytes,
                false,
                index,
                (n - 1) as nat,
                at,
                more,
                depth,
            ) {
                lemma_span_is_all(own, 0);
                assert(after[before.len() as int] == more[before.len() as int]);
                lemma_join(
                    bytes,
                    pos,
                    at,
                    end,
                    entries_bytes(own, 0),
                    items_bytes(after, before.len() + 1),
                );
            }
        }
    }
}

proof fn lemma_structs_given_back(
    layout: LayoutView,
    bytes: Seq<u8>,
    index: u32,
    n: nat,
    pos: int,
    before: Seq<StructDataView>,
)
    requires
        0 <= pos <= bytes.len(),
    ensures
        read_structs(layout, bytes, false, index, n, pos, before) matches Ok((after, end)) ==> {
            &&& after.len() == before.len() + n
            &&& forall|k: int| 0 <= k < before.len() ==> before[k] == after[k]
            &&& gives_back(bytes, pos, end, structs_bytes(after, before.len()))
        },
    decreases bytes.len() - pos, 0nat, 6nat, n,
{
    if n == 0 {
        lemma_nothing(bytes, pos);
    } else {
        lemma_struct_given_back(layout, bytes, index, pos);
        if let Ok((s, at)) = read_struct(layout, bytes, false, index, pos) {
            let more = before.push(s);
            lemma_structs_given_back(layout, bytes, index, (n - 1) as nat, at, more);
            if let Ok((after, end)) = read_structs(
                layout,
                bytes,
                false,
                index,
                (n - 1) as nat,
                at,
                more,
            ) {
                assert(after[before.len() as int] == more[before.len() as int]);
                lemma_join(
                    bytes,
                    pos,
                    at,
                    end,
                    struct_bytes(s),
                    structs_bytes(after, before.len() + 1),
                );
            }
        }
    }
}

proof fn lemma_block_given_back(layout: LayoutView, bytes: Seq<u8>, definition: u32, pos: int)
    ensures
        read_block(layout, bytes, false, definition, pos) matches Ok((b, end)) ==> gives_back(
            bytes,
            pos,
            end,
            block_bytes(b),
        ),
    decreases bytes.len() - pos, 0nat, 3nat, 0nat,
{
    if let Ok((b, end)) = read_block(layout, bytes, false, definition, pos) {
        let block = layout.blocks[definition as int];
        let count = word_at(bytes, false, pos + 12);
        let after = pos + 20 + b.raw.len();
        lemma_word_back(bytes, pos + 12);
        lemma_word_back(bytes, pos + 16);
        lemma_join(bytes, pos + 12, pos + 16, pos + 20, le_bytes(count), le_bytes(b.flags));
        lemma_part(bytes, pos + 20, after);
        let front = le_bytes(count) + le_bytes(b.flags);
        lemma_join(bytes, pos + 12, pos + 20, after, front, b.raw);
        let tail = if b.flags % 2 == 0 {
            structs_bytes(b.elements, 0)
        } else {
            Seq::empty()
        };
        if b.flags % 2 == 0 {
            lemma_structs_given_back(
                layout,
                bytes,
                block.struct_index,
                count as nat,
                after,
                Seq::empty(),
            );
        } else {
            lemma_nothing(bytes, after);
        }
        assert(b.elements.len() == count);
        lemma_join(bytes, pos + 12, after, end, front + b.raw, tail);
        assert(block_body(b) == front + b.raw + tail);
        lemma_chunk_given_back(bytes, pos, end, TGBL, 0, block_body(b));
    }
}

proof fn lemma_resource_given_back(layout: LayoutView, bytes: Seq<u8>, index: u32, pos: int)
    ensures
        read_resource(layout, bytes, false, index, pos) matches Ok((r, end)) ==> gives_back(
            bytes,
            pos,
            end,
            resource_bytes(r),
        ),
    decreases bytes.len() - pos, 0nat, 3nat, 0nat,
{
    if let Ok((r, end)) = read_resource(layout, bytes, false, index, pos) {
        let h = header_at(bytes, false, pos)->0;
        if h.signature == TG0C {
            lemma_header_back(bytes, pos);
        } else if h.signature == TGRC {
            lemma_exploded_given_back(layout, bytes, index, pos + 12);
            match r {
                ResourceChunkView::Exploded { exploded, data, .. } => {
                    let inner = chunk_bytes(TGDT, 0, exploded) + struct_bytes(data);
                    lemma_chunk_given_back(bytes, pos, end, TGRC, 0, inner);
                },
                _ => {},
            }
        } else {
            lemma_part(bytes, pos + 12, end);
            lemma_chunk_given_back(
                bytes,
                pos,
                end,
                TGXC,
                h.version,
                bytes.subrange(pos + 12, end),
            );
        }
    }
}

proof fn lemma_exploded_given_back(layout: LayoutView, bytes: Seq<u8>, index: u32, pos: int)
    ensures
        read_exploded(layout, bytes, false, index, pos) matches Ok((r, end)) ==> (r matches ResourceChunkView::Exploded {
            exploded,
            data,
            ..
        } && gives_back(bytes, pos, end, chunk_bytes(TGDT, 0, exploded) + struct_bytes(data))),
    decreases bytes.len() - pos, 0nat, 4nat, 0nat,
{
    if let Ok((r, end)) = read_exploded(layout, bytes, false, index, pos) {
        let size = validated_header_at(bytes, false, TGDT, ChunkName::ExplodedData, pos)->Ok_0;
        let at = pos + 12 + size;
        let exploded = bytes.subrange(pos + 12, at);
        lemma_part(bytes, pos + 12, at);
        lemma_chunk_given_back(bytes, pos, at, TGDT, 0, exploded);
        lemma_struct_given_back(layout, bytes, index, at);
        let (data, last) = read_struct(layout, bytes, false, index, at)->Ok_0;
        lemma_join(bytes, pos, at, end, chunk_bytes(TGDT, 0, exploded), struct_bytes(data));
    }
}

// ---------------------------------------------------------------------------
// What reading fills in
// ---------------------------------------------------------------------------
/// Whether a fresh struct of definition `index` has chunks.
pub open spec fn fresh_takes_bytes(layout: LayoutView, index: u32) -> bool {
    let fresh = fresh_data(layout, layout.structs[index as int].index, false);
    entries_bytes(fresh.entries, 0).len() > 0
}

/// Whether an empty struct chunk is read, at `pos` or inside the struct that begins
/// there, for a definition whose fresh data takes bytes: such a struct is filled in.
pub open spec fn fills_struct(layout: LayoutView, bytes: Seq<u8>, index: u32, pos: int) -> bool
    decreases bytes.len() - pos, 0nat, 3nat, 0nat,
{
    match header_at(bytes, false, pos) {
        None => false,
        Some(h) => if h.size == 0 {
            fresh_takes_bytes(layout, index)
        } else {
            let first = layout.structs[index as int].first_field_index as int;
            fills_entries(
                layout,
                bytes,
                first,
                (layout.run_end(first) - first) as nat,
                pos + 12,
                Seq::empty(),
                layout.structs.len(),
            )
        },
    }
}

/// The same for the chunks of the `n` fields from `field` on.
pub open spec fn fills_entries(
    layout: LayoutView,
    bytes: Seq<u8>,
    field: int,
    n: nat,
    pos: int,
    entries: Seq<EntryView>,
    depth: nat,
) -> bool
    decreases bytes.len() - pos, depth, 5nat, n,
{
    n > 0 && pos <= bytes.len() && (fills_field(layout, bytes, field, pos, entries, depth) || (
    read_field(layout, bytes, false, field, pos, entries, depth) matches Ok((more, end)) && pos
        <= end <= bytes.len() && fills_entries(
        layout,
        bytes,
        field + 1,
        (n - 1) as nat,
        end,
        more,
        depth,
    )))
}

/// The same for the chunk of the field `field`.
pub open spec fn fills_field(
    layout: LayoutView,
    bytes: Seq<u8>,
    field: int,
    pos: int,
    entries: Seq<EntryView>,
    depth: nat,
) -> bool
    decreases bytes.len() - pos, depth, 4nat, 0nat,
{
    let f = layout.fields[field];
    match f.field_type {
        TagFieldType::Struct => match if expects_chunks(layout, f.definition) {
            skip_placeholders(bytes, false, pos, entries)
        } else {
            Ok((entries, pos))
        } {
            Err(_) => false,
            Ok((_, at)) => pos <= at <= bytes.len() && fills_struct(
                layout,
                bytes,
                f.definition,
                at,
            ),
        },
        TagFieldType::Array => depth > 0 && fills_items(
            layout,
            bytes,
            layout.arrays[f.definition as int].struct_index,
            layout.arrays[f.definition as int].count as nat,
            pos,
            (depth - 1) as nat,
        ),
        TagFieldType::Block => fills_block(layout, bytes, f.definition, pos),
        TagFieldType::PageableResource => fills_resource(
            layout,
            bytes,
            layout.resources[f.definition as int].struct_index,
            pos,
        ),
        _ => false,
    }
}

/// The same for `n` elements of an array.
pub open spec fn fills_items(
    layout: LayoutView,
    bytes: Seq<u8>,
    index: u32,
    n: nat,
    pos: int,
    depth: nat,
) -> bool
    decreases bytes.len() - pos, depth, 6nat, n,
{
    let first = layout.structs[index as int].first_field_index as int;
    let fields = (layout.run_end(first) - first) as nat;
    n > 0 && pos <= bytes.len() && (fills_entries(
        layout,
        bytes,
        first,
        fields,
        pos,
        Seq::empty(),
        depth,
    ) || (read_entries(layout, bytes, false, first, fields, pos, Seq::empty(), depth) matches Ok((
        _,
        end,
    )) && pos <= end <= bytes.len() && fills_items(
        layout,
        bytes,
        index,
        (n - 1) as nat,
        end,
        depth,
    )))
}

/// The same for `n` structs.
pub open spec fn fills_structs(
    layout: LayoutView,
    bytes: Seq<u8>,
    index: u32,
    n: nat,
    pos: int,
) -> bool
    decreases bytes.len() - pos, 0nat, 6nat, n,
{
    n > 0 && pos <= bytes.len() && (fills_struct(layout, bytes, index, pos) || (read_struct(
        layout,
        bytes,
        false,
        index,
        pos,
    ) matches Ok((_, end)) && pos <= end <= bytes.len() && fills_structs(
        layout,
        bytes,
        index,
        (n - 1) as nat,
        end,
    )))
}

/// The same for a block. The elements of one that says they have no chunks are not
/// read, and not written either.
pub open spec fn fills_block(layout: LayoutView, bytes: Seq<u8>, definition: u32, pos: int) -> bool
    decreases bytes.len() - pos, 0nat, 3nat, 0nat,
{
    let index = layout.blocks[definition as int].struct_index;
    let count = word_at(bytes, false, pos + 12);
    let body = pos + 20 + layout.structs[index as int].size * count;
    0 <= pos && pos + 20 <= body <= bytes.len() && word_at(bytes, false, pos + 16) % 2 == 0
        && fills_structs(layout, bytes, index, count as nat, body)
}

/// The same for a resource, of whose chunks an exploded one alone holds a struct.
pub open spec fn fills_resource(layout: LayoutView, bytes: Seq<u8>, index: u32, pos: int) -> bool
    decreases bytes.len() - pos, 0nat, 3nat, 0nat,
{
    match header_at(bytes, false, pos) {
        Some(h) => h.signature == TGRC && match validated_header_at(
            bytes,
            false,
            TGDT,
            ChunkName::ExplodedData,
            pos + 12,
        ) {
            Ok(size) => pos + 24 + size <= bytes.len() && fills_struct(
                layout,
                bytes,
                index,
                pos + 24 + size,
            ),
            Err(_) => false,
        },
        None => false,
    }
}

/// How long the chunks are that were added.
pub open spec fn added_len(before: Seq<EntryView>, after: Seq<EntryView>) -> int {
    span_bytes(after, before.len(), after.len()).len() as int
}

proof fn lemma_added_len_join(a: Seq<EntryView>, b: Seq<EntryView>, c: Seq<EntryView>)
    requires
        goes_on(a, b),
        goes_on(b, c),
    ensures
        added_len(a, c) == added_len(a, b) + added_len(b, c),
{
    lemma_span_same(b, c, a.len(), b.len());
    lemma_span_splits(c, a.len(), b.len(), c.len());
}

proof fn lemma_added_len_one(entries: Seq<EntryView>, e: EntryView)
    ensures
        goes_on(entries, entries.push(e)),
        added_len(entries, entries.push(e)) == content_bytes(e.content).len(),
{
    let after = entries.push(e);
    let n = entries.len();
    assert(span_bytes(after, n + 1, n + 1) =~= Seq::<u8>::empty());
    assert(span_bytes(after, n, n + 1) =~= content_bytes(e.content));
}

proof fn lemma_skipped_len(bytes: Seq<u8>, pos: int, entries: Seq<EntryView>)
    ensures
        skip_placeholders(bytes, false, pos, entries) matches Ok((after, end)) ==> goes_on(
            entries,
            after,
        ) && added_len(entries, after) == end - pos,
    decreases bytes.len() - pos,
{
    if let Some(h) = header_at(bytes, false, pos) {
        if h.signature == TGST && h.size == 0 && h.version == 0 {
            let more = entries.push(placeholder());
            lemma_added_len_one(entries, placeholder());
            lemma_skipped_len(bytes, pos + 12, more);
            if let Ok((after, end)) = skip_placeholders(bytes, false, pos + 12, more) {
                lemma_added_len_join(entries, more, after);
            }
        }
    }
}

proof fn lemma_absorbed_len(
    bytes: Seq<u8>,
    start: int,
    expected: int,
    pos: int,
    entries: Seq<EntryView>,
)
    ensures
        absorb_placeholders(bytes, false, start, expected, pos, entries) matches Ok((after, end))
            ==> goes_on(entries, after) && added_len(entries, after) == end - pos,
    decreases bytes.len() - pos,
{
    if pos != expected {
        if let Some(h) = header_at(bytes, false, pos) {
            if h.signature == TGST && h.size == 0 && h.version == 0 {
                let more = entries.push(placeholder());
                lemma_added_len_one(entries, placeholder());
                lemma_absorbed_len(bytes, start, expected, pos + 12, more);
                if let Ok((after, end)) = absorb_placeholders(
                    bytes,
                    false,
                    start,
                    expected,
                    pos + 12,
                    more,
                ) {
                    lemma_added_len_join(entries, more, after);
                }
            }
        }
    }
}

proof fn lemma_leaf_len(
    layout: LayoutView,
    bytes: Seq<u8>,
    field: int,
    pos: int,
    entries: Seq<EntryView>,
)
    ensures
        read_leaf(layout, bytes, false, field, pos, entries) matches Ok((after, end)) ==> goes_on(
            entries,
            after,
        ) && added_len(entries, after) == end - pos,
{
    if let Ok((after, end)) = read_leaf(layout, bytes, false, field, pos, entries) {
        if after.len() > entries.len() {
            assert(after =~= entries.push(after.last()));
            lemma_added_len_one(entries, after.last());
        }
    }
}

/// A struct is written longer than it was read where something was filled in, and
/// else as long.
#[verifier::spinoff_prover]
#[verifier::rlimit(30)]
proof fn lemma_struct_len(layout: LayoutView, bytes: Seq<u8>, index: u32, pos: int)
    ensures
        read_struct(layout, bytes, false, index, pos) matches Ok((s, end)) ==> (struct_bytes(
            s,
        ).len() == end - pos <==> !fills_struct(layout, bytes, index, pos)),
    decreases bytes.len() - pos, 0nat, 3nat, 0nat,
{
    lemma_struct_given_back(layout, bytes, index, pos);
    if let Ok((s, end)) = read_struct(layout, bytes, false, index, pos) {
        let h = header_at(bytes, false, pos)->0;
        if h.size != 0 {
            let d = layout.structs[index as int];
            let first = d.first_field_index as int;
            let n = (layout.run_end(first) - first) as nat;
            let none = Seq::<EntryView>::empty();
            let depth = layout.structs.len();
            lemma_entries_given_back(layout, bytes, first, n, pos + 12, none, depth);
            lemma_entries_len(layout, bytes, first, n, pos + 12, none, depth);
            let (own, at) = read_entries(
                layout,
                bytes,
                false,
                first,
                n,
                pos + 12,
                none,
                depth,
            )->Ok_0;
            lemma_absorbed(bytes, pos + 12, pos + 12 + h.size, at, own);
            lemma_absorbed_len(bytes, pos + 12, pos + 12 + h.size, at, own);
            lemma_added_len_join(none, own, s.entries);
            lemma_span_is_all(s.entries, 0);
        }
    }
}

#[verifier::spinoff_prover]
#[verifier::rlimit(30)]
proof fn lemma_entries_len(
    layout: LayoutView,
    bytes: Seq<u8>,
    field: int,
    n: nat,
    pos: int,
    entries: Seq<EntryView>,
    depth: nat,
)
    requires
        0 <= pos <= bytes.len(),
    ensures
        read_entries(layout, bytes, false, field, n, pos, entries, depth) matches Ok((after, end))
            ==> (added_len(entries, after) == end - pos <==> !fills_entries(
            layout,
            bytes,
            field,
            n,
            pos,
            entries,
            depth,
        )),
    decreases bytes.len() - pos, depth, 5nat, n,
{
    if n > 0 {
        lemma_field_given_back(layout, bytes, field, pos, entries, depth);
        lemma_field_len(layout, bytes, field, pos, entries, depth);
        if let Ok((more, at)) = read_field(layout, bytes, false, field, pos, entries, depth) {
            lemma_entries_given_back(layout, bytes, field + 1, (n - 1) as nat, at, more, depth);
            lemma_entries_len(layout, bytes, field + 1, (n - 1) as nat, at, more, depth);
            if let Ok((after, end)) = read_entries(
                layout,
                bytes,
                false,
                field + 1,
                (n - 1) as nat,
                at,
                more,
                depth,
            ) {
                lemma_added_len_join(entries, more, after);
            }
        }
    }
}

#[verifier::spinoff_prover]
#[verifier::rlimit(30)]
proof fn lemma_field_len(
    layout: LayoutView,
    bytes: Seq<u8>,
    field: int,
    pos: int,
    entries: Seq<EntryView>,
    depth: nat,
)
    requires
        0 <= pos <= bytes.len(),
    ensures
        read_field(layout, bytes, false, field, pos, entries, depth) matches Ok((after, end))
            ==> (added_len(entries, after) == end - pos <==> !fills_field(
            layout,
            bytes,
            field,
            pos,
            entries,
            depth,
        )),
    decreases bytes.len() - pos, depth, 4nat, 0nat,
{
    let f = layout.fields[field];
    if let Ok((after, end)) = read_field(layout, bytes, false, field, pos, entries, depth) {
        match f.field_type {
            TagFieldType::Struct => {
                let (more, at) = if expects_chunks(layout, f.definition) {
                    lemma_skipped_len(bytes, pos, entries);
                    skip_placeholders(bytes, false, pos, entries)->Ok_0
                } else {
                    (entries, pos)
                };
                lemma_struct_len(layout, bytes, f.definition, at);
                let (s, last) = read_struct(layout, bytes, false, f.definition, at)->Ok_0;
                let e = EntryView { field: Some(field as u32), content: ChunkView::Struct(s) };
                lemma_added_len_one(more, e);
                lemma_added_len_join(entries, more, after);
            },
            TagFieldType::Array => {
                let array = layout.arrays[f.definition as int];
                let none = Seq::<StructDataView>::empty();
                lemma_items_len(
                    layout,
                    bytes,
                    array.struct_index,
                    array.count as nat,
                    pos,
                    none,
                    (depth - 1) as nat,
                );
                assert(after =~= entries.push(after.last()));
                lemma_added_len_one(entries, after.last());
            },
            TagFieldType::Block => {
                lemma_block_len(layout, bytes, f.definition, pos);
                assert(after =~= entries.push(after.last()));
                lemma_added_len_one(entries, after.last());
            },
            TagFieldType::PageableResource => {
                lemma_resource_len(
                    layout,
                    bytes,
                    layout.resources[f.definition as int].struct_index,
                    pos,
                );
                assert(after =~= entries.push(after.last()));
                lemma_added_len_one(entries, after.last());
            },
            _ => {
                lemma_leaf_len(layout, bytes, field, pos, entries);
            },
        }
    }
}

#[verifier::spinoff_prover]
#[verifier::rlimit(30)]
proof fn lemma_items_len(
    layout: LayoutView,
    bytes: Seq<u8>,
    index: u32,
    n: nat,
    pos: int,
    before: Seq<StructDataView>,
    depth: nat,
)
    requires
        0 <= pos <= bytes.len(),
    ensures
        read_items(layout, bytes, false, index, n, pos, before, depth) matches Ok((after, end))
            ==> (items_bytes(after, before.len()).len() == end - pos <==> !fills_items(
            layout,
            bytes,
            index,
            n,
            pos,
            depth,
        )),
    decreases bytes.len() - pos, depth, 6nat, n,
{
    if n > 0 {
        let d = layout.structs[index as int];
        let first = d.first_field_index as int;
        let fields = (layout.run_end(first) - first) as nat;
        let none = Seq::<EntryView>::empty();
        lemma_entries_given_back(layout, bytes, first, fields, pos, none, depth);
        lemma_entries_len(layout, bytes, first, fields, pos, none, depth);
        if let Ok((own, at)) = read_entries(
            layout,
            bytes,
            false,
            first,
            fields,
            pos,
            none,
            depth,
        ) {
            let s = StructDataView { struct_index: d.index, header: None, entries: own };
            let more = before.push(s);
            lemma_items_given_back(layout, bytes, index, (n - 1) as nat, at, more, depth);
            lemma_items_len(layout, bytes, index, (n - 1) as nat, at, more, depth);
            if let Ok((after, end)) = read_items(
                layout,
                bytes,
                false,
                index,
                (n - 1) as nat,
                at,
                more,
                depth,
            ) {
                lemma_span_is_all(own, 0);
                assert(after[before.len() as int] == more[before.len() as int]);
            }
        }
    }
}

#[verifier::spinoff_prover]
#[verifier::rlimit(30)]
proof fn lemma_structs_len(
    layout: LayoutView,
    bytes: Seq<u8>,
    index: u32,
    n: nat,
    pos: int,
    before: Seq<StructDataView>,
)
    requires
        0 <= pos <= bytes.len(),
    ensures
        read_structs(layout, bytes, false, index, n, pos, before) matches Ok((after, end)) ==> (
        structs_bytes(after, before.len()).len() == end - pos <==> !fills_structs(
            layout,
            bytes,
            index,
            n,
            pos,
        )),
    decreases bytes.len() - pos, 0nat, 6nat, n,
{
    if n > 0 {
        lemma_struct_given_back(layout, bytes, index, pos);
        lemma_struct_len(layout, bytes, index, pos);
        if let Ok((s, at)) = read_struct(layout, bytes, false, index, pos) {
            let more = before.push(s);
            lemma_structs_given_back(layout, bytes, index, (n - 1) as nat, at, more);
            lemma_structs_len(layout, bytes, index, (n - 1) as nat, at, more);
            if let Ok((after, end)) = read_structs(
                layout,
                bytes,
                false,
                index,
                (n - 1) as nat,
                at,
                more,
            ) {
                assert(after[before.len() as int] == more[before.len() as int]);
            }
        }
    }
}

#[verifier::spinoff_prover]
#[verifier::rlimit(30)]
proof fn lemma_block_len(layout: LayoutView, bytes: Seq<u8>, definition: u32, pos: int)
    ensures
        read_block(layout, bytes, false, definition, pos) matches Ok((b, end)) ==> (block_bytes(
            b,
        ).len() == end - pos <==> !fills_block(layout, bytes, definition, pos)),
    decreases bytes.len() - pos, 0nat, 3nat, 0nat,
{
    if let Ok((b, end)) = read_block(layout, bytes, false, definition, pos) {
        let index = layout.blocks[definition as int].struct_index;
        let count = word_at(bytes, false, pos + 12);
        let body = pos + 20 + layout.structs[index as int].size * count;
        assert(b.raw.len() == body - (pos + 20));
        if b.flags % 2 == 0 {
            lemma_structs_given_back(layout, bytes, index, count as nat, body, Seq::empty());
            lemma_structs_len(layout, bytes, index, count as nat, body, Seq::empty());
        }
    }
}

proof fn lemma_exploded_len(layout: LayoutView, bytes: Seq<u8>, index: u32, pos: int)
    ensures
        read_exploded(layout, bytes, false, index, pos) matches Ok((r, end)) ==> ({
            let size = validated_header_at(bytes, false, TGDT, ChunkName::ExplodedData, pos)->Ok_0;
            let at = pos + 12 + size;
            &&& at <= bytes.len()
            &&& r matches ResourceChunkView::Exploded { exploded, data, .. } && (
            chunk_bytes(TGDT, 0, exploded).len() + struct_bytes(data).len() == end - pos
                <==> !fills_struct(layout, bytes, index, at))
        }),
    decreases bytes.len() - pos, 0nat, 4nat, 0nat,
{
    if let Ok((r, end)) = read_exploded(layout, bytes, false, index, pos) {
        let size = validated_header_at(bytes, false, TGDT, ChunkName::ExplodedData, pos)->Ok_0;
        let at = pos + 12 + size;
        lemma_struct_len(layout, bytes, index, at);
        assert(bytes.subrange(pos + 12, at).len() == size);
    }
}

#[verifier::spinoff_prover]
#[verifier::rlimit(30)]
proof fn lemma_resource_len(layout: LayoutView, bytes: Seq<u8>, index: u32, pos: int)
    ensures
        read_resource(layout, bytes, false, index, pos) matches Ok((r, end)) ==> (resource_bytes(
            r,
        ).len() == end - pos <==> !fills_resource(layout, bytes, index, pos)),
    decreases bytes.len() - pos, 0nat, 3nat, 0nat,
{
    if let Ok((r, end)) = read_resource(layout, bytes, false, index, pos) {
        let h = header_at(bytes, false, pos)->0;
        if h.signature == TGRC {
            lemma_exploded_len(layout, bytes, index, pos + 12);
            match r {
                ResourceChunkView::Exploded { exploded, data, .. } => {
                    let inner = chunk_bytes(TGDT, 0, exploded) + struct_bytes(data);
                    assert(resource_bytes(r) == chunk_bytes(TGRC, 0, inner));
                    assert(chunk_bytes(TGRC, 0, inner).len() == 12 + inner.len());
                },
                _ => {},
            }
        } else if h.signature == TG0C {
            assert(resource_bytes(r).len() == 12);
        } else {
            assert(bytes.subrange(pos + 12, end).len() == end - pos - 12);
        }
    }
}

// ---------------------------------------------------------------------------
// Laws
// ---------------------------------------------------------------------------
/// A struct is written byte for byte as it was read where reading fills nothing in:
/// where no empty struct chunk is read for a definition whose fresh data takes bytes.
/// Where one is, it is written longer.
pub proof fn a_struct_is_written_as_it_was_read(
    layout: LayoutView,
    bytes: Seq<u8>,
    index: u32,
    pos: int,
)
    requires
        read_struct(layout, bytes, false, index, pos) is Ok,
    ensures
        ({
            let (s, end) = read_struct(layout, bytes, false, index, pos)->Ok_0;
            &&& 0 <= pos <= end <= bytes.len()
            &&& !fills_struct(layout, bytes, index, pos) ==> struct_bytes(s) == bytes.subrange(
                pos,
                end,
            )
            &&& fills_struct(layout, bytes, index, pos) ==> struct_bytes(s).len() > end - pos
        }),
{
    lemma_struct_given_back(layout, bytes, index, pos);
    lemma_struct_len(layout, bytes, index, pos);
}

/// The same of a block.
pub proof fn a_block_is_written_as_it_was_read(
    layout: LayoutView,
    bytes: Seq<u8>,
    definition: u32,
    pos: int,
)
    requires
        read_block(layout, bytes, false, definition, pos) is Ok,
    ensures
        ({
            let (b, end) = read_block(layout, bytes, false, definition, pos)->Ok_0;
            &&& 0 <= pos <= end <= bytes.len()
            &&& !fills_block(layout, bytes, definition, pos) ==> block_bytes(b) == bytes.subrange(
                pos,
                end,
            )
            &&& fills_block(layout, bytes, definition, pos) ==> block_bytes(b).len() > end - pos
        }),
{
    lemma_block_given_back(layout, bytes, definition, pos);
    lemma_block_len(layout, bytes, definition, pos);
}

}
