//! Writing the chunks of a tag's data. Numbers are written lowest byte first,
//! whatever the order they were read in.
use crate::bytes::{le_bytes, push_le, push_range};
use crate::chunks::{INTEROP, TG0C, TGBL, TGDA, TGDT, TGRC, TGRF, TGSI, TGST, TGXC};
use crate::data::{
    BlockDataView, ChunkView, EntryView, ResourceChunkView, StructDataView, TagBlockData,
    TagResourceChunk, TagStructData, TagSubChunkContent, TagSubChunkEntry, entry_views, no_bytes,
    struct_data_views,
};
use crate::tag::truncated;
use vstd::prelude::*;

verus! {

/// The bytes of a header.
pub open spec fn header_bytes(signature: u32, version: u32, size: u32) -> Seq<u8> {
    le_bytes(signature) + le_bytes(version) + le_bytes(size)
}

/// The bytes of a chunk.
pub open spec fn chunk_bytes(signature: u32, version: u32, content: Seq<u8>) -> Seq<u8> {
    header_bytes(signature, version, content.len() as u32) + content
}

/// The bytes of a struct: a chunk whose version is its size too.
pub open spec fn struct_bytes(s: StructDataView) -> Seq<u8>
    decreases s, 0nat,
{
    let content = entries_bytes(s.entries, 0);
    chunk_bytes(TGST, content.len() as u32, content)
}

/// The bytes of the chunks from `i` on.
pub open spec fn entries_bytes(entries: Seq<EntryView>, i: nat) -> Seq<u8>
    decreases entries, entries.len() - i,
{
    if i >= entries.len() {
        Seq::empty()
    } else {
        content_bytes(entries[i as int].content) + entries_bytes(entries, i + 1)
    }
}

/// The bytes of what a field's chunk holds.
pub open spec fn content_bytes(content: ChunkView) -> Seq<u8>
    decreases content, 0nat,
{
    match content {
        ChunkView::EmptyPlaceholder => header_bytes(TGST, 0, 0),
        ChunkView::Struct(s) => struct_bytes(s),
        ChunkView::Block(b) => block_bytes(b),
        ChunkView::Array(items) => items_bytes(items, 0),
        ChunkView::TagReference(c) => chunk_bytes(TGRF, 0, c),
        ChunkView::StringId(c) => chunk_bytes(TGSI, 0, c),
        ChunkView::OldStringId(c) => chunk_bytes(TGSI, 0, c),
        ChunkView::Data(c) => chunk_bytes(TGDA, 0, c),
        ChunkView::ApiInterop(c) => chunk_bytes(INTEROP, 0, c),
        ChunkView::Resource(r) => resource_bytes(r),
    }
}

/// The bytes of a resource. The address it was read with is not written.
pub open spec fn resource_bytes(r: ResourceChunkView) -> Seq<u8>
    decreases r, 0nat,
{
    match r {
        ResourceChunkView::Null => header_bytes(TG0C, 0, 0),
        ResourceChunkView::Exploded { exploded, data, .. } => chunk_bytes(
            TGRC,
            0,
            chunk_bytes(TGDT, 0, exploded) + struct_bytes(data),
        ),
        ResourceChunkView::Xsync { version, payload } => chunk_bytes(TGXC, version, payload),
    }
}

/// The bytes of the elements of an array from `i` on. They have no header of
/// their own.
pub open spec fn items_bytes(items: Seq<StructDataView>, i: nat) -> Seq<u8>
    decreases items, items.len() - i,
{
    if i >= items.len() {
        Seq::empty()
    } else {
        entries_bytes(items[i as int].entries, 0) + items_bytes(items, i + 1)
    }
}

/// The bytes of a list of structs from `i` on.
pub open spec fn structs_bytes(items: Seq<StructDataView>, i: nat) -> Seq<u8>
    decreases items, items.len() - i,
{
    if i >= items.len() {
        Seq::empty()
    } else {
        struct_bytes(items[i as int]) + structs_bytes(items, i + 1)
    }
}

/// The bytes inside a block.
pub open spec fn block_body(b: BlockDataView) -> Seq<u8>
    decreases b, 0nat,
{
    le_bytes(b.elements.len() as u32) + le_bytes(b.flags) + b.raw + (if b.flags % 2 == 0 {
        structs_bytes(b.elements, 0)
    } else {
        Seq::empty()
    })
}

/// The bytes of a block.
pub open spec fn block_bytes(b: BlockDataView) -> Seq<u8>
    decreases b, 1nat,
{
    chunk_bytes(TGBL, 0, block_body(b))
}

// ---------------------------------------------------------------------------
// Writing
// ---------------------------------------------------------------------------
/// Writes a header.
pub fn write_tag_chunk_header(out: &mut Vec<u8>, signature: u32, version: u32, size: u32)
    ensures
        final(out)@ == old(out)@ + header_bytes(signature, version, size),
{
    let ghost before = out@;
    push_le(out, signature);
    push_le(out, version);
    push_le(out, size);
    assert(out@ =~= before + header_bytes(signature, version, size));
}

/// Writes a chunk.
pub fn write_tag_chunk_content(out: &mut Vec<u8>, signature: u32, version: u32, content: &Vec<u8>)
    ensures
        final(out)@ == old(out)@ + chunk_bytes(signature, version, content@),
{
    let ghost before = out@;
    write_tag_chunk_header(out, signature, version, truncated(content.len()));
    push_range(out, content, 0, content.len());
    assert(out@ =~= before + chunk_bytes(signature, version, content@));
}

impl TagStructData {
    /// Writes the struct.
    pub fn write(&self, out: &mut Vec<u8>)
        ensures
            final(out)@ == old(out)@ + struct_bytes(self@),
        decreases self, 1nat,
    {
        let mut content: Vec<u8> = no_bytes();
        write_sub_chunks(&self.sub_chunks, &mut content);
        assert(content@ =~= entries_bytes(self@.entries, 0));
        let size: u32 = truncated(content.len());
        write_tag_chunk_content(out, TGST, size, &content);
    }
}

/// Writes the chunks of a struct in their order.
pub fn write_sub_chunks(entries: &Vec<TagSubChunkEntry>, out: &mut Vec<u8>)
    ensures
        final(out)@ == old(out)@ + entries_bytes(entry_views(entries@), 0),
    decreases entries, 0nat,
{
    let ghost before = out@;
    let ghost all = entry_views(entries@);
    let mut i: usize = 0;
    while i < entries.len()
        invariant
            i <= entries.len(),
            all == entry_views(entries@),
            out@ + entries_bytes(all, i as nat) == before + entries_bytes(all, 0),
        decreases entries.len() - i,
    {
        let ghost sofar = out@;
        assert(all[i as int] == entries@[i as int]@);
        entries[i].content.write(out);
        assert(out@ + entries_bytes(all, i as nat + 1) =~= sofar + entries_bytes(all, i as nat));
        i = i + 1;
    }
    assert(out@ =~= before + entries_bytes(all, 0));
}

fn write_items(items: &Vec<TagStructData>, out: &mut Vec<u8>)
    ensures
        final(out)@ == old(out)@ + items_bytes(struct_data_views(items@), 0),
    decreases items, 0nat,
{
    let ghost before = out@;
    let ghost all = struct_data_views(items@);
    let mut i: usize = 0;
    while i < items.len()
        invariant
            i <= items.len(),
            all == struct_data_views(items@),
            out@ + items_bytes(all, i as nat) == before + items_bytes(all, 0),
        decreases items.len() - i,
    {
        let ghost sofar = out@;
        assert(all[i as int] == items@[i as int]@);
        write_sub_chunks(&items[i].sub_chunks, out);
        assert(out@ + items_bytes(all, i as nat + 1) =~= sofar + items_bytes(all, i as nat));
        i = i + 1;
    }
    assert(out@ =~= before + items_bytes(all, 0));
}

fn write_structs(items: &Vec<TagStructData>, out: &mut Vec<u8>)
    ensures
        final(out)@ == old(out)@ + structs_bytes(struct_data_views(items@), 0),
    decreases items, 0nat,
{
    let ghost before = out@;
    let ghost all = struct_data_views(items@);
    let mut i: usize = 0;
    while i < items.len()
        invariant
            i <= items.len(),
            all == struct_data_views(items@),
            out@ + structs_bytes(all, i as nat) == before + structs_bytes(all, 0),
        decreases items.len() - i,
    {
        let ghost sofar = out@;
        assert(all[i as int] == items@[i as int]@);
        items[i].write(out);
        assert(out@ + structs_bytes(all, i as nat + 1) =~= sofar + structs_bytes(all, i as nat));
        i = i + 1;
    }
    assert(out@ =~= before + structs_bytes(all, 0));
}

impl TagSubChunkContent {
    /// Writes the chunk.
    pub fn write(&self, out: &mut Vec<u8>)
        ensures
            final(out)@ == old(out)@ + content_bytes(self@),
        decreases self, 0nat,
    {
        match self {
            TagSubChunkContent::EmptyPlaceholder => write_tag_chunk_header(out, TGST, 0, 0),
            TagSubChunkContent::Struct(s) => s.write(out),
            TagSubChunkContent::Block(b) => b.write(out),
            TagSubChunkContent::Array(items) => write_items(items, out),
            TagSubChunkContent::TagReference(c) => write_tag_chunk_content(out, TGRF, 0, c),
            TagSubChunkContent::StringId(c) => write_tag_chunk_content(out, TGSI, 0, c),
            TagSubChunkContent::OldStringId(c) => write_tag_chunk_content(out, TGSI, 0, c),
            TagSubChunkContent::Data(c) => write_tag_chunk_content(out, TGDA, 0, c),
            TagSubChunkContent::ApiInterop(c) => write_tag_chunk_content(out, INTEROP, 0, c),
            TagSubChunkContent::Resource(r) => r.write(out),
        }
    }
}

impl TagResourceChunk {
    /// Writes the resource.
    pub fn write(&self, out: &mut Vec<u8>)
        ensures
            final(out)@ == old(out)@ + resource_bytes(self@),
        decreases self, 0nat,
    {
        match self {
            TagResourceChunk::Null => write_tag_chunk_header(out, TG0C, 0, 0),
            TagResourceChunk::Exploded { exploded, struct_data, .. } => {
                let mut inner: Vec<u8> = no_bytes();
                write_tag_chunk_content(&mut inner, TGDT, 0, exploded);
                struct_data.write(&mut inner);
                assert(inner@ =~= chunk_bytes(TGDT, 0, exploded@) + struct_bytes(struct_data@));
                write_tag_chunk_content(out, TGRC, 0, &inner);
            },
            TagResourceChunk::Xsync { version, payload } => write_tag_chunk_content(
                out,
                TGXC,
                *version,
                payload,
            ),
        }
    }
}

impl TagBlockData {
    /// Writes the block.
    pub fn write(&self, out: &mut Vec<u8>)
        ensures
            final(out)@ == old(out)@ + block_bytes(self@),
        decreases self, 0nat,
    {
        let mut body: Vec<u8> = no_bytes();
        push_le(&mut body, truncated(self.elements.len()));
        push_le(&mut body, self.flags);
        push_range(&mut body, &self.raw_data, 0, self.raw_data.len());
        if self.flags % 2 == 0 {
            write_structs(&self.elements, &mut body);
        }
        assert(body@ =~= block_body(self@));
        write_tag_chunk_content(out, TGBL, 0, &body);
    }
}

}
