//! The chunks in which a tag's file holds its data: how they are read, and how
//! they are written.
//!
//! A chunk is a header of three words, signature, version and size, and as many
//! bytes as the size says.
use crate::bytes::{be_value, copy_of_range, le_value, read_be, read_le};
use vstd::prelude::*;

verus! {

pub const TGST: u32 = 0x7467_7374;

pub const TGBL: u32 = 0x7467_626c;

pub const TGRF: u32 = 0x7467_7266;

pub const TGSI: u32 = 0x7467_7369;

pub const TGDA: u32 = 0x7467_6461;

pub const TGDT: u32 = 0x7467_6474;

pub const TGRC: u32 = 0x7467_7263;

pub const TGXC: u32 = 0x7467_7863;

pub const TG0C: u32 = 0x7467_0063;

pub const INTEROP: u32 = 0x7469_5d5b;

// ---------------------------------------------------------------------------
// Faults
// ---------------------------------------------------------------------------
/// The chunks that a fault can name.
#[derive(Clone, Copy, Debug, PartialEq, Eq, Structural)]
pub enum ChunkName {
    Struct,
    TrailingStruct,
    PlaceholderStruct,
    Block,
    TagReference,
    StringId,
    OldStringId,
    Data,
    ApiInterop,
    NullResource,
    ExplodedResource,
    ExplodedData,
    PageableResource,
}

/// Why a tag's data cannot be read.
#[derive(Clone, Copy, Debug, PartialEq, Eq, Structural)]
pub enum TagReadError {
    UnexpectedEnd,
    BadChunkSignature { offset: u64, expected: u32, got: u32 },
    ChunkSizeMismatch { chunk: ChunkName, started_at: u64, ended_at: u64, expected_end: u64 },
    BadChunkVersion { chunk: ChunkName, version: u32 },
    UnknownSubChunkSignature { signature: u32 },
    /// A field of a type that has a chunk of a kind that is not known.
    UnsupportedFieldType { type_index: u32 },
    /// Arrays that hold each other without end.
    NestingTooDeep,
}

// ---------------------------------------------------------------------------
// Headers
// ---------------------------------------------------------------------------
/// The header of a chunk.
#[derive(Clone, Copy, Debug, PartialEq, Eq, Structural)]
pub struct ChunkHeader {
    pub signature: u32,
    pub version: u32,
    pub size: u32,
}

/// The word at `pos`.
pub open spec fn word_at(bytes: Seq<u8>, big: bool, pos: int) -> u32 {
    if big {
        be_value(bytes.subrange(pos, pos + 4))
    } else {
        le_value(bytes.subrange(pos, pos + 4))
    }
}

/// The header at `pos`, where there are bytes for one.
pub open spec fn header_at(bytes: Seq<u8>, big: bool, pos: int) -> Option<ChunkHeader> {
    if 0 <= pos && pos + 12 <= bytes.len() {
        Some(
            ChunkHeader {
                signature: word_at(bytes, big, pos),
                version: word_at(bytes, big, pos + 4),
                size: word_at(bytes, big, pos + 8),
            },
        )
    } else {
        None
    }
}

/// No buffer is longer than this.
pub open spec fn in_memory(bytes: Seq<u8>) -> bool {
    bytes.len() <= 0x7fff_ffff_ffff_ffff
}

pub fn word_of(bytes: &Vec<u8>, big: bool, pos: usize) -> (r: u32)
    requires
        pos + 4 <= bytes@.len(),
    ensures
        r == word_at(bytes@, big, pos as int),
{
    if big {
        read_be(bytes, pos)
    } else {
        read_le(bytes, pos)
    }
}

/// The header at `pos`.
pub fn read_chunk_header(bytes: &Vec<u8>, big: bool, pos: usize) -> (r: Option<ChunkHeader>)
    requires
        pos <= bytes@.len(),
    ensures
        r == header_at(bytes@, big, pos as int),
{
    if bytes.len() - pos < 12 {
        None
    } else {
        Some(
            ChunkHeader {
                signature: word_of(bytes, big, pos),
                version: word_of(bytes, big, pos + 4),
                size: word_of(bytes, big, pos + 8),
            },
        )
    }
}

/// What a chunk of the kind `signature` at `pos` holds, its version, and where it
/// ends.
pub open spec fn content_at(
    bytes: Seq<u8>,
    big: bool,
    signature: u32,
    pos: int,
) -> Result<(u32, Seq<u8>, int), TagReadError> {
    match header_at(bytes, big, pos) {
        None => Err(TagReadError::UnexpectedEnd),
        Some(h) => if h.signature != signature {
            Err(
                TagReadError::BadChunkSignature {
                    offset: pos as u64,
                    expected: signature,
                    got: h.signature,
                },
            )
        } else if pos + 12 + h.size > bytes.len() {
            Err(TagReadError::UnexpectedEnd)
        } else {
            Ok((h.version, bytes.subrange(pos + 12, pos + 12 + h.size), pos + 12 + h.size))
        },
    }
}

/// The same of a chunk whose only version is zero.
pub open spec fn plain_content_at(
    bytes: Seq<u8>,
    big: bool,
    signature: u32,
    chunk: ChunkName,
    pos: int,
) -> Result<(Seq<u8>, int), TagReadError> {
    match content_at(bytes, big, signature, pos) {
        Err(e) => Err(e),
        Ok((version, content, end)) => if version != 0 {
            Err(TagReadError::BadChunkVersion { chunk, version })
        } else {
            Ok((content, end))
        },
    }
}

/// The views of what was read.
pub open spec fn content_view(r: Result<(u32, Vec<u8>, usize), TagReadError>) -> Result<
    (u32, Seq<u8>, int),
    TagReadError,
> {
    match r {
        Ok((version, content, end)) => Ok((version, content@, end as int)),
        Err(e) => Err(e),
    }
}

pub open spec fn plain_content_view(r: Result<(Vec<u8>, usize), TagReadError>) -> Result<
    (Seq<u8>, int),
    TagReadError,
> {
    match r {
        Ok((content, end)) => Ok((content@, end as int)),
        Err(e) => Err(e),
    }
}

/// Reads a chunk of the kind `signature`.
pub fn read_tag_chunk_content(bytes: &Vec<u8>, big: bool, signature: u32, pos: usize) -> (r: Result<
    (u32, Vec<u8>, usize),
    TagReadError,
>)
    requires
        pos <= bytes@.len(),
        in_memory(bytes@),
    ensures
        content_view(r) == content_at(bytes@, big, signature, pos as int),
{
    match read_chunk_header(bytes, big, pos) {
        None => Err(TagReadError::UnexpectedEnd),
        Some(h) => {
            if h.signature != signature {
                return Err(
                    TagReadError::BadChunkSignature {
                        offset: pos as u64,
                        expected: signature,
                        got: h.signature,
                    },
                );
            }
            let left: usize = bytes.len() - pos - 12;
            if (left as u64) < h.size as u64 {
                return Err(TagReadError::UnexpectedEnd);
            }
            let end: usize = pos + 12 + h.size as usize;
            Ok((h.version, copy_of_range(bytes, pos + 12, end), end))
        },
    }
}

pub fn read_plain_content(
    bytes: &Vec<u8>,
    big: bool,
    signature: u32,
    chunk: ChunkName,
    pos: usize,
) -> (r: Result<(Vec<u8>, usize), TagReadError>)
    requires
        pos <= bytes@.len(),
        in_memory(bytes@),
    ensures
        plain_content_view(r) == plain_content_at(bytes@, big, signature, chunk, pos as int),
{
    match read_tag_chunk_content(bytes, big, signature, pos) {
        Err(e) => Err(e),
        Ok((version, content, end)) => if version != 0 {
            Err(TagReadError::BadChunkVersion { chunk, version })
        } else {
            Ok((content, end))
        },
    }
}

/// The header at `pos` of a chunk whose kind is `signature` and whose only version
/// is zero.
pub open spec fn validated_header_at(
    bytes: Seq<u8>,
    big: bool,
    signature: u32,
    chunk: ChunkName,
    pos: int,
) -> Result<u32, TagReadError> {
    match header_at(bytes, big, pos) {
        None => Err(TagReadError::UnexpectedEnd),
        Some(h) => if h.signature != signature {
            Err(
                TagReadError::BadChunkSignature {
                    offset: pos as u64,
                    expected: signature,
                    got: h.signature,
                },
            )
        } else if h.version != 0 {
            Err(TagReadError::BadChunkVersion { chunk, version: h.version })
        } else {
            Ok(h.size)
        },
    }
}

/// Reads such a header: the size of the chunk.
pub fn read_validated_chunk_header(
    bytes: &Vec<u8>,
    big: bool,
    signature: u32,
    chunk: ChunkName,
    pos: usize,
) -> (r: Result<u32, TagReadError>)
    requires
        pos <= bytes@.len(),
        in_memory(bytes@),
    ensures
        r == validated_header_at(bytes@, big, signature, chunk, pos as int),
{
    match read_chunk_header(bytes, big, pos) {
        None => Err(TagReadError::UnexpectedEnd),
        Some(h) => if h.signature != signature {
            Err(
                TagReadError::BadChunkSignature {
                    offset: pos as u64,
                    expected: signature,
                    got: h.signature,
                },
            )
        } else if h.version != 0 {
            Err(TagReadError::BadChunkVersion { chunk, version: h.version })
        } else {
            Ok(h.size)
        },
    }
}

/// The fault of a chunk that does not end where its header says.
pub open spec fn end_fault(chunk: ChunkName, start: int, size: u32, end: int) -> Option<
    TagReadError,
> {
    if end != start + size {
        Some(
            TagReadError::ChunkSizeMismatch {
                chunk,
                started_at: start as u64,
                ended_at: end as u64,
                expected_end: (start + size) as u64,
            },
        )
    } else {
        None
    }
}

/// Checks that a chunk ends where its header says.
pub fn check_chunk_end(chunk: ChunkName, start: usize, size: u32, end: usize) -> (r: Option<
    TagReadError,
>)
    requires
        start <= 0x7fff_ffff_ffff_ffff,
    ensures
        r == end_fault(chunk, start as int, size, end as int),
{
    let wanted: u64 = start as u64 + size as u64;
    if end as u64 != wanted {
        Some(
            TagReadError::ChunkSizeMismatch {
                chunk,
                started_at: start as u64,
                ended_at: end as u64,
                expected_end: wanted,
            },
        )
    } else {
        None
    }
}

}
