//! A tag file: its header, its layout and its root struct.
use crate::data::copy_bytes_option;
use crate::fields::{copy_text_option, text_option};
use crate::json::bytes_option;
use crate::layout::{LayoutView, TagLayout};
use crate::tag::{StructView, TagStruct, fresh_struct, fresh_struct_of};
use vstd::prelude::*;

verus! {

/// The fields of a tag file's header that the library reads or writes.
#[derive(Clone, Copy, Debug, PartialEq, Eq, Structural)]
pub struct TagFileHeader {
    pub group_tag: u32,
    pub group_version: u32,
    pub checksum: u32,
    pub build_version: i32,
    pub build_number: i32,
    /// The source revision of the file; all ones where none is known.
    pub version: u32,
}

/// A tag file in memory.
#[derive(Debug, PartialEq, Eq)]
pub struct TagFile {
    pub header: TagFileHeader,
    /// Whether the file's numbers are big-endian.
    pub big_endian: bool,
    /// The engine of a file in the classic container, by its name; none for a file
    /// in the modern one.
    pub classic: Option<String>,
    pub layout: TagLayout,
    pub root: TagStruct,
    /// The streams behind the tag itself, as they lie in the file.
    pub dependency_list: Option<Vec<u8>>,
    pub import_info: Option<Vec<u8>>,
    pub asset_depot_storage: Option<Vec<u8>>,
}

/// A tag file as contracts speak of it.
pub ghost struct FileView {
    pub header: TagFileHeader,
    pub big_endian: bool,
    pub classic: Option<Seq<char>>,
    pub layout: LayoutView,
    pub root: StructView,
    pub dependency_list: Option<Seq<u8>>,
    pub import_info: Option<Seq<u8>>,
    pub asset_depot_storage: Option<Seq<u8>>,
}

impl TagFile {
    pub open spec fn view(&self) -> FileView {
        FileView {
            header: self.header,
            big_endian: self.big_endian,
            classic: text_option(self.classic),
            layout: self.layout@,
            root: self.root@,
            dependency_list: bytes_option(self.dependency_list),
            import_info: bytes_option(self.import_info),
            asset_depot_storage: bytes_option(self.asset_depot_storage),
        }
    }

    /// A copy of the file.
    pub fn duplicate(&self) -> (r: TagFile)
        ensures
            r@ == self@,
    {
        TagFile {
            header: self.header,
            big_endian: self.big_endian,
            classic: copy_text_option(&self.classic),
            layout: self.layout.duplicate(),
            root: self.root.duplicate(),
            dependency_list: copy_bytes_option(&self.dependency_list),
            import_info: copy_bytes_option(&self.import_info),
            asset_depot_storage: copy_bytes_option(&self.asset_depot_storage),
        }
    }

    /// A file of the layout's group with a fresh root: little-endian, and no
    /// generation in its header.
    pub fn new(group_tag: u32, group_version: u32, layout: TagLayout) -> (r: TagFile)
        requires
            layout@.wf(),
        ensures
            r@ == fresh_file(group_tag, group_version, layout@),
    {
        let root_struct: u32 =
            layout.block_layouts[layout.tag_group_block_index as usize].struct_index;
        let root: TagStruct = fresh_struct_of(&layout, root_struct);
        TagFile {
            header: TagFileHeader {
                group_tag,
                group_version,
                checksum: 0,
                build_version: 0,
                build_number: 0,
                version: 0,
            },
            big_endian: false,
            classic: None,
            layout,
            root,
            dependency_list: None,
            import_info: None,
            asset_depot_storage: None,
        }
    }
}

/// A new file of a group.
pub open spec fn fresh_file(group_tag: u32, group_version: u32, layout: LayoutView) -> FileView {
    FileView {
        header: TagFileHeader {
            group_tag,
            group_version,
            checksum: 0,
            build_version: 0,
            build_number: 0,
            version: 0,
        },
        big_endian: false,
        classic: None,
        layout,
        root: fresh_struct(layout, layout.blocks[layout.group_block as int].struct_index),
        dependency_list: None,
        import_info: None,
        asset_depot_storage: None,
    }
}

}
