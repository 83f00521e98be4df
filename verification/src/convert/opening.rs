//! Opening a tag of an editing kit. A classic container carries no layout of its own:
//! it is opened with the one that its game's definition of the group describes.
use crate::convert::catalog::str_option;
use crate::file::{FileView, TagFile};
use crate::text::{concat2, concat4, concat5, copy};
use vstd::prelude::*;

verus! {

/// The definition that a classic tag is opened with, or what is missing to find it.
pub open spec fn definition_for(
    game: Option<Seq<char>>,
    definitions_root: Option<Seq<char>>,
    extension: Option<Seq<char>>,
) -> Result<Seq<char>, Seq<char>> {
    match (game, definitions_root, extension) {
        (None, _, _) => Err("classic tag requires a detected game profile"@),
        (Some(_), None, _) => Err("classic tag requires a definitions root"@),
        (Some(_), Some(_), None) => Err("unknown group for classic tag layout"@),
        (Some(game), Some(root), Some(extension)) => Ok(
            root + "/"@ + game + "/"@ + (extension + ".json"@),
        ),
    }
}

/// The path of the definition that a classic tag is opened with. `extension` is that
/// of the files of the tag's group.
pub fn classic_definition(
    game: Option<&str>,
    definitions_root: Option<&str>,
    extension: Option<&str>,
) -> (r: Result<String, String>)
    ensures
        match (definition_for(str_option(game), str_option(definitions_root), str_option(extension)), r) {
            (Ok(path), Ok(text)) => text@ == path,
            (Err(why), Err(text)) => text@ == why,
            _ => false,
        },
{
    let game: &str = match game {
        Some(game) => game,
        None => {
            return Err(copy("classic tag requires a detected game profile"));
        },
    };
    let root: &str = match definitions_root {
        Some(root) => root,
        None => {
            return Err(copy("classic tag requires a definitions root"));
        },
    };
    match extension {
        Some(extension) => {
            let file: String = concat2(extension, ".json");
            Ok(concat5(root, "/", game, "/", &file))
        },
        None => Err(copy("unknown group for classic tag layout")),
    }
}

/// What opening the file of a tag has given.
#[derive(Debug, PartialEq, Eq)]
pub enum TagReading {
    /// The bytes could not be read.
    Unreadable(String),
    Modern(Result<TagFile, String>),
    /// No definition was found for a classic container.
    Undefined(String),
    /// The definition describes no layout.
    NoLayout { definition: String, why: String },
    Classic(Result<TagFile, String>),
}

/// The tag that was opened, or why none was.
pub open spec fn tag_read(path: Seq<char>, reading: TagReading) -> Result<FileView, Seq<char>> {
    match reading {
        TagReading::Unreadable(why) => Err("Could not read "@ + path + ": "@ + why@),
        TagReading::Modern(Ok(tag)) => Ok(tag@),
        TagReading::Modern(Err(why)) => Err("Could not read "@ + path + ": "@ + why@),
        TagReading::Undefined(why) => Err(why@),
        TagReading::NoLayout { definition, why } => Err(
            "failed to load classic layout "@ + definition@ + ": "@ + why@,
        ),
        TagReading::Classic(Ok(tag)) => Ok(tag@),
        TagReading::Classic(Err(why)) => Err("failed to decode classic tag: "@ + why@),
    }
}

/// The tag at `path`, given what opening it has given.
pub fn read_tag_for_conversion(path: &str, reading: TagReading) -> (r: Result<TagFile, String>)
    ensures
        match (tag_read(path@, reading), r) {
            (Ok(file), Ok(tag)) => tag@ == file,
            (Err(why), Err(text)) => text@ == why,
            _ => false,
        },
{
    match reading {
        TagReading::Unreadable(why) => Err(concat4("Could not read ", path, ": ", &why)),
        TagReading::Modern(Ok(tag)) => Ok(tag),
        TagReading::Modern(Err(why)) => Err(concat4("Could not read ", path, ": ", &why)),
        TagReading::Undefined(why) => Err(why),
        TagReading::NoLayout { definition, why } => Err(
            concat4("failed to load classic layout ", &definition, ": ", &why),
        ),
        TagReading::Classic(Ok(tag)) => Ok(tag),
        TagReading::Classic(Err(why)) => Err(concat2("failed to decode classic tag: ", &why)),
    }
}

}
