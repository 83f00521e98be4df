//! What a conversion reads: the groups and schemas of the two games, the kit's
//! own tags to start from, and the catalog of reviewed mappings.
use crate::convert::answers::{EngineAnswers, EngineAnswersView};
use crate::convert::catalog::{ConversionMappingCatalog, resolve_target_group, target_group};
use crate::convert::groups::{GameTagIndex, GroupsView, place_of_tag};
use crate::convert::schema::{AliasesView, SchemaFieldAliases, pair_views};
use crate::fields::{flag_names, text_option};
use crate::file::TagFile;
use crate::guid::{format_group_tag, group_tag_text};
use crate::layout::{LayoutView, TagLayout};
use crate::text::{concat2, concat3, concat4, copy, same};
use vstd::prelude::*;

verus! {

/// The schema of a group: its layout, and what it says of its fields.
#[derive(Debug, PartialEq, Eq)]
pub struct GroupSchema {
    pub group_name: String,
    pub group_tag: u32,
    pub group_version: u32,
    /// The layout that the schema describes, or why it describes none.
    pub layout: Result<TagLayout, String>,
    pub aliases: SchemaFieldAliases,
}

/// The definitions of a game.
#[derive(Debug, PartialEq, Eq)]
pub struct GameDefinitions {
    pub game: String,
    /// The folder that the definitions lie in, as it is shown.
    pub folder: String,
    pub groups: GameTagIndex,
    pub schemas: Vec<GroupSchema>,
    /// Why the schemas of groups could not be read.
    pub schema_faults: Vec<(String, String)>,
    /// The file extensions of groups that go by another name than their group.
    pub extensions: Vec<(u32, String)>,
    /// Whether there is a schema for the list of a tag's dependencies.
    pub has_dependency_schema: bool,
}

/// A tag of the editing kit, as far as it could be read.
#[derive(Debug, PartialEq, Eq)]
pub struct NativeTemplate {
    pub path: String,
    pub tag: Option<TagFile>,
    /// Why the tag, emptied to start another from, cannot be written.
    pub unwritable: Option<String>,
}

/// The editing kit's tags of a game, by group.
#[derive(Debug, PartialEq, Eq, Default)]
pub struct NativeTemplateIndex {
    pub by_group: Vec<(u32, Vec<NativeTemplate>)>,
}

/// What a conversion reads.
pub struct ConversionEnvironment<'a> {
    pub source_groups: &'a GameTagIndex,
    pub target: &'a GameDefinitions,
    pub templates: Option<&'a NativeTemplateIndex>,
    pub source_field_aliases: &'a SchemaFieldAliases,
    pub target_field_aliases: &'a SchemaFieldAliases,
    pub mapping_catalog: &'a ConversionMappingCatalog,
    pub answers: &'a EngineAnswers,
    pub source_layout: &'a TagLayout,
    pub source_game: &'a str,
    pub target_game: &'a str,
    pub group_name: &'a str,
}

/// What a conversion reads, as contracts speak of it.
pub ghost struct EnvironmentView {
    pub source_groups: GroupsView,
    pub target: GameDefinitions,
    pub templates: Option<Map<u32, Seq<NativeTemplate>>>,
    pub source_field_aliases: AliasesView,
    pub target_field_aliases: AliasesView,
    pub mapping_catalog: ConversionMappingCatalog,
    pub answers: EngineAnswersView,
    pub source_layout: LayoutView,
    pub source_game: Seq<char>,
    pub target_game: Seq<char>,
    pub group_name: Seq<char>,
}

/// The view of an optional index of templates.
pub open spec fn templates_option(v: Option<&NativeTemplateIndex>) -> Option<
    Map<u32, Seq<NativeTemplate>>,
> {
    match v {
        Some(index) => Some(index@),
        None => None,
    }
}

impl<'a> ConversionEnvironment<'a> {
    pub open spec fn view(&self) -> EnvironmentView {
        EnvironmentView {
            source_groups: self.source_groups@,
            target: *self.target,
            templates: templates_option(self.templates),
            source_field_aliases: self.source_field_aliases@,
            target_field_aliases: self.target_field_aliases@,
            mapping_catalog: *self.mapping_catalog,
            answers: self.answers@,
            source_layout: self.source_layout@,
            source_game: self.source_game@,
            target_game: self.target_game@,
            group_name: self.group_name@,
        }
    }
}

/// The position of a group in an index at or behind `from`.
pub open spec fn group_place(
    by_group: Seq<(u32, Vec<NativeTemplate>)>,
    tag: u32,
    from: nat,
) -> Option<nat>
    decreases by_group.len() - from,
{
    if from >= by_group.len() {
        None
    } else if by_group[from as int].0 == tag {
        Some(from)
    } else {
        group_place(by_group, tag, from + 1)
    }
}

impl NativeTemplateIndex {
    /// The kit's tags of a group.
    pub open spec fn of_group(&self, tag: u32) -> Seq<NativeTemplate> {
        match group_place(self.by_group@, tag, 0) {
            Some(p) => self.by_group@[p as int].1@,
            None => Seq::empty(),
        }
    }

    /// The kit's tags of every group.
    pub open spec fn view(&self) -> Map<u32, Seq<NativeTemplate>> {
        Map::new(|tag: u32| true, |tag: u32| self.of_group(tag))
    }
}

/// The position of the schema of `group` at or behind `from`.
pub open spec fn schema_place(schemas: Seq<GroupSchema>, group: Seq<char>, from: nat) -> Option<nat>
    decreases schemas.len() - from,
{
    if from >= schemas.len() {
        None
    } else if schemas[from as int].group_name@ == group {
        Some(from)
    } else {
        schema_place(schemas, group, from + 1)
    }
}

/// The file extension of a group: its own, or the name of the group.
pub open spec fn extension_in(
    extensions: Seq<(u32, Seq<char>)>,
    tag: u32,
    group_name: Seq<char>,
) -> Seq<char> {
    match place_of_tag(extensions, tag, 0) {
        Some(p) => extensions[p as int].1,
        None => group_name,
    }
}

/// What a table says under `key`, at or behind `from`.
pub open spec fn said_from(table: Seq<(Seq<char>, Seq<char>)>, key: Seq<char>, from: nat) -> Option<
    Seq<char>,
>
    decreases table.len() - from,
{
    if from >= table.len() {
        None
    } else if table[from as int].0 == key {
        Some(table[from as int].1)
    } else {
        said_from(table, key, from + 1)
    }
}

/// What a table says under `key`.
pub fn said_of(table: &Vec<(String, String)>, key: &str) -> (r: Option<String>)
    ensures
        text_option(r) == said_from(pair_views(table@), key@, 0),
{
    let mut i: usize = 0;
    while i < table.len()
        invariant
            i <= table.len(),
            said_from(pair_views(table@), key@, 0) == said_from(
                pair_views(table@),
                key@,
                i as nat,
            ),
        decreases table.len() - i,
    {
        if same(&table[i].0, key) {
            return Some(copy(&table[i].1));
        }
        i = i + 1;
    }
    None
}

/// Where the schema of a group lies.
pub open spec fn schema_path(d: GameDefinitions, group: Seq<char>) -> Seq<char> {
    d.folder@ + "/"@ + group + ".json"@
}

/// Why the schema of a group could not be read.
pub open spec fn schema_fault(d: GameDefinitions, group: Seq<char>) -> Seq<char> {
    match said_from(pair_views(d.schema_faults@), group, 0) {
        Some(message) => message,
        None => "Could not read "@ + schema_path(d, group),
    }
}

/// The layout of a schema, where it holds together; or why there is none.
pub open spec fn layout_of_schema(schema: GroupSchema) -> Result<LayoutView, Seq<char>> {
    match schema.layout {
        Ok(layout) => if layout@.wf() {
            Ok(layout@)
        } else {
            Err("the tables of the layout do not fit together"@)
        },
        Err(why) => Err(why@),
    }
}

impl GameDefinitions {
    /// Where the schema of a group lies.
    pub fn path_of_schema(&self, group: &str) -> (r: String)
        ensures
            r@ == schema_path(*self, group@),
    {
        concat4(&self.folder, "/", group, ".json")
    }

    /// Why the schema of a group could not be read.
    pub fn fault_of_schema(&self, group: &str) -> (r: String)
        ensures
            r@ == schema_fault(*self, group@),
    {
        match said_of(&self.schema_faults, group) {
            Some(message) => message,
            None => {
                let path: String = self.path_of_schema(group);
                concat2("Could not read ", &path)
            },
        }
    }

    /// The schema of a group.
    pub fn schema_of(&self, group: &str) -> (r: Option<&GroupSchema>)
        ensures
            match r {
                Some(schema) => schema_place(self.schemas@, group@, 0) matches Some(p) && p
                    < self.schemas@.len() && *schema == self.schemas@[p as int],
                None => schema_place(self.schemas@, group@, 0) is None,
            },
    {
        let mut i: usize = 0;
        while i < self.schemas.len()
            invariant
                i <= self.schemas.len(),
                schema_place(self.schemas@, group@, 0) == schema_place(
                    self.schemas@,
                    group@,
                    i as nat,
                ),
            decreases self.schemas.len() - i,
        {
            if same(&self.schemas[i].group_name, group) {
                return Some(&self.schemas[i]);
            }
            i = i + 1;
        }
        None
    }

    /// The file extension of the tags of a group.
    pub fn extension_of(&self, tag: u32, group_name: &str) -> (r: String)
        ensures
            r@ == extension_in(flag_names(self.extensions@), tag, group_name@),
    {
        let ghost all = flag_names(self.extensions@);
        let mut i: usize = 0;
        while i < self.extensions.len()
            invariant
                i <= self.extensions.len(),
                all == flag_names(self.extensions@),
                place_of_tag(all, tag, 0) == place_of_tag(all, tag, i as nat),
            decreases self.extensions.len() - i,
        {
            assert(all[i as int] == (self.extensions@[i as int].0, self.extensions@[i as int].1@));
            if self.extensions[i].0 == tag {
                return copy(&self.extensions[i].1);
            }
            i = i + 1;
        }
        copy(group_name)
    }
}

/// The tag that a source reference's group becomes in the target game, or why it
/// becomes none.
pub open spec fn reference_group(env: EnvironmentView, group: u32) -> Result<u32, Seq<char>> {
    match env.source_groups.name_of(group) {
        None => Err("Source reference group "@ + group_tag_text(group) + " is unknown"@),
        Some(name) => match target_group(
            env.mapping_catalog,
            env.target.groups@,
            name,
            env.source_game,
            env.target_game,
        ) {
            None => Err("Target profile has no "@ + name + " reference group"@),
            Some((tag, _)) => Ok(tag),
        },
    }
}

pub fn reference_group_of(env: &ConversionEnvironment, group: u32) -> (r: Result<u32, String>)
    ensures
        match r {
            Ok(tag) => reference_group(env@, group) == Ok::<u32, Seq<char>>(tag),
            Err(message) => reference_group(env@, group) == Err::<u32, Seq<char>>(message@),
        },
{
    match env.source_groups.name_of(group) {
        None => {
            let tag: String = format_group_tag(group);
            Err(concat3("Source reference group ", &tag, " is unknown"))
        },
        Some(name) => match resolve_target_group(
            name,
            &env.target.groups,
            env.mapping_catalog,
            env.source_game,
            env.target_game,
        ) {
            None => Err(concat3("Target profile has no ", name, " reference group")),
            Some((tag, _)) => Ok(tag),
        },
    }
}

}
