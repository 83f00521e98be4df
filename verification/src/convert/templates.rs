//! What a conversion starts its target from: a tag of the editing kit, emptied,
//! or a fresh tag of the schema.
use crate::convert::defaults::{
    aliases_option, initialize_block_index_defaults, nulled_struct, reset_file,
    reset_tag_to_defaults,
};
use crate::convert::environment::{
    ConversionEnvironment, EnvironmentView, GameDefinitions, GroupSchema, NativeTemplate,
    NativeTemplateIndex, extension_in, group_place, layout_of_schema, schema_fault, schema_path,
    schema_place,
};
use crate::convert::report::{CompanionTagDraft, CompanionView};
use crate::convert::schema::{AliasesView, SchemaFieldAliases};
use crate::fields::{flag_names, text_option};
use crate::file::{FileView, TagFile, TagFileHeader, fresh_file};
use crate::games::{CAMPAIGN_EVOLVED_GAME, classic_conversion_games, classic_games};
use crate::keys::{nodes_of, path_nodes};
use crate::layout::{LayoutView, TagLayout};
use crate::text::{
    chars_of, concat2, concat4, contains_text, copy, eq_ignoring_case, last_piece, lower, lowered,
    pieces, same, same_ignoring_case, split_text, text_after_last, texts,
};
use vstd::prelude::*;

verus! {

// ---------------------------------------------------------------------------
// The generation in the header
// ---------------------------------------------------------------------------
/// The build version, the build number and the source revision that every
/// shipped Campaign Evolved tag carries.
pub const CAMPAIGN_EVOLVED_GENERATION: (i32, i32, u32) = (1, 2, u32::MAX);

/// The build number that a game's kit expects in the header of a fresh tag.
pub open spec fn build_number(game: Seq<char>) -> Option<i32> {
    if game == "halo3_mcc"@ || game == "halo3odst_mcc"@ {
        Some(1i32)
    } else if game == "haloreach_mcc"@ || game == "halo4_mcc"@ || game == "halo2amp_mcc"@ || game
        == "haloce_evolved"@ {
        Some(2i32)
    } else {
        None
    }
}

/// A header with the generation that a game's kit expects; a classic header has
/// none to stamp.
pub open spec fn stamped(header: TagFileHeader, game: Seq<char>) -> Result<
    TagFileHeader,
    Seq<char>,
> {
    if classic_games().contains(game) {
        Ok(header)
    } else {
        match build_number(game) {
            Some(number) => Ok(
                TagFileHeader {
                    build_version: 1,
                    build_number: number,
                    version: u32::MAX,
                    ..header
                },
            ),
            None => Err("No MCC tag-header defaults are known for "@ + game),
        }
    }
}

/// Stamps a fresh tag with the header generation that the editing kit expects.
pub fn apply_editing_kit_mcc_header(tag: &mut TagFile, game: &str) -> (r: Result<(), String>)
    ensures
        match stamped(old(tag)@.header, game@) {
            Ok(header) => r is Ok && final(tag)@ == (FileView { header, ..old(tag)@ }),
            Err(message) => r matches Err(m) && m@ == message && final(tag)@ == old(tag)@,
        },
{
    if contains_text(&classic_conversion_games(), game) {
        return Ok(());
    }
    let number: i32 = if same(game, "halo3_mcc") || same(game, "halo3odst_mcc") {
        1
    } else if same(game, "haloreach_mcc") || same(game, "halo4_mcc") || same(game, "halo2amp_mcc")
        || same(game, "haloce_evolved") {
        2
    } else {
        return Err(concat2("No MCC tag-header defaults are known for ", game));
    };
    tag.header.build_version = 1;
    tag.header.build_number = number;
    tag.header.version = u32::MAX;
    Ok(())
}

/// Stamping a header twice is stamping it once.
pub proof fn stamping_is_idempotent(header: TagFileHeader, game: Seq<char>)
    ensures
        stamped(header, game) matches Ok(once) ==> stamped(once, game) == Ok::<
            TagFileHeader,
            Seq<char>,
        >(once),
{
}

/// Whether a header marks its tag as one of the kit's own, worth starting from.
pub open spec fn native_header(header: TagFileHeader, game: Seq<char>) -> bool {
    if game == CAMPAIGN_EVOLVED_GAME@ {
        header.build_version == 1 && header.build_number == 2 && header.version == u32::MAX
    } else {
        header.version != u32::MAX
    }
}

pub fn accepts_native_header(header: &TagFileHeader, target_game: &str) -> (r: bool)
    ensures
        r == native_header(*header, target_game@),
{
    if same(target_game, CAMPAIGN_EVOLVED_GAME) {
        header.build_version == CAMPAIGN_EVOLVED_GENERATION.0 && header.build_number
            == CAMPAIGN_EVOLVED_GENERATION.1 && header.version == CAMPAIGN_EVOLVED_GENERATION.2
    } else {
        header.version != u32::MAX
    }
}

/// Whether a group's layout has features that only a kit's own tag shows closely
/// enough.
pub open spec fn needs_native_layout(group: Seq<char>) -> bool {
    same_ignoring_case(group, "particle"@) || same_ignoring_case(group, "model"@)
        || same_ignoring_case(group, "biped"@)
}

pub fn requires_native_layout_template(group_name: &str) -> (r: bool)
    ensures
        r == needs_native_layout(group_name@),
{
    eq_ignoring_case(group_name, "particle") || eq_ignoring_case(group_name, "model")
        || eq_ignoring_case(group_name, "biped")
}

// ---------------------------------------------------------------------------
// The kit's tags by group
// ---------------------------------------------------------------------------
/// The extension of a file: what follows the last dot of its name, unless the
/// name begins with that dot.
pub open spec fn file_extension(path: Seq<char>) -> Option<Seq<char>> {
    let parts = pieces(last_piece(path, '/'), '.');
    if parts.len() < 2 || (parts.len() == 2 && parts[0].len() == 0) {
        None
    } else {
        Some(parts.last())
    }
}

fn extension_of_file(path: &str) -> (r: Option<String>)
    ensures
        text_option(r) == file_extension(path@),
{
    let name: String = text_after_last(path, '/');
    let mut parts: Vec<String> = split_text(&name, '.');
    let ghost views = texts(parts@);
    let n: usize = parts.len();
    if n < 2 || (n == 2 && parts[0].as_str().is_empty()) {
        return None;
    }
    assert(views.last() == parts@[n - 1]@);
    parts.pop()
}

/// The group whose tags have the extension `extension`: the last of the first
/// `n` groups.
pub open spec fn group_with_extension(
    groups: Seq<(u32, Seq<char>)>,
    extensions: Seq<(u32, Seq<char>)>,
    extension: Seq<char>,
    n: nat,
) -> Option<u32>
    decreases n,
{
    if n == 0 || n > groups.len() {
        None
    } else {
        let (tag, name) = groups[n - 1];
        if same_ignoring_case(extension_in(extensions, tag, name), extension) {
            Some(tag)
        } else {
            group_with_extension(groups, extensions, extension, (n - 1) as nat)
        }
    }
}

/// The group of a kit file, by its extension.
pub open spec fn group_of_file(definitions: GameDefinitions, path: Seq<char>) -> Option<u32> {
    match file_extension(path) {
        Some(extension) => group_with_extension(
            definitions.groups@.names,
            flag_names(definitions.extensions@),
            extension,
            definitions.groups@.names.len(),
        ),
        None => None,
    }
}

pub fn group_of(definitions: &GameDefinitions, path: &str) -> (r: Option<u32>)
    ensures
        r == group_of_file(*definitions, path@),
{
    let extension: String = match extension_of_file(path) {
        Some(extension) => extension,
        None => {
            return None;
        },
    };
    let ghost names = definitions.groups@.names;
    let ghost extensions = flag_names(definitions.extensions@);
    let mut i: usize = definitions.groups.by_tag.len();
    while i > 0
        invariant
            i <= definitions.groups.by_tag.len(),
            names == definitions.groups@.names,
            extensions == flag_names(definitions.extensions@),
            group_with_extension(names, extensions, extension@, names.len())
                == group_with_extension(names, extensions, extension@, i as nat),
            file_extension(path@) == Some(extension@),
        decreases i,
    {
        i = i - 1;
        let entry: &(u32, String) = &definitions.groups.by_tag[i];
        assert(names[i as int] == (entry.0, entry.1@));
        if eq_ignoring_case(&definitions.extension_of(entry.0, &entry.1), &extension) {
            return Some(entry.0);
        }
    }
    None
}

/// Whether one text comes before another, character by character.
pub open spec fn text_before_text(a: Seq<char>, b: Seq<char>) -> bool
    decreases a.len(),
{
    if b.len() == 0 {
        false
    } else if a.len() == 0 {
        true
    } else if a[0] != b[0] {
        a[0] < b[0]
    } else {
        text_before_text(a.skip(1), b.skip(1))
    }
}

/// Whether one path comes before another, node by node.
pub open spec fn nodes_before(a: Seq<Seq<char>>, b: Seq<Seq<char>>) -> bool
    decreases a.len(),
{
    if b.len() == 0 {
        false
    } else if a.len() == 0 {
        true
    } else if a[0] != b[0] {
        text_before_text(a[0], b[0])
    } else {
        nodes_before(a.skip(1), b.skip(1))
    }
}

/// Whether one path comes before another.
pub open spec fn path_before(a: Seq<char>, b: Seq<char>) -> bool {
    nodes_before(path_nodes(a), path_nodes(b))
}

fn comes_before(a: &str, b: &str) -> (r: bool)
    ensures
        r == text_before_text(a@, b@),
{
    let x: Vec<char> = chars_of(a);
    let y: Vec<char> = chars_of(b);
    let mut i: usize = 0;
    assert(x@.skip(0) =~= x@);
    assert(y@.skip(0) =~= y@);
    while i < x.len() && i < y.len()
        invariant
            i <= x.len(),
            i <= y.len(),
            x@ == a@,
            y@ == b@,
            text_before_text(a@, b@) == text_before_text(a@.skip(i as int), b@.skip(i as int)),
        decreases x.len() - i,
    {
        assert(a@.skip(i as int).skip(1) =~= a@.skip(i + 1));
        assert(b@.skip(i as int).skip(1) =~= b@.skip(i + 1));
        if x[i] != y[i] {
            return x[i] < y[i];
        }
        i = i + 1;
    }
    i < y.len()
}

fn path_comes_before(a: &str, b: &str) -> (r: bool)
    ensures
        r == path_before(a@, b@),
{
    let x: Vec<String> = nodes_of(a);
    let y: Vec<String> = nodes_of(b);
    let ghost xs = texts(x@);
    let ghost ys = texts(y@);
    let mut i: usize = 0;
    assert(xs.skip(0) =~= xs);
    assert(ys.skip(0) =~= ys);
    while i < x.len() && i < y.len()
        invariant
            i <= x.len(),
            i <= y.len(),
            xs == texts(x@),
            ys == texts(y@),
            path_before(a@, b@) == nodes_before(xs.skip(i as int), ys.skip(i as int)),
        decreases x.len() - i,
    {
        assert(xs.skip(i as int).skip(1) =~= xs.skip(i + 1));
        assert(ys.skip(i as int).skip(1) =~= ys.skip(i + 1));
        if !same(&x[i], &y[i]) {
            return comes_before(&x[i], &y[i]);
        }
        i = i + 1;
    }
    i < y.len()
}

/// Where a template goes in a list: before the first that it comes before.
pub open spec fn sorted_place(list: Seq<NativeTemplate>, path: Seq<char>, from: nat) -> nat
    decreases list.len() - from,
{
    if from >= list.len() || path_before(path, list[from as int].path@) {
        from
    } else {
        sorted_place(list, path, from + 1)
    }
}

/// A list with a template put in its place.
pub open spec fn with_template(list: Seq<NativeTemplate>, item: NativeTemplate) -> Seq<
    NativeTemplate,
> {
    let at = sorted_place(list, item.path@, 0);
    if at <= list.len() {
        list.insert(at as int, item)
    } else {
        list
    }
}

/// The kit's tags of a group among `files[from..]`, each put in its place, the
/// last first.
pub open spec fn templates_from(
    definitions: GameDefinitions,
    files: Seq<NativeTemplate>,
    tag: u32,
    from: nat,
) -> Seq<NativeTemplate>
    decreases files.len() - from,
{
    if from >= files.len() {
        Seq::empty()
    } else {
        let rest = templates_from(definitions, files, tag, from + 1);
        if group_of_file(definitions, files[from as int].path@) == Some(tag) {
            with_template(rest, files[from as int])
        } else {
            rest
        }
    }
}

/// The kit's tags of every group, each put in its place.
pub open spec fn kit_by_group(
    definitions: GameDefinitions,
    files: Seq<NativeTemplate>,
) -> Map<u32, Seq<NativeTemplate>> {
    Map::new(|tag: u32| true, |tag: u32| templates_from(definitions, files, tag, 0))
}

impl NativeTemplateIndex {
    fn place_of(&self, tag: u32) -> (r: Option<usize>)
        ensures
            match r {
                Some(p) => p < self.by_group@.len() && group_place(self.by_group@, tag, 0) == Some(
                    p as nat,
                ),
                None => group_place(self.by_group@, tag, 0) is None,
            },
    {
        let mut i: usize = 0;
        while i < self.by_group.len()
            invariant
                i <= self.by_group.len(),
                group_place(self.by_group@, tag, 0) == group_place(self.by_group@, tag, i as nat),
            decreases self.by_group.len() - i,
        {
            if self.by_group[i].0 == tag {
                return Some(i);
            }
            i = i + 1;
        }
        None
    }

    /// Puts a template in its place.
    fn insert(&mut self, tag: u32, item: NativeTemplate)
        ensures
            forall|other: u32|
                #[trigger] final(self).of_group(other) == if other == tag {
                    with_template(old(self).of_group(tag), item)
                } else {
                    old(self).of_group(other)
                },
    {
        let ghost before = *self;
        match self.place_of(tag) {
            Some(p) => {
                let ghost list = self.by_group@[p as int].1@;
                let at: usize = place_in(&self.by_group[p].1, &item.path);
                let (own, mut kept): (u32, Vec<NativeTemplate>) = self.by_group.remove(p);
                kept.insert(at, item);
                self.by_group.insert(p, (own, kept));
                proof {
                    lemma_group_place(before.by_group@, tag, 0);
                    let after = self.by_group@;
                    assert(after =~= before.by_group@.update(p as int, (own, kept)));
                    assert forall|other: u32|
                        #[trigger] self.of_group(other) == if other == tag {
                            with_template(before.of_group(tag), item)
                        } else {
                            before.of_group(other)
                        } by {
                        lemma_same_groups(before.by_group@, after, other, 0);
                        lemma_group_place(before.by_group@, other, 0);
                        lemma_group_place(after, other, 0);
                    }
                }
            },
            None => {
                let mut list: Vec<NativeTemplate> = Vec::new();
                list.push(item);
                self.by_group.push((tag, list));
                proof {
                    let after = self.by_group@;
                    lemma_group_place(before.by_group@, tag, 0);
                    assert(list@ =~= with_template(Seq::empty(), item));
                    assert forall|other: u32|
                        #[trigger] self.of_group(other) == if other == tag {
                            with_template(before.of_group(tag), item)
                        } else {
                            before.of_group(other)
                        } by {
                        lemma_pushed_group(before.by_group@, (tag, list), other, 0);
                        lemma_group_place(before.by_group@, other, 0);
                    }
                }
            },
        }
    }

    /// The kit's tags, each under its group by its extension, in the order of
    /// their paths.
    pub fn build(files: Vec<NativeTemplate>, definitions: &GameDefinitions) -> (r:
        NativeTemplateIndex)
        ensures
            r@ == kit_by_group(*definitions, files@),
    {
        let ghost all = files@;
        let mut rest: Vec<NativeTemplate> = files;
        let mut r: NativeTemplateIndex = NativeTemplateIndex { by_group: Vec::new() };
        while rest.len() > 0
            invariant
                rest@ == all.take(rest@.len() as int),
                rest@.len() <= all.len(),
                forall|tag: u32|
                    #[trigger] r.of_group(tag) == templates_from(
                        *definitions,
                        all,
                        tag,
                        rest@.len(),
                    ),
            decreases rest.len(),
        {
            let ghost n = rest@.len();
            if let Some(item) = rest.pop() {
                assert(item == all[n - 1]);
                assert(rest@ =~= all.take(n - 1));
                if let Some(tag) = group_of(definitions, &item.path) {
                    r.insert(tag, item);
                }
            }
        }
        assert(r@ =~= kit_by_group(*definitions, all)) by {
            assert forall|tag: u32| #[trigger] r@[tag] == kit_by_group(*definitions, all)[tag] by {
                assert(r.of_group(tag) == templates_from(*definitions, all, tag, 0));
            }
        }
        r
    }
}

fn place_in(list: &Vec<NativeTemplate>, path: &str) -> (r: usize)
    ensures
        r <= list.len(),
        r == sorted_place(list@, path@, 0),
{
    let mut i: usize = 0;
    while i < list.len() && !path_comes_before(path, &list[i].path)
        invariant
            i <= list.len(),
            sorted_place(list@, path@, 0) == sorted_place(list@, path@, i as nat),
        decreases list.len() - i,
    {
        i = i + 1;
    }
    i
}

proof fn lemma_group_place(by_group: Seq<(u32, Vec<NativeTemplate>)>, tag: u32, from: nat)
    ensures
        match group_place(by_group, tag, from) {
            Some(p) => from <= p < by_group.len() && by_group[p as int].0 == tag,
            None => forall|i: int| from <= i < by_group.len() ==> (#[trigger] by_group[i]).0 != tag,
        },
    decreases by_group.len() - from,
{
    if from < by_group.len() && by_group[from as int].0 != tag {
        lemma_group_place(by_group, tag, from + 1);
    }
}

proof fn lemma_same_groups(
    a: Seq<(u32, Vec<NativeTemplate>)>,
    b: Seq<(u32, Vec<NativeTemplate>)>,
    tag: u32,
    from: nat,
)
    requires
        a.len() == b.len(),
        forall|i: int| 0 <= i < a.len() ==> (#[trigger] a[i]).0 == b[i].0,
    ensures
        group_place(a, tag, from) == group_place(b, tag, from),
    decreases a.len() - from,
{
    if from < a.len() && a[from as int].0 != tag {
        lemma_same_groups(a, b, tag, from + 1);
    }
}

proof fn lemma_pushed_group(
    a: Seq<(u32, Vec<NativeTemplate>)>,
    item: (u32, Vec<NativeTemplate>),
    tag: u32,
    from: nat,
)
    requires
        from <= a.len(),
    ensures
        group_place(a.push(item), tag, from) == match group_place(a, tag, from) {
            Some(p) => Some(p),
            None => if item.0 == tag {
                Some(a.len())
            } else {
                None
            },
        },
    decreases a.len() - from,
{
    if from < a.len() {
        assert(a.push(item)[from as int] == a[from as int]);
        if a[from as int].0 != tag {
            lemma_pushed_group(a, item, tag, from + 1);
        }
    } else {
        assert(a.push(item)[from as int] == item);
        assert(group_place(a.push(item), tag, from + 1) is None);
    }
}

// ---------------------------------------------------------------------------
// Picking a template
// ---------------------------------------------------------------------------
/// How many candidates of a group are looked at.
pub const NATIVE_TEMPLATE_SCAN_LIMIT: usize = 256;

/// What looking for a template gives: one, none, or why the search ends.
pub type TemplateFound = Result<Option<(FileView, Seq<char>)>, Seq<char>>;

/// A candidate emptied, where it can be started from: a readable tag of the
/// group, in the container and of the generation of the game. A modern one that
/// cannot be written once it is emptied ends the search.
pub open spec fn usable_template(
    candidate: NativeTemplate,
    tag: u32,
    game: Seq<char>,
    managed: Option<AliasesView>,
) -> TemplateFound {
    match candidate.tag {
        Some(file) => {
            let classic = classic_games().contains(game);
            let fits = file.header.group_tag == tag && if classic {
                file.classic is Some
            } else {
                file.classic is None && !file.big_endian && native_header(file.header, game)
            };
            let (emptied, fault) = reset_file(file@, managed);
            if !fits || fault is Some {
                Ok(None)
            } else {
                match candidate.unwritable {
                    Some(why) => if classic {
                        Ok(Some((emptied, candidate.path@)))
                    } else {
                        Err(
                            "Could not cache native template "@ + candidate.path@ + ": "@ + why@,
                        )
                    },
                    None => Ok(Some((emptied, candidate.path@))),
                }
            }
        },
        None => Ok(None),
    }
}

/// The first usable candidate at or behind `from`.
pub open spec fn first_template(
    list: Seq<NativeTemplate>,
    tag: u32,
    game: Seq<char>,
    managed: Option<AliasesView>,
    from: nat,
) -> TemplateFound
    decreases list.len() - from,
{
    if from >= list.len() || from >= NATIVE_TEMPLATE_SCAN_LIMIT {
        Ok(None)
    } else {
        match usable_template(list[from as int], tag, game, managed) {
            Ok(None) => first_template(list, tag, game, managed, from + 1),
            found => found,
        }
    }
}

/// The view of an optional template.
pub open spec fn template_option(v: Option<(TagFile, String)>) -> Option<(FileView, Seq<char>)> {
    match v {
        Some((file, path)) => Some((file@, path@)),
        None => None,
    }
}

/// The view of what a search has given.
pub open spec fn template_found(r: Result<Option<(TagFile, String)>, String>) -> TemplateFound {
    match r {
        Ok(found) => Ok(template_option(found)),
        Err(message) => Err(message@),
    }
}

fn use_template(
    candidate: &NativeTemplate,
    tag: u32,
    game: &str,
    classic: bool,
    managed: Option<&SchemaFieldAliases>,
) -> (r: Result<Option<(TagFile, String)>, String>)
    requires
        classic == classic_games().contains(game@),
    ensures
        template_found(r) == usable_template(*candidate, tag, game@, aliases_option(managed)),
{
    match &candidate.tag {
        Some(file) => {
            let fits = file.header.group_tag == tag && if classic {
                file.classic.is_some()
            } else {
                file.classic.is_none() && !file.big_endian && accepts_native_header(
                    &file.header,
                    game,
                )
            };
            if !fits {
                return Ok(None);
            }
            let mut emptied: TagFile = file.duplicate();
            match reset_tag_to_defaults(&mut emptied, managed) {
                Ok(()) => {},
                Err(_) => {
                    return Ok(None);
                },
            }
            if !classic {
                if let Some(why) = &candidate.unwritable {
                    return Err(
                        concat4("Could not cache native template ", &candidate.path, ": ", why),
                    );
                }
            }
            Ok(Some((emptied, copy(&candidate.path))))
        },
        None => Ok(None),
    }
}

/// A tag of the editing kit, emptied, to start a tag of the group from.
pub fn find_native_target_template(
    templates: &NativeTemplateIndex,
    target_group_tag: u32,
    target_game: &str,
    managed: Option<&SchemaFieldAliases>,
) -> (r: Result<Option<(TagFile, String)>, String>)
    ensures
        template_found(r) == first_template(
            templates@[target_group_tag],
            target_group_tag,
            target_game@,
            aliases_option(managed),
            0,
        ),
{
    let classic = contains_text(&classic_conversion_games(), target_game);
    let list: &Vec<NativeTemplate> = match templates.place_of(target_group_tag) {
        Some(p) => &templates.by_group[p].1,
        None => {
            return Ok(None);
        },
    };
    let ghost managed_view = aliases_option(managed);
    let mut i: usize = 0;
    while i < list.len() && i < NATIVE_TEMPLATE_SCAN_LIMIT
        invariant
            i <= list.len(),
            classic == classic_games().contains(target_game@),
            managed_view == aliases_option(managed),
            first_template(list@, target_group_tag, target_game@, managed_view, 0)
                == first_template(
                list@,
                target_group_tag,
                target_game@,
                managed_view,
                i as nat,
            ),
            list@ == templates.of_group(target_group_tag),
        decreases list.len() - i,
    {
        match use_template(&list[i], target_group_tag, target_game, classic, managed) {
            Ok(None) => {},
            found => {
                return found;
            },
        }
        i = i + 1;
    }
    Ok(None)
}

/// The kit tag, emptied, that a tag of a group starts from.
pub open spec fn template_for(env: EnvironmentView, tag: u32) -> TemplateFound {
    match env.templates {
        Some(templates) => first_template(
            templates[tag],
            tag,
            env.target_game,
            Some(env.target_field_aliases),
            0,
        ),
        None => Ok(None),
    }
}

pub fn template_in(env: &ConversionEnvironment, tag: u32) -> (r: Result<
    Option<(TagFile, String)>,
    String,
>)
    ensures
        template_found(r) == template_for(env@, tag),
{
    match env.templates {
        Some(templates) => find_native_target_template(
            templates,
            tag,
            env.target_game,
            Some(env.target_field_aliases),
        ),
        None => Ok(None),
    }
}

/// A fresh tag of a schema with the layout `layout`, its block indices at null.
pub open spec fn schema_file(schema: GroupSchema, layout: LayoutView) -> FileView {
    let file = fresh_file(schema.group_tag, schema.group_version, layout);
    FileView { root: nulled_struct(file.root), ..file }
}

/// A fresh tag of a schema, or why there is none.
pub open spec fn file_from_schema(schema: GroupSchema) -> Result<FileView, Seq<char>> {
    match layout_of_schema(schema) {
        Ok(layout) => Ok(schema_file(schema, layout)),
        Err(why) => Err(why),
    }
}

/// The view of a file, or of why there is none.
pub open spec fn file_result(r: Result<TagFile, String>) -> Result<FileView, Seq<char>> {
    match r {
        Ok(file) => Ok(file@),
        Err(why) => Err(why@),
    }
}

/// A fresh tag of a schema, where the schema's layout holds together.
pub fn file_of_schema(schema: &GroupSchema) -> (r: Result<TagFile, String>)
    ensures
        file_result(r) == file_from_schema(*schema),
{
    let layout: &TagLayout = match &schema.layout {
        Ok(layout) => layout,
        Err(why) => {
            return Err(copy(why));
        },
    };
    if !layout.is_valid() {
        return Err(copy("the tables of the layout do not fit together"));
    }
    let mut file: TagFile = TagFile::new(
        schema.group_tag,
        schema.group_version,
        layout.duplicate(),
    );
    initialize_block_index_defaults(&mut file.root);
    Ok(file)
}

/// What a companion of a group starts from, and the template it came from: a kit
/// tag, or a fresh tag of the schema; or why there is neither.
pub open spec fn started_file(
    env: EnvironmentView,
    tag: u32,
    group_name: Seq<char>,
) -> Result<(FileView, Option<Seq<char>>), Seq<char>> {
    let lead = "Could not create companion "@ + group_name + " tag from "@ + (schema_path(
        env.target,
        group_name,
    ) + ": "@);
    match template_for(env, tag) {
        Err(message) => Err(message),
        Ok(Some((file, path))) => Ok((file, Some(path))),
        Ok(None) => match schema_place(env.target.schemas@, group_name, 0) {
            Some(p) => match file_from_schema(env.target.schemas@[p as int]) {
                Ok(file) => Ok((file, None)),
                Err(why) => Err(lead + why),
            },
            None => Err(lead + schema_fault(env.target, group_name)),
        },
    }
}

/// The view of a started file, or of why there is none.
pub open spec fn started_result(v: Result<(TagFile, Option<String>), String>) -> Result<
    (FileView, Option<Seq<char>>),
    Seq<char>,
> {
    match v {
        Ok((file, path)) => Ok((file@, text_option(path))),
        Err(message) => Err(message@),
    }
}

pub fn start_file(env: &ConversionEnvironment, tag: u32, group_name: &str) -> (r: Result<
    (TagFile, Option<String>),
    String,
>)
    ensures
        started_result(r) == started_file(env@, tag, group_name@),
{
    match template_in(env, tag) {
        Err(message) => {
            return Err(message);
        },
        Ok(Some((file, path))) => {
            return Ok((file, Some(path)));
        },
        Ok(None) => {},
    }
    let path: String = env.target.path_of_schema(group_name);
    let place: String = concat2(&path, ": ");
    let lead: String = concat4("Could not create companion ", group_name, " tag from ", &place);
    match env.target.schema_of(group_name) {
        Some(schema) => match file_of_schema(schema) {
            Ok(file) => Ok((file, None)),
            Err(why) => Err(concat2(&lead, &why)),
        },
        None => {
            let why: String = env.target.fault_of_schema(group_name);
            Err(concat2(&lead, &why))
        },
    }
}

// ---------------------------------------------------------------------------
// Companions
// ---------------------------------------------------------------------------
/// A companion tag of a group, or why there is none.
pub open spec fn companion(
    env: EnvironmentView,
    key: Seq<char>,
    file_suffix: Seq<char>,
    group_name: Seq<char>,
) -> Result<CompanionView, Seq<char>> {
    match env.target.groups@.tag_of(lowered(group_name)) {
        None => Err(env.target_game + " has no "@ + group_name + " tag group"@),
        Some(tag) => match started_file(env, tag, group_name) {
            Err(message) => Err(message),
            Ok((file, template)) => match stamped(file.header, env.target_game) {
                Err(message) => Err(message),
                Ok(header) => Ok(
                    CompanionView {
                        key,
                        file_suffix,
                        group_name,
                        extension: extension_in(
                            flag_names(env.target.extensions@),
                            tag,
                            group_name,
                        ),
                        tag: FileView { header, ..file },
                        template,
                    },
                ),
            },
        },
    }
}

/// The view of a companion, or of why there is none.
pub open spec fn companion_result(v: Result<CompanionTagDraft, String>) -> Result<
    CompanionView,
    Seq<char>,
> {
    match v {
        Ok(draft) => Ok(draft@),
        Err(message) => Err(message@),
    }
}

/// Starts a companion tag of a group.
pub fn create_companion_tag(
    key: &str,
    file_suffix: &str,
    group_name: &str,
    env: &ConversionEnvironment,
) -> (r: Result<CompanionTagDraft, String>)
    ensures
        companion_result(r) == companion(env@, key@, file_suffix@, group_name@),
{
    let tag: u32 = match env.target.groups.tag_of(&lower(group_name)) {
        Some(tag) => tag,
        None => {
            return Err(concat4(env.target_game, " has no ", group_name, " tag group"));
        },
    };
    match start_file(env, tag, group_name) {
        Err(message) => Err(message),
        Ok((mut file, template)) => match apply_editing_kit_mcc_header(
            &mut file,
            env.target_game,
        ) {
            Err(message) => Err(message),
            Ok(()) => Ok(
                CompanionTagDraft {
                    key: copy(key),
                    file_suffix: copy(file_suffix),
                    group_name: copy(group_name),
                    extension: env.target.extension_of(tag, group_name),
                    tag: file,
                    native_layout_template: template,
                },
            ),
        },
    }
}

proof fn lemma_no_text_before_itself(a: Seq<char>)
    ensures
        !text_before_text(a, a),
    decreases a.len(),
{
    if a.len() > 0 {
        lemma_no_text_before_itself(a.skip(1));
    }
}

proof fn lemma_text_order(a: Seq<char>, b: Seq<char>, c: Seq<char>)
    requires
        text_before_text(a, b),
        text_before_text(b, c),
    ensures
        text_before_text(a, c),
    decreases a.len(),
{
    if a.len() > 0 && a[0] == b[0] && b[0] == c[0] {
        lemma_text_order(a.skip(1), b.skip(1), c.skip(1));
    }
}

proof fn lemma_node_order(a: Seq<Seq<char>>, b: Seq<Seq<char>>, c: Seq<Seq<char>>)
    requires
        nodes_before(a, b),
        nodes_before(b, c),
    ensures
        nodes_before(a, c),
    decreases a.len(),
{
    if a.len() > 0 {
        if a[0] == b[0] && b[0] == c[0] {
            lemma_node_order(a.skip(1), b.skip(1), c.skip(1));
        } else if a[0] != b[0] && b[0] != c[0] {
            lemma_text_order(a[0], b[0], c[0]);
            lemma_no_text_before_itself(a[0]);
        }
    }
}

/// Whether no template stands behind one whose path comes later.
pub open spec fn in_path_order(list: Seq<NativeTemplate>) -> bool {
    forall|i: int, j: int|
        0 <= i < j < list.len() ==> !path_before(
            (#[trigger] list[j]).path@,
            (#[trigger] list[i]).path@,
        )
}

proof fn lemma_sorted_place(list: Seq<NativeTemplate>, path: Seq<char>, from: nat)
    requires
        from <= list.len(),
    ensures
        from <= sorted_place(list, path, from) <= list.len(),
        forall|i: int|
            from <= i < sorted_place(list, path, from) ==> !path_before(
                path,
                (#[trigger] list[i]).path@,
            ),
        sorted_place(list, path, from) < list.len() ==> path_before(
            path,
            list[sorted_place(list, path, from) as int].path@,
        ),
    decreases list.len() - from,
{
    if from < list.len() && !path_before(path, list[from as int].path@) {
        lemma_sorted_place(list, path, from + 1);
    }
}

proof fn lemma_with_template(list: Seq<NativeTemplate>, item: NativeTemplate)
    requires
        in_path_order(list),
    ensures
        in_path_order(with_template(list, item)),
{
    lemma_sorted_place(list, item.path@, 0);
    let at = sorted_place(list, item.path@, 0) as int;
    let after = with_template(list, item);
    assert forall|i: int, j: int| 0 <= i < j < after.len() implies !path_before(
        (#[trigger] after[j]).path@,
        (#[trigger] after[i]).path@,
    ) by {
        if j < at {
            assert(after[i] == list[i] && after[j] == list[j]);
        } else if i > at {
            assert(after[i] == list[i - 1] && after[j] == list[j - 1]);
        } else if j == at {
            assert(after[i] == list[i] && after[j] == item);
        } else if i < at {
            assert(after[i] == list[i] && after[j] == list[j - 1]);
        } else {
            assert(after[i] == item && after[j] == list[j - 1]);
            if path_before(list[j - 1].path@, item.path@) {
                lemma_node_order(
                    path_nodes(list[j - 1].path@),
                    path_nodes(item.path@),
                    path_nodes(list[at].path@),
                );
                if j - 1 > at {
                    assert(!path_before(list[j - 1].path@, list[at].path@));
                } else {
                    lemma_no_path_before_itself(path_nodes(item.path@), path_nodes(list[at].path@));
                }
            }
        }
    }
}

proof fn lemma_no_path_before_itself(a: Seq<Seq<char>>, b: Seq<Seq<char>>)
    requires
        nodes_before(a, b),
    ensures
        !nodes_before(b, a),
    decreases a.len(),
{
    if a.len() > 0 {
        if a[0] == b[0] {
            lemma_no_path_before_itself(a.skip(1), b.skip(1));
        } else if text_before_text(b[0], a[0]) {
            lemma_text_order(a[0], b[0], a[0]);
            lemma_no_text_before_itself(a[0]);
        }
    }
}

/// A kit's tags of a group stand in the order of their paths, whatever the order
/// in which the kit was surveyed, so that the same kit gives the same template.
pub proof fn templates_stand_in_the_order_of_their_paths(
    definitions: GameDefinitions,
    files: Seq<NativeTemplate>,
    tag: u32,
    from: nat,
)
    ensures
        in_path_order(templates_from(definitions, files, tag, from)),
        from == 0 ==> in_path_order(kit_by_group(definitions, files)[tag]),
    decreases files.len() - from,
{
    if from < files.len() {
        templates_stand_in_the_order_of_their_paths(definitions, files, tag, from + 1);
        lemma_with_template(
            templates_from(definitions, files, tag, from + 1),
            files[from as int],
        );
    }
}

}
