//! A whole conversion: a tag of one game into a draft of another, directly or by
//! way of the generations between.
use crate::convert::answers::EngineAnswers;
use crate::convert::catalog::{
    ConversionMappingCatalog, fault_is, first_incompatible_reason, first_struct_paths,
    first_unusable_reason, resolve_target_group, target_group,
};
use crate::convert::environment::{
    ConversionEnvironment, EnvironmentView, GameDefinitions, GroupSchema, NativeTemplate,
    NativeTemplateIndex, extension_in, said_from, said_of, schema_fault, schema_path,
    schema_place, templates_option,
};
use crate::convert::matching::{field_ordinal_by_key, keyed, struct_field_by_key, struct_keyed};
use crate::convert::references::{fidelity, validate_reference_fidelity};
use crate::convert::report::{
    CompanionTagDraft, CompanionView, ContextView, ConversionContext, ConversionIssueKind,
    ReportView, TagConversionReport, companion_views,
};
use crate::convert::safety::{
    scripts_stripped, strip_cross_engine_scripts, unsafe_reason, validate_critical_runtime_safety,
};
use crate::convert::schema::pair_views;
use crate::convert::templates::{
    apply_editing_kit_mcc_header, file_from_schema, file_of_schema, kit_by_group, stamped,
    started_result, template_for, template_in, template_option,
};
use crate::convert::walk::{conv_struct, convert_struct};
use crate::fields::{flag_names, text_option};
use crate::file::{FileView, TagFile};
use crate::games::{
    classic_conversion_games, classic_games, conversion_pair_supported, pair_supported,
    refusal_of_pair, unsupported_pair_message,
};
use crate::guid::{format_group_tag, group_tag_text};
use crate::keys::{nodes_of, path_nodes};
use crate::layout::{LayoutView, TagLayout};
use crate::tag::{ContentView, StructView, TagStruct};
use crate::text::{
    concat2, concat3, concat4, concat5, contains_text, copy, eq_ignoring_case, no_texts, same,
    same_ignoring_case, texts,
};
use vstd::prelude::*;

verus! {

/// A converted tag, not yet written.
#[derive(Debug, PartialEq, Eq)]
pub struct TagConversionDraft {
    pub tag: TagFile,
    pub companion_tags: Vec<CompanionTagDraft>,
    pub report: TagConversionReport,
    pub target_group_name: String,
    pub target_extension: String,
    pub native_layout_template: Option<String>,
    /// Every profile the tag passed through, source first and destination last,
    /// where the direct pair could not carry it. Empty for a direct conversion.
    pub route: Vec<String>,
}

pub ghost struct DraftView {
    pub tag: FileView,
    pub companions: Seq<CompanionView>,
    pub report: ReportView,
    pub group_name: Seq<char>,
    pub extension: Seq<char>,
    pub template: Option<Seq<char>>,
    pub route: Seq<Seq<char>>,
}

impl TagConversionDraft {
    pub open spec fn view(&self) -> DraftView {
        DraftView {
            tag: self.tag@,
            companions: companion_views(self.companion_tags@),
            report: self.report@,
            group_name: self.target_group_name@,
            extension: self.target_extension@,
            template: text_option(self.native_layout_template),
            route: texts(self.route@),
        }
    }
}

/// The view of a draft, or of why there is none.
pub open spec fn draft_result(v: Result<TagConversionDraft, String>) -> Result<
    DraftView,
    Seq<char>,
> {
    match v {
        Ok(draft) => Ok(draft@),
        Err(message) => Err(message@),
    }
}

/// The definitions of every game, and the catalog of reviewed mappings.
#[derive(Debug, PartialEq, Eq)]
pub struct ConversionDefinitions {
    pub games: Vec<GameDefinitions>,
    /// Why the groups of games could not be read.
    pub faults: Vec<(String, String)>,
    pub catalog: ConversionMappingCatalog,
    /// What the engine's decoders say of the values of the tag.
    pub answers: EngineAnswers,
}

/// Why the groups of a game could not be read.
pub open spec fn game_fault(definitions: ConversionDefinitions, game: Seq<char>) -> Seq<char> {
    match said_from(pair_views(definitions.faults@), game, 0) {
        Some(message) => message,
        None => "Could not read the definitions of "@ + game,
    }
}

/// The position of a game's definitions at or behind `from`.
pub open spec fn game_place(games: Seq<GameDefinitions>, game: Seq<char>, from: nat) -> Option<nat>
    decreases games.len() - from,
{
    if from >= games.len() {
        None
    } else if games[from as int].game@ == game {
        Some(from)
    } else {
        game_place(games, game, from + 1)
    }
}

impl ConversionDefinitions {
    fn fault_of_game(&self, game: &str) -> (r: String)
        ensures
            r@ == game_fault(*self, game@),
    {
        match said_of(&self.faults, game) {
            Some(message) => message,
            None => concat2("Could not read the definitions of ", game),
        }
    }

    fn of_game(&self, game: &str) -> (r: Option<&GameDefinitions>)
        ensures
            match r {
                Some(d) => game_place(self.games@, game@, 0) matches Some(p) && p
                    < self.games@.len() && *d == self.games@[p as int],
                None => game_place(self.games@, game@, 0) is None,
            },
    {
        let mut i: usize = 0;
        while i < self.games.len()
            invariant
                i <= self.games.len(),
                game_place(self.games@, game@, 0) == game_place(self.games@, game@, i as nat),
            decreases self.games.len() - i,
        {
            if same(&self.games[i].game, game) {
                return Some(&self.games[i]);
            }
            i = i + 1;
        }
        None
    }
}

// ---------------------------------------------------------------------------
// Structs that sit elsewhere
// ---------------------------------------------------------------------------
/// The struct at the nodes of a path from `from` on.
pub open spec fn struct_at(s: StructView, nodes: Seq<Seq<char>>, from: nat) -> Option<StructView>
    decreases nodes.len() - from,
{
    if from >= nodes.len() {
        Some(s)
    } else {
        match struct_keyed(s, nodes[from as int]) {
            Some(nested) => struct_at(nested, nodes, from + 1),
            None => None,
        }
    }
}

pub fn struct_at_path<'a>(structure: &'a TagStruct, path: &str) -> (r: Option<&'a TagStruct>)
    ensures
        match r {
            Some(s) => struct_at(structure@, path_nodes(path@), 0) == Some(s@),
            None => struct_at(structure@, path_nodes(path@), 0) is None,
        },
{
    let nodes: Vec<String> = nodes_of(path);
    let mut current: &TagStruct = structure;
    let mut i: usize = 0;
    while i < nodes.len()
        invariant
            i <= nodes.len(),
            texts(nodes@) == path_nodes(path@),
            struct_at(structure@, texts(nodes@), 0) == struct_at(
                current@,
                texts(nodes@),
                i as nat,
            ),
        decreases nodes.len() - i,
    {
        match struct_field_by_key(current, &nodes[i]) {
            Some(nested) => {
                current = nested;
            },
            None => {
                return None;
            },
        }
        i = i + 1;
    }
    Some(current)
}

/// A target after the source was converted into the struct at the nodes of a path
/// from `from` on; `None` where there is no such struct.
pub open spec fn conv_at(
    env: EnvironmentView,
    layout: LayoutView,
    s: StructView,
    t: StructView,
    nodes: Seq<Seq<char>>,
    from: nat,
    prefix: Seq<char>,
    c: ContextView,
) -> Option<(StructView, ContextView)>
    decreases nodes.len() - from,
{
    if from >= nodes.len() {
        Some(conv_struct(env, layout, s, t, prefix, true, c))
    } else {
        match keyed(t, nodes[from as int]) {
            None => None,
            Some(k) => match t.fields[k as int].content {
                ContentView::Struct(nested) => match conv_at(
                    env,
                    layout,
                    s,
                    nested,
                    nodes,
                    from + 1,
                    prefix,
                    c,
                ) {
                    Some((nested1, c1)) => Some((t.with_nested(k as int, nested1), c1)),
                    None => None,
                },
                _ => None,
            },
        }
    }
}

fn convert_at(
    source: &TagStruct,
    target: &mut TagStruct,
    layout: &TagLayout,
    nodes: &Vec<String>,
    from: usize,
    prefix: &str,
    env: &ConversionEnvironment,
    context: &mut ConversionContext,
) -> (r: bool)
    requires
        from <= nodes@.len(),
    ensures
        match conv_at(
            env@,
            layout@,
            source@,
            old(target)@,
            texts(nodes@),
            from as nat,
            prefix@,
            old(context)@,
        ) {
            Some((t, c)) => r && final(target)@ == t && final(context)@ == c,
            None => !r && final(target)@ == old(target)@ && final(context)@ == old(context)@,
        },
    decreases nodes@.len() - from,
{
    if from >= nodes.len() {
        convert_struct(source, target, layout, prefix, true, env, context);
        return true;
    }
    let k: usize = match field_ordinal_by_key(target, &nodes[from]) {
        Some(k) => k,
        None => {
            return false;
        },
    };
    if !target.at(k).holds_struct() {
        return false;
    }
    let ghost start = target@;
    let done = match target.at_mut(k).as_struct_mut() {
        Some(nested) => convert_at(
            source,
            nested,
            layout,
            nodes,
            from + 1,
            prefix,
            env,
            context,
        ),
        None => false,
    };
    if !done {
        assert(target@.fields =~= start.fields);
    }
    done
}

/// Converts `source` into the struct at `path` inside `target`. Issues are
/// reported below `source_prefix`, which is where `source` sits in its own tag.
pub fn convert_to_struct_path(
    source: &TagStruct,
    target: &mut TagStruct,
    layout: &TagLayout,
    path: &str,
    source_prefix: &str,
    env: &ConversionEnvironment,
    context: &mut ConversionContext,
) -> (r: bool)
    ensures
        match conv_at(
            env@,
            layout@,
            source@,
            old(target)@,
            path_nodes(path@),
            0,
            source_prefix@,
            old(context)@,
        ) {
            Some((t, c)) => r && final(target)@ == t && final(context)@ == c,
            None => !r && final(target)@ == old(target)@ && final(context)@ == old(context)@,
        },
{
    let nodes: Vec<String> = nodes_of(path);
    convert_at(source, target, layout, &nodes, 0, source_prefix, env, context)
}

// ---------------------------------------------------------------------------
// Before the walk
// ---------------------------------------------------------------------------
/// Why a source cannot be converted at all.
pub open spec fn source_refusal(
    source: FileView,
    source_game: Seq<char>,
    target_game: Seq<char>,
) -> Option<Seq<char>> {
    if source.classic is None && source.big_endian {
        Some("Only little-endian MCC tags can be converted"@)
    } else if source.classic is Some && !classic_games().contains(source_game) {
        Some(
            source_game + " is not a classic profile, but this tag is a classic Some("@
                + source.classic->0 + ") container"@,
        )
    } else if !pair_supported(source_game, target_game) {
        Some(refusal_of_pair(source_game, target_game))
    } else {
        None
    }
}

fn refuse_source(source: &TagFile, source_game: &str, target_game: &str) -> (r: Result<(), String>)
    ensures
        fault_is(r, source_refusal(source@, source_game@, target_game@)),
{
    match &source.classic {
        None => {
            if source.big_endian {
                return Err(copy("Only little-endian MCC tags can be converted"));
            }
        },
        Some(engine) => {
            if !contains_text(&classic_conversion_games(), source_game) {
                return Err(
                    concat4(
                        source_game,
                        " is not a classic profile, but this tag is a classic Some(",
                        engine,
                        ") container",
                    ),
                );
            }
        },
    }
    if !conversion_pair_supported(source_game, target_game) {
        return Err(unsupported_pair_message(source_game, target_game));
    }
    Ok(())
}

/// Why a group cannot be converted, by the reviewed rules. A kit template of a
/// contrail system stands for what its schema and layout lack.
pub open spec fn group_refusal(
    env: EnvironmentView,
    has_template: bool,
) -> Option<Seq<char>> {
    let spared = has_template && same_ignoring_case(env.group_name, "contrail_system"@);
    let unusable = first_unusable_reason(
        env.mapping_catalog.unusable_schemas@,
        env.group_name,
        env.target_game,
        0,
    );
    let incompatible = first_incompatible_reason(
        env.mapping_catalog.incompatible_pairs@,
        env.group_name,
        env.source_game,
        env.target_game,
        0,
    );
    if spared {
        None
    } else {
        match (unusable, incompatible) {
            (Some(reason), _) => Some(
                env.target_game + " "@ + env.group_name
                    + " schema cannot be converted safely: "@ + reason,
            ),
            (None, Some(reason)) => Some(
                env.source_game + " and "@ + env.target_game + " "@ + (env.group_name
                    + " layouts are explicitly incompatible: "@ + reason),
            ),
            (None, None) => None,
        }
    }
}

fn refuse_group(env: &ConversionEnvironment, has_template: bool) -> (r: Result<(), String>)
    ensures
        fault_is(r, group_refusal(env@, has_template)),
{
    if has_template && eq_ignoring_case(env.group_name, "contrail_system") {
        return Ok(());
    }
    if let Some(reason) = env.mapping_catalog.unusable_schema_reason(
        env.group_name,
        env.target_game,
    ) {
        return Err(
            concat5(
                env.target_game,
                " ",
                env.group_name,
                " schema cannot be converted safely: ",
                reason,
            ),
        );
    }
    if let Some(reason) = env.mapping_catalog.incompatibility_reason(
        env.group_name,
        env.source_game,
        env.target_game,
    ) {
        let tail: String = concat3(
            env.group_name,
            " layouts are explicitly incompatible: ",
            reason,
        );
        return Err(concat5(env.source_game, " and ", env.target_game, " ", &tail));
    }
    Ok(())
}

/// What the target starts from, and the template it came from: a kit tag, or a
/// fresh tag of the schema. A classic tag cannot be built from a schema.
pub open spec fn target_started(
    env: EnvironmentView,
    schema: GroupSchema,
    group_name: Seq<char>,
    template: Option<(FileView, Seq<char>)>,
) -> Result<(FileView, Option<Seq<char>>), Seq<char>> {
    let begun: Result<(FileView, Option<Seq<char>>), Seq<char>> = match template {
        Some((file, path)) => Ok((file, Some(path))),
        None => if classic_games().contains(env.target_game) {
            Err(classic_refusal(env.target_game, group_name))
        } else {
            match file_from_schema(schema) {
                Ok(file) => Ok((file, None)),
                Err(why) => Err(
                    "Could not create target tag from "@ + schema_path(env.target, group_name)
                        + ": "@ + why,
                ),
            }
        },
    };
    match begun {
        Err(message) => Err(message),
        Ok((file, path)) => match stamped(file.header, env.target_game) {
            Ok(header) => Ok((FileView { header, ..file }, path)),
            Err(message) => Err(message),
        },
    }
}

/// Why a classic target cannot be started without a kit tag.
pub open spec fn classic_refusal(game: Seq<char>, group_name: Seq<char>) -> Seq<char> {
    "Converting to "@ + game + " needs a "@ + group_name
        + (" tag from its editing kit to start from, because a classic tag cannot be built from a schema alone. Configure the "@
        + game + " kit and make sure it ships at least one "@ + group_name + "."@)
}

fn start_target(
    env: &ConversionEnvironment,
    schema: &GroupSchema,
    group_name: &str,
    template: Option<(TagFile, String)>,
) -> (r: Result<(TagFile, Option<String>), String>)
    ensures
        started_result(r) == target_started(
            env@,
            *schema,
            group_name@,
            template_option(template),
        ),
{
    let (mut file, path): (TagFile, Option<String>) = match template {
        Some((file, path)) => (file, Some(path)),
        None => {
            if contains_text(&classic_conversion_games(), env.target_game) {
                let tail: String = concat5(
                    " tag from its editing kit to start from, because a classic tag cannot be built from a schema alone. Configure the ",
                    env.target_game,
                    " kit and make sure it ships at least one ",
                    group_name,
                    ".",
                );
                return Err(
                    concat5("Converting to ", env.target_game, " needs a ", group_name, &tail),
                );
            }
            match file_of_schema(schema) {
                Ok(file) => (file, None),
                Err(why) => {
                    let path: String = env.target.path_of_schema(group_name);
                    return Err(concat4("Could not create target tag from ", &path, ": ", &why));
                },
            }
        },
    };
    match apply_editing_kit_mcc_header(&mut file, env.target_game) {
        Ok(()) => Ok((file, path)),
        Err(message) => Err(message),
    }
}

/// Whether a group's substance is geometry that its own game's importer compiled.
pub open spec fn reimport_group(group: Seq<char>) -> bool {
    same_ignoring_case("render_model"@, group) || same_ignoring_case("physics_model"@, group)
        || same_ignoring_case("collision_model"@, group)
}

/// What is said before the walk.
pub open spec fn opening(
    env: EnvironmentView,
    group_name: Seq<char>,
    template: Option<Seq<char>>,
) -> ContextView {
    let c = ContextView::empty();
    let c1 = if reimport_group(group_name) {
        c.issue(
            ConversionIssueKind::Warning,
            group_name,
            group_name + " holds geometry compiled by "@ + env.source_game
                + ("'s own importer. The settings convert, but the meshes, collision and rigid-body data were built for a different engine's vertex formats and compression \u{2014} reimport from the source art with "@
                + env.target_game + "'s tool rather than relying on this."@),
        )
    } else {
        c
    };
    c1.issue(
        ConversionIssueKind::Warning,
        "target layout"@,
        match template {
            Some(path) => "Used native "@ + group_name + " layout template "@ + path
                + " and cleared its values before conversion"@,
            None => "Used generated "@ + group_name
                + " layout; Baboon round-trip verification cannot prove native editing-kit stream compatibility"@,
        },
    )
}

fn open_context(
    env: &ConversionEnvironment,
    group_name: &str,
    template: &Option<String>,
) -> (r: ConversionContext)
    ensures
        r@ == opening(env@, group_name@, text_option(*template)),
{
    let mut context: ConversionContext = ConversionContext::new();
    if eq_ignoring_case("render_model", group_name) || eq_ignoring_case(
        "physics_model",
        group_name,
    ) || eq_ignoring_case("collision_model", group_name) {
        let tail: String = concat3(
            "'s own importer. The settings convert, but the meshes, collision and rigid-body data were built for a different engine's vertex formats and compression \u{2014} reimport from the source art with ",
            env.target_game,
            "'s tool rather than relying on this.",
        );
        context.record(
            ConversionIssueKind::Warning,
            group_name,
            concat4(group_name, " holds geometry compiled by ", env.source_game, &tail),
        );
    }
    let message: String = match template {
        Some(path) => concat5(
            "Used native ",
            group_name,
            " layout template ",
            path,
            " and cleared its values before conversion",
        ),
        None => concat3(
            "Used generated ",
            group_name,
            " layout; Baboon round-trip verification cannot prove native editing-kit stream compatibility",
        ),
    };
    context.record(ConversionIssueKind::Warning, "target layout", message);
    context
}

// ---------------------------------------------------------------------------
// The walk, and what follows
// ---------------------------------------------------------------------------
/// The target's root, and what has been gathered, after the walk: by way of a
/// reviewed struct mapping where there is one and the target has its place, root
/// to root otherwise.
pub open spec fn walked(
    env: EnvironmentView,
    group_name: Seq<char>,
    source: StructView,
    target: FileView,
    c: ContextView,
) -> Result<(StructView, ContextView), Seq<char>> {
    match first_struct_paths(
        env.mapping_catalog.struct_mappings@,
        env.group_name,
        env.source_game,
        env.target_game,
        0,
    ) {
        None => Ok(
            conv_struct(env, target.layout, source, target.root, Seq::empty(), true, c),
        ),
        Some((source_path, target_path)) => match struct_at(source, path_nodes(source_path), 0) {
            None => Err(
                "Configured source struct path '"@ + source_path + "' was not found in "@ + (
                env.source_game + " "@ + env.group_name),
            ),
            Some(s) => match conv_at(
                env,
                target.layout,
                s,
                target.root,
                path_nodes(target_path),
                0,
                source_path,
                c,
            ) {
                Some(done) => Ok(done),
                None => Ok(
                    conv_struct(
                        env,
                        target.layout,
                        source,
                        target.root,
                        Seq::empty(),
                        true,
                        c.issue(
                            ConversionIssueKind::Warning,
                            target_path,
                            "Reviewed reparent target '"@ + target_path
                                + "' is absent from this                      "@ + (env.target_game + " "@
                                + group_name + " layout; converted root to root instead"@),
                        ),
                    ),
                ),
            },
        },
    }
}

fn walk(
    source: &TagStruct,
    target: &mut TagFile,
    group_name: &str,
    env: &ConversionEnvironment,
    context: &mut ConversionContext,
) -> (r: Result<(), String>)
    ensures
        match walked(env@, group_name@, source@, old(target)@, old(context)@) {
            Ok((root, c)) => r is Ok && final(target)@ == (FileView { root, ..old(target)@ })
                && final(context)@ == c,
            Err(message) => r matches Err(m) && m@ == message,
        },
{
    let root: String = String::new();
    if let Some((source_path, target_path)) = env.mapping_catalog.struct_mapping(
        env.group_name,
        env.source_game,
        env.target_game,
    ) {
        let nested: &TagStruct = match struct_at_path(source, source_path) {
            Some(nested) => nested,
            None => {
                let tail: String = concat3(env.source_game, " ", env.group_name);
                return Err(
                    concat4(
                        "Configured source struct path '",
                        source_path,
                        "' was not found in ",
                        &tail,
                    ),
                );
            },
        };
        if convert_to_struct_path(
            nested,
            &mut target.root,
            &target.layout,
            target_path,
            source_path,
            env,
            context,
        ) {
            return Ok(());
        }
        let tail: String = concat4(
            env.target_game,
            " ",
            group_name,
            " layout; converted root to root instead",
        );
        context.record(
            ConversionIssueKind::Warning,
            target_path,
            concat4("Reviewed reparent target '", target_path, "' is absent from this                      ", &tail),
        );
    }
    convert_struct(source, &mut target.root, &target.layout, &root, true, env, context);
    Ok(())
}

/// A conversion whose walk is done, before the tag's dependencies are listed.
#[derive(Debug, PartialEq, Eq)]
pub struct PendingConversion {
    /// The target as the walk left it: what the dependencies are listed of.
    pub tag: TagFile,
    pub context: ConversionContext,
    pub group_tag: u32,
    pub group_name: String,
    pub native_layout_template: Option<String>,
    /// Whether the game has a schema for the list, so that it is due.
    pub list_due: bool,
}

pub ghost struct PendingView {
    pub tag: FileView,
    pub context: ContextView,
    pub group_tag: u32,
    pub group_name: Seq<char>,
    pub template: Option<Seq<char>>,
    pub list_due: bool,
}

impl PendingConversion {
    pub open spec fn view(&self) -> PendingView {
        PendingView {
            tag: self.tag@,
            context: self.context@,
            group_tag: self.group_tag,
            group_name: self.group_name@,
            template: text_option(self.native_layout_template),
            list_due: self.list_due,
        }
    }
}

/// The view of a pending conversion, or of why there is none.
pub open spec fn pending_result(v: Result<PendingConversion, String>) -> Result<
    PendingView,
    Seq<char>,
> {
    match v {
        Ok(pending) => Ok(pending@),
        Err(message) => Err(message@),
    }
}

/// What a walk ends in, or why the conversion is refused there.
pub open spec fn walk_ended(
    env: EnvironmentView,
    target: FileView,
    tag: u32,
    group_name: Seq<char>,
    template: Option<Seq<char>>,
    c: ContextView,
) -> Result<PendingView, Seq<char>> {
    if c.fatal is Some {
        Err(c.fatal->0)
    } else if c.root_matches == 0 {
        Err(
            env.source_game + " and "@ + env.target_game
                + " do not share a compatible root structure for "@ + env.group_name,
        )
    } else {
        let due = env.target.has_dependency_schema;
        Ok(
            PendingView {
                tag: target,
                context: if due {
                    c
                } else {
                    c.issue(
                        ConversionIssueKind::Warning,
                        "dependency list"@,
                        "Target dependency schema is missing: "@ + env.target.folder@
                            + "/tag_dependency_list.json"@,
                    )
                },
                group_tag: tag,
                group_name,
                template,
                list_due: due,
            },
        )
    }
}

fn end_walk(
    env: &ConversionEnvironment,
    target: TagFile,
    tag: u32,
    group_name: String,
    template: Option<String>,
    context: ConversionContext,
) -> (r: Result<PendingConversion, String>)
    ensures
        pending_result(r) == walk_ended(
            env@,
            target@,
            tag,
            group_name@,
            text_option(template),
            context@,
        ),
{
    let mut context: ConversionContext = context;
    if let Some(message) = context.fatal_error {
        return Err(message);
    }
    if context.root_matches == 0 {
        return Err(
            concat5(
                env.source_game,
                " and ",
                env.target_game,
                " do not share a compatible root structure for ",
                env.group_name,
            ),
        );
    }
    let list_due: bool = env.target.has_dependency_schema;
    if !list_due {
        context.record(
            ConversionIssueKind::Warning,
            "dependency list",
            concat3(
                "Target dependency schema is missing: ",
                &env.target.folder,
                "/tag_dependency_list.json",
            ),
        );
    }
    Ok(
        PendingConversion {
            tag: target,
            context,
            group_tag: tag,
            group_name,
            native_layout_template: template,
            list_due,
        },
    )
}

/// What listing a tag's dependencies has given: the list as it lies in the file, or
/// why there is none.
pub open spec fn listed_view(r: Result<Vec<u8>, String>) -> Result<Seq<u8>, Seq<char>> {
    match r {
        Ok(list) => Ok(list@),
        Err(why) => Err(why@),
    }
}

/// The draft that a pending conversion ends in once the dependencies are listed, or
/// why it is refused. Where no list is due, `listed` is not looked at.
pub open spec fn closing(
    env: EnvironmentView,
    source: StructView,
    p: PendingView,
    listed: Result<Seq<u8>, Seq<char>>,
) -> Result<DraftView, Seq<char>> {
    match (p.list_due, listed) {
        (true, Err(why)) => Err("Could not rebuild target dependencies: "@ + why),
        (due, _) => {
            let target = if due {
                FileView { dependency_list: Some(listed->Ok_0), ..p.tag }
            } else {
                p.tag
            };
            let (report, fault) = fidelity(env, source, target.root, p.context.report);
            match fault {
                Some(message) => Err(message),
                None => {
                    let (root, c) = scripts_stripped(
                        env.group_name,
                        env.source_game,
                        env.target_game,
                        target.root,
                        ContextView { report, ..p.context },
                    );
                    match unsafe_reason(env, c) {
                        Some(message) => Err(message),
                        None => Ok(
                            DraftView {
                                tag: FileView { root, ..target },
                                companions: c.companions,
                                report: c.report,
                                group_name: p.group_name,
                                extension: extension_in(
                                    flag_names(env.target.extensions@),
                                    p.group_tag,
                                    p.group_name,
                                ),
                                template: p.template,
                                route: Seq::empty(),
                            },
                        ),
                    }
                },
            }
        },
    }
}

fn close(
    env: &ConversionEnvironment,
    source: &TagStruct,
    pending: PendingConversion,
    listed: Result<Vec<u8>, String>,
) -> (r: Result<TagConversionDraft, String>)
    ensures
        draft_result(r) == closing(env@, source@, pending@, listed_view(listed)),
{
    let mut target: TagFile = pending.tag;
    let mut context: ConversionContext = pending.context;
    if pending.list_due {
        match listed {
            Ok(list) => {
                target.dependency_list = Some(list);
            },
            Err(why) => {
                return Err(concat2("Could not rebuild target dependencies: ", &why));
            },
        }
    }
    match validate_reference_fidelity(source, &target.root, env, &mut context.report) {
        Ok(()) => {},
        Err(message) => {
            return Err(message);
        },
    }
    strip_cross_engine_scripts(
        &mut target.root,
        env.group_name,
        env.source_game,
        env.target_game,
        &mut context,
    );
    match validate_critical_runtime_safety(env, &context) {
        Ok(()) => {},
        Err(message) => {
            return Err(message);
        },
    }
    let extension: String = env.target.extension_of(pending.group_tag, &pending.group_name);
    Ok(
        TagConversionDraft {
            tag: target,
            companion_tags: context.companion_tags,
            report: context.report,
            target_group_name: pending.group_name,
            target_extension: extension,
            native_layout_template: pending.native_layout_template,
            route: no_texts(),
        },
    )
}

// ---------------------------------------------------------------------------
// A direct conversion
// ---------------------------------------------------------------------------
/// What the walk of a conversion ends in, its groups and schemas found, or why it
/// is refused.
pub open spec fn drafted(
    env: EnvironmentView,
    schema: GroupSchema,
    source: FileView,
    tag: u32,
    group_name: Seq<char>,
) -> Result<PendingView, Seq<char>> {
    match template_for(env, tag) {
        Err(message) => Err(message),
        Ok(template) => match group_refusal(env, template is Some) {
            Some(message) => Err(message),
            None => match target_started(env, schema, group_name, template) {
                Err(message) => Err(message),
                Ok((target, path)) => match walked(
                    env,
                    group_name,
                    source.root,
                    target,
                    opening(env, group_name, path),
                ) {
                    Err(message) => Err(message),
                    Ok((root, c)) => walk_ended(
                        env,
                        FileView { root, ..target },
                        tag,
                        group_name,
                        path,
                        c,
                    ),
                },
            },
        },
    }
}

fn draft(
    env: &ConversionEnvironment,
    schema: &GroupSchema,
    source: &TagFile,
    tag: u32,
    group_name: String,
) -> (r: Result<PendingConversion, String>)
    ensures
        pending_result(r) == drafted(env@, *schema, source@, tag, group_name@),
{
    let template: Option<(TagFile, String)> = match template_in(env, tag) {
        Ok(template) => template,
        Err(message) => {
            return Err(message);
        },
    };
    match refuse_group(env, template.is_some()) {
        Ok(()) => {},
        Err(message) => {
            return Err(message);
        },
    }
    let (mut target, path): (TagFile, Option<String>) = match start_target(
        env,
        schema,
        &group_name,
        template,
    ) {
        Ok(started) => started,
        Err(message) => {
            return Err(message);
        },
    };
    let mut context: ConversionContext = open_context(env, &group_name, &path);
    match walk(&source.root, &mut target, &group_name, env, &mut context) {
        Ok(()) => {},
        Err(message) => {
            return Err(message);
        },
    }
    end_walk(env, target, tag, group_name, path, context)
}

/// What the definitions say of a conversion: the two games, the schemas of the
/// group, and what the group is called.
pub struct ConversionSetting<'a> {
    pub from: &'a GameDefinitions,
    pub to: &'a GameDefinitions,
    pub source_schema: &'a GroupSchema,
    pub target_schema: &'a GroupSchema,
    pub group_name: &'a str,
    pub target_tag: u32,
    pub target_name: String,
}

pub ghost struct SettingView {
    pub from: GameDefinitions,
    pub to: GameDefinitions,
    pub source_schema: GroupSchema,
    pub target_schema: GroupSchema,
    pub group_name: Seq<char>,
    pub target_tag: u32,
    pub target_name: Seq<char>,
}

impl<'a> ConversionSetting<'a> {
    pub open spec fn view(&self) -> SettingView {
        SettingView {
            from: *self.from,
            to: *self.to,
            source_schema: *self.source_schema,
            target_schema: *self.target_schema,
            group_name: self.group_name@,
            target_tag: self.target_tag,
            target_name: self.target_name@,
        }
    }
}

/// What the definitions say of a conversion, or why it is refused.
pub open spec fn setting(
    definitions: ConversionDefinitions,
    source: FileView,
    source_game: Seq<char>,
    target_game: Seq<char>,
) -> Result<SettingView, Seq<char>> {
    match source_refusal(source, source_game, target_game) {
        Some(message) => Err(message),
        None => match (
            game_place(definitions.games@, source_game, 0),
            game_place(definitions.games@, target_game, 0),
        ) {
            (None, _) => Err(game_fault(definitions, source_game)),
            (Some(_), None) => Err(game_fault(definitions, target_game)),
            (Some(p), Some(q)) => group_setting(
                definitions.games@[p as int],
                definitions.games@[q as int],
                definitions.catalog,
                source.header.group_tag,
                source_game,
                target_game,
            ),
        },
    }
}

/// The same once the definitions of both games are found.
pub open spec fn group_setting(
    from: GameDefinitions,
    to: GameDefinitions,
    catalog: ConversionMappingCatalog,
    group_tag: u32,
    source_game: Seq<char>,
    target_game: Seq<char>,
) -> Result<SettingView, Seq<char>> {
    match from.groups@.name_of(group_tag) {
        None => Err(source_game + " does not identify group "@ + group_tag_text(group_tag)),
        Some(name) => match target_group(catalog, to.groups@, name, source_game, target_game) {
            None => Err(target_game + " has no "@ + name + " tag group"@),
            Some((tag, target_name)) => match (
                schema_place(from.schemas@, name, 0),
                schema_place(to.schemas@, target_name, 0),
            ) {
                (None, _) => Err(schema_fault(from, name)),
                (Some(_), None) => Err(schema_fault(to, target_name)),
                (Some(p), Some(q)) => Ok(
                    SettingView {
                        from,
                        to,
                        source_schema: from.schemas@[p as int],
                        target_schema: to.schemas@[q as int],
                        group_name: name,
                        target_tag: tag,
                        target_name,
                    },
                ),
            },
        },
    }
}

fn find_setting<'a>(
    definitions: &'a ConversionDefinitions,
    source: &TagFile,
    source_game: &str,
    target_game: &str,
) -> (r: Result<ConversionSetting<'a>, String>)
    ensures
        match r {
            Ok(found) => setting(*definitions, source@, source_game@, target_game@) == Ok::<
                SettingView,
                Seq<char>,
            >(found@),
            Err(message) => setting(*definitions, source@, source_game@, target_game@) == Err::<
                SettingView,
                Seq<char>,
            >(message@),
        },
{
    match refuse_source(source, source_game, target_game) {
        Ok(()) => {},
        Err(message) => {
            return Err(message);
        },
    }
    let from: &GameDefinitions = match definitions.of_game(source_game) {
        Some(from) => from,
        None => {
            return Err(definitions.fault_of_game(source_game));
        },
    };
    let to: &GameDefinitions = match definitions.of_game(target_game) {
        Some(to) => to,
        None => {
            return Err(definitions.fault_of_game(target_game));
        },
    };
    let group_name: &str = match from.groups.name_of(source.header.group_tag) {
        Some(name) => name,
        None => {
            let tag: String = format_group_tag(source.header.group_tag);
            return Err(concat3(source_game, " does not identify group ", &tag));
        },
    };
    let (target_tag, target_name): (u32, String) = match resolve_target_group(
        group_name,
        &to.groups,
        &definitions.catalog,
        source_game,
        target_game,
    ) {
        Some(found) => found,
        None => {
            return Err(concat4(target_game, " has no ", group_name, " tag group"));
        },
    };
    let source_schema: &GroupSchema = match from.schema_of(group_name) {
        Some(schema) => schema,
        None => {
            return Err(from.fault_of_schema(group_name));
        },
    };
    let target_schema: &GroupSchema = match to.schema_of(&target_name) {
        Some(schema) => schema,
        None => {
            return Err(to.fault_of_schema(&target_name));
        },
    };
    Ok(
        ConversionSetting {
            from,
            to,
            source_schema,
            target_schema,
            group_name,
            target_tag,
            target_name,
        },
    )
}

/// What a conversion reads, once the groups and the schemas are found.
pub open spec fn environment(
    s: SettingView,
    definitions: ConversionDefinitions,
    templates: Option<Map<u32, Seq<NativeTemplate>>>,
    source_layout: LayoutView,
    source_game: Seq<char>,
    target_game: Seq<char>,
) -> EnvironmentView {
    EnvironmentView {
        source_groups: s.from.groups@,
        target: s.to,
        templates,
        source_field_aliases: s.source_schema.aliases@,
        target_field_aliases: s.target_schema.aliases@,
        mapping_catalog: definitions.catalog,
        answers: definitions.answers@,
        source_layout,
        source_game,
        target_game,
        group_name: s.group_name,
    }
}

fn environment_of<'a>(
    s: &ConversionSetting<'a>,
    definitions: &'a ConversionDefinitions,
    templates: Option<&'a NativeTemplateIndex>,
    source: &'a TagFile,
    source_game: &'a str,
    target_game: &'a str,
) -> (r: ConversionEnvironment<'a>)
    ensures
        r@ == environment(
            s@,
            *definitions,
            templates_option(templates),
            source@.layout,
            source_game@,
            target_game@,
        ),
{
    ConversionEnvironment {
        source_groups: &s.from.groups,
        target: s.to,
        templates,
        source_field_aliases: &s.source_schema.aliases,
        target_field_aliases: &s.target_schema.aliases,
        mapping_catalog: &definitions.catalog,
        answers: &definitions.answers,
        source_layout: &source.layout,
        source_game,
        target_game,
        group_name: s.group_name,
    }
}

/// How far a conversion comes before the dependencies of the target are listed.
#[verifier::opaque]
pub open spec fn begun(
    definitions: ConversionDefinitions,
    templates: Option<Map<u32, Seq<NativeTemplate>>>,
    source: FileView,
    source_game: Seq<char>,
    target_game: Seq<char>,
) -> Result<PendingView, Seq<char>> {
    match setting(definitions, source, source_game, target_game) {
        Err(message) => Err(message),
        Ok(s) => drafted(
            environment(
                s,
                definitions,
                templates,
                source.layout,
                source_game,
                target_game,
            ),
            s.target_schema,
            source,
            s.target_tag,
            s.target_name,
        ),
    }
}

/// How a conversion ends once the dependencies of the target are listed.
#[verifier::opaque]
pub open spec fn finished(
    definitions: ConversionDefinitions,
    source: FileView,
    source_game: Seq<char>,
    target_game: Seq<char>,
    p: PendingView,
    listed: Result<Seq<u8>, Seq<char>>,
) -> Result<DraftView, Seq<char>> {
    match setting(definitions, source, source_game, target_game) {
        Err(message) => Err(message),
        Ok(s) => closing(
            environment(
                s,
                definitions,
                None,
                source.layout,
                source_game,
                target_game,
            ),
            source.root,
            p,
            listed,
        ),
    }
}

/// How a conversion ends, given what the definitions hold and what listing the
/// dependencies of the target gives.
pub open spec fn analysis(
    definitions: ConversionDefinitions,
    templates: Option<Map<u32, Seq<NativeTemplate>>>,
    source: FileView,
    source_game: Seq<char>,
    target_game: Seq<char>,
    listed: Result<Seq<u8>, Seq<char>>,
) -> Result<DraftView, Seq<char>> {
    match begun(definitions, templates, source, source_game, target_game) {
        Err(message) => Err(message),
        Ok(p) => finished(definitions, source, source_game, target_game, p, listed),
    }
}

/// Converts a tag from one game to another up to the listing of its dependencies,
/// starting the target from a kit tag where there is one. Where a list is due, it
/// is that of the tag that is handed out.
pub fn begin_conversion(
    source: &TagFile,
    source_game: &str,
    target_game: &str,
    definitions: &ConversionDefinitions,
    templates: Option<&NativeTemplateIndex>,
) -> (r: Result<PendingConversion, String>)
    ensures
        pending_result(r) == begun(
            *definitions,
            templates_option(templates),
            source@,
            source_game@,
            target_game@,
        ),
{
    proof {
        reveal(begun);
    }
    match find_setting(definitions, source, source_game, target_game) {
        Err(message) => Err(message),
        Ok(found) => {
            let env: ConversionEnvironment = environment_of(
                &found,
                definitions,
                templates,
                source,
                source_game,
                target_game,
            );
            draft(&env, found.target_schema, source, found.target_tag, found.target_name)
        },
    }
}

/// Ends a conversion, given what listing the dependencies of the target has given.
pub fn finish_conversion(
    source: &TagFile,
    source_game: &str,
    target_game: &str,
    definitions: &ConversionDefinitions,
    pending: PendingConversion,
    listed: Result<Vec<u8>, String>,
) -> (r: Result<TagConversionDraft, String>)
    ensures
        draft_result(r) == finished(
            *definitions,
            source@,
            source_game@,
            target_game@,
            pending@,
            listed_view(listed),
        ),
{
    proof {
        reveal(finished);
    }
    match find_setting(definitions, source, source_game, target_game) {
        Err(message) => Err(message),
        Ok(found) => {
            let env: ConversionEnvironment = environment_of(
                &found,
                definitions,
                None,
                source,
                source_game,
                target_game,
            );
            close(&env, &source.root, pending, listed)
        },
    }
}

/// Converts a tag from one game to another, starting the target from a kit tag
/// where there is one. `listed` is what listing the dependencies of the target
/// gives: [`begin_conversion`] hands out the tag to list them of.
pub fn analyze_conversion_with_templates(
    source: &TagFile,
    source_game: &str,
    target_game: &str,
    definitions: &ConversionDefinitions,
    templates: Option<&NativeTemplateIndex>,
    listed: Result<Vec<u8>, String>,
) -> (r: Result<TagConversionDraft, String>)
    ensures
        draft_result(r) == analysis(
            *definitions,
            templates_option(templates),
            source@,
            source_game@,
            target_game@,
            listed_view(listed),
        ),
{
    match begin_conversion(source, source_game, target_game, definitions, templates) {
        Err(message) => Err(message),
        Ok(pending) => finish_conversion(
            source,
            source_game,
            target_game,
            definitions,
            pending,
            listed,
        ),
    }
}

/// Converts a tag from one game to another, starting the target from one of the
/// given files of the editing kit where one of them will do.
pub fn analyze_conversion(
    source: &TagFile,
    source_game: &str,
    target_game: &str,
    definitions: &ConversionDefinitions,
    kit: Option<Vec<NativeTemplate>>,
    listed: Result<Vec<u8>, String>,
) -> (r: Result<TagConversionDraft, String>)
    ensures
        draft_result(r) == match game_place(definitions.games@, target_game@, 0) {
            None => Err(game_fault(*definitions, target_game@)),
            Some(q) => analysis(
                *definitions,
                match kit {
                    Some(files) => Some(kit_by_group(definitions.games@[q as int], files@)),
                    None => None,
                },
                source@,
                source_game@,
                target_game@,
                listed_view(listed),
            ),
        },
{
    let to: &GameDefinitions = match definitions.of_game(target_game) {
        Some(to) => to,
        None => {
            return Err(definitions.fault_of_game(target_game));
        },
    };
    match kit {
        None => analyze_conversion_with_templates(
            source,
            source_game,
            target_game,
            definitions,
            None,
            listed,
        ),
        Some(files) => {
            let index: NativeTemplateIndex = NativeTemplateIndex::build(files, to);
            analyze_conversion_with_templates(
                source,
                source_game,
                target_game,
                definitions,
                Some(&index),
                listed,
            )
        },
    }
}

/// No draft comes of a walk that left a resource behind, nor without the list of
/// dependencies that was due.
pub proof fn no_draft_leaves_a_resource_behind(
    env: EnvironmentView,
    source: StructView,
    p: PendingView,
    listed: Result<Seq<u8>, Seq<char>>,
)
    requires
        closing(env, source, p, listed) is Ok,
    ensures
        p.context.resources_left.len() == 0,
        p.list_due ==> listed is Ok && closing(env, source, p, listed)->Ok_0.tag.dependency_list
            == Some(listed->Ok_0),
{
}

/// No walk is drafted that matched nothing of the root, or was given up.
pub proof fn no_draft_comes_of_a_failed_walk(
    env: EnvironmentView,
    target: FileView,
    tag: u32,
    group_name: Seq<char>,
    template: Option<Seq<char>>,
    c: ContextView,
)
    requires
        walk_ended(env, target, tag, group_name, template, c) is Ok,
    ensures
        c.root_matches > 0,
        c.fatal is None,
        walk_ended(env, target, tag, group_name, template, c)->Ok_0.tag == target,
{
}

}
