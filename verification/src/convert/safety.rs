//! What a converted tag must not carry, and what it must not have lost.
use crate::convert::catalog::{fault_is, first_covering_drop};
use crate::convert::environment::{ConversionEnvironment, EnvironmentView};
use crate::convert::layouts::{flat_game, is_flat_game};
use crate::convert::matching::{block_field_by_key, block_keyed};
use crate::convert::report::{
    ContextView, ConversionContext, ConversionIssue, ConversionIssueKind, IssueView, issue_views,
};
use crate::fields::{FieldValue, TagFieldData, TagFieldType};
use crate::keys::{clean_field_key, field_key};
use crate::tag::{ContentView, FieldView, StructView, TagField, TagStruct};
use crate::text::{
    concat2, concat3, concat5, contains_text, copy, decimal, decimal_text, ends, ends_with,
    eq_ignoring_case, join_texts, joined_with, lemma_texts_push, no_texts, same,
    same_ignoring_case, texts,
};
use vstd::prelude::*;

verus! {

// ---------------------------------------------------------------------------
// Compiled scripts
// ---------------------------------------------------------------------------
/// The fields of a scenario that its compiled scripts are spread over.
pub open spec fn script_fields() -> Seq<Seq<char>> {
    seq![
        "script string data"@,
        "script syntax data"@,
        "hs syntax datums"@,
        "scripts"@,
        "globals"@,
    ]
}

fn script_field_list() -> (r: Vec<String>)
    ensures
        texts(r@) == script_fields(),
{
    let r: Vec<String> = vec![
        copy("script string data"),
        copy("script syntax data"),
        copy("hs syntax datums"),
        copy("scripts"),
        copy("globals"),
    ];
    assert(texts(r@) =~= script_fields());
    r
}

/// A field without its compiled scripts; `None` where it holds none.
pub open spec fn script_emptied(f: FieldView) -> Option<FieldView> {
    if !script_fields().contains(field_key(f.name)) {
        None
    } else {
        match f.content {
            ContentView::Block(b) => if b.elements.len() > 0 {
                Some(FieldView { content: ContentView::Block(b.cleared()), ..f })
            } else {
                None
            },
            ContentView::Value(FieldValue::Bytes { kind: TagFieldType::Data, bytes }) => {
                if bytes.len() > 0 && f.field_type == TagFieldType::Data {
                    Some(
                        f.with_value(
                            FieldValue::Bytes { kind: TagFieldType::Data, bytes: Seq::empty() },
                        ),
                    )
                } else {
                    None
                }
            },
            _ => None,
        }
    }
}

/// A root with the compiled scripts of its first `n` fields emptied, and the
/// names of those that held any.
pub open spec fn scripts_emptied(s: StructView, n: nat) -> (StructView, Seq<Seq<char>>)
    decreases n,
{
    if n == 0 || n > s.fields.len() {
        (s, Seq::empty())
    } else {
        let (s1, names) = scripts_emptied(s, (n - 1) as nat);
        match script_emptied(s.fields[n - 1]) {
            Some(f) => (
                StructView { fields: s1.fields.update(n - 1, f), ..s1 },
                names.push(s.fields[n - 1].name),
            ),
            None => (s1, names),
        }
    }
}

proof fn lemma_scripts_keep_the_rest(s: StructView, n: nat)
    requires
        n <= s.fields.len(),
    ensures
        scripts_emptied(s, n).0.fields.len() == s.fields.len(),
        forall|j: int|
            n <= j < s.fields.len() ==> scripts_emptied(s, n).0.fields[j] == s.fields[j],
    decreases n,
{
    if n > 0 {
        lemma_scripts_keep_the_rest(s, (n - 1) as nat);
    }
}

fn empty_script(field: &mut TagField, names: &Vec<String>) -> (r: bool)
    requires
        texts(names@) == script_fields(),
    ensures
        match script_emptied(old(field)@) {
            Some(f) => r && final(field)@ == f,
            None => !r && final(field)@ == old(field)@,
        },
{
    if !contains_text(names, &clean_field_key(field.name())) {
        return false;
    }
    if field.holds_block() {
        let filled = match field.as_block() {
            Some(block) => !block.is_empty(),
            None => false,
        };
        if filled {
            if let Some(block) = field.as_block_mut() {
                block.clear();
            }
        }
        return filled;
    }
    let filled = match field.as_data() {
        Some(bytes) => bytes.len() > 0,
        None => false,
    };
    if !filled {
        return false;
    }
    let none: Vec<u8> = Vec::new();
    assert(none@ =~= Seq::<u8>::empty());
    match field.set(TagFieldData::Data(none)) {
        Ok(()) => true,
        Err(_) => false,
    }
}

fn empty_scripts(root: &mut TagStruct) -> (r: Vec<String>)
    ensures
        (final(root)@, texts(r@)) == scripts_emptied(old(root)@, old(root)@.fields.len()),
{
    let ghost start = root@;
    let names: Vec<String> = script_field_list();
    let mut emptied: Vec<String> = no_texts();
    let n: usize = root.len();
    let mut i: usize = 0;
    while i < n
        invariant
            i <= n,
            n == start.fields.len(),
            texts(names@) == script_fields(),
            (root@, texts(emptied@)) == scripts_emptied(start, i as nat),
        decreases n - i,
    {
        proof {
            lemma_scripts_keep_the_rest(start, i as nat);
        }
        let ghost before = root@;
        let name: String = copy(root.at(i).name());
        if empty_script(root.at_mut(i), &names) {
            proof {
                lemma_texts_push(emptied@, name);
            }
            emptied.push(name);
        } else {
            assert(root@.fields =~= before.fields);
        }
        i = i + 1;
    }
    emptied
}

/// The first `n` paths without those of compiled scripts.
pub open spec fn paths_kept(paths: Seq<Seq<char>>, n: nat) -> Seq<Seq<char>>
    decreases n,
{
    if n == 0 || n > paths.len() {
        Seq::empty()
    } else {
        let rest = paths_kept(paths, (n - 1) as nat);
        if script_fields().contains(paths[n - 1]) {
            rest
        } else {
            rest.push(paths[n - 1])
        }
    }
}

fn keep_paths(paths: &Vec<String>) -> (r: Vec<String>)
    ensures
        texts(r@) == paths_kept(texts(paths@), paths@.len()),
{
    let names: Vec<String> = script_field_list();
    let mut r: Vec<String> = no_texts();
    let mut i: usize = 0;
    while i < paths.len()
        invariant
            i <= paths.len(),
            texts(names@) == script_fields(),
            texts(r@) == paths_kept(texts(paths@), i as nat),
        decreases paths.len() - i,
    {
        if !contains_text(&names, &paths[i]) {
            let item: String = copy(&paths[i]);
            proof {
                lemma_texts_push(r@, item);
            }
            r.push(item);
        }
        i = i + 1;
    }
    r
}

/// How many source files a scenario carries.
pub open spec fn source_files(s: StructView) -> nat {
    match block_keyed(s, "source files"@) {
        Some(b) => b.elements.len(),
        None => 0,
    }
}

/// What is advised about emptied scripts.
pub open spec fn script_advice(target_game: Seq<char>, sources: nat) -> Seq<char> {
    if sources > 0 {
        "The "@ + decimal(sources)
            + " .hsc source file(s) came across with the tag \u{2014} recompile them with "@
            + target_game + "'s tools to get working scripts."@
    } else {
        "This scenario carried no .hsc source, so the scripts have to be reauthored."@
    }
}

/// What is said about emptied scripts.
pub open spec fn script_message(
    source_game: Seq<char>,
    target_game: Seq<char>,
    sources: nat,
) -> Seq<char> {
    "Compiled scripts were cleared rather than carried. A script node indexes its own game's function table, and "@
        + target_game + " renumbers "@ + source_game
        + ("'s \u{2014} the two tables diverge within the first two dozen entries, so carried bytecode would call the wrong functions. "@
        + script_advice(target_game, sources))
}

/// A converted root without compiled scripts, and what has been gathered, where a
/// scenario changed its engine.
pub open spec fn scripts_stripped(
    group: Seq<char>,
    source_game: Seq<char>,
    target_game: Seq<char>,
    root: StructView,
    c: ContextView,
) -> (StructView, ContextView) {
    if !same_ignoring_case(group, "scenario"@) || source_game == target_game {
        (root, c)
    } else {
        let (root1, names) = scripts_emptied(root, root.fields.len());
        let c1 = ContextView {
            payloads_left: paths_kept(c.payloads_left, c.payloads_left.len()),
            ..c
        };
        if names.len() == 0 {
            (root1, c1)
        } else {
            (
                root1,
                c1.issue(
                    ConversionIssueKind::Warning,
                    joined_with(names, ", "@, names.len()),
                    script_message(source_game, target_game, source_files(root1)),
                ),
            )
        }
    }
}

fn script_message_text(source_game: &str, target_game: &str, sources: usize) -> (r: String)
    ensures
        r@ == script_message(source_game@, target_game@, sources as nat),
{
    let advice: String = if sources > 0 {
        let number: String = decimal_text(sources as u128);
        concat5(
            "The ",
            &number,
            " .hsc source file(s) came across with the tag \u{2014} recompile them with ",
            target_game,
            "'s tools to get working scripts.",
        )
    } else {
        copy("This scenario carried no .hsc source, so the scripts have to be reauthored.")
    };
    let tail: String = concat2(
        "'s \u{2014} the two tables diverge within the first two dozen entries, so carried bytecode would call the wrong functions. ",
        &advice,
    );
    concat5(
        "Compiled scripts were cleared rather than carried. A script node indexes its own game's function table, and ",
        target_game,
        " renumbers ",
        source_game,
        &tail,
    )
}

/// Empties the compiled scripts of a converted scenario: a script node indexes
/// its own game's function table, and every engine numbers its functions anew.
pub fn strip_cross_engine_scripts(
    root: &mut TagStruct,
    group_name: &str,
    source_game: &str,
    target_game: &str,
    context: &mut ConversionContext,
)
    ensures
        (final(root)@, final(context)@) == scripts_stripped(
            group_name@,
            source_game@,
            target_game@,
            old(root)@,
            old(context)@,
        ),
{
    if !eq_ignoring_case(group_name, "scenario") || same(source_game, target_game) {
        return;
    }
    let emptied: Vec<String> = empty_scripts(root);
    context.payloads_left_behind = keep_paths(&context.payloads_left_behind);
    if emptied.len() == 0 {
        assert(texts(emptied@).len() == 0);
        return;
    }
    assert(texts(emptied@).len() == emptied@.len());
    let sources: usize = match block_field_by_key(root, "source files") {
        Some(block) => block.len(),
        None => 0,
    };
    let path: String = join_texts(&emptied, ", ", emptied.len());
    context.record(
        ConversionIssueKind::Warning,
        &path,
        script_message_text(source_game, target_game, sources),
    );
}

/// After a scenario has changed its engine no field of its root holds compiled
/// scripts.
pub proof fn no_compiled_script_crosses(s: StructView, n: nat, i: int)
    requires
        0 <= i < n <= s.fields.len(),
    ensures
        script_emptied(scripts_emptied(s, n).0.fields[i]) is None,
    decreases n,
{
    lemma_scripts_keep_the_rest(s, (n - 1) as nat);
    if i < n - 1 {
        no_compiled_script_crosses(s, (n - 1) as nat, i);
    }
}

// ---------------------------------------------------------------------------
// Losses that refuse the tag
// ---------------------------------------------------------------------------
/// The smaller of two numbers.
pub open spec fn at_most(n: nat, most: nat) -> nat {
    if n <= most {
        n
    } else {
        most
    }
}

/// Of the first `n` payloads left behind, those whose loss no reviewed rule
/// accepts.
pub open spec fn unreviewed(env: EnvironmentView, paths: Seq<Seq<char>>, n: nat) -> Seq<
    Seq<char>,
>
    decreases n,
{
    if n == 0 || n > paths.len() {
        Seq::empty()
    } else {
        let rest = unreviewed(env, paths, (n - 1) as nat);
        if env.mapping_catalog.accepted_drop(
            env.group_name,
            env.source_game,
            env.target_game,
            paths[n - 1],
        ) is None && first_covering_drop(
            env.mapping_catalog.accepted_payload_drops@,
            env.group_name,
            env.source_game,
            env.target_game,
            paths[n - 1],
            0,
        ) is None {
            rest.push(paths[n - 1])
        } else {
            rest
        }
    }
}

/// Whether an issue is a loss that counts against a group that must not lose
/// anything: no reviewed rule accepts it, and it is not the compression of an
/// animation.
pub open spec fn critical(env: EnvironmentView, issue: IssueView) -> bool {
    &&& issue.kind == ConversionIssueKind::Unsupported
    &&& env.mapping_catalog.accepted_drop(
        env.group_name,
        env.source_game,
        env.target_game,
        issue.path,
    ) is None
    &&& !(same_ignoring_case(env.group_name, "model_animation_graph"@) && (ends(
        field_key(issue.path),
        "desired compression"@,
    ) || ends(field_key(issue.path), "current compression"@)))
}

/// The paths of the critical ones among the first `n` issues.
pub open spec fn critical_paths(
    env: EnvironmentView,
    issues: Seq<IssueView>,
    n: nat,
) -> Seq<Seq<char>>
    decreases n,
{
    if n == 0 || n > issues.len() {
        Seq::empty()
    } else {
        let rest = critical_paths(env, issues, (n - 1) as nat);
        if critical(env, issues[n - 1]) {
            rest.push(issues[n - 1].path)
        } else {
            rest
        }
    }
}

/// The groups that must not lose anything between the audited games.
pub open spec fn fail_closed_group(group: Seq<char>) -> bool {
    same_ignoring_case(group, "model_animation_graph"@) || same_ignoring_case(
        group,
        "damage_effect"@,
    ) || same_ignoring_case(group, "effect"@) || same_ignoring_case(group, "lens_flare"@)
        || same_ignoring_case(group, "light"@) || same_ignoring_case(group, "particle"@)
}

/// Whether a conversion must not lose anything: an animation graph never may, and
/// some groups may not between the audited games.
pub open spec fn fails_closed(env: EnvironmentView) -> bool {
    same_ignoring_case(env.group_name, "model_animation_graph"@) || (flat_game(env.source_game)
        && env.target_game == "haloreach_mcc"@ && fail_closed_group(env.group_name))
}

/// Why a converted tag must not be written, given what was gathered.
pub open spec fn unsafe_reason(env: EnvironmentView, c: ContextView) -> Option<Seq<char>> {
    let resources = c.resources_left;
    let payloads = unreviewed(env, c.payloads_left, c.payloads_left.len());
    let losses = critical_paths(env, c.report.issues, c.report.issues.len());
    if resources.len() > 0 {
        Some(
            env.group_name + " carries "@ + decimal(resources.len())
                + " pageable runtime resources that could not be translated"@ + (" from "@
                + env.source_game + " to "@ + env.target_game + (" ("@ + joined_with(
                resources,
                ", "@,
                at_most(resources.len(), 3),
            ) + "); the tag was not written"@)),
        )
    } else if payloads.len() > 0 {
        Some(
            env.group_name + " carries "@ + decimal(payloads.len()) + " data blob(s) that "@ + (
            env.source_game + " stores differently from "@ + env.target_game + " ("@ + (
            joined_with(payloads, ", "@, at_most(payloads.len(), 3))
                + "); the bytes are the substance of the tag, so it was not written rather than written empty"@)),
        )
    } else if fails_closed(env) && losses.len() > 0 {
        Some(
            env.group_name + " conversion would lose "@ + decimal(losses.len())
                + " meaningful runtime or authored field(s) ("@ + (joined_with(
                losses,
                ", "@,
                at_most(losses.len(), 4),
            ) + "); the tag was not written"@),
        )
    } else {
        None
    }
}

fn unreviewed_of(env: &ConversionEnvironment, paths: &Vec<String>) -> (r: Vec<String>)
    ensures
        texts(r@) == unreviewed(env@, texts(paths@), paths@.len()),
{
    let mut r: Vec<String> = no_texts();
    let mut i: usize = 0;
    while i < paths.len()
        invariant
            i <= paths.len(),
            texts(r@) == unreviewed(env@, texts(paths@), i as nat),
        decreases paths.len() - i,
    {
        let path: &String = &paths[i];
        if env.mapping_catalog.accepted_drop_reason(
            env.group_name,
            env.source_game,
            env.target_game,
            path,
        ).is_none() && env.mapping_catalog.accepted_payload_drop_reason(
            env.group_name,
            env.source_game,
            env.target_game,
            path,
        ).is_none() {
            let item: String = copy(path);
            proof {
                lemma_texts_push(r@, item);
            }
            r.push(item);
        }
        i = i + 1;
    }
    r
}

fn is_critical(env: &ConversionEnvironment, issue: &ConversionIssue) -> (r: bool)
    ensures
        r == critical(env@, issue@),
{
    if issue.kind != ConversionIssueKind::Unsupported {
        return false;
    }
    if env.mapping_catalog.accepted_drop_reason(
        env.group_name,
        env.source_game,
        env.target_game,
        &issue.path,
    ).is_some() {
        return false;
    }
    let key: String = clean_field_key(&issue.path);
    !(eq_ignoring_case(env.group_name, "model_animation_graph") && (ends_with(
        &key,
        "desired compression",
    ) || ends_with(&key, "current compression")))
}

fn critical_paths_of(env: &ConversionEnvironment, issues: &Vec<ConversionIssue>) -> (r: Vec<String>)
    ensures
        texts(r@) == critical_paths(env@, issue_views(issues@), issues@.len()),
{
    let ghost views = issue_views(issues@);
    let mut r: Vec<String> = no_texts();
    let mut i: usize = 0;
    while i < issues.len()
        invariant
            i <= issues.len(),
            views == issue_views(issues@),
            texts(r@) == critical_paths(env@, views, i as nat),
        decreases issues.len() - i,
    {
        assert(views[i as int] == issues@[i as int]@);
        if is_critical(env, &issues[i]) {
            let item: String = copy(&issues[i].path);
            proof {
                lemma_texts_push(r@, item);
            }
            r.push(item);
        }
        i = i + 1;
    }
    r
}

fn is_fail_closed(env: &ConversionEnvironment) -> (r: bool)
    ensures
        r == fails_closed(env@),
{
    let group: &str = env.group_name;
    eq_ignoring_case(group, "model_animation_graph") || (is_flat_game(env.source_game) && same(
        env.target_game,
        "haloreach_mcc",
    ) && (eq_ignoring_case(group, "damage_effect") || eq_ignoring_case(group, "effect")
        || eq_ignoring_case(group, "lens_flare") || eq_ignoring_case(group, "light")
        || eq_ignoring_case(group, "particle")))
}

/// The first few of a list of paths, one after another.
fn examples(list: &Vec<String>, most: usize) -> (r: String)
    ensures
        r@ == joined_with(texts(list@), ", "@, at_most(list@.len(), most as nat)),
{
    let n: usize = if list.len() <= most {
        list.len()
    } else {
        most
    };
    join_texts(list, ", ", n)
}

/// Refuses a tag that lost what it is made of.
pub fn validate_critical_runtime_safety(
    env: &ConversionEnvironment,
    context: &ConversionContext,
) -> (r: Result<(), String>)
    ensures
        fault_is(r, unsafe_reason(env@, context@)),
{
    let resources: &Vec<String> = &context.resources_left_behind;
    assert(texts(resources@).len() == resources@.len());
    if resources.len() > 0 {
        let number: String = decimal_text(resources.len() as u128);
        let list: String = concat3(" (", &examples(resources, 3), "); the tag was not written");
        let games: String = concat5(" from ", env.source_game, " to ", env.target_game, &list);
        return Err(
            concat5(
                env.group_name,
                " carries ",
                &number,
                " pageable runtime resources that could not be translated",
                &games,
            ),
        );
    }
    let payloads: Vec<String> = unreviewed_of(env, &context.payloads_left_behind);
    assert(texts(payloads@).len() == payloads@.len());
    if payloads.len() > 0 {
        let number: String = decimal_text(payloads.len() as u128);
        let list: String = concat2(
            &examples(&payloads, 3),
            "); the bytes are the substance of the tag, so it was not written rather than written empty",
        );
        let games: String = concat5(
            env.source_game,
            " stores differently from ",
            env.target_game,
            " (",
            &list,
        );
        return Err(
            concat5(env.group_name, " carries ", &number, " data blob(s) that ", &games),
        );
    }
    let losses: Vec<String> = critical_paths_of(env, &context.report.issues);
    assert(texts(losses@).len() == losses@.len());
    if is_fail_closed(env) && losses.len() > 0 {
        let number: String = decimal_text(losses.len() as u128);
        let list: String = concat2(&examples(&losses, 4), "); the tag was not written");
        return Err(
            concat5(
                env.group_name,
                " conversion would lose ",
                &number,
                " meaningful runtime or authored field(s) (",
                &list,
            ),
        );
    }
    Ok(())
}

/// A resource or an unreviewed payload left behind always refuses the tag.
pub proof fn a_lost_payload_refuses_the_tag(
    env: EnvironmentView,
    c: ContextView,
    i: int,
)
    requires
        c.resources_left.len() > 0 || (0 <= i < c.payloads_left.len()
            && env.mapping_catalog.accepted_drop(
            env.group_name,
            env.source_game,
            env.target_game,
            c.payloads_left[i],
        ) is None && first_covering_drop(
            env.mapping_catalog.accepted_payload_drops@,
            env.group_name,
            env.source_game,
            env.target_game,
            c.payloads_left[i],
            0,
        ) is None),
    ensures
        unsafe_reason(env, c) is Some,
{
    if c.resources_left.len() == 0 {
        lemma_unreviewed_grows(env, c.payloads_left, (i + 1) as nat, c.payloads_left.len());
    }
}

proof fn lemma_unreviewed_grows(
    env: EnvironmentView,
    paths: Seq<Seq<char>>,
    i: nat,
    n: nat,
)
    requires
        i <= n <= paths.len(),
    ensures
        unreviewed(env, paths, i).len() <= unreviewed(env, paths, n).len(),
    decreases n,
{
    if i < n {
        lemma_unreviewed_grows(env, paths, i, (n - 1) as nat);
    }
}

}
