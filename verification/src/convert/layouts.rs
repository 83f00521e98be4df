//! The layouts that the generations keep apart: what one keeps flat and another
//! in a block, a struct or a companion of its own.
use crate::convert::defaults::{initialize_block_index_defaults, nulled_struct};
use crate::convert::environment::{
    ConversionEnvironment, EnvironmentView, reference_group, reference_group_of,
};
use crate::convert::matching::{
    block_field_by_key, block_keyed, field_by_key, field_keyed, field_ordinal_by_key,
    find_place_in_payload, is_tag_path, keyed, lemma_keyed, names_a_tag, none_used,
    place_in_payload, reference_by_key, reference_keyed, struct_field_by_key,
};
use crate::convert::report::{
    ContextView, ConversionContext, ConversionIssue, ConversionIssueKind, IssueView, ReportView,
    issue_views, minus, minus_of, record_unsupported,
};
use crate::convert::values::{
    assigned, held_option, option_held, set_converted, struct_has_meaningful_value,
    struct_meaningful,
};
use crate::convert::walk::{conv_field, conv_struct, convert_field, convert_struct, fitting};
use crate::fields::{
    FieldValue, TagFieldData, TagFieldType, TagReferenceData, compatible_field_shapes, integer_of,
    integer_value, reference_view, shapes_compatible,
};
use crate::guid::same_guids;
use crate::keys::{clean_field_key, element_path, field_key, join_path, joined, path_of_element};
use crate::layout::{LayoutView, TagLayout};
use crate::tag::{
    BlockView, ContentView, FieldView, StructView, TagBlock, TagField, TagStruct, field_is_inside,
    struct_is_inside,
};
use crate::text::{
    begins, chars_of, concat2, concat3, concat4, concat5, contains_part, copy, decimal,
    decimal_int, decimal_int_text, decimal_text, lemma_texts_push, lower, lowered, no_texts,
    occurs, same, starts_with, texts, trim_text, trimmed,
};
use vstd::prelude::*;

verus! {

/// Whether a game is one of the two that keep these layouts flat.
pub open spec fn flat_game(game: Seq<char>) -> bool {
    game == "halo3_mcc"@ || game == "halo3odst_mcc"@
}

/// Whether a game is one of those that keep these layouts in blocks.
pub open spec fn block_game(game: Seq<char>) -> bool {
    game == "haloreach_mcc"@ || game == "halo4_mcc"@ || game == "halo2amp_mcc"@
}

pub fn is_flat_game(game: &str) -> (r: bool)
    ensures
        r == flat_game(game@),
{
    same(game, "halo3_mcc") || same(game, "halo3odst_mcc")
}

pub fn is_block_game(game: &str) -> (r: bool)
    ensures
        r == block_game(game@),
{
    same(game, "haloreach_mcc") || same(game, "halo4_mcc") || same(game, "halo2amp_mcc")
}

// ---------------------------------------------------------------------------
// Melee damage of weapons
// ---------------------------------------------------------------------------
/// A pair of references: a damage, and the response to it.
pub type ReferencePair = (Option<(u32, String)>, Option<(u32, String)>);

pub type ReferencePairView = (Option<(u32, Seq<char>)>, Option<(u32, Seq<char>)>);

/// The views of a list of pairs.
pub open spec fn reference_pairs(v: Seq<ReferencePair>) -> Seq<ReferencePairView> {
    Seq::new(v.len(), |i: int| (reference_view(v[i].0), reference_view(v[i].1)))
}

/// A list of pairs with `pair` at its end, unless it is empty or already there.
pub open spec fn with_pair(list: Seq<ReferencePairView>, pair: ReferencePairView) -> Seq<
    ReferencePairView,
> {
    if (pair.0 is Some || pair.1 is Some) && !list.contains(pair) {
        list.push(pair)
    } else {
        list
    }
}

fn same_reference(a: &Option<(u32, String)>, b: &Option<(u32, String)>) -> (r: bool)
    ensures
        r == (reference_view(*a) == reference_view(*b)),
{
    match (a, b) {
        (Some((g, n)), Some((h, m))) => *g == *h && same(n, m),
        (None, None) => true,
        _ => false,
    }
}

pub fn push_unique_reference_pair(pairs: &mut Vec<ReferencePair>, pair: ReferencePair)
    ensures
        reference_pairs(final(pairs)@) == with_pair(
            reference_pairs(old(pairs)@),
            (reference_view(pair.0), reference_view(pair.1)),
        ),
{
    let ghost view = (reference_view(pair.0), reference_view(pair.1));
    let ghost all = reference_pairs(pairs@);
    if pair.0.is_none() && pair.1.is_none() {
        return;
    }
    let mut i: usize = 0;
    while i < pairs.len()
        invariant
            i <= pairs.len(),
            all == reference_pairs(pairs@),
            all == reference_pairs(old(pairs)@),
            view == (reference_view(pair.0), reference_view(pair.1)),
            forall|j: int| 0 <= j < i ==> all[j] != view,
        decreases pairs.len() - i,
    {
        assert(all[i as int] == (reference_view(pairs@[i as int].0), reference_view(
            pairs@[i as int].1,
        )));
        if same_reference(&pairs[i].0, &pair.0) && same_reference(&pairs[i].1, &pair.1) {
            assert(all.contains(view));
            return;
        }
        i = i + 1;
    }
    pairs.push(pair);
    assert(reference_pairs(pairs@) =~= all.push(view));
}

/// The three hits of a flat melee layout.
pub open spec fn hit_name(index: int) -> Seq<char> {
    if index == 0 {
        "1st hit"@
    } else if index == 1 {
        "2nd hit"@
    } else {
        "3rd hit"@
    }
}

fn name_of_hit(index: usize) -> (r: &'static str)
    ensures
        r@ == hit_name(index as int),
{
    if index == 0 {
        "1st hit"
    } else if index == 1 {
        "2nd hit"
    } else {
        "3rd hit"
    }
}

/// The damage and the response of one hit.
pub open spec fn hit_pair(m: StructView, index: int) -> ReferencePairView {
    (
        reference_keyed(m, hit_name(index) + " melee damage"@),
        reference_keyed(m, hit_name(index) + " melee response"@),
    )
}

/// The pairs of a flat melee layout, each once.
pub open spec fn melee_pairs(s: StructView, m: StructView) -> Seq<ReferencePairView> {
    with_pair(
        with_pair(
            with_pair(
                with_pair(
                    Seq::empty(),
                    (
                        reference_keyed(s, "player melee damage"@),
                        reference_keyed(s, "player melee response"@),
                    ),
                ),
                hit_pair(m, 0),
            ),
            hit_pair(m, 1),
        ),
        hit_pair(m, 2),
    )
}

fn push_hit(pairs: &mut Vec<ReferencePair>, melee: &TagStruct, index: usize)
    ensures
        reference_pairs(final(pairs)@) == with_pair(
            reference_pairs(old(pairs)@),
            hit_pair(melee@, index as int),
        ),
{
    let name: &str = name_of_hit(index);
    let damage: String = concat2(name, " melee damage");
    let response: String = concat2(name, " melee response");
    push_unique_reference_pair(
        pairs,
        (reference_by_key(melee, &damage), reference_by_key(melee, &response)),
    );
}

fn melee_pairs_of(source: &TagStruct, melee: &TagStruct) -> (r: Vec<ReferencePair>)
    ensures
        reference_pairs(r@) == melee_pairs(source@, melee@),
{
    let mut pairs: Vec<ReferencePair> = Vec::new();
    assert(reference_pairs(pairs@) =~= Seq::<ReferencePairView>::empty());
    push_unique_reference_pair(
        &mut pairs,
        (
            reference_by_key(source, "player melee damage"),
            reference_by_key(source, "player melee response"),
        ),
    );
    push_hit(&mut pairs, melee, 0);
    push_hit(&mut pairs, melee, 1);
    push_hit(&mut pairs, melee, 2);
    pairs
}

/// A struct with a reference mapped into the field with the key `key`.
pub open spec fn mapped_reference(
    env: EnvironmentView,
    t: StructView,
    key: Seq<char>,
    value: Option<(u32, Seq<char>)>,
    path: Seq<char>,
    c: ContextView,
) -> (StructView, ContextView) {
    match value {
        None => (t, c),
        Some((group, name)) => match reference_group(env, group) {
            Err(message) => (t, c.unsupported(path, message)),
            Ok(tag) => match keyed(t, key) {
                None => (
                    t,
                    c.unsupported(path, "Target melee layout has no "@ + key + " field"@),
                ),
                Some(k) => {
                    let (f, c1) = assigned(
                        t.fields[k as int],
                        FieldValue::Reference(Some((tag, name))),
                        path,
                        group == tag,
                        c,
                    );
                    (StructView { fields: t.fields.update(k as int, f), ..t }, c1)
                },
            },
        },
    }
}

pub fn set_mapped_reference(
    target: &mut TagStruct,
    target_key: &str,
    value: &Option<(u32, String)>,
    path: &str,
    env: &ConversionEnvironment,
    context: &mut ConversionContext,
)
    ensures
        (final(target)@, final(context)@) == mapped_reference(
            env@,
            old(target)@,
            target_key@,
            reference_view(*value),
            path@,
            old(context)@,
        ),
{
    if let Some((group, name)) = value {
        match reference_group_of(env, *group) {
            Err(message) => record_unsupported(context, path, message),
            Ok(tag) => match field_ordinal_by_key(target, target_key) {
                None => record_unsupported(
                    context,
                    path,
                    concat3("Target melee layout has no ", target_key, " field"),
                ),
                Some(k) => {
                    set_converted(
                        target.at_mut(k),
                        TagFieldData::TagReference(
                            TagReferenceData { group_tag_and_name: Some((tag, copy(name))) },
                        ),
                        path,
                        *group == tag,
                        context,
                    );
                },
            },
        }
    }
}

/// Whether an issue is about a hit of melee element `index`, which the pair of
/// that element carries.
pub open spec fn about_a_hit(issue: IssueView, index: nat) -> bool {
    begins(issue.path, element_path("melee damage parameters"@, index)) && (occurs(
        issue.path,
        "1st hit melee"@,
    ) || occurs(issue.path, "2nd hit melee"@) || occurs(issue.path, "3rd hit melee"@))
}

fn is_about_a_hit(issue: &ConversionIssue, index: usize) -> (r: bool)
    ensures
        r == about_a_hit(issue@, index as nat),
{
    starts_with(&issue.path, &path_of_element("melee damage parameters", index)) && (contains_part(
        &issue.path,
        "1st hit melee",
    ) || contains_part(&issue.path, "2nd hit melee") || contains_part(
        &issue.path,
        "3rd hit melee",
    ))
}

/// The first `n` issues without those about the hits of element `index`.
pub open spec fn issues_kept(issues: Seq<IssueView>, index: nat, n: nat) -> Seq<IssueView>
    decreases n,
{
    if n == 0 || n > issues.len() {
        Seq::empty()
    } else {
        let rest = issues_kept(issues, index, (n - 1) as nat);
        if about_a_hit(issues[n - 1], index) {
            rest
        } else {
            rest.push(issues[n - 1])
        }
    }
}

/// How many of the first `n` issues are losses among the hits of element `index`.
pub open spec fn losses_dropped(issues: Seq<IssueView>, index: nat, n: nat) -> nat
    decreases n,
{
    if n == 0 || n > issues.len() {
        0
    } else {
        losses_dropped(issues, index, (n - 1) as nat) + if about_a_hit(issues[n - 1], index)
            && issues[n - 1].kind == ConversionIssueKind::Unsupported {
            1nat
        } else {
            0nat
        }
    }
}

/// What has been gathered, without the issues about the hits of element `index`.
pub open spec fn without_hits(c: ContextView, index: nat) -> ContextView {
    let issues = c.report.issues;
    ContextView {
        report: ReportView {
            issues: issues_kept(issues, index, issues.len()),
            unsupported_source: minus(
                c.report.unsupported_source,
                losses_dropped(issues, index, issues.len()) as int,
            ),
            ..c.report
        },
        ..c
    }
}

fn drop_hit_issues(context: &mut ConversionContext, index: usize)
    ensures
        final(context)@ == without_hits(old(context)@, index as nat),
{
    let ghost all = context@.report.issues;
    let mut kept: Vec<ConversionIssue> = Vec::new();
    let mut dropped: usize = 0;
    let mut i: usize = 0;
    assert(issue_views(kept@) =~= issues_kept(all, index as nat, 0));
    while i < context.report.issues.len()
        invariant
            i <= context.report.issues.len(),
            all == issue_views(context.report.issues@),
            all == old(context)@.report.issues,
            *context == *old(context),
            issue_views(kept@) == issues_kept(all, index as nat, i as nat),
            dropped == losses_dropped(all, index as nat, i as nat),
            dropped <= i,
        decreases context.report.issues.len() - i,
    {
        let issue: &ConversionIssue = &context.report.issues[i];
        assert(all[i as int] == issue@);
        if is_about_a_hit(issue, index) {
            if issue.kind == ConversionIssueKind::Unsupported {
                dropped = dropped + 1;
            }
        } else {
            let ghost before = kept@;
            let item: ConversionIssue = ConversionIssue {
                kind: issue.kind,
                path: copy(&issue.path),
                message: copy(&issue.message),
            };
            kept.push(item);
            assert(issue_views(kept@) =~= issue_views(before).push(item@));
        }
        i = i + 1;
    }
    context.report.issues = kept;
    context.report.unsupported_source = minus_of(context.report.unsupported_source, dropped);
}

/// A melee block after the first `n` pairs were written, each into a fresh
/// element that holds the rest of the flat layout too.
pub open spec fn melee_elements(
    env: EnvironmentView,
    layout: LayoutView,
    m: StructView,
    b: BlockView,
    pairs: Seq<ReferencePairView>,
    n: nat,
    c: ContextView,
) -> (BlockView, ContextView)
    decreases m, 11nat, None::<nat>, n,
{
    if n == 0 || n > pairs.len() {
        (b, c)
    } else {
        let (b1, c1) = melee_elements(env, layout, m, b, pairs, (n - 1) as nat, c);
        let index = (n - 1) as nat;
        let path = element_path("melee damage parameters"@, index);
        let at = b1.elements.len() as int;
        let g = b1.grown(layout);
        if at < g.elements.len() {
            let (e, c2) = conv_struct(
                env,
                layout,
                m,
                nulled_struct(g.elements[at]),
                path,
                false,
                c1,
            );
            let (e1, c3) = mapped_reference(
                env,
                e,
                "melee damage"@,
                pairs[index as int].0,
                path + "/melee damage"@,
                without_hits(c2, index),
            );
            let (e2, c4) = mapped_reference(
                env,
                e1,
                "melee response"@,
                pairs[index as int].1,
                path + "/melee response"@,
                c3,
            );
            (BlockView { elements: g.elements.update(at, e2), ..g }, c4)
        } else {
            (g, without_hits(c1, index))
        }
    }
}

/// The pairs that a flat melee layout is written as; one that is not empty is
/// written at least once.
pub open spec fn written_pairs(s: StructView, m: StructView) -> Seq<ReferencePairView> {
    if melee_pairs(s, m).len() == 0 && struct_meaningful(m) {
        seq![(None, None)]
    } else {
        melee_pairs(s, m)
    }
}

/// A melee block with a flat melee layout written into it.
pub open spec fn melee_in_block(
    env: EnvironmentView,
    layout: LayoutView,
    m: StructView,
    b: BlockView,
    pairs: Seq<ReferencePairView>,
    unique: nat,
    c: ContextView,
) -> (BlockView, ContextView)
    decreases m, 12nat, None::<nat>, 0nat,
{
    let room = b.max_count as nat;
    let (b1, c1) = melee_elements(
        env,
        layout,
        m,
        b.cleared(),
        pairs,
        fitting(pairs.len(), room),
        c,
    );
    (
        b1,
        if unique > room {
            c1.omitted(
                unique - room,
                "melee damage parameters"@,
                "Target melee block limit omitted "@ + decimal((unique - room) as nat)
                    + " unique damage pair(s)"@,
            )
        } else {
            c1
        },
    )
}

/// The keys of a flat melee layout.
pub open spec fn melee_keys() -> Seq<Seq<char>> {
    seq!["player melee damage"@, "player melee response"@, "melee damage parameters"@]
}

/// A flat melee layout brought into a block, one element for each pair.
pub open spec fn melee_to_block(
    env: EnvironmentView,
    layout: LayoutView,
    s: StructView,
    t: StructView,
    c: ContextView,
) -> (StructView, Seq<Seq<char>>, ContextView)
    decreases s, 3nat, None::<nat>, 0nat,
{
    let nothing = (t, Seq::<Seq<char>>::empty(), c);
    match (keyed(s, "melee damage parameters"@), keyed(t, "melee damage parameters"@)) {
        (Some(i), Some(k)) => if i < s.fields.len() {
            match (s.fields[i as int].content, t.fields[k as int].content) {
                (ContentView::Struct(m), ContentView::Block(b)) => {
                    let (b1, c1) = melee_in_block(
                        env,
                        layout,
                        m,
                        b,
                        written_pairs(s, m),
                        melee_pairs(s, m).len(),
                        c,
                    );
                    (t.with_block(k as int, b1), melee_keys(), c1)
                },
                _ => nothing,
            }
        } else {
            nothing
        },
        _ => nothing,
    }
}

/// A flat melee layout with the pairs of the first `n` elements written as its
/// hits.
pub open spec fn hits_written(
    env: EnvironmentView,
    elements: Seq<StructView>,
    m: StructView,
    n: nat,
    c: ContextView,
) -> (StructView, ContextView)
    decreases n,
{
    if n == 0 || n > elements.len() {
        (m, c)
    } else {
        let (m1, c1) = hits_written(env, elements, m, (n - 1) as nat, c);
        let e = elements[n - 1];
        let damage = hit_name(n - 1) + " melee damage"@;
        let response = hit_name(n - 1) + " melee response"@;
        let (m2, c2) = mapped_reference(
            env,
            m1,
            damage,
            reference_keyed(e, "melee damage"@),
            "melee damage parameters/"@ + damage,
            c1,
        );
        mapped_reference(
            env,
            m2,
            response,
            reference_keyed(e, "melee response"@),
            "melee damage parameters/"@ + response,
            c2,
        )
    }
}

/// A melee block brought into the flat layout: the first element, and the pairs
/// of the first three.
pub open spec fn melee_to_flat(
    env: EnvironmentView,
    layout: LayoutView,
    s: StructView,
    t: StructView,
    c: ContextView,
) -> (StructView, Seq<Seq<char>>, ContextView)
    decreases s, 3nat, None::<nat>, 0nat,
{
    let nothing = (t, Seq::<Seq<char>>::empty(), c);
    match (keyed(s, "melee damage parameters"@), keyed(t, "melee damage parameters"@)) {
        (Some(i), Some(k)) => if i < s.fields.len() && k < t.fields.len() {
            match s.fields[i as int].content {
                ContentView::Block(b) => if b.elements.len() == 0 {
                    (t, seq!["melee damage parameters"@], c)
                } else {
                    match t.fields[k as int].content {
                        ContentView::Struct(m) => {
                            let (m1, c1) = conv_struct(
                                env,
                                layout,
                                b.elements[0],
                                m,
                                "melee damage parameters"@,
                                false,
                                c,
                            );
                            let (m2, c2) = hits_written(
                                env,
                                b.elements,
                                m1,
                                fitting(b.elements.len(), 3),
                                c1,
                            );
                            (
                                StructView {
                                    fields: t.fields.update(
                                        k as int,
                                        FieldView {
                                            content: ContentView::Struct(m2),
                                            ..t.fields[k as int]
                                        },
                                    ),
                                    ..t
                                },
                                seq!["melee damage parameters"@],
                                c2,
                            )
                        },
                        _ => nothing,
                    }
                },
                _ => nothing,
            }
        } else {
            nothing
        },
        _ => nothing,
    }
}

/// The melee layout of a weapon brought across, where the two games keep it
/// differently.
pub open spec fn conv_melee(
    env: EnvironmentView,
    layout: LayoutView,
    s: StructView,
    t: StructView,
    c: ContextView,
) -> (StructView, Seq<Seq<char>>, ContextView)
    decreases s, 4nat, None::<nat>, 0nat,
{
    if flat_game(env.source_game) && block_game(env.target_game) {
        melee_to_block(env, layout, s, t, c)
    } else if block_game(env.source_game) && flat_game(env.target_game) {
        melee_to_flat(env, layout, s, t, c)
    } else {
        (t, Seq::empty(), c)
    }
}

// ---------------------------------------------------------------------------
// Fields copied by key
// ---------------------------------------------------------------------------
/// A struct with the source's field `source_key` converted into its field
/// `target_key`.
pub open spec fn copied_key(
    env: EnvironmentView,
    layout: LayoutView,
    s: StructView,
    source_key: Seq<char>,
    t: StructView,
    target_key: Seq<char>,
    path: Seq<char>,
    c: ContextView,
) -> (StructView, ContextView)
    decreases s, 1nat, None::<nat>, 0nat,
{
    match (keyed(s, source_key), keyed(t, target_key)) {
        (Some(i), Some(k)) => if i < s.fields.len() {
            let (f, c1) = conv_field(
                env,
                layout,
                s.fields[i as int],
                t.fields[k as int],
                path,
                false,
                c,
            );
            (StructView { fields: t.fields.update(k as int, f), ..t }, c1)
        } else {
            (t, c)
        },
        _ => (t, c),
    }
}

/// A struct with the first `n` of a list of fields converted into those of the
/// same keys; their paths are the keys behind `prefix`.
pub open spec fn copied_keys(
    env: EnvironmentView,
    layout: LayoutView,
    s: StructView,
    t: StructView,
    keys: Seq<Seq<char>>,
    prefix: Seq<char>,
    n: nat,
    c: ContextView,
) -> (StructView, ContextView)
    decreases s, 2nat, None::<nat>, n,
{
    if n == 0 || n > keys.len() {
        (t, c)
    } else {
        let (t1, c1) = copied_keys(env, layout, s, t, keys, prefix, (n - 1) as nat, c);
        copied_key(env, layout, s, keys[n - 1], t1, keys[n - 1], prefix + keys[n - 1], c1)
    }
}

// ---------------------------------------------------------------------------
// The looping sound of effects
// ---------------------------------------------------------------------------
/// The fields of a looping sound.
pub open spec fn sound_keys() -> Seq<Seq<char>> {
    seq!["looping sound"@, "location"@, "bind scale to event"@]
}

fn sound_key_list() -> (r: Vec<String>)
    ensures
        texts(r@) == sound_keys(),
{
    let r: Vec<String> = vec![
        copy("looping sound"),
        copy("location"),
        copy("bind scale to event"),
    ];
    assert(texts(r@) =~= sound_keys());
    r
}

/// Whether a field is a reference that names a tag.
pub open spec fn refers(f: FieldView) -> bool {
    f.content matches ContentView::Value(FieldValue::Reference(Some((_, path)))) && names_a_tag(
        path,
    )
}

/// A block of looping sounds with the one flat sound in it, where there is one.
pub open spec fn sound_in_block(
    env: EnvironmentView,
    layout: LayoutView,
    s: StructView,
    b: BlockView,
    has_sound: bool,
    c: ContextView,
) -> (BlockView, ContextView)
    decreases s, 3nat, None::<nat>, 0nat,
{
    let g = b.cleared().grown(layout);
    if !has_sound {
        (b.cleared(), c)
    } else if g.elements.len() == 0 {
        (g, c)
    } else {
        let (e, c1) = copied_keys(
            env,
            layout,
            s,
            nulled_struct(g.elements[0]),
            sound_keys(),
            "looping sounds[0]/"@,
            sound_keys().len(),
            c,
        );
        (BlockView { elements: g.elements.update(0, e), ..g }, c1)
    }
}

/// A flat looping sound brought into a block of one element.
pub open spec fn sound_to_block(
    env: EnvironmentView,
    layout: LayoutView,
    s: StructView,
    t: StructView,
    c: ContextView,
) -> (StructView, Seq<Seq<char>>, ContextView)
    decreases s, 4nat, None::<nat>, 0nat,
{
    let nothing = (t, Seq::<Seq<char>>::empty(), c);
    match (field_keyed(s, "looping sound"@), keyed(t, "looping sounds"@)) {
        (Some(sound), Some(k)) => match t.fields[k as int].content {
            ContentView::Block(b) => {
                let (b1, c1) = sound_in_block(env, layout, s, b, refers(sound), c);
                (t.with_block(k as int, b1), sound_keys(), c1)
            },
            _ => nothing,
        },
        _ => nothing,
    }
}

/// The flat layout with the first of a block of looping sounds in it.
pub open spec fn first_sound(
    env: EnvironmentView,
    layout: LayoutView,
    elements: Seq<StructView>,
    t: StructView,
    c: ContextView,
) -> (StructView, ContextView)
    decreases elements, 1nat, None::<nat>, 0nat,
{
    if elements.len() > 0 {
        copied_keys(
            env,
            layout,
            elements[0],
            t,
            sound_keys(),
            Seq::empty(),
            sound_keys().len(),
            c,
        )
    } else {
        (t, c)
    }
}

/// A block of looping sounds brought into the flat layout, which has room for
/// one.
pub open spec fn sound_to_flat(
    env: EnvironmentView,
    layout: LayoutView,
    s: StructView,
    t: StructView,
    c: ContextView,
) -> (StructView, Seq<Seq<char>>, ContextView)
    decreases s, 4nat, None::<nat>, 0nat,
{
    let nothing = (t, Seq::<Seq<char>>::empty(), c);
    match keyed(s, "looping sounds"@) {
        Some(i) => if i < s.fields.len() {
            match s.fields[i as int].content {
                ContentView::Block(b) => {
                    let (t1, c1) = first_sound(env, layout, b.elements, t, c);
                    let c2 = if b.elements.len() > 1 {
                        c1.unsupported(
                            "looping sounds"@,
                            "Legacy target supports one looping sound but source has "@ + decimal(
                                b.elements.len(),
                            ),
                        )
                    } else {
                        c1
                    };
                    (t1, seq!["looping sounds"@], c2)
                },
                _ => nothing,
            }
        } else {
            nothing
        },
        None => nothing,
    }
}

/// The looping sound of an effect brought across, where the two games keep it
/// differently.
pub open spec fn conv_looping_sound(
    env: EnvironmentView,
    layout: LayoutView,
    s: StructView,
    t: StructView,
    c: ContextView,
) -> (StructView, Seq<Seq<char>>, ContextView)
    decreases s, 5nat, None::<nat>, 0nat,
{
    if flat_game(env.source_game) && block_game(env.target_game) {
        sound_to_block(env, layout, s, t, c)
    } else if block_game(env.source_game) && flat_game(env.target_game) {
        sound_to_flat(env, layout, s, t, c)
    } else {
        (t, Seq::empty(), c)
    }
}

// ---------------------------------------------------------------------------
// Curves spelled out field by field
// ---------------------------------------------------------------------------
/// Whether one of the first `n` fields holds a curve as bytes.
pub open spec fn some_blob(fields: Seq<FieldView>, n: nat) -> bool
    decreases n,
{
    if n == 0 || n > fields.len() {
        false
    } else {
        some_blob(fields, (n - 1) as nat) || fields[n - 1].is_function_data() || field_key(
            fields[n - 1].name,
        ) == "data"@
    }
}

/// Whether a key is one of a curve spelled out field by field.
pub open spec fn explicit_curve_key(key: Seq<char>) -> bool {
    key == "function type"@ || key == "flags"@ || key == "function 1"@ || key == "function 2"@
        || key == "values"@ || begins(key, "color "@)
}

/// The keys of the first `n` fields that belong to such a curve.
pub open spec fn explicit_curve_keys(fields: Seq<FieldView>, n: nat) -> Seq<Seq<char>>
    decreases n,
{
    if n == 0 || n > fields.len() {
        Seq::empty()
    } else {
        let rest = explicit_curve_keys(fields, (n - 1) as nat);
        let key = field_key(fields[n - 1].name);
        if explicit_curve_key(key) {
            rest.push(key)
        } else {
            rest
        }
    }
}

/// The integer that a field holds, or -1.
pub open spec fn integer_or_null(f: FieldView) -> int {
    match f.content {
        ContentView::Value(v) => match integer_of(v) {
            Some(n) => n,
            None => -1,
        },
        _ => -1,
    }
}

/// What is said of a curve that is spelled out field by field, which the target
/// holds only as bytes: it is left unset, and its fields are not reported one by
/// one.
pub open spec fn legacy_curve(
    env: EnvironmentView,
    s: StructView,
    t: StructView,
    path: Seq<char>,
    c: ContextView,
) -> (Seq<Seq<char>>, ContextView) {
    match (field_keyed(s, "function type"@), block_keyed(s, "values"@)) {
        (Some(kind), Some(values)) => if some_blob(t.fields, t.fields.len()) && keyed(
            t,
            "function type"@,
        ) is None {
            (
                explicit_curve_keys(s.fields, s.fields.len()),
                c.unsupported(
                    path,
                    explicit_curve_message(
                        env,
                        integer_or_null(kind),
                        values.elements.len(),
                    ),
                ),
            )
        } else {
            (Seq::empty(), c)
        },
        _ => (Seq::empty(), c),
    }
}

/// The message about such a curve.
pub open spec fn explicit_curve_message(
    env: EnvironmentView,
    kind: int,
    values: nat,
) -> Seq<char> {
    "This curve is stored in "@ + env.source_game + "'s older explicit form (function type "@
        + decimal_int(kind) + (", "@ + decimal(values) + " value(s)); "@ + env.target_game
        + " stores curves only as a serialized function definition, and the older form's type byte does not map onto the modern function types, so the curve was left unset rather than guessed at. Reauthor it in the target editor."@)
}

fn has_blob(target: &TagStruct) -> (r: bool)
    ensures
        r == some_blob(target@.fields, target@.fields.len()),
{
    let n: usize = target.len();
    let mut found = false;
    let mut i: usize = 0;
    while i < n
        invariant
            i <= n,
            n == target@.fields.len(),
            found == some_blob(target@.fields, i as nat),
        decreases n - i,
    {
        let field: &TagField = target.at(i);
        if field.is_function_data() || same(&clean_field_key(field.name()), "data") {
            found = true;
        }
        i = i + 1;
    }
    found
}

fn is_explicit_curve_key(key: &str) -> (r: bool)
    ensures
        r == explicit_curve_key(key@),
{
    same(key, "function type") || same(key, "flags") || same(key, "function 1") || same(
        key,
        "function 2",
    ) || same(key, "values") || starts_with(key, "color ")
}

/// Reports a curve that is spelled out field by field, and returns the keys that
/// belong to it.
pub fn report_legacy_explicit_function(
    source: &TagStruct,
    target: &TagStruct,
    path: &str,
    env: &ConversionEnvironment,
    context: &mut ConversionContext,
) -> (r: Vec<String>)
    ensures
        (texts(r@), final(context)@) == legacy_curve(
            env@,
            source@,
            target@,
            path@,
            old(context)@,
        ),
{
    let mut consumed: Vec<String> = Vec::new();
    assert(texts(consumed@) =~= Seq::<Seq<char>>::empty());
    let (kind, values): (&TagField, &TagBlock) = match (
        field_by_key(source, "function type"),
        block_field_by_key(source, "values"),
    ) {
        (Some(kind), Some(values)) => (kind, values),
        _ => {
            return consumed;
        },
    };
    if !has_blob(target) || field_ordinal_by_key(target, "function type").is_some() {
        return consumed;
    }
    let number: i128 = match kind.value() {
        Some(value) => match integer_value(value) {
            Some(n) => n,
            None => -1,
        },
        None => -1,
    };
    let number_text: String = decimal_int_text(number);
    let count: String = decimal_text(values.len() as u128);
    let tail: String = concat5(
        ", ",
        &count,
        " value(s)); ",
        env.target_game,
        " stores curves only as a serialized function definition, and the older form's type byte does not map onto the modern function types, so the curve was left unset rather than guessed at. Reauthor it in the target editor.",
    );
    record_unsupported(
        context,
        path,
        concat5(
            "This curve is stored in ",
            env.source_game,
            "'s older explicit form (function type ",
            &number_text,
            &tail,
        ),
    );
    let n: usize = source.len();
    let mut i: usize = 0;
    while i < n
        invariant
            i <= n,
            n == source@.fields.len(),
            texts(consumed@) == explicit_curve_keys(source@.fields, i as nat),
        decreases n - i,
    {
        let key: String = clean_field_key(source.at(i).name());
        if is_explicit_curve_key(&key) {
            proof {
                lemma_texts_push(consumed@, key);
            }
            consumed.push(key);
        }
        i = i + 1;
    }
    consumed
}

// ---------------------------------------------------------------------------
// The physics of vehicles
// ---------------------------------------------------------------------------
/// A text with its spaces as underscores.
pub open spec fn underscored(s: Seq<char>) -> Seq<char> {
    Seq::new(
        s.len(),
        |i: int|
            if s[i] == ' ' {
                '_'
            } else {
                s[i]
            },
    )
}

fn underscore(s: &str) -> (r: String)
    ensures
        r@ == underscored(s@),
{
    let chars: Vec<char> = chars_of(s);
    let mut r: String = String::new();
    let mut i: usize = 0;
    while i < chars.len()
        invariant
            i <= chars.len(),
            chars@ == s@,
            r@ == underscored(s@).take(i as int),
        decreases chars.len() - i,
    {
        if chars[i] == ' ' {
            r.push('_');
        } else {
            r.push(chars[i]);
        }
        i = i + 1;
        assert(r@ =~= underscored(s@).take(i as int));
    }
    assert(r@ =~= underscored(s@));
    r
}

/// The key of the physics block of a vehicle type: `human plane` has
/// `type-human_plane`.
pub open spec fn physics_key(vehicle_type: Seq<char>) -> Seq<char> {
    "type-"@ + underscored(lowered(trimmed(vehicle_type)))
}

fn key_of_physics(name: &str) -> (r: String)
    ensures
        r@ == physics_key(name@),
{
    let shown: String = underscore(&lower(&trim_text(name)));
    concat2("type-", &shown)
}

/// A struct with nested structs, the keys that were used, and what has been
/// gathered, after its first `n` fields were filled from the fields of a flat
/// source that have their keys.
pub open spec fn filled_fields(
    env: EnvironmentView,
    layout: LayoutView,
    s: StructView,
    t: StructView,
    path: Seq<char>,
    used: Seq<Seq<char>>,
    n: nat,
    c: ContextView,
) -> (StructView, Seq<Seq<char>>, ContextView)
    decreases s, 2nat, t, n,
{
    if n == 0 || n > t.fields.len() {
        (t, used, c)
    } else {
        let (t1, used1, c1) = filled_fields(env, layout, s, t, path, used, (n - 1) as nat, c);
        let g = t.fields[n - 1];
        let key = field_key(g.name);
        if g.field_type == TagFieldType::Struct {
            match g.content {
                ContentView::Struct(child) => {
                    let (child1, used2, c2) = filled_fields(
                        env,
                        layout,
                        s,
                        child,
                        joined(path, key),
                        used1,
                        child.fields.len(),
                        c1,
                    );
                    (
                        StructView {
                            fields: t1.fields.update(
                                n - 1,
                                FieldView { content: ContentView::Struct(child1), ..g },
                            ),
                            ..t1
                        },
                        used2,
                        c2,
                    )
                },
                _ => (t1, used1, c1),
            }
        } else if key.len() == 0 {
            (t1, used1, c1)
        } else {
            match keyed(s, key) {
                Some(i) => if i < s.fields.len() && shapes_compatible(
                    s.fields[i as int].field_type,
                    g.field_type,
                ) {
                    let (g1, c2) = conv_field(
                        env,
                        layout,
                        s.fields[i as int],
                        g,
                        joined(path, key),
                        false,
                        c1,
                    );
                    (
                        StructView { fields: t1.fields.update(n - 1, g1), ..t1 },
                        used1.push(key),
                        c2,
                    )
                } else {
                    (t1, used1, c1)
                },
                None => (t1, used1, c1),
            }
        }
    }
}

/// The flat physics of a vehicle brought into the one block of its type.
pub open spec fn conv_physics(
    env: EnvironmentView,
    layout: LayoutView,
    s: StructView,
    t: StructView,
    c: ContextView,
) -> (StructView, Seq<Seq<char>>, ContextView)
    decreases s, 5nat, None::<nat>, 0nat,
{
    let none = Seq::<Seq<char>>::empty();
    match (keyed(t, "physics types"@), field_keyed(s, "type"@)) {
        (Some(k), Some(kind)) => if field_keyed(s, "physics types"@) is Some {
            (t, none, c)
        } else {
            match option_held(kind) {
                None => (
                    t,
                    none,
                    c.unsupported(
                        "physics types"@,
                        "Source vehicle type has no name, so its physics block could not be chosen"@,
                    ),
                ),
                Some(name) => match t.fields[k as int].content {
                    ContentView::Struct(types) => {
                        let (types1, used, c1) = physics_filled(
                            env,
                            layout,
                            s,
                            types,
                            physics_key(name),
                            c,
                        );
                        (t.with_nested(k as int, types1), used, c1)
                    },
                    _ => (t, none, c),
                },
            }
        },
        _ => (t, none, c),
    }
}

/// A physics block with its one element filled, the keys that were used, and what
/// has been gathered.
pub open spec fn physics_in_block(
    env: EnvironmentView,
    layout: LayoutView,
    s: StructView,
    b: BlockView,
    path: Seq<char>,
    c: ContextView,
) -> (BlockView, Seq<Seq<char>>, ContextView)
    decreases s, 3nat, None::<nat>, 0nat,
{
    let none = Seq::<Seq<char>>::empty();
    let g = if b.elements.len() == 0 {
        b.grown(layout)
    } else {
        b
    };
    if g.elements.len() == 0 {
        (g, none, c)
    } else {
        let (e, used, c1) = filled_fields(
            env,
            layout,
            s,
            g.elements[0],
            path,
            none,
            g.elements[0].fields.len(),
            c,
        );
        (BlockView { elements: g.elements.update(0, e), ..g }, used.push("type"@), c1)
    }
}

/// The struct of physics blocks with the one block `key` filled.
pub open spec fn physics_filled(
    env: EnvironmentView,
    layout: LayoutView,
    s: StructView,
    types: StructView,
    key: Seq<char>,
    c: ContextView,
) -> (StructView, Seq<Seq<char>>, ContextView)
    decreases s, 4nat, None::<nat>, 0nat,
{
    let none = Seq::<Seq<char>>::empty();
    match keyed(types, key) {
        None => (
            types,
            none,
            c.unsupported(
                "physics types/"@ + key,
                env.target_game + " has no "@ + key
                    + " physics block, so this vehicle's physics values have no destination and need reauthoring"@,
            ),
        ),
        Some(j) => match types.fields[j as int].content {
            ContentView::Block(b) => {
                let (b1, used, c1) = physics_in_block(
                    env,
                    layout,
                    s,
                    b,
                    "physics types/"@ + key + "[0]"@,
                    c,
                );
                (types.with_block(j as int, b1), used, c1)
            },
            _ => (types, none, c),
        },
    }
}

// ---------------------------------------------------------------------------
// The payload of animations
// ---------------------------------------------------------------------------
/// Whether one of the first `n` fields is where the later generations keep the
/// payload of an animation.
pub open spec fn some_payload_field(fields: Seq<FieldView>, n: nat) -> bool
    decreases n,
{
    if n == 0 || n > fields.len() {
        false
    } else {
        some_payload_field(fields, (n - 1) as nat) || begins(
            field_key(fields[n - 1].name),
            "shared animation data"@,
        )
    }
}

/// Whether a source struct is an animation that holds its payload inline.
pub open spec fn is_inline_animation(
    env: EnvironmentView,
    s: StructView,
    path: Seq<char>,
) -> bool {
    env.group_name == "model_animation_graph"@ && occurs(path, "animations"@)
        && !some_payload_field(s.fields, s.fields.len())
}

/// The first block at or behind `from` that holds the payload of an animation.
pub open spec fn payload_block(fields: Seq<FieldView>, from: nat) -> Option<nat>
    decreases fields.len() - from,
{
    if from >= fields.len() {
        None
    } else if fields[from as int].field_type == TagFieldType::Block && begins(
        field_key(fields[from as int].name),
        "shared animation data"@,
    ) {
        Some(from)
    } else {
        payload_block(fields, from + 1)
    }
}

/// The payload of an animation, which of its fields are taken, the keys that have
/// gone there, and what has been gathered, after the first `n` fields of the
/// animation were converted into it.
pub open spec fn animation_fields(
    env: EnvironmentView,
    layout: LayoutView,
    s: StructView,
    p: StructView,
    path: Seq<char>,
    n: nat,
    c: ContextView,
) -> (StructView, Seq<bool>, Seq<Seq<char>>, ContextView)
    decreases s, 2nat, None::<nat>, n,
{
    if n == 0 || n > s.fields.len() {
        (p, Seq::new(p.fields.len(), |i: int| false), Seq::empty(), c)
    } else {
        let (p1, used, moved, c1) = animation_fields(
            env,
            layout,
            s,
            p,
            path,
            (n - 1) as nat,
            c,
        );
        let f = s.fields[n - 1];
        let key = field_key(f.name);
        match place_in_payload(env, s, f, p1, used, 0) {
            None => (p1, used, moved, c1),
            Some(k) => {
                let g = p1.fields[k as int];
                let c2 = if key != field_key(g.name) {
                    c1.aliased()
                } else {
                    c1
                };
                let (g1, c3) = conv_field(
                    env,
                    layout,
                    f,
                    g,
                    joined(path, "shared animation data[0]/"@ + field_key(g.name)),
                    s.guid == p.guid,
                    c2,
                );
                (
                    StructView { fields: p1.fields.update(k as int, g1), ..p1 },
                    used.update(k as int, true),
                    moved.push(key),
                    c3,
                )
            },
        }
    }
}

/// An animation's inline payload brought into the block of one element that the
/// later generations keep it in.
pub open spec fn conv_animation(
    env: EnvironmentView,
    layout: LayoutView,
    s: StructView,
    t: StructView,
    path: Seq<char>,
    c: ContextView,
) -> (StructView, Seq<Seq<char>>, ContextView)
    decreases s, 3nat, None::<nat>, 0nat,
{
    match payload_block(t.fields, 0) {
        None => (t, Seq::empty(), c),
        Some(k) => match t.fields[k as int].content {
            ContentView::Block(b) => {
                let g = b.cleared().grown(layout);
                let (b1, moved, c1) = if g.elements.len() == 0 {
                    (g, Seq::empty(), c)
                } else {
                    let (p, used, moved, c1) = animation_fields(
                        env,
                        layout,
                        s,
                        nulled_struct(g.elements[0]),
                        path,
                        s.fields.len(),
                        c,
                    );
                    (BlockView { elements: g.elements.update(0, p), ..g }, moved, c1)
                };
                (
                    StructView {
                        fields: t.fields.update(
                            k as int,
                            FieldView { content: ContentView::Block(b1), ..t.fields[k as int] },
                        ),
                        ..t
                    },
                    moved,
                    c1,
                )
            },
            _ => (t, Seq::empty(), c),
        },
    }
}

// ---------------------------------------------------------------------------
// Bringing them across
// ---------------------------------------------------------------------------
pub fn copy_named_field(
    source: &TagStruct,
    source_key: &str,
    target: &mut TagStruct,
    target_key: &str,
    layout: &TagLayout,
    path: &str,
    env: &ConversionEnvironment,
    context: &mut ConversionContext,
)
    ensures
        (final(target)@, final(context)@) == copied_key(
            env@,
            layout@,
            source@,
            source_key@,
            old(target)@,
            target_key@,
            path@,
            old(context)@,
        ),
    decreases source@, 1nat, None::<nat>, 0nat,
{
    if let Some(i) = field_ordinal_by_key(source, source_key) {
        if let Some(k) = field_ordinal_by_key(target, target_key) {
            proof {
                field_is_inside(source@, i as int);
            }
            convert_field(source.at(i), target.at_mut(k), layout, path, false, env, context);
        }
    }
}

/// Converts a list of fields into those of the same keys.
#[verifier::spinoff_prover]
#[verifier::rlimit(40)]
pub fn copy_named_fields(
    source: &TagStruct,
    target: &mut TagStruct,
    keys: &Vec<String>,
    prefix: &str,
    layout: &TagLayout,
    env: &ConversionEnvironment,
    context: &mut ConversionContext,
)
    ensures
        (final(target)@, final(context)@) == copied_keys(
            env@,
            layout@,
            source@,
            old(target)@,
            texts(keys@),
            prefix@,
            texts(keys@).len(),
            old(context)@,
        ),
    decreases source@, 2nat, None::<nat>, 0nat,
{
    let ghost start = target@;
    let ghost before = context@;
    let mut i: usize = 0;
    while i < keys.len()
        invariant
            i <= keys.len(),
            (target@, context@) == copied_keys(
                env@,
                layout@,
                source@,
                start,
                texts(keys@),
                prefix@,
                i as nat,
                before,
            ),
        decreases keys.len() - i,
    {
        let ghost at = (target@, context@);
        let path: String = concat2(prefix, &keys[i]);
        copy_named_field(source, &keys[i], target, &keys[i], layout, &path, env, context);
        assert((target@, context@) == copied_keys(
            env@,
            layout@,
            source@,
            start,
            texts(keys@),
            prefix@,
            (i + 1) as nat,
            before,
        )) by {
            assert(texts(keys@)[i as int] == keys@[i as int]@);
            assert(path@ == prefix@ + texts(keys@)[i as int]);
            assert((target@, context@) == copied_key(
                env@,
                layout@,
                source@,
                texts(keys@)[i as int],
                at.0,
                texts(keys@)[i as int],
                path@,
                at.1,
            ));
        }
        i = i + 1;
    }
}

fn write_melee_elements(
    melee: &TagStruct,
    block: &mut TagBlock,
    pairs: &Vec<ReferencePair>,
    count: usize,
    layout: &TagLayout,
    env: &ConversionEnvironment,
    context: &mut ConversionContext,
)
    requires
        count <= pairs@.len(),
    ensures
        (final(block)@, final(context)@) == melee_elements(
            env@,
            layout@,
            melee@,
            old(block)@,
            reference_pairs(pairs@),
            count as nat,
            old(context)@,
        ),
    decreases melee@, 11nat, None::<nat>, 0nat,
{
    let ghost start = block@;
    let ghost before = context@;
    let ghost views = reference_pairs(pairs@);
    let mut i: usize = 0;
    while i < count
        invariant
            i <= count <= pairs@.len(),
            views == reference_pairs(pairs@),
            (block@, context@) == melee_elements(
                env@,
                layout@,
                melee@,
                start,
                views,
                i as nat,
                before,
            ),
        decreases count - i,
    {
        let path: String = path_of_element("melee damage parameters", i);
        let at: usize = block.add_element(layout);
        if at < block.len() {
            let ghost grown = block@.elements;
            let element: &mut TagStruct = block.at_mut(at);
            initialize_block_index_defaults(element);
            convert_struct(melee, element, layout, &path, false, env, context);
            drop_hit_issues(context, i);
            assert(views[i as int] == (reference_view(pairs@[i as int].0), reference_view(
                pairs@[i as int].1,
            )));
            set_mapped_reference(
                element,
                "melee damage",
                &pairs[i].0,
                &concat2(&path, "/melee damage"),
                env,
                context,
            );
            set_mapped_reference(
                element,
                "melee response",
                &pairs[i].1,
                &concat2(&path, "/melee response"),
                env,
                context,
            );
        } else {
            drop_hit_issues(context, i);
        }
        i = i + 1;
    }
}

fn write_melee(
    melee: &TagStruct,
    block: &mut TagBlock,
    pairs: &Vec<ReferencePair>,
    unique: usize,
    layout: &TagLayout,
    env: &ConversionEnvironment,
    context: &mut ConversionContext,
)
    ensures
        (final(block)@, final(context)@) == melee_in_block(
            env@,
            layout@,
            melee@,
            old(block)@,
            reference_pairs(pairs@),
            unique as nat,
            old(context)@,
        ),
    decreases melee@, 12nat, None::<nat>, 0nat,
{
    let room: usize = block.max_count() as usize;
    block.clear();
    let count: usize = if pairs.len() <= room {
        pairs.len()
    } else {
        room
    };
    write_melee_elements(melee, block, pairs, count, layout, env, context);
    if unique > room {
        let number: String = decimal_text((unique - room) as u128);
        context.record_omitted(
            unique - room,
            "melee damage parameters",
            concat3("Target melee block limit omitted ", &number, " unique damage pair(s)"),
        );
    }
}

fn melee_key_list() -> (r: Vec<String>)
    ensures
        texts(r@) == melee_keys(),
{
    let r: Vec<String> = vec![
        copy("player melee damage"),
        copy("player melee response"),
        copy("melee damage parameters"),
    ];
    assert(texts(r@) =~= melee_keys());
    r
}

/// The pairs that a flat melee layout is written as, and how many of them name a
/// tag.
fn written_pairs_of(source: &TagStruct, melee: &TagStruct) -> (r: (Vec<ReferencePair>, usize))
    ensures
        reference_pairs(r.0@) == written_pairs(source@, melee@),
        r.1 == melee_pairs(source@, melee@).len(),
{
    let mut pairs: Vec<ReferencePair> = melee_pairs_of(source, melee);
    let unique: usize = pairs.len();
    assert(reference_pairs(pairs@).len() == unique);
    if unique == 0 && struct_has_meaningful_value(melee) {
        pairs.push((None, None));
        assert(reference_pairs(pairs@) =~= seq![(None, None)]);
    }
    (pairs, unique)
}

fn convert_legacy_melee_to_block(
    source: &TagStruct,
    target: &mut TagStruct,
    layout: &TagLayout,
    env: &ConversionEnvironment,
    context: &mut ConversionContext,
) -> (r: Vec<String>)
    ensures
        (final(target)@, texts(r@), final(context)@) == melee_to_block(
            env@,
            layout@,
            source@,
            old(target)@,
            old(context)@,
        ),
    decreases source@, 3nat, None::<nat>, 0nat,
{
    let melee: &TagStruct = match struct_field_by_key(source, "melee damage parameters") {
        Some(melee) => melee,
        None => {
            return no_texts();
        },
    };
    proof {
        lemma_keyed(source@.fields, "melee damage parameters"@, 0);
    }
    let k: usize = match field_ordinal_by_key(target, "melee damage parameters") {
        Some(k) => k,
        None => {
            return no_texts();
        },
    };
    if !target.at(k).holds_block() {
        return no_texts();
    }
    let (pairs, unique): (Vec<ReferencePair>, usize) = written_pairs_of(source, melee);
    match target.at_mut(k).as_block_mut() {
        Some(block) => {
            write_melee(melee, block, &pairs, unique, layout, env, context);
            melee_key_list()
        },
        None => no_texts(),
    }
}

fn write_hits(
    elements: &TagBlock,
    melee: &mut TagStruct,
    count: usize,
    env: &ConversionEnvironment,
    context: &mut ConversionContext,
)
    requires
        count <= elements@.elements.len(),
    ensures
        (final(melee)@, final(context)@) == hits_written(
            env@,
            elements@.elements,
            old(melee)@,
            count as nat,
            old(context)@,
        ),
{
    let ghost start = melee@;
    let ghost before = context@;
    let mut i: usize = 0;
    while i < count
        invariant
            i <= count <= elements@.elements.len(),
            (melee@, context@) == hits_written(
                env@,
                elements@.elements,
                start,
                i as nat,
                before,
            ),
        decreases count - i,
    {
        let element: &TagStruct = elements.at(i);
        let damage: String = concat2(name_of_hit(i), " melee damage");
        let response: String = concat2(name_of_hit(i), " melee response");
        set_mapped_reference(
            melee,
            &damage,
            &reference_by_key(element, "melee damage"),
            &concat2("melee damage parameters/", &damage),
            env,
            context,
        );
        set_mapped_reference(
            melee,
            &response,
            &reference_by_key(element, "melee response"),
            &concat2("melee damage parameters/", &response),
            env,
            context,
        );
        i = i + 1;
    }
}

fn convert_block_melee_to_legacy(
    source: &TagStruct,
    target: &mut TagStruct,
    layout: &TagLayout,
    env: &ConversionEnvironment,
    context: &mut ConversionContext,
) -> (r: Vec<String>)
    ensures
        (final(target)@, texts(r@), final(context)@) == melee_to_flat(
            env@,
            layout@,
            source@,
            old(target)@,
            old(context)@,
        ),
    decreases source@, 3nat, None::<nat>, 0nat,
{
    let block: &TagBlock = match block_field_by_key(source, "melee damage parameters") {
        Some(block) => block,
        None => {
            return no_texts();
        },
    };
    proof {
        lemma_keyed(source@.fields, "melee damage parameters"@, 0);
    }
    let k: usize = match field_ordinal_by_key(target, "melee damage parameters") {
        Some(k) => k,
        None => {
            return no_texts();
        },
    };
    let keys: Vec<String> = vec![copy("melee damage parameters")];
    assert(texts(keys@) =~= seq!["melee damage parameters"@]);
    let have: usize = block.len();
    if have == 0 {
        return keys;
    }
    if let Some(melee) = target.at_mut(k).as_struct_mut() {
        assert(decreases_to!(block@.elements => block@.elements[0]));
        convert_struct(
            block.at(0),
            melee,
            layout,
            "melee damage parameters",
            false,
            env,
            context,
        );
        let count: usize = if have <= 3 {
            have
        } else {
            3
        };
        write_hits(block, melee, count, env, context);
        return keys;
    }
    assert(target@.fields =~= old(target)@.fields);
    no_texts()
}

/// Brings the melee layout of a weapon across, where the two games keep it
/// differently, and returns the keys that have gone elsewhere.
pub fn convert_weapon_melee_layout(
    source: &TagStruct,
    target: &mut TagStruct,
    layout: &TagLayout,
    env: &ConversionEnvironment,
    context: &mut ConversionContext,
) -> (r: Vec<String>)
    ensures
        (final(target)@, texts(r@), final(context)@) == conv_melee(
            env@,
            layout@,
            source@,
            old(target)@,
            old(context)@,
        ),
    decreases source@, 4nat, None::<nat>, 0nat,
{
    if is_flat_game(env.source_game) && is_block_game(env.target_game) {
        convert_legacy_melee_to_block(source, target, layout, env, context)
    } else if is_block_game(env.source_game) && is_flat_game(env.target_game) {
        convert_block_melee_to_legacy(source, target, layout, env, context)
    } else {
        no_texts()
    }
}

fn write_sound(
    source: &TagStruct,
    block: &mut TagBlock,
    has_sound: bool,
    layout: &TagLayout,
    env: &ConversionEnvironment,
    context: &mut ConversionContext,
)
    ensures
        (final(block)@, final(context)@) == sound_in_block(
            env@,
            layout@,
            source@,
            old(block)@,
            has_sound,
            old(context)@,
        ),
    decreases source@, 3nat, None::<nat>, 0nat,
{
    block.clear();
    if has_sound {
        let at: usize = block.add_element(layout);
        if at < block.len() {
            let keys: Vec<String> = sound_key_list();
            let element: &mut TagStruct = block.at_mut(at);
            initialize_block_index_defaults(element);
            copy_named_fields(
                source,
                element,
                &keys,
                "looping sounds[0]/",
                layout,
                env,
                context,
            );
        }
    }
}

fn is_reference(field: &TagField) -> (r: bool)
    ensures
        r == refers(field@),
{
    match field.value() {
        Some(TagFieldData::TagReference(reference)) => match &reference.group_tag_and_name {
            Some((_, path)) => is_tag_path(path),
            None => false,
        },
        _ => false,
    }
}

fn convert_legacy_effect_looping_sound_to_block(
    source: &TagStruct,
    target: &mut TagStruct,
    layout: &TagLayout,
    env: &ConversionEnvironment,
    context: &mut ConversionContext,
) -> (r: Vec<String>)
    ensures
        (final(target)@, texts(r@), final(context)@) == sound_to_block(
            env@,
            layout@,
            source@,
            old(target)@,
            old(context)@,
        ),
    decreases source@, 4nat, None::<nat>, 0nat,
{
    let sound: &TagField = match field_by_key(source, "looping sound") {
        Some(sound) => sound,
        None => {
            return no_texts();
        },
    };
    let k: usize = match field_ordinal_by_key(target, "looping sounds") {
        Some(k) => k,
        None => {
            return no_texts();
        },
    };
    if !target.at(k).holds_block() {
        return no_texts();
    }
    let has_sound = is_reference(sound);
    match target.at_mut(k).as_block_mut() {
        Some(block) => {
            write_sound(source, block, has_sound, layout, env, context);
            sound_key_list()
        },
        None => no_texts(),
    }
}

fn write_first_sound(
    block: &TagBlock,
    target: &mut TagStruct,
    layout: &TagLayout,
    env: &ConversionEnvironment,
    context: &mut ConversionContext,
)
    ensures
        (final(target)@, final(context)@) == first_sound(
            env@,
            layout@,
            block@.elements,
            old(target)@,
            old(context)@,
        ),
    decreases block@.elements, 1nat, None::<nat>, 0nat,
{
    if block.len() > 0 {
        assert(decreases_to!(block@.elements => block@.elements[0]));
        let keys: Vec<String> = sound_key_list();
        let prefix: String = String::new();
        copy_named_fields(block.at(0), target, &keys, &prefix, layout, env, context);
    }
}

fn convert_effect_looping_sound_block_to_legacy(
    source: &TagStruct,
    target: &mut TagStruct,
    layout: &TagLayout,
    env: &ConversionEnvironment,
    context: &mut ConversionContext,
) -> (r: Vec<String>)
    ensures
        (final(target)@, texts(r@), final(context)@) == sound_to_flat(
            env@,
            layout@,
            source@,
            old(target)@,
            old(context)@,
        ),
    decreases source@, 4nat, None::<nat>, 0nat,
{
    let block: &TagBlock = match block_field_by_key(source, "looping sounds") {
        Some(block) => block,
        None => {
            return no_texts();
        },
    };
    proof {
        lemma_keyed(source@.fields, "looping sounds"@, 0);
    }
    write_first_sound(block, target, layout, env, context);
    let have: usize = block.len();
    if have > 1 {
        let number: String = decimal_text(have as u128);
        record_unsupported(
            context,
            "looping sounds",
            concat2("Legacy target supports one looping sound but source has ", &number),
        );
    }
    let keys: Vec<String> = vec![copy("looping sounds")];
    assert(texts(keys@) =~= seq!["looping sounds"@]);
    keys
}

/// Brings the looping sound of an effect across, where the two games keep it
/// differently, and returns the keys that have gone elsewhere.
pub fn convert_effect_looping_sound_layout(
    source: &TagStruct,
    target: &mut TagStruct,
    layout: &TagLayout,
    env: &ConversionEnvironment,
    context: &mut ConversionContext,
) -> (r: Vec<String>)
    ensures
        (final(target)@, texts(r@), final(context)@) == conv_looping_sound(
            env@,
            layout@,
            source@,
            old(target)@,
            old(context)@,
        ),
    decreases source@, 5nat, None::<nat>, 0nat,
{
    if is_flat_game(env.source_game) && is_block_game(env.target_game) {
        convert_legacy_effect_looping_sound_to_block(source, target, layout, env, context)
    } else if is_block_game(env.source_game) && is_flat_game(env.target_game) {
        convert_effect_looping_sound_block_to_legacy(source, target, layout, env, context)
    } else {
        no_texts()
    }
}

proof fn lemma_filled_keeps_the_rest(
    env: EnvironmentView,
    layout: LayoutView,
    s: StructView,
    t: StructView,
    path: Seq<char>,
    used: Seq<Seq<char>>,
    n: nat,
    c: ContextView,
)
    requires
        n <= t.fields.len(),
    ensures
        filled_fields(env, layout, s, t, path, used, n, c).0.fields.len() == t.fields.len(),
        forall|j: int|
            n <= j < t.fields.len() ==> filled_fields(
                env,
                layout,
                s,
                t,
                path,
                used,
                n,
                c,
            ).0.fields[j] == t.fields[j],
    decreases n,
{
    if n > 0 {
        lemma_filled_keeps_the_rest(env, layout, s, t, path, used, (n - 1) as nat, c);
    }
}

/// Copies every value that the target can hold from a flat source struct,
/// descending into the target's nested structs, and appends the keys it used.
pub fn fill_nested_target_from_flat_source(
    source: &TagStruct,
    target: &mut TagStruct,
    layout: &TagLayout,
    path: &str,
    consumed: &mut Vec<String>,
    env: &ConversionEnvironment,
    context: &mut ConversionContext,
)
    ensures
        (final(target)@, texts(final(consumed)@), final(context)@) == filled_fields(
            env@,
            layout@,
            source@,
            old(target)@,
            path@,
            texts(old(consumed)@),
            old(target)@.fields.len(),
            old(context)@,
        ),
    decreases source@, 2nat, old(target)@, 0nat,
{
    let ghost start = target@;
    let ghost used = texts(consumed@);
    let ghost before = context@;
    let n: usize = target.len();
    let mut i: usize = 0;
    while i < n
        invariant
            i <= n,
            n == start.fields.len(),
            start == old(target)@,
            (target@, texts(consumed@), context@) == filled_fields(
                env@,
                layout@,
                source@,
                start,
                path@,
                used,
                i as nat,
                before,
            ),
        decreases n - i,
    {
        proof {
            lemma_filled_keeps_the_rest(
                env@,
                layout@,
                source@,
                start,
                path@,
                used,
                i as nat,
                before,
            );
            field_is_inside(start, i as int);
        }
        let key: String = clean_field_key(target.at(i).name());
        let field_type: TagFieldType = target.at(i).field_type();
        let field_path: String = join_path(path, &key);
        if field_type == TagFieldType::Struct {
            let ghost own = target@.fields[i as int];
            let ghost whole = target@;
            if let Some(child) = target.at_mut(i).as_struct_mut() {
                proof {
                    struct_is_inside(own, child@);
                }
                fill_nested_target_from_flat_source(
                    source,
                    child,
                    layout,
                    &field_path,
                    consumed,
                    env,
                    context,
                );
            } else {
                assert(target@.fields =~= whole.fields);
            }
        } else if !key.as_str().is_empty() {
            proof {
                lemma_keyed(source@.fields, key@, 0);
            }
            if let Some(k) = field_ordinal_by_key(source, &key) {
                if compatible_field_shapes(source.at(k).field_type(), field_type) {
                    proof {
                        field_is_inside(source@, k as int);
                    }
                    convert_field(
                        source.at(k),
                        target.at_mut(i),
                        layout,
                        &field_path,
                        false,
                        env,
                        context,
                    );
                    proof {
                        lemma_texts_push(consumed@, key);
                    }
                    consumed.push(key);
                }
            }
        }
        i = i + 1;
    }
}

fn fill_physics_block(
    source: &TagStruct,
    block: &mut TagBlock,
    layout: &TagLayout,
    path: &str,
    env: &ConversionEnvironment,
    context: &mut ConversionContext,
) -> (r: Vec<String>)
    ensures
        (final(block)@, texts(r@), final(context)@) == physics_in_block(
            env@,
            layout@,
            source@,
            old(block)@,
            path@,
            old(context)@,
        ),
    decreases source@, 3nat, None::<nat>, 0nat,
{
    if block.is_empty() {
        let _ = block.add_element(layout);
    }
    let mut used: Vec<String> = no_texts();
    if block.is_empty() {
        return used;
    }
    fill_nested_target_from_flat_source(
        source,
        block.at_mut(0),
        layout,
        path,
        &mut used,
        env,
        context,
    );
    let own: String = copy("type");
    proof {
        lemma_texts_push(used@, own);
    }
    used.push(own);
    used
}

fn fill_physics(
    source: &TagStruct,
    types: &mut TagStruct,
    layout: &TagLayout,
    key: &str,
    env: &ConversionEnvironment,
    context: &mut ConversionContext,
) -> (r: Vec<String>)
    ensures
        (final(types)@, texts(r@), final(context)@) == physics_filled(
            env@,
            layout@,
            source@,
            old(types)@,
            key@,
            old(context)@,
        ),
    decreases source@, 4nat, None::<nat>, 0nat,
{
    let j: usize = match field_ordinal_by_key(types, key) {
        Some(j) => j,
        None => {
            record_unsupported(
                context,
                &concat2("physics types/", key),
                concat4(
                    env.target_game,
                    " has no ",
                    key,
                    " physics block, so this vehicle's physics values have no destination and need reauthoring",
                ),
            );
            return no_texts();
        },
    };
    if !types.at(j).holds_block() {
        return no_texts();
    }
    let path: String = concat3("physics types/", key, "[0]");
    match types.at_mut(j).as_block_mut() {
        Some(block) => fill_physics_block(source, block, layout, &path, env, context),
        None => no_texts(),
    }
}

/// Brings the flat physics of a vehicle into the block of its type, and returns
/// the keys that have gone there.
pub fn convert_vehicle_physics_types(
    source: &TagStruct,
    target: &mut TagStruct,
    layout: &TagLayout,
    env: &ConversionEnvironment,
    context: &mut ConversionContext,
) -> (r: Vec<String>)
    ensures
        (final(target)@, texts(r@), final(context)@) == conv_physics(
            env@,
            layout@,
            source@,
            old(target)@,
            old(context)@,
        ),
    decreases source@, 5nat, None::<nat>, 0nat,
{
    let k: usize = match field_ordinal_by_key(target, "physics types") {
        Some(k) => k,
        None => {
            return no_texts();
        },
    };
    let kind: &TagField = match field_by_key(source, "type") {
        Some(kind) => kind,
        None => {
            return no_texts();
        },
    };
    if field_by_key(source, "physics types").is_some() {
        return no_texts();
    }
    let name: &String = match held_option(kind) {
        Some(name) => name,
        None => {
            record_unsupported(
                context,
                "physics types",
                copy(
                    "Source vehicle type has no name, so its physics block could not be chosen",
                ),
            );
            return no_texts();
        },
    };
    let key: String = key_of_physics(name);
    if !target.at(k).holds_struct() {
        return no_texts();
    }
    match target.at_mut(k).as_struct_mut() {
        Some(types) => fill_physics(source, types, layout, &key, env, context),
        None => no_texts(),
    }
}

fn has_payload_field(source: &TagStruct) -> (r: bool)
    ensures
        r == some_payload_field(source@.fields, source@.fields.len()),
{
    let n: usize = source.len();
    let mut found = false;
    let mut i: usize = 0;
    while i < n
        invariant
            i <= n,
            n == source@.fields.len(),
            found == some_payload_field(source@.fields, i as nat),
        decreases n - i,
    {
        if starts_with(&clean_field_key(source.at(i).name()), "shared animation data") {
            found = true;
        }
        i = i + 1;
    }
    found
}

/// Whether a source struct is an animation that holds its payload inline.
pub fn inline_animation(source: &TagStruct, path: &str, env: &ConversionEnvironment) -> (r: bool)
    ensures
        r == is_inline_animation(env@, source@, path@),
{
    same(env.group_name, "model_animation_graph") && contains_part(path, "animations")
        && !has_payload_field(source)
}

fn payload_block_of(target: &TagStruct) -> (r: Option<usize>)
    ensures
        match r {
            Some(k) => k < target@.fields.len() && payload_block(target@.fields, 0) == Some(
                k as nat,
            ),
            None => payload_block(target@.fields, 0) is None,
        },
{
    let n: usize = target.len();
    let mut i: usize = 0;
    while i < n
        invariant
            i <= n,
            n == target@.fields.len(),
            payload_block(target@.fields, 0) == payload_block(target@.fields, i as nat),
        decreases n - i,
    {
        if target.at(i).field_type() == TagFieldType::Block && starts_with(
            &clean_field_key(target.at(i).name()),
            "shared animation data",
        ) {
            return Some(i);
        }
        i = i + 1;
    }
    None
}

fn convert_animation_fields(
    source: &TagStruct,
    payload: &mut TagStruct,
    layout: &TagLayout,
    path: &str,
    env: &ConversionEnvironment,
    context: &mut ConversionContext,
) -> (r: Vec<String>)
    ensures
        ({
            let done = animation_fields(
                env@,
                layout@,
                source@,
                old(payload)@,
                path@,
                source@.fields.len(),
                old(context)@,
            );
            final(payload)@ == done.0 && texts(r@) == done.2 && final(context)@ == done.3
        }),
    decreases source@, 2nat, None::<nat>, 0nat,
{
    let ghost start = payload@;
    let ghost before = context@;
    let same_guid = same_guids(&source.guid(), &payload.guid());
    let mut moved: Vec<String> = no_texts();
    let mut used: Vec<bool> = none_used(payload.len());
    let n: usize = source.len();
    let mut i: usize = 0;
    while i < n
        invariant
            i <= n,
            n == source@.fields.len(),
            used@.len() == payload@.fields.len(),
            same_guid == (source@.guid == start.guid),
            (payload@, used@, texts(moved@), context@) == animation_fields(
                env@,
                layout@,
                source@,
                start,
                path@,
                i as nat,
                before,
            ),
        decreases n - i,
    {
        let field: &TagField = source.at(i);
        proof {
            field_is_inside(source@, i as int);
        }
        let key: String = clean_field_key(field.name());
        if let Some(k) = find_place_in_payload(env, source, field, payload, &used) {
            let own_key: String = clean_field_key(payload.at(k).name());
            if !same(&key, &own_key) {
                context.count_alias();
            }
            let leaf: String = concat2("shared animation data[0]/", &own_key);
            let field_path: String = join_path(path, &leaf);
            convert_field(
                field,
                payload.at_mut(k),
                layout,
                &field_path,
                same_guid,
                env,
                context,
            );
            used[k] = true;
            proof {
                lemma_texts_push(moved@, key);
            }
            moved.push(key);
        }
        i = i + 1;
    }
    moved
}

/// Brings an animation's inline payload into the block that the later generations
/// keep it in, and returns the keys that have gone there.
pub fn convert_local_animation_payload(
    source: &TagStruct,
    target: &mut TagStruct,
    layout: &TagLayout,
    path: &str,
    env: &ConversionEnvironment,
    context: &mut ConversionContext,
) -> (r: Vec<String>)
    ensures
        (final(target)@, texts(r@), final(context)@) == conv_animation(
            env@,
            layout@,
            source@,
            old(target)@,
            path@,
            old(context)@,
        ),
    decreases source@, 3nat, None::<nat>, 0nat,
{
    let k: usize = match payload_block_of(target) {
        Some(k) => k,
        None => {
            return no_texts();
        },
    };
    if !target.at(k).holds_block() {
        return no_texts();
    }
    match target.at_mut(k).as_block_mut() {
        Some(block) => {
            block.clear();
            let at: usize = block.add_element(layout);
            if at < block.len() {
                let payload: &mut TagStruct = block.at_mut(at);
                initialize_block_index_defaults(payload);
                convert_animation_fields(source, payload, layout, path, env, context)
            } else {
                no_texts()
            }
        },
        None => no_texts(),
    }
}

}
