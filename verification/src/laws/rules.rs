//! The reviewed rules of the catalog: the first that applies decides.
use crate::convert::analysis::{conv_at, struct_at};
use crate::convert::catalog::{
    ConversionMappingCatalog, GroupAliasRule, ReferenceDropRule, StructMappingRule, drop_applies,
    first_covering_drop, first_exact_drop, first_group_name, first_struct_paths, group_rule_name,
    leaf_of, option_rule_relates, struct_rule_paths, target_group,
};
use crate::convert::defaults::path_of;
use crate::convert::environment::EnvironmentView;
use crate::convert::groups::GroupsView;
use crate::convert::matching::{
    defaults_among, keyed, reportable_default, struct_keyed, unmatched, unmatched_elements,
    unmatched_fields,
};
use crate::convert::report::{ContextView, ConversionIssueKind, IssueView, ReportView};
use crate::convert::values::field_meaningful;
use crate::convert::walk::conv_struct;
use crate::fields::TagFieldType;
use crate::keys::{element_path, field_key, normal_option, path_covers};
use crate::laws::responses::lemma_nested_set;
use crate::layout::LayoutView;
use crate::tag::{
    ContentView, FieldView, StructView, elements_are_inside, items_are_inside, struct_is_inside,
};
use crate::text::{begins, lowered, same_ignoring_case, texts};
use vstd::prelude::*;

verus! {

// ---------------------------------------------------------------------------
// Drops
// ---------------------------------------------------------------------------
/// Whether a reviewed drop is about a group on its way from one game to another.
pub open spec fn drop_is_about(
    rule: ReferenceDropRule,
    group: Seq<char>,
    source_game: Seq<char>,
    target_game: Seq<char>,
) -> bool {
    &&& same_ignoring_case(rule.group@, group)
    &&& rule.source_games@.len() == 0 || texts(rule.source_games@).contains(source_game)
    &&& rule.target_games@.len() == 0 || texts(rule.target_games@).contains(target_game)
}

proof fn lemma_scope(rule: ReferenceDropRule, group: Seq<char>, a: Seq<char>, b: Seq<char>)
    ensures
        drop_applies(rule, group, a, b) == drop_is_about(rule, group, a, b),
{
    assert(texts(rule.source_games@).len() == rule.source_games@.len());
    assert(texts(rule.target_games@).len() == rule.target_games@.len());
}

/// The reason for a drop is that of the first rule that is about the group and the games
/// and covers the path.
pub proof fn the_first_covering_drop_decides(
    rules: Seq<ReferenceDropRule>,
    group: Seq<char>,
    source_game: Seq<char>,
    target_game: Seq<char>,
    path: Seq<char>,
    from: nat,
    j: nat,
)
    requires
        from <= j < rules.len(),
        drop_is_about(rules[j as int], group, source_game, target_game),
        path_covers(rules[j as int].source_path@, path),
        forall|k: int|
            from <= k < j ==> !(drop_is_about(
                #[trigger] rules[k],
                group,
                source_game,
                target_game,
            ) && path_covers(rules[k].source_path@, path)),
    ensures
        first_covering_drop(rules, group, source_game, target_game, path, from) == Some(
            rules[j as int].reason@,
        ),
    decreases j - from,
{
    lemma_scope(rules[from as int], group, source_game, target_game);
    if from < j {
        the_first_covering_drop_decides(
            rules,
            group,
            source_game,
            target_game,
            path,
            from + 1,
            j,
        );
    }
}

/// Where no rule is about the group and the games and covers the path, there is no drop.
pub proof fn nothing_is_dropped_without_a_rule(
    rules: Seq<ReferenceDropRule>,
    group: Seq<char>,
    source_game: Seq<char>,
    target_game: Seq<char>,
    path: Seq<char>,
    from: nat,
)
    requires
        forall|k: int|
            from <= k < rules.len() ==> !(drop_is_about(
                #[trigger] rules[k],
                group,
                source_game,
                target_game,
            ) && path_covers(rules[k].source_path@, path)),
    ensures
        first_covering_drop(rules, group, source_game, target_game, path, from) is None,
    decreases rules.len() - from,
{
    if from < rules.len() {
        lemma_scope(rules[from as int], group, source_game, target_game);
        nothing_is_dropped_without_a_rule(
            rules,
            group,
            source_game,
            target_game,
            path,
            from + 1,
        );
    }
}

/// A reference is dropped for the reason of the first rule that names its own field.
pub proof fn the_first_exact_drop_decides(
    rules: Seq<ReferenceDropRule>,
    group: Seq<char>,
    source_game: Seq<char>,
    target_game: Seq<char>,
    path: Seq<char>,
    from: nat,
    j: nat,
)
    requires
        from <= j < rules.len(),
        drop_is_about(rules[j as int], group, source_game, target_game),
        field_key(rules[j as int].source_path@) == field_key(path),
        forall|k: int|
            from <= k < j ==> !(drop_is_about(
                #[trigger] rules[k],
                group,
                source_game,
                target_game,
            ) && field_key(rules[k].source_path@) == field_key(path)),
    ensures
        first_exact_drop(rules, group, source_game, target_game, path, from) == Some(
            rules[j as int].reason@,
        ),
    decreases j - from,
{
    lemma_scope(rules[from as int], group, source_game, target_game);
    if from < j {
        the_first_exact_drop_decides(
            rules,
            group,
            source_game,
            target_game,
            path,
            from + 1,
            j,
        );
    }
}

// ---------------------------------------------------------------------------
// Structs and groups
// ---------------------------------------------------------------------------
/// A rule for a struct leads from its source path to its target path on the way that it is
/// written for, and back on the other way where it says that it works both ways.
pub proof fn a_struct_rule_leads_there_and_back(
    rule: StructMappingRule,
    group: Seq<char>,
    source_game: Seq<char>,
    target_game: Seq<char>,
)
    requires
        same_ignoring_case(rule.group@, group),
        texts(rule.source_games@).contains(source_game),
        texts(rule.target_games@).contains(target_game),
        !texts(rule.source_games@).contains(target_game),
    ensures
        struct_rule_paths(rule, group, source_game, target_game) == Some(
            (rule.source_path@, rule.target_path@),
        ),
        rule.bidirectional ==> struct_rule_paths(rule, group, target_game, source_game) == Some(
            (rule.target_path@, rule.source_path@),
        ),
        !rule.bidirectional ==> struct_rule_paths(rule, group, target_game, source_game) is None,
{
}

/// A rule for a group leads from its source name to its target name on the way that it is
/// written for, and back on the other way.
pub proof fn a_group_rule_leads_there_and_back(
    rule: GroupAliasRule,
    source_game: Seq<char>,
    target_game: Seq<char>,
)
    requires
        texts(rule.source_games@).contains(source_game),
        texts(rule.target_games@).contains(target_game),
        !texts(rule.source_games@).contains(target_game),
    ensures
        group_rule_name(rule, rule.source@, source_game, target_game) == Some(rule.target@),
        group_rule_name(rule, rule.target@, target_game, source_game) == Some(rule.source@),
{
}

/// A group goes to the group of its alias where the target has one, and to the group of its
/// own name otherwise; the tag is the one that the target knows that name by.
pub proof fn a_group_goes_to_its_alias_first(
    catalog: ConversionMappingCatalog,
    groups: GroupsView,
    group: Seq<char>,
    source_game: Seq<char>,
    target_game: Seq<char>,
    tag: u32,
)
    ensures
        first_group_name(catalog.group_aliases@, group, source_game, target_game, 0) is None ==> (
        target_group(catalog, groups, group, source_game, target_game) is Some
            <==> groups.tag_of(lowered(group)) is Some),
        first_group_name(catalog.group_aliases@, group, source_game, target_game, 0) is None
            && groups.tag_of(lowered(group)) == Some(tag) ==> target_group(
            catalog,
            groups,
            group,
            source_game,
            target_game,
        )->Some_0.0 == tag,
        first_group_name(
            catalog.group_aliases@,
            group,
            source_game,
            target_game,
            0,
        ) matches Some(alias) ==> {
            &&& groups.tag_of(lowered(alias)) == Some(tag) ==> target_group(
                catalog,
                groups,
                group,
                source_game,
                target_game,
            ) is Some && target_group(catalog, groups, group, source_game, target_game)->Some_0.0 == tag
            &&& groups.tag_of(lowered(alias)) is None && groups.tag_of(lowered(group)) == Some(tag)
                ==> target_group(catalog, groups, group, source_game, target_game) is Some
                && target_group(catalog, groups, group, source_game, target_game)->Some_0.0 == tag
        },
{
}

/// A struct is looked for where the first rule says that applies.
pub proof fn the_first_struct_rule_decides(
    rules: Seq<StructMappingRule>,
    group: Seq<char>,
    source_game: Seq<char>,
    target_game: Seq<char>,
    from: nat,
    j: nat,
)
    requires
        from <= j < rules.len(),
        struct_rule_paths(rules[j as int], group, source_game, target_game) is Some,
        forall|k: int|
            from <= k < j ==> struct_rule_paths(
                #[trigger] rules[k],
                group,
                source_game,
                target_game,
            ) is None,
    ensures
        first_struct_paths(rules, group, source_game, target_game, from) == struct_rule_paths(
            rules[j as int],
            group,
            source_game,
            target_game,
        ),
    decreases j - from,
{
    if from < j {
        the_first_struct_rule_decides(rules, group, source_game, target_game, from + 1, j);
    }
}

/// A group name is that of the first rule that applies.
pub proof fn the_first_group_rule_decides(
    rules: Seq<GroupAliasRule>,
    group: Seq<char>,
    source_game: Seq<char>,
    target_game: Seq<char>,
    from: nat,
    j: nat,
)
    requires
        from <= j < rules.len(),
        group_rule_name(rules[j as int], group, source_game, target_game) is Some,
        forall|k: int|
            from <= k < j ==> group_rule_name(
                #[trigger] rules[k],
                group,
                source_game,
                target_game,
            ) is None,
    ensures
        first_group_name(rules, group, source_game, target_game, from) == group_rule_name(
            rules[j as int],
            group,
            source_game,
            target_game,
        ),
    decreases j - from,
{
    if from < j {
        the_first_group_rule_decides(rules, group, source_game, target_game, from + 1, j);
    }
}

/// A reviewed pair of option names stands for both ways: on the way that it is written for
/// the source name goes by the target name, and on the other way the target name by the
/// source name, in the group and the field that it is about.
pub proof fn a_reviewed_pair_of_options_is_related(
    catalog: ConversionMappingCatalog,
    i: int,
    group: Seq<char>,
    path: Seq<char>,
    source_game: Seq<char>,
    target_game: Seq<char>,
)
    requires
        0 <= i < catalog.option_aliases@.len(),
        same_ignoring_case(catalog.option_aliases@[i].group@, group),
        normal_option(catalog.option_aliases@[i].field@) == normal_option(leaf_of(path)),
        texts(catalog.option_aliases@[i].source_games@).contains(source_game),
        texts(catalog.option_aliases@[i].target_games@).contains(target_game),
    ensures
        catalog.relates_options(
            group,
            path,
            source_game,
            target_game,
            catalog.option_aliases@[i].source@,
            catalog.option_aliases@[i].target@,
        ),
        catalog.relates_options(
            group,
            path,
            target_game,
            source_game,
            catalog.option_aliases@[i].target@,
            catalog.option_aliases@[i].source@,
        ),
{
    let rule = catalog.option_aliases@[i];
    assert(option_rule_relates(
        rule,
        group,
        leaf_of(path),
        source_game,
        target_game,
        rule.source@,
        rule.target@,
    ));
    assert(option_rule_relates(
        rule,
        group,
        leaf_of(path),
        target_game,
        source_game,
        rule.target@,
        rule.source@,
    ));
}

// ---------------------------------------------------------------------------
// A struct inside another
// ---------------------------------------------------------------------------
/// A struct that is converted into one inside the target is found there, at the end of the
/// path that leads to it.
pub proof fn a_struct_arrives_at_the_end_of_its_path(
    env: EnvironmentView,
    layout: LayoutView,
    s: StructView,
    t: StructView,
    nodes: Seq<Seq<char>>,
    from: nat,
    prefix: Seq<char>,
    c: ContextView,
    own: StructView,
)
    requires
        struct_at(t, nodes, from) == Some(own),
    ensures
        conv_at(env, layout, s, t, nodes, from, prefix, c) matches Some(r) && struct_at(
            r.0,
            nodes,
            from,
        ) == Some(conv_struct(env, layout, s, own, prefix, true, c).0) && r.1 == conv_struct(
            env,
            layout,
            s,
            own,
            prefix,
            true,
            c,
        ).1,
    decreases nodes.len() - from,
{
    if from < nodes.len() {
        let key = nodes[from as int];
        let k = keyed(t, key)->0;
        let nested = struct_keyed(t, key)->0;
        a_struct_arrives_at_the_end_of_its_path(
            env,
            layout,
            s,
            nested,
            nodes,
            from + 1,
            prefix,
            c,
            own,
        );
        let nested1 = conv_at(env, layout, s, nested, nodes, from + 1, prefix, c)->Some_0.0;
        lemma_nested_set(t, key, k as int, nested1);
    }
}

// ---------------------------------------------------------------------------
// The report
// ---------------------------------------------------------------------------
/// What is gathered of a conversion is gathered one thing at a time: each entry raises its
/// own count, or lengthens its own list, and changes nothing else.
pub proof fn every_entry_changes_its_own_count(
    c: ContextView,
    path: Seq<char>,
    message: Seq<char>,
    count: int,
)
    requires
        count >= 0,
        c.report.unsupported_source < usize::MAX,
        c.report.copied_exact < usize::MAX,
        c.report.converted_semantic < usize::MAX,
        c.report.mapped_aliases < usize::MAX,
        c.report.transferred_resources < usize::MAX,
        c.report.truncated + count <= usize::MAX,
        c.report.defaulted_target + count <= usize::MAX,
    ensures
        c.unsupported(path, message) == (ContextView {
            report: ReportView {
                unsupported_source: (c.report.unsupported_source + 1) as usize,
                issues: c.report.issues.push(
                    IssueView { kind: ConversionIssueKind::Unsupported, path, message },
                ),
                ..c.report
            },
            ..c
        }),
        c.omitted(count, path, message) == (ContextView {
            report: ReportView {
                truncated: (c.report.truncated + count) as usize,
                issues: c.report.issues.push(
                    IssueView { kind: ConversionIssueKind::Truncated, path, message },
                ),
                ..c.report
            },
            ..c
        }),
        c.carried(true).report.copied_exact == c.report.copied_exact + 1,
        c.carried(true).report.converted_semantic == c.report.converted_semantic,
        c.carried(false).report.converted_semantic == c.report.converted_semantic + 1,
        c.carried(false).report.copied_exact == c.report.copied_exact,
        c.aliased().report.mapped_aliases == c.report.mapped_aliases + 1,
        c.defaulted(count).report.defaulted_target == c.report.defaulted_target + count,
        c.resource_carried().report.transferred_resources == c.report.transferred_resources + 1,
        c.payload_left(path).payloads_left == c.payloads_left.push(path),
        c.payload_left(path).resources_left == c.resources_left,
        c.resource_left(path).resources_left == c.resources_left.push(path),
        c.resource_left(path).payloads_left == c.payloads_left,
{
}

// ---------------------------------------------------------------------------
// Values that go nowhere
// ---------------------------------------------------------------------------
/// Whether a list of issues begins with another.
pub open spec fn continues(before: Seq<IssueView>, after: Seq<IssueView>) -> bool {
    &&& before.len() <= after.len()
    &&& forall|i: int| 0 <= i < before.len() ==> #[trigger] after[i] == before[i]
}

proof fn lemma_continues(f: FieldView, path: Seq<char>, c: ContextView)
    ensures
        continues(c.report.issues, unmatched(f, path, c).report.issues),
    decreases f, 1nat, 0nat,
{
    match f.content {
        ContentView::Struct(s) => {
            if f.field_type == TagFieldType::Struct {
                struct_is_inside(f, s);
                assert(decreases_to!(s => s.fields));
                lemma_fields_continue(s.fields, path, s.fields.len(), c);
            }
        },
        ContentView::Block(b) => {
            if f.field_type == TagFieldType::Block {
                elements_are_inside(f, b);
                lemma_elements_continue(b.elements, path, b.elements.len(), c);
            }
        },
        ContentView::Array(a) => {
            if f.field_type == TagFieldType::Array {
                items_are_inside(f, a);
                lemma_elements_continue(a, path, a.len(), c);
            }
        },
        _ => {},
    }
}

proof fn lemma_fields_continue(fields: Seq<FieldView>, path: Seq<char>, n: nat, c: ContextView)
    ensures
        continues(c.report.issues, unmatched_fields(fields, path, n, c).report.issues),
    decreases fields, 0nat, n,
{
    if 0 < n <= fields.len() {
        lemma_fields_continue(fields, path, (n - 1) as nat, c);
        let c1 = unmatched_fields(fields, path, (n - 1) as nat, c);
        lemma_continues(fields[n - 1], path_of(path, fields[n - 1]), c1);
    }
}

proof fn lemma_elements_continue(
    elements: Seq<StructView>,
    path: Seq<char>,
    n: nat,
    c: ContextView,
)
    ensures
        continues(c.report.issues, unmatched_elements(elements, path, n, c).report.issues),
    decreases elements, 0nat, n,
{
    if 0 < n <= elements.len() {
        lemma_elements_continue(elements, path, (n - 1) as nat, c);
        let c1 = unmatched_elements(elements, path, (n - 1) as nat, c);
        let s = elements[n - 1];
        assert(decreases_to!(elements => elements[n - 1]));
        assert(decreases_to!(s => s.fields));
        lemma_fields_continue(
            s.fields,
            element_path(path, (n - 1) as nat),
            s.fields.len(),
            c1,
        );
    }
}

/// Whether an issue says that there is no place in the target for the value at `path`.
pub open spec fn says_lost(issues: Seq<IssueView>, path: Seq<char>) -> bool {
    exists|i: int|
        0 <= i < issues.len() && (#[trigger] issues[i]).path == path && issues[i].kind
            == ConversionIssueKind::Unsupported
}

/// Whether a field holds a value of its own that means something, and that the engine does
/// not manage.
pub open spec fn authored_value(f: FieldView) -> bool {
    &&& f.content is Value
    &&& field_meaningful(f)
    &&& f.field_type != TagFieldType::Struct
    &&& f.field_type != TagFieldType::Block
    &&& f.field_type != TagFieldType::Array
    &&& !f.name.contains('!')
    &&& !begins(field_key(f.name), "runtime "@)
}

/// A value of a struct that goes nowhere is reported under its own path.
pub proof fn a_lost_value_is_reported_under_its_path(
    fields: Seq<FieldView>,
    path: Seq<char>,
    n: nat,
    c: ContextView,
    k: int,
)
    requires
        n <= fields.len(),
        0 <= k < n,
        authored_value(fields[k]),
    ensures
        says_lost(unmatched_fields(fields, path, n, c).report.issues, path_of(path, fields[k])),
    decreases n,
{
    let c1 = unmatched_fields(fields, path, (n - 1) as nat, c);
    let c2 = unmatched_fields(fields, path, n, c);
    if k < n - 1 {
        a_lost_value_is_reported_under_its_path(fields, path, (n - 1) as nat, c, k);
        lemma_continues(fields[n - 1], path_of(path, fields[n - 1]), c1);
        let i = choose|i: int|
            0 <= i < c1.report.issues.len() && (#[trigger] c1.report.issues[i]).path == path_of(
                path,
                fields[k],
            ) && c1.report.issues[i].kind == ConversionIssueKind::Unsupported;
        assert(c2.report.issues[i] == c1.report.issues[i]);
    } else {
        let f = fields[n - 1];
        let own = path_of(path, f);
        assert(c2 == unmatched(f, own, c1));
        assert(unmatched(f, own, c1) == c1.unsupported(
            own,
            "No compatible target field for "@ + f.kind_name,
        ));
        let i = c1.report.issues.len() as int;
        assert(c2.report.issues[i].path == own);
    }
}

/// A value of an element that goes nowhere is reported under the path of that very element.
pub proof fn a_lost_value_is_reported_under_its_element(
    elements: Seq<StructView>,
    path: Seq<char>,
    n: nat,
    c: ContextView,
    i: int,
    k: int,
)
    requires
        n <= elements.len(),
        0 <= i < n,
        0 <= k < elements[i].fields.len(),
        authored_value(elements[i].fields[k]),
    ensures
        says_lost(
            unmatched_elements(elements, path, n, c).report.issues,
            path_of(element_path(path, i as nat), elements[i].fields[k]),
        ),
    decreases n,
{
    let c1 = unmatched_elements(elements, path, (n - 1) as nat, c);
    let c2 = unmatched_elements(elements, path, n, c);
    let own = path_of(element_path(path, i as nat), elements[i].fields[k]);
    if i < n - 1 {
        a_lost_value_is_reported_under_its_element(elements, path, (n - 1) as nat, c, i, k);
        lemma_fields_continue(
            elements[n - 1].fields,
            element_path(path, (n - 1) as nat),
            elements[n - 1].fields.len(),
            c1,
        );
        let j = choose|j: int|
            0 <= j < c1.report.issues.len() && (#[trigger] c1.report.issues[j]).path == own
                && c1.report.issues[j].kind == ConversionIssueKind::Unsupported;
        assert(c2.report.issues[j] == c1.report.issues[j]);
    } else {
        a_lost_value_is_reported_under_its_path(
            elements[i].fields,
            element_path(path, i as nat),
            elements[i].fields.len(),
            c1,
            k,
        );
    }
}

/// One more field of the target that is taken is one fewer that is left at its default,
/// where it is worth counting at all.
pub proof fn a_taken_field_is_no_default(
    fields: Seq<FieldView>,
    used: Seq<bool>,
    n: nat,
    k: int,
)
    requires
        n <= fields.len(),
        used.len() == fields.len(),
        0 <= k < fields.len(),
        !used[k],
    ensures
        defaults_among(fields, used, n) == defaults_among(fields, used.update(k, true), n) + if k
            < n && reportable_default(fields[k].field_type) {
            1int
        } else {
            0
        },
    decreases n,
{
    if n > 0 {
        a_taken_field_is_no_default(fields, used, (n - 1) as nat, k);
    }
}

/// Where every field is taken, none is left at its default.
pub proof fn nothing_is_left_where_all_is_taken(fields: Seq<FieldView>, used: Seq<bool>, n: nat)
    requires
        n <= fields.len(),
        used.len() == fields.len(),
        forall|k: int| 0 <= k < n ==> #[trigger] used[k],
    ensures
        defaults_among(fields, used, n) == 0,
    decreases n,
{
    if n > 0 {
        assert(used[n - 1]);
        nothing_is_left_where_all_is_taken(fields, used, (n - 1) as nat);
    }
}

}
