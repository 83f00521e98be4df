//! What keeps a tag from being written: every loss that nobody reviewed, and no other.
use crate::convert::catalog::first_covering_drop;
use crate::convert::environment::EnvironmentView;
use crate::convert::report::{ContextView, ConversionIssueKind, IssueView};
use crate::convert::safety::{
    critical, critical_paths, fails_closed, paths_kept, script_fields, scripts_emptied,
    unreviewed, unsafe_reason,
};
use crate::fields::{FieldValue, TagFieldType};
use crate::keys::field_key;
use crate::tag::{ContentView, FieldView, StructView};
use crate::text::same_ignoring_case;
use vstd::prelude::*;

verus! {

proof fn lemma_pushed<A>(a: Seq<A>, x: A, y: A)
    ensures
        a.push(x).contains(y) <==> a.contains(y) || x == y,
{
    let b = a.push(x);
    if a.contains(y) {
        let i = choose|i: int| 0 <= i < a.len() && a[i] == y;
        assert(b[i] == y);
    }
    if x == y {
        assert(b[a.len() as int] == y);
    }
    if b.contains(y) {
        let i = choose|i: int| 0 <= i < b.len() && b[i] == y;
        if i < a.len() {
            assert(a[i] == y);
        }
    }
}

/// A payload counts as lost exactly where it was left behind and neither a reviewed drop
/// nor a reviewed drop of payloads covers it.
pub proof fn a_payload_is_lost_unless_reviewed(
    env: EnvironmentView,
    paths: Seq<Seq<char>>,
    n: nat,
    path: Seq<char>,
)
    requires
        n <= paths.len(),
    ensures
        unreviewed(env, paths, n).contains(path) <==> (exists|i: int|
            0 <= i < n && #[trigger] paths[i] == path) && env.mapping_catalog.accepted_drop(
            env.group_name,
            env.source_game,
            env.target_game,
            path,
        ) is None && first_covering_drop(
            env.mapping_catalog.accepted_payload_drops@,
            env.group_name,
            env.source_game,
            env.target_game,
            path,
            0,
        ) is None,
    decreases n,
{
    if n > 0 {
        let m = (n - 1) as nat;
        a_payload_is_lost_unless_reviewed(env, paths, m, path);
        lemma_pushed(unreviewed(env, paths, m), paths[n - 1], path);
        if exists|i: int| 0 <= i < n && #[trigger] paths[i] == path {
            let i = choose|i: int| 0 <= i < n && #[trigger] paths[i] == path;
            if i < m {
                assert(paths[i] == path);
            }
        }
    }
}

/// A loss is critical exactly where the report says at that path that a value could not be
/// carried, and no reviewed drop covers it; the two compression hints of an animation graph
/// are not.
pub proof fn a_loss_is_critical_where_it_is_reported(
    env: EnvironmentView,
    issues: Seq<IssueView>,
    n: nat,
    path: Seq<char>,
)
    requires
        n <= issues.len(),
    ensures
        critical_paths(env, issues, n).contains(path) <==> exists|i: int|
            0 <= i < n && (#[trigger] issues[i]).path == path && critical(env, issues[i]),
    decreases n,
{
    if n > 0 {
        let m = (n - 1) as nat;
        a_loss_is_critical_where_it_is_reported(env, issues, m, path);
        lemma_pushed(critical_paths(env, issues, m), issues[n - 1].path, path);
        if exists|i: int| 0 <= i < m && (#[trigger] issues[i]).path == path && critical(
            env,
            issues[i],
        ) {
            let i = choose|i: int|
                0 <= i < m && (#[trigger] issues[i]).path == path && critical(env, issues[i]);
            assert(issues[i].path == path);
        }
    }
}

/// A warning, or a list that was cut short, is never critical; a value that could not be
/// carried is, unless a reviewed drop covers it, in every group but animation graphs.
pub proof fn only_lost_values_are_critical(env: EnvironmentView, issue: IssueView)
    ensures
        issue.kind != ConversionIssueKind::Unsupported ==> !critical(env, issue),
        issue.kind == ConversionIssueKind::Unsupported && env.mapping_catalog.accepted_drop(
            env.group_name,
            env.source_game,
            env.target_game,
            issue.path,
        ) is None && !same_ignoring_case(env.group_name, "model_animation_graph"@) ==> critical(
            env,
            issue,
        ),
        env.mapping_catalog.accepted_drop(
            env.group_name,
            env.source_game,
            env.target_game,
            issue.path,
        ) is Some ==> !critical(env, issue),
{
}

/// A tag is refused for a resource or a payload that was left behind in every group, and
/// for any critical loss where its group fails closed; it is written where there is none
/// of them.
pub proof fn a_tag_is_refused_for_its_losses_alone(env: EnvironmentView, c: ContextView)
    ensures
        unsafe_reason(env, c) is None <==> c.resources_left.len() == 0 && unreviewed(
            env,
            c.payloads_left,
            c.payloads_left.len(),
        ).len() == 0 && (fails_closed(env) ==> critical_paths(
            env,
            c.report.issues,
            c.report.issues.len(),
        ).len() == 0),
{
}

/// The paths of script data do not count as payloads that were left behind, and every other
/// path does.
pub proof fn only_script_paths_are_let_go(paths: Seq<Seq<char>>, n: nat, path: Seq<char>)
    requires
        n <= paths.len(),
    ensures
        paths_kept(paths, n).contains(path) <==> (exists|i: int|
            0 <= i < n && #[trigger] paths[i] == path) && path != "script string data"@ && path
            != "script syntax data"@ && path != "hs syntax datums"@ && path != "scripts"@ && path
            != "globals"@,
    decreases n,
{
    let names = script_fields();
    assert(names[0] == "script string data"@);
    assert(names[1] == "script syntax data"@);
    assert(names[2] == "hs syntax datums"@);
    assert(names[3] == "scripts"@);
    assert(names[4] == "globals"@);
    assert(names.contains(path) <==> path == "script string data"@ || path == "script syntax data"@
        || path == "hs syntax datums"@ || path == "scripts"@ || path == "globals"@);
    if n > 0 {
        let m = (n - 1) as nat;
        only_script_paths_are_let_go(paths, m, path);
        lemma_pushed(paths_kept(paths, m), paths[n - 1], path);
        if exists|i: int| 0 <= i < n && #[trigger] paths[i] == path {
            let i = choose|i: int| 0 <= i < n && #[trigger] paths[i] == path;
            if i < m {
                assert(paths[i] == path);
            }
        }
    }
}

/// Whether a field is a block with elements.
pub open spec fn holds_elements(f: FieldView) -> bool {
    match f.content {
        ContentView::Block(b) => b.elements.len() > 0,
        _ => false,
    }
}

/// Whether a field holds bytes of data.
pub open spec fn holds_data(f: FieldView) -> bool {
    match f.content {
        ContentView::Value(FieldValue::Bytes { kind, bytes }) => kind == TagFieldType::Data
            && f.field_type == TagFieldType::Data && bytes.len() > 0,
        _ => false,
    }
}

/// Emptying the scripts of a scenario empties the script fields, names each of them, and
/// leaves every other field as it was.
pub proof fn only_scripts_are_emptied(s: StructView, n: nat, i: int)
    requires
        n <= s.fields.len(),
        0 <= i < s.fields.len(),
    ensures
        scripts_emptied(s, n).0.fields.len() == s.fields.len(),
        i >= n ==> scripts_emptied(s, n).0.fields[i] == s.fields[i],
        !script_fields().contains(field_key(s.fields[i].name)) ==> scripts_emptied(
            s,
            n,
        ).0.fields[i] == s.fields[i],
        i < n && script_fields().contains(field_key(s.fields[i].name)) ==> {
            &&& holds_elements(s.fields[i]) ==> {
                &&& scripts_emptied(s, n).0.fields[i].content == ContentView::Block(
                    s.fields[i].content->Block_0.cleared(),
                )
                &&& scripts_emptied(s, n).1.contains(s.fields[i].name)
            }
            &&& holds_data(s.fields[i]) ==> {
                &&& scripts_emptied(s, n).0.fields[i].content == ContentView::Value(
                    FieldValue::Bytes { kind: TagFieldType::Data, bytes: Seq::empty() },
                )
                &&& scripts_emptied(s, n).1.contains(s.fields[i].name)
            }
        },
    decreases n,
{
    if n > 0 {
        let m = (n - 1) as nat;
        only_scripts_are_emptied(s, m, i);
        if m != i {
            only_scripts_are_emptied(s, m, m as int);
        }
        let names = scripts_emptied(s, m).1;
        lemma_pushed(names, s.fields[n - 1].name, s.fields[i].name);
    }
}

}
