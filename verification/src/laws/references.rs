//! The references of a tag: none is overlooked, and each is looked for where it belongs.
use crate::convert::catalog::{first_exact_drop, target_group};
use crate::convert::defaults::path_of;
use crate::convert::environment::EnvironmentView;
use crate::convert::references::{
    ExpectedView, ReferenceValueView, expectation, expectations, explained, references_in,
    references_in_elements, references_in_field, references_in_fields, refers_to,
};
use crate::convert::report::{IssueView, ReportView};
use crate::fields::FieldValue;
use crate::keys::{element_path, path_covers};
use crate::tag::{BlockView, ContentView, FieldView, StructView};
use crate::text::same_ignoring_case;
use vstd::prelude::*;

verus! {

// ---------------------------------------------------------------------------
// What a tag refers to
// ---------------------------------------------------------------------------
proof fn lemma_contains_sum<A>(a: Seq<A>, b: Seq<A>, x: A)
    ensures
        (a + b).contains(x) <==> a.contains(x) || b.contains(x),
{
    let c = a + b;
    if a.contains(x) {
        let i = choose|i: int| 0 <= i < a.len() && a[i] == x;
        assert(c[i] == x);
    }
    if b.contains(x) {
        let i = choose|i: int| 0 <= i < b.len() && b[i] == x;
        assert(c[a.len() + i] == x);
    }
    if c.contains(x) {
        let i = choose|i: int| 0 <= i < c.len() && c[i] == x;
        if i < a.len() {
            assert(a[i] == x);
        } else {
            assert(b[i - a.len()] == x);
        }
    }
}

/// A struct refers to what its fields refer to, each under its own path, and to nothing
/// else.
pub proof fn a_struct_refers_to_what_its_fields_refer_to(
    fields: Seq<FieldView>,
    path: Seq<char>,
    n: nat,
    r: ReferenceValueView,
)
    requires
        n <= fields.len(),
    ensures
        references_in_fields(fields, path, n).contains(r) <==> exists|k: int|
            0 <= k < n && references_in_field(
                #[trigger] fields[k],
                path_of(path, fields[k]),
            ).contains(r),
    decreases n,
{
    if n > 0 {
        let m = (n - 1) as nat;
        a_struct_refers_to_what_its_fields_refer_to(fields, path, m, r);
        lemma_contains_sum(
            references_in_fields(fields, path, m),
            references_in_field(fields[n - 1], path_of(path, fields[n - 1])),
            r,
        );
        if references_in_fields(fields, path, m).contains(r) {
            let k = choose|k: int|
                0 <= k < m && references_in_field(
                    #[trigger] fields[k],
                    path_of(path, fields[k]),
                ).contains(r);
            assert(references_in_field(fields[k], path_of(path, fields[k])).contains(r));
        }
    }
}

/// A list of structs refers to what its elements refer to, each under the path of its own
/// place, and to nothing else.
pub proof fn a_list_refers_to_what_its_elements_refer_to(
    elements: Seq<StructView>,
    path: Seq<char>,
    n: nat,
    r: ReferenceValueView,
)
    requires
        n <= elements.len(),
    ensures
        references_in_elements(elements, path, n).contains(r) <==> exists|i: int|
            0 <= i < n && references_in(
                #[trigger] elements[i],
                element_path(path, i as nat),
            ).contains(r),
    decreases n,
{
    if n > 0 {
        let m = (n - 1) as nat;
        a_list_refers_to_what_its_elements_refer_to(elements, path, m, r);
        lemma_contains_sum(
            references_in_elements(elements, path, m),
            references_in(elements[n - 1], element_path(path, m)),
            r,
        );
        if references_in_elements(elements, path, m).contains(r) {
            let i = choose|i: int|
                0 <= i < m && references_in(
                    #[trigger] elements[i],
                    element_path(path, i as nat),
                ).contains(r);
            assert(references_in(elements[i], element_path(path, i as nat)).contains(r));
        }
    }
}

/// A field that refers to a tag is itself among the references, by its path, its group and
/// its tag; one that names no tag is not.
pub proof fn a_reference_is_found_where_it_stands(
    s: StructView,
    path: Seq<char>,
    k: int,
    group: u32,
    tag: Seq<char>,
)
    requires
        0 <= k < s.fields.len(),
        s.fields[k].content == ContentView::Value(FieldValue::Reference(Some((group, tag)))),
        tag.len() > 0,
        !same_ignoring_case(tag, "none"@),
    ensures
        references_in(s, path).contains(
            ReferenceValueView {
                field_path: path_of(path, s.fields[k]),
                group_tag: group,
                tag_path: tag,
            },
        ),
{
    let r = ReferenceValueView {
        field_path: path_of(path, s.fields[k]),
        group_tag: group,
        tag_path: tag,
    };
    let own = references_in_field(s.fields[k], path_of(path, s.fields[k]));
    assert(own[0] == r);
    assert(own.contains(r));
    a_struct_refers_to_what_its_fields_refer_to(s.fields, path, s.fields.len(), r);
}

/// What an element of a block refers to, the struct that holds the block refers to, under
/// the path of the element.
pub proof fn an_element_s_references_are_its_tag_s(
    s: StructView,
    path: Seq<char>,
    k: int,
    b: BlockView,
    i: int,
    r: ReferenceValueView,
)
    requires
        0 <= k < s.fields.len(),
        s.fields[k].content == ContentView::Block(b),
        0 <= i < b.elements.len(),
        references_in(
            b.elements[i],
            element_path(path_of(path, s.fields[k]), i as nat),
        ).contains(r),
    ensures
        references_in(s, path).contains(r),
{
    let own = path_of(path, s.fields[k]);
    a_list_refers_to_what_its_elements_refer_to(b.elements, own, b.elements.len(), r);
    assert(references_in_field(s.fields[k], own).contains(r));
    a_struct_refers_to_what_its_fields_refer_to(s.fields, path, s.fields.len(), r);
}

// ---------------------------------------------------------------------------
// What arrives
// ---------------------------------------------------------------------------
/// A tag is referred to exactly where one of the references is of its group and its path.
pub proof fn a_tag_is_referred_to_by_its_group_and_path(
    references: Seq<ReferenceValueView>,
    group: u32,
    tag_path: Seq<char>,
    n: nat,
)
    requires
        n <= references.len(),
    ensures
        refers_to(references, group, tag_path, n) <==> exists|k: int|
            0 <= k < n && (#[trigger] references[k]).group_tag == group && references[k].tag_path
                == tag_path,
    decreases n,
{
    if n > 0 {
        a_tag_is_referred_to_by_its_group_and_path(
            references,
            group,
            tag_path,
            (n - 1) as nat,
        );
    }
}

/// A path is explained exactly where an issue is about it or about what it is inside of.
pub proof fn a_path_is_explained_by_an_issue_about_it(
    issues: Seq<IssueView>,
    path: Seq<char>,
    n: nat,
)
    requires
        n <= issues.len(),
    ensures
        explained(issues, path, n) <==> exists|k: int|
            0 <= k < n && path_covers((#[trigger] issues[k]).path, path),
    decreases n,
{
    if n > 0 {
        a_path_is_explained_by_an_issue_about_it(issues, path, (n - 1) as nat);
    }
}

/// Whether a reference is expected to arrive: no reviewed drop covers it, the source names
/// its group, and the target has one for it.
pub open spec fn should_arrive(env: EnvironmentView, r: ReferenceValueView) -> Option<u32> {
    if first_exact_drop(
        env.mapping_catalog.reference_drops@,
        env.group_name,
        env.source_game,
        env.target_game,
        r.field_path,
        0,
    ) is Some {
        None
    } else {
        match env.source_groups.name_of(r.group_tag) {
            Some(name) => match target_group(
                env.mapping_catalog,
                env.target.groups@,
                name,
                env.source_game,
                env.target_game,
            ) {
                Some((tag, _)) => Some(tag),
                None => None,
            },
            None => None,
        }
    }
}

/// Every reference that should arrive is expected, with its own group, path and place; every
/// other is reported under its place.
pub proof fn every_reference_is_expected_or_reported(
    env: EnvironmentView,
    references: Seq<ReferenceValueView>,
    n: nat,
    report: ReportView,
    i: int,
)
    requires
        0 <= i < n <= references.len(),
    ensures
        expectations(env, references, n, report).0.issues.len() >= report.issues.len(),
        should_arrive(env, references[i]) matches Some(tag) ==> expectations(
            env,
            references,
            n,
            report,
        ).1.contains((tag, references[i].tag_path, references[i].field_path)),
        should_arrive(env, references[i]) is None ==> exists|k: int|
            report.issues.len() <= k < expectations(env, references, n, report).0.issues.len() && (
            #[trigger] expectations(env, references, n, report).0.issues[k]).path
                == references[i].field_path,
    decreases n,
{
    let m = (n - 1) as nat;
    let (report1, expected) = expectations(env, references, m, report);
    let (report2, more) = expectations(env, references, n, report);
    lemma_expectations_grow(env, references, m, report);
    lemma_expectation_grows(env, references[n - 1], report1, expected);
    if i < n - 1 {
        every_reference_is_expected_or_reported(env, references, m, report, i);
        match should_arrive(env, references[i]) {
            Some(tag) => {
                let item = (tag, references[i].tag_path, references[i].field_path);
                let k = choose|k: int| 0 <= k < expected.len() && expected[k] == item;
                assert(more[k] == item);
            },
            None => {
                let k = choose|k: int|
                    report.issues.len() <= k < report1.issues.len() && (
                    #[trigger] report1.issues[k]).path == references[i].field_path;
                assert(report2.issues[k] == report1.issues[k]);
            },
        }
    } else {
        match should_arrive(env, references[i]) {
            Some(tag) => {
                let item = (tag, references[i].tag_path, references[i].field_path);
                if expected.contains(item) {
                } else {
                    assert(more[expected.len() as int] == item);
                }
            },
            None => {
                let k = report1.issues.len() as int;
                assert(report2.issues[k].path == references[i].field_path);
            },
        }
    }
}

proof fn lemma_expectation_grows(
    env: EnvironmentView,
    r: ReferenceValueView,
    report: ReportView,
    expected: Seq<ExpectedView>,
)
    ensures
        ({
            let (after, more) = expectation(env, r, report, expected);
            &&& after.issues.len() >= report.issues.len()
            &&& forall|k: int|
                0 <= k < report.issues.len() ==> #[trigger] after.issues[k] == report.issues[k]
            &&& more.len() >= expected.len()
            &&& forall|k: int| 0 <= k < expected.len() ==> #[trigger] more[k] == expected[k]
        }),
{
}

proof fn lemma_expectations_grow(
    env: EnvironmentView,
    references: Seq<ReferenceValueView>,
    n: nat,
    report: ReportView,
)
    ensures
        expectations(env, references, n, report).0.issues.len() >= report.issues.len(),
    decreases n,
{
    if 0 < n <= references.len() {
        lemma_expectations_grow(env, references, (n - 1) as nat, report);
        let (report1, expected) = expectations(env, references, (n - 1) as nat, report);
        lemma_expectation_grows(env, references[n - 1], report1, expected);
    }
}

}
