//! Tag references: collecting them, and holding a conversion to them.
use crate::convert::catalog::{fault_is, first_exact_drop, resolve_target_group, target_group};
use crate::convert::defaults::{path_of, path_to_field};
use crate::convert::environment::{ConversionEnvironment, EnvironmentView};
use crate::convert::matching::{is_tag_path, names_a_tag};
use crate::convert::report::{
    ConversionIssue, ConversionIssueKind, IssueView, ReportView, TagConversionReport, issue_views,
    plus, plus_of,
};
use crate::fields::{FieldValue, TagFieldData};
use crate::guid::{format_group_tag, group_tag_text};
use crate::keys::{element_path, is_ancestor_path, path_covers, path_of_element};
use crate::tag::{
    ContentView, FieldView, StructView, TagField, TagStruct, elements_are_inside, field_is_inside,
    items_are_inside, struct_is_inside,
};
use crate::text::{
    concat2, concat4, concat5, copy, decimal, decimal_text, join_texts, joined_with,
    lemma_texts_push, no_texts, same, texts,
};
use vstd::prelude::*;

verus! {

/// A reference that names a tag, and the field it is in.
#[derive(Clone, Debug, PartialEq, Eq, Hash)]
pub struct ReferenceValue {
    pub field_path: String,
    pub group_tag: u32,
    pub tag_path: String,
}

pub ghost struct ReferenceValueView {
    pub field_path: Seq<char>,
    pub group_tag: u32,
    pub tag_path: Seq<char>,
}

impl ReferenceValue {
    pub open spec fn view(&self) -> ReferenceValueView {
        ReferenceValueView {
            field_path: self.field_path@,
            group_tag: self.group_tag,
            tag_path: self.tag_path@,
        }
    }
}

/// The views of a list of references.
pub open spec fn reference_views(v: Seq<ReferenceValue>) -> Seq<ReferenceValueView> {
    Seq::new(v.len(), |i: int| v[i]@)
}

// ---------------------------------------------------------------------------
// Collecting
// ---------------------------------------------------------------------------
/// The references in a field.
pub open spec fn references_in_field(f: FieldView, path: Seq<char>) -> Seq<ReferenceValueView>
    decreases f, 1nat, 0nat,
{
    match f.content {
        ContentView::Value(FieldValue::Reference(Some((group_tag, tag_path)))) => if names_a_tag(
            tag_path,
        ) {
            seq![ReferenceValueView { field_path: path, group_tag, tag_path }]
        } else {
            Seq::empty()
        },
        ContentView::Struct(s) => references_in_fields(s.fields, path, s.fields.len()),
        ContentView::Block(b) => references_in_elements(b.elements, path, b.elements.len()),
        ContentView::Array(a) => references_in_elements(a, path, a.len()),
        _ => Seq::empty(),
    }
}

/// The references in the first `n` fields of a struct.
pub open spec fn references_in_fields(fields: Seq<FieldView>, path: Seq<char>, n: nat) -> Seq<
    ReferenceValueView,
>
    decreases fields, 0nat, n,
{
    if n == 0 || n > fields.len() {
        Seq::empty()
    } else {
        references_in_fields(fields, path, (n - 1) as nat) + references_in_field(
            fields[n - 1],
            path_of(path, fields[n - 1]),
        )
    }
}

/// The references in the first `n` elements of a block or an array.
pub open spec fn references_in_elements(
    elements: Seq<StructView>,
    path: Seq<char>,
    n: nat,
) -> Seq<ReferenceValueView>
    decreases elements, 0nat, n,
{
    if n == 0 || n > elements.len() {
        Seq::empty()
    } else {
        references_in_elements(elements, path, (n - 1) as nat) + references_in_fields(
            elements[n - 1].fields,
            element_path(path, (n - 1) as nat),
            elements[n - 1].fields.len(),
        )
    }
}

/// The references in a struct.
pub open spec fn references_in(s: StructView, path: Seq<char>) -> Seq<ReferenceValueView> {
    references_in_fields(s.fields, path, s.fields.len())
}

fn push_reference(values: &mut Vec<ReferenceValue>, value: ReferenceValue)
    ensures
        reference_views(final(values)@) == reference_views(old(values)@) + seq![value@],
{
    let ghost before = values@;
    values.push(value);
    assert(reference_views(values@) =~= reference_views(before) + seq![value@]);
}

fn collect_in_field(field: &TagField, path: &str, values: &mut Vec<ReferenceValue>)
    ensures
        reference_views(final(values)@) == reference_views(old(values)@) + references_in_field(
            field@,
            path@,
        ),
    decreases field@, 1nat,
{
    let ghost before = reference_views(values@);
    assert(before + Seq::<ReferenceValueView>::empty() =~= before);
    if let Some(value) = field.value() {
        if let TagFieldData::TagReference(reference) = value {
            if let Some((group, tag_path)) = &reference.group_tag_and_name {
                if is_tag_path(tag_path) {
                    push_reference(
                        values,
                        ReferenceValue {
                            field_path: copy(path),
                            group_tag: *group,
                            tag_path: copy(tag_path),
                        },
                    );
                }
            }
        }
        return;
    }
    if let Some(s) = field.as_struct() {
        proof {
            struct_is_inside(field@, s@);
        }
        collect_reference_values(s, path, values);
        return;
    }
    if let Some(block) = field.as_block() {
        let n: usize = block.len();
        let mut i: usize = 0;
        while i < n
            invariant
                i <= n,
                n == block@.elements.len(),
                field@.content == ContentView::Block(block@),
                reference_views(values@) == before + references_in_elements(
                    block@.elements,
                    path@,
                    i as nat,
                ),
            decreases n - i,
        {
            proof {
                elements_are_inside(field@, block@);
            }
            let ghost done = references_in_elements(block@.elements, path@, i as nat);
            let element_path: String = path_of_element(path, i);
            collect_reference_values(block.at(i), &element_path, values);
            i = i + 1;
            assert(reference_views(values@) =~= before + references_in_elements(
                block@.elements,
                path@,
                i as nat,
            ));
        }
        return;
    }
    if let Some(array) = field.as_array() {
        let n: usize = array.len();
        let mut i: usize = 0;
        while i < n
            invariant
                i <= n,
                n == array@.len(),
                field@.content == ContentView::Array(array@),
                reference_views(values@) == before + references_in_elements(
                    array@,
                    path@,
                    i as nat,
                ),
            decreases n - i,
        {
            proof {
                items_are_inside(field@, array@);
            }
            let element_path: String = path_of_element(path, i);
            collect_reference_values(array.at(i), &element_path, values);
            i = i + 1;
            assert(reference_views(values@) =~= before + references_in_elements(
                array@,
                path@,
                i as nat,
            ));
        }
    }
}

/// Appends every reference in a struct that names a tag.
pub fn collect_reference_values(
    structure: &TagStruct,
    parent_path: &str,
    values: &mut Vec<ReferenceValue>,
)
    ensures
        reference_views(final(values)@) == reference_views(old(values)@) + references_in(
            structure@,
            parent_path@,
        ),
    decreases structure@, 0nat,
{
    let ghost before = reference_views(values@);
    let n: usize = structure.len();
    let mut i: usize = 0;
    assert(before + references_in_fields(structure@.fields, parent_path@, 0) =~= before);
    while i < n
        invariant
            i <= n,
            n == structure@.fields.len(),
            reference_views(values@) == before + references_in_fields(
                structure@.fields,
                parent_path@,
                i as nat,
            ),
        decreases n - i,
    {
        proof {
            field_is_inside(structure@, i as int);
        }
        let field_path: String = path_to_field(parent_path, structure.at(i));
        collect_in_field(structure.at(i), &field_path, values);
        i = i + 1;
        assert(reference_views(values@) =~= before + references_in_fields(
            structure@.fields,
            parent_path@,
            i as nat,
        ));
    }
}

// ---------------------------------------------------------------------------
// Fidelity
// ---------------------------------------------------------------------------
/// A reference that a conversion should have carried: the group it becomes, the
/// tag and the field it was in.
pub type ExpectedView = (u32, Seq<char>, Seq<char>);

impl ReportView {
    /// With a reference that was dropped.
    pub open spec fn reference_dropped(self, path: Seq<char>, message: Seq<char>) -> ReportView {
        ReportView {
            dropped_references: plus(self.dropped_references, 1),
            ..self
        }.with_issue(ConversionIssueKind::Warning, path, message)
    }
}

/// What a report says, and what is expected, after one source reference was
/// looked at.
pub open spec fn expectation(
    env: EnvironmentView,
    r: ReferenceValueView,
    report: ReportView,
    expected: Seq<ExpectedView>,
) -> (ReportView, Seq<ExpectedView>) {
    match first_exact_drop(
        env.mapping_catalog.reference_drops@,
        env.group_name,
        env.source_game,
        env.target_game,
        r.field_path,
        0,
    ) {
        Some(reason) => (
            report.with_issue(
                ConversionIssueKind::Warning,
                r.field_path,
                "Target schema has no safe slot for reference "@ + r.tag_path + ": "@ + reason,
            ),
            expected,
        ),
        None => match env.source_groups.name_of(r.group_tag) {
            None => (
                report.reference_dropped(
                    r.field_path,
                    env.source_game + " does not name group "@ + group_tag_text(r.group_tag)
                        + ", so the reference to "@ + (r.tag_path
                        + " was                      left empty \u{2014} reconnect it by hand"@),
                ),
                expected,
            ),
            Some(name) => match target_group(
                env.mapping_catalog,
                env.target.groups@,
                name,
                env.source_game,
                env.target_game,
            ) {
                None => (
                    report.reference_dropped(
                        r.field_path,
                        env.target_game + " has no "@ + name
                            + " group, so this reference to "@ + (r.tag_path
                            + " was left empty \u{2014} reconnect it by hand if the target needs one"@),
                    ),
                    expected,
                ),
                Some((tag, _)) => {
                    let item = (tag, r.tag_path, r.field_path);
                    (
                        report,
                        if expected.contains(item) {
                            expected
                        } else {
                            expected.push(item)
                        },
                    )
                },
            },
        },
    }
}

/// The same after the first `n` source references.
pub open spec fn expectations(
    env: EnvironmentView,
    references: Seq<ReferenceValueView>,
    n: nat,
    report: ReportView,
) -> (ReportView, Seq<ExpectedView>)
    decreases n,
{
    if n == 0 || n > references.len() {
        (report, Seq::empty())
    } else {
        let (report1, expected) = expectations(env, references, (n - 1) as nat, report);
        expectation(env, references[n - 1], report1, expected)
    }
}

/// Whether one of the first `n` references is to the tag.
pub open spec fn refers_to(
    references: Seq<ReferenceValueView>,
    group: u32,
    tag_path: Seq<char>,
    n: nat,
) -> bool
    decreases n,
{
    if n == 0 || n > references.len() {
        false
    } else {
        refers_to(references, group, tag_path, (n - 1) as nat) || (references[n - 1].group_tag
            == group && references[n - 1].tag_path == tag_path)
    }
}

/// Whether one of the first `n` issues is about the field or what holds it.
pub open spec fn explained(issues: Seq<IssueView>, path: Seq<char>, n: nat) -> bool
    decreases n,
{
    if n == 0 || n > issues.len() {
        false
    } else {
        explained(issues, path, (n - 1) as nat) || path_covers(issues[n - 1].path, path)
    }
}

/// What a report says, and which losses nothing explains, after the first `n`
/// expected references were looked for in the target.
///
/// A reference that did not arrive is one of two things. Where something was
/// reported of its field, the target has no home for it. Where nothing was, the
/// field matched and the value vanished.
pub open spec fn arrivals(
    expected: Seq<ExpectedView>,
    actual: Seq<ReferenceValueView>,
    n: nat,
    report: ReportView,
) -> (ReportView, Seq<Seq<char>>)
    decreases n,
{
    if n == 0 || n > expected.len() {
        (report, Seq::empty())
    } else {
        let (report1, lost) = arrivals(expected, actual, (n - 1) as nat, report);
        let (group, tag_path, field_path) = expected[n - 1];
        if refers_to(actual, group, tag_path, actual.len()) {
            (report1, lost)
        } else if explained(report1.issues, field_path, report1.issues.len()) {
            (
                report1.reference_dropped(
                    field_path,
                    "Reference to "@ + group_tag_text(group) + ":"@ + tag_path
                        + " was left empty \u{2014} reconnect it by hand if the                      target needs one"@,
                ),
                lost,
            )
        } else {
            (
                report1,
                lost.push(
                    group_tag_text(group) + ":"@ + tag_path + " (at "@ + (field_path + ")"@),
                ),
            )
        }
    }
}

/// What a report says, and why the conversion is refused, after the target's
/// references were held against the source's.
pub open spec fn fidelity(
    env: EnvironmentView,
    source: StructView,
    target: StructView,
    report: ReportView,
) -> (ReportView, Option<Seq<char>>) {
    let wanted = references_in(source, Seq::empty());
    let (report1, expected) = expectations(env, wanted, wanted.len(), report);
    let (report2, lost) = arrivals(
        expected,
        references_in(target, Seq::empty()),
        expected.len(),
        report1,
    );
    (
        report2,
        if lost.len() == 0 {
            None
        } else {
            Some(
                "Conversion would lose "@ + decimal(lost.len())
                    + " tag reference(s) the target does have a field for,              which means field matching went wrong rather than the games differing: "@
                    + joined_with(lost, ", "@, lost.len()),
            )
        },
    )
}

/// A reference that a conversion should have carried.
pub struct ExpectedReference {
    pub group: u32,
    pub tag_path: String,
    pub field_path: String,
}

/// The views of a list of expected references.
pub open spec fn expected_views(v: Seq<ExpectedReference>) -> Seq<ExpectedView> {
    Seq::new(v.len(), |i: int| (v[i].group, v[i].tag_path@, v[i].field_path@))
}

fn is_expected(list: &Vec<ExpectedReference>, group: u32, reference: &ReferenceValue) -> (r: bool)
    ensures
        r == expected_views(list@).contains((group, reference.tag_path@, reference.field_path@)),
{
    let ghost item = (group, reference.tag_path@, reference.field_path@);
    let mut i: usize = 0;
    while i < list.len()
        invariant
            i <= list.len(),
            item == (group, reference.tag_path@, reference.field_path@),
            forall|j: int| 0 <= j < i ==> expected_views(list@)[j] != item,
        decreases list.len() - i,
    {
        let own: &ExpectedReference = &list[i];
        assert(expected_views(list@)[i as int] == (own.group, own.tag_path@, own.field_path@));
        if own.group == group && same(&own.tag_path, &reference.tag_path) && same(
            &own.field_path,
            &reference.field_path,
        ) {
            return true;
        }
        i = i + 1;
    }
    false
}

fn drop_reference(report: &mut TagConversionReport, path: &str, message: String)
    ensures
        final(report)@ == old(report)@.reference_dropped(path@, message@),
{
    report.dropped_references = plus_of(report.dropped_references, 1);
    report.add_issue(ConversionIssueKind::Warning, path, message);
}

fn expect_reference(
    env: &ConversionEnvironment,
    reference: &ReferenceValue,
    report: &mut TagConversionReport,
    expected: &mut Vec<ExpectedReference>,
)
    ensures
        (final(report)@, expected_views(final(expected)@)) == expectation(
            env@,
            reference@,
            old(report)@,
            expected_views(old(expected)@),
        ),
{
    if let Some(reason) = env.mapping_catalog.reference_drop_reason(
        env.group_name,
        env.source_game,
        env.target_game,
        &reference.field_path,
    ) {
        report.add_issue(
            ConversionIssueKind::Warning,
            &reference.field_path,
            concat4(
                "Target schema has no safe slot for reference ",
                &reference.tag_path,
                ": ",
                reason,
            ),
        );
        return;
    }
    let name: &str = match env.source_groups.name_of(reference.group_tag) {
        Some(name) => name,
        None => {
            let tag: String = format_group_tag(reference.group_tag);
            let tail: String = concat2(
                &reference.tag_path,
                " was                      left empty \u{2014} reconnect it by hand",
            );
            drop_reference(
                report,
                &reference.field_path,
                concat5(
                    env.source_game,
                    " does not name group ",
                    &tag,
                    ", so the reference to ",
                    &tail,
                ),
            );
            return;
        },
    };
    match resolve_target_group(
        name,
        &env.target.groups,
        env.mapping_catalog,
        env.source_game,
        env.target_game,
    ) {
        None => {
            let tail: String = concat2(
                &reference.tag_path,
                " was left empty \u{2014} reconnect it by hand if the target needs one",
            );
            drop_reference(
                report,
                &reference.field_path,
                concat5(
                    env.target_game,
                    " has no ",
                    name,
                    " group, so this reference to ",
                    &tail,
                ),
            );
        },
        Some((tag, _)) => {
            if !is_expected(expected, tag, reference) {
                let ghost before = expected@;
                expected.push(
                    ExpectedReference {
                        group: tag,
                        tag_path: copy(&reference.tag_path),
                        field_path: copy(&reference.field_path),
                    },
                );
                assert(expected_views(expected@) =~= expected_views(before).push(
                    (tag, reference.tag_path@, reference.field_path@),
                ));
            }
        },
    }
}

fn is_referred_to(references: &Vec<ReferenceValue>, group: u32, tag_path: &str) -> (r: bool)
    ensures
        r == refers_to(reference_views(references@), group, tag_path@, references@.len()),
{
    let ghost views = reference_views(references@);
    let mut found = false;
    let mut i: usize = 0;
    while i < references.len()
        invariant
            i <= references.len(),
            views == reference_views(references@),
            found == refers_to(views, group, tag_path@, i as nat),
        decreases references.len() - i,
    {
        assert(views[i as int] == references@[i as int]@);
        if references[i].group_tag == group && same(&references[i].tag_path, tag_path) {
            found = true;
        }
        i = i + 1;
    }
    found
}

fn is_explained(issues: &Vec<ConversionIssue>, path: &str) -> (r: bool)
    ensures
        r == explained(issue_views(issues@), path@, issues@.len()),
{
    let ghost views = issue_views(issues@);
    let mut found = false;
    let mut i: usize = 0;
    while i < issues.len()
        invariant
            i <= issues.len(),
            views == issue_views(issues@),
            found == explained(views, path@, i as nat),
        decreases issues.len() - i,
    {
        assert(views[i as int] == issues@[i as int]@);
        if is_ancestor_path(&issues[i].path, path) {
            found = true;
        }
        i = i + 1;
    }
    found
}

fn look_for_arrivals(
    expected: &Vec<ExpectedReference>,
    actual: &Vec<ReferenceValue>,
    report: &mut TagConversionReport,
) -> (r: Vec<String>)
    ensures
        (final(report)@, texts(r@)) == arrivals(
            expected_views(expected@),
            reference_views(actual@),
            expected@.len(),
            old(report)@,
        ),
{
    let ghost start = report@;
    let ghost wanted = expected_views(expected@);
    let ghost found = reference_views(actual@);
    let mut lost: Vec<String> = no_texts();
    let mut i: usize = 0;
    while i < expected.len()
        invariant
            i <= expected.len(),
            wanted == expected_views(expected@),
            found == reference_views(actual@),
            found.len() == actual@.len(),
            (report@, texts(lost@)) == arrivals(wanted, found, i as nat, start),
        decreases expected.len() - i,
    {
        let item: &ExpectedReference = &expected[i];
        assert(wanted[i as int] == (item.group, item.tag_path@, item.field_path@));
        if !is_referred_to(actual, item.group, &item.tag_path) {
            let tag: String = format_group_tag(item.group);
            if is_explained(&report.issues, &item.field_path) {
                drop_reference(
                    report,
                    &item.field_path,
                    concat5(
                        "Reference to ",
                        &tag,
                        ":",
                        &item.tag_path,
                        " was left empty \u{2014} reconnect it by hand if the                      target needs one",
                    ),
                );
            } else {
                let tail: String = concat2(&item.field_path, ")");
                let entry: String = concat5(&tag, ":", &item.tag_path, " (at ", &tail);
                proof {
                    lemma_texts_push(lost@, entry);
                }
                lost.push(entry);
            }
        }
        i = i + 1;
    }
    lost
}

/// Holds the target's references against the source's. A reference that vanished
/// with nothing reported of its field refuses the conversion.
pub fn validate_reference_fidelity(
    source: &TagStruct,
    target: &TagStruct,
    env: &ConversionEnvironment,
    report: &mut TagConversionReport,
) -> (r: Result<(), String>)
    ensures
        final(report)@ == fidelity(env@, source@, target@, old(report)@).0,
        fault_is(r, fidelity(env@, source@, target@, old(report)@).1),
{
    let ghost start = report@;
    let root: String = String::new();
    let mut wanted: Vec<ReferenceValue> = Vec::new();
    let mut actual: Vec<ReferenceValue> = Vec::new();
    assert(reference_views(wanted@) =~= Seq::<ReferenceValueView>::empty());
    collect_reference_values(source, &root, &mut wanted);
    collect_reference_values(target, &root, &mut actual);
    let ghost all = references_in(source@, Seq::empty());
    assert(reference_views(wanted@) =~= all);
    assert(reference_views(actual@) =~= references_in(target@, Seq::empty()));
    let mut expected: Vec<ExpectedReference> = Vec::new();
    let mut i: usize = 0;
    assert(expected_views(expected@) =~= Seq::<ExpectedView>::empty());
    while i < wanted.len()
        invariant
            i <= wanted.len(),
            all == reference_views(wanted@),
            (report@, expected_views(expected@)) == expectations(env@, all, i as nat, start),
        decreases wanted.len() - i,
    {
        assert(all[i as int] == wanted@[i as int]@);
        expect_reference(env, &wanted[i], report, &mut expected);
        i = i + 1;
    }
    let lost: Vec<String> = look_for_arrivals(&expected, &actual, report);
    if lost.len() == 0 {
        return Ok(());
    }
    let number: String = decimal_text(lost.len() as u128);
    let list: String = join_texts(&lost, ", ", lost.len());
    Err(
        concat4(
            "Conversion would lose ",
            &number,
            " tag reference(s) the target does have a field for,              which means field matching went wrong rather than the games differing: ",
            &list,
        ),
    )
}

// ---------------------------------------------------------------------------
// Laws
// ---------------------------------------------------------------------------
/// No expected reference vanishes silently. Where a conversion is not refused,
/// each of them is in the target or among the dropped ones of the report.
pub proof fn no_reference_vanishes_silently(
    expected: Seq<ExpectedView>,
    actual: Seq<ReferenceValueView>,
    n: nat,
    report: ReportView,
    i: int,
)
    requires
        0 <= i < n <= expected.len(),
        arrivals(expected, actual, n, report).1.len() == 0,
    ensures
        refers_to(actual, expected[i].0, expected[i].1, actual.len()) || exists|k: int|
            0 <= k < arrivals(expected, actual, n, report).0.issues.len() && (
            #[trigger] arrivals(expected, actual, n, report).0.issues[k]).path == expected[i].2,
    decreases n,
{
    let before = arrivals(expected, actual, (n - 1) as nat, report);
    let after = arrivals(expected, actual, n, report);
    if i < n - 1 {
        no_reference_vanishes_silently(expected, actual, (n - 1) as nat, report, i);
        if !refers_to(actual, expected[i].0, expected[i].1, actual.len()) {
            let k = choose|k: int|
                0 <= k < before.0.issues.len() && (#[trigger] before.0.issues[k]).path
                    == expected[i].2;
            assert(after.0.issues[k].path == expected[i].2);
        }
    } else if !refers_to(actual, expected[i].0, expected[i].1, actual.len()) {
        assert(after.0.issues[before.0.issues.len() as int].path == expected[i].2);
    }
}

}
