//! Resources that need not cross: taking them off the list of what was lost.
use crate::convert::report::{
    ContextView, ConversionContext, ConversionIssue, ConversionIssueKind, IssueView, ReportView,
};
use crate::convert::shapes::{clear_resource, without_resource};
use crate::fields::TagFieldType;
use crate::file::{FileView, TagFile};
use crate::keys::{clean_field_key, field_key};
use crate::tag::{
    BlockView, ContentView, FieldView, StructView, TagBlock, TagField, TagStruct,
    elements_are_inside, field_is_inside, struct_is_inside,
};
use crate::text::{
    begins, concat3, contains_text, copy, eq_ignoring_case, last_piece, lemma_texts_push,
    no_texts, same, same_ignoring_case, starts_with, text_after_last, texts,
};
use vstd::prelude::*;

verus! {

// ---------------------------------------------------------------------------
// Forgiving
// ---------------------------------------------------------------------------
/// Which of the resources left behind are meant.
#[derive(Debug, PartialEq, Eq)]
pub enum ResourceScope {
    /// Those whose field has this name.
    Leaf(String),
    /// Those whose path begins so.
    Under(String),
    All,
}

pub ghost enum ScopeView {
    Leaf(Seq<char>),
    Under(Seq<char>),
    All,
}

impl ResourceScope {
    pub open spec fn view(&self) -> ScopeView {
        match self {
            ResourceScope::Leaf(name) => ScopeView::Leaf(name@),
            ResourceScope::Under(prefix) => ScopeView::Under(prefix@),
            ResourceScope::All => ScopeView::All,
        }
    }
}

/// Whether the resource at `path` is meant.
pub open spec fn scope_holds(scope: ScopeView, path: Seq<char>) -> bool {
    match scope {
        ScopeView::Leaf(name) => field_key(last_piece(path, '/')) == field_key(name),
        ScopeView::Under(prefix) => begins(path, prefix),
        ScopeView::All => true,
    }
}

/// What is said of a resource that was forgiven.
#[derive(Debug, PartialEq, Eq)]
pub enum ForgivenMessage {
    Plain(String),
    /// A text around the path.
    Around(String, String),
}

pub ghost enum MessageView {
    Plain(Seq<char>),
    Around(Seq<char>, Seq<char>),
}

impl ForgivenMessage {
    pub open spec fn view(&self) -> MessageView {
        match self {
            ForgivenMessage::Plain(text) => MessageView::Plain(text@),
            ForgivenMessage::Around(lead, tail) => MessageView::Around(lead@, tail@),
        }
    }
}

/// What is said of the resource at `path`.
pub open spec fn forgiven_text(message: MessageView, path: Seq<char>) -> Seq<char> {
    match message {
        MessageView::Plain(text) => text,
        MessageView::Around(lead, tail) => lead + path + tail,
    }
}

/// An issue after resources were forgiven: the refusal of one becomes a warning.
pub open spec fn forgiven_issue(
    issue: IssueView,
    left: Seq<Seq<char>>,
    scope: ScopeView,
    message: MessageView,
) -> IssueView {
    if issue.kind == ConversionIssueKind::Unsupported && left.contains(issue.path) && scope_holds(
        scope,
        issue.path,
    ) {
        IssueView {
            kind: ConversionIssueKind::Warning,
            path: issue.path,
            message: forgiven_text(message, issue.path),
        }
    } else {
        issue
    }
}

/// The first `n` of the paths, without those in the scope.
pub open spec fn unforgiven(left: Seq<Seq<char>>, scope: ScopeView, n: nat) -> Seq<Seq<char>>
    decreases n,
{
    if n == 0 || n > left.len() {
        Seq::empty()
    } else {
        let rest = unforgiven(left, scope, (n - 1) as nat);
        if scope_holds(scope, left[n - 1]) {
            rest
        } else {
            rest.push(left[n - 1])
        }
    }
}

/// The context after the resources in the scope were forgiven.
pub open spec fn forgiven(c: ContextView, scope: ScopeView, message: MessageView) -> ContextView {
    ContextView {
        report: ReportView {
            issues: Seq::new(
                c.report.issues.len(),
                |i: int| forgiven_issue(c.report.issues[i], c.resources_left, scope, message),
            ),
            ..c.report
        },
        resources_left: unforgiven(c.resources_left, scope, c.resources_left.len()),
        ..c
    }
}

fn is_in_scope(scope: &ResourceScope, path: &str) -> (r: bool)
    ensures
        r == scope_holds(scope@, path@),
{
    match scope {
        ResourceScope::Leaf(name) => same(
            &clean_field_key(&text_after_last(path, '/')),
            &clean_field_key(name),
        ),
        ResourceScope::Under(prefix) => starts_with(path, prefix),
        ResourceScope::All => true,
    }
}

fn text_of_forgiven(message: &ForgivenMessage, path: &str) -> (r: String)
    ensures
        r@ == forgiven_text(message@, path@),
{
    match message {
        ForgivenMessage::Plain(text) => copy(text),
        ForgivenMessage::Around(lead, tail) => concat3(lead, path, tail),
    }
}

fn remaining_paths(left: &Vec<String>, scope: &ResourceScope) -> (r: Vec<String>)
    ensures
        texts(r@) == unforgiven(texts(left@), scope@, left@.len()),
{
    let mut r: Vec<String> = no_texts();
    let mut i: usize = 0;
    while i < left.len()
        invariant
            i <= left.len(),
            texts(r@) == unforgiven(texts(left@), scope@, i as nat),
        decreases left.len() - i,
    {
        if !is_in_scope(scope, &left[i]) {
            let path: String = copy(&left[i]);
            proof {
                lemma_texts_push(r@, path);
            }
            r.push(path);
        }
        i = i + 1;
    }
    r
}

/// Takes every resource in the scope off the list of what was left behind, and
/// leaves a warning in the place of each refusal.
pub fn forgive_resources(
    context: &mut ConversionContext,
    scope: &ResourceScope,
    message: &ForgivenMessage,
)
    ensures
        final(context)@ == forgiven(old(context)@, scope@, message@),
{
    let ghost start = context@;
    let ghost left = start.resources_left;
    let n: usize = context.report.issues.len();
    let mut i: usize = 0;
    while i < n
        invariant
            i <= n,
            start == old(context)@,
            left == start.resources_left,
            n == start.report.issues.len(),
            context.report.issues@.len() == n,
            context@ == (ContextView {
                report: ReportView { issues: context@.report.issues, ..start.report },
                ..start
            }),
            forall|j: int|
                0 <= j < i ==> context@.report.issues[j] == forgiven_issue(
                    start.report.issues[j],
                    left,
                    scope@,
                    message@,
                ),
            forall|j: int| i <= j < n ==> context@.report.issues[j] == start.report.issues[j],
        decreases n - i,
    {
        let ghost before = context@;
        assert(before.report.issues[i as int] == context.report.issues@[i as int]@);
        let path: String = copy(&context.report.issues[i].path);
        let unsupported: bool = context.report.issues[i].kind == ConversionIssueKind::Unsupported;
        if unsupported && contains_text(&context.resources_left_behind, &path) && is_in_scope(
            scope,
            &path,
        ) {
            let text: String = text_of_forgiven(message, &path);
            let issue: ConversionIssue = ConversionIssue {
                kind: ConversionIssueKind::Warning,
                path,
                message: text,
            };
            context.report.issues[i] = issue;
            assert(context@.report.issues =~= before.report.issues.update(i as int, issue@));
        }
        i = i + 1;
    }
    context.resources_left_behind = remaining_paths(&context.resources_left_behind, scope);
    assert(context@.report.issues =~= forgiven(start, scope@, message@).report.issues);
}

// ---------------------------------------------------------------------------
// Geometry that came another way
// ---------------------------------------------------------------------------
/// The context after the geometry's resource was forgiven, where that is due.
pub open spec fn geometry_forgiven(
    c: ContextView,
    populated: Option<bool>,
    resource_field: Seq<char>,
) -> ContextView {
    if c.resources_left.len() == 0 || populated != Some(true) {
        c
    } else {
        forgiven(c, ScopeView::Leaf(resource_field), MessageView::Plain(geometry_dropped()))
    }
}

/// What is said of a geometry resource whose meshes came across.
pub open spec fn geometry_dropped() -> Seq<char> {
    "The GPU geometry resource was dropped; the mesh data came across in the author-format raw vertex and index blocks instead"@
}

/// Stops counting a geometry resource as lost where the tag holds the geometry
/// itself. `populated` says whether it does, all of it; `resource_field` is the
/// name of the resource's field. Any other resource is still lost.
pub fn forgive_hydrated_geometry(
    populated: Option<bool>,
    resource_field: &str,
    context: &mut ConversionContext,
)
    ensures
        final(context)@ == geometry_forgiven(old(context)@, populated, resource_field@),
{
    let scope: ResourceScope = ResourceScope::Leaf(copy(resource_field));
    let message: ForgivenMessage = ForgivenMessage::Plain(
        copy(
            "The GPU geometry resource was dropped; the mesh data came across in the author-format raw vertex and index blocks instead",
        ),
    );
    let held: bool = match populated {
        Some(held) => held,
        None => false,
    };
    if context.resources_left_behind.len() > 0 && held {
        forgive_resources(context, &scope, &message);
    }
}

// ---------------------------------------------------------------------------
// Payloads that live outside the tag
// ---------------------------------------------------------------------------
/// A field without the resources in it.
pub open spec fn field_emptied(f: FieldView) -> FieldView
    decreases f,
{
    if f.field_type == TagFieldType::PageableResource {
        without_resource(f)
    } else {
        match f.content {
            ContentView::Struct(s) => FieldView {
                content: ContentView::Struct(struct_emptied(s)),
                ..f
            },
            ContentView::Block(b) => FieldView {
                content: ContentView::Block(
                    BlockView {
                        elements: Seq::new(
                            b.elements.len(),
                            |i: int|
                                if 0 <= i < b.elements.len() {
                                    struct_emptied(b.elements[i])
                                } else {
                                    arbitrary()
                                },
                        ),
                        ..b
                    },
                ),
                ..f
            },
            _ => f,
        }
    }
}

/// A struct without the resources in it.
pub open spec fn struct_emptied(s: StructView) -> StructView
    decreases s,
{
    StructView {
        fields: Seq::new(
            s.fields.len(),
            |i: int|
                if 0 <= i < s.fields.len() {
                    field_emptied(s.fields[i])
                } else {
                    arbitrary()
                },
        ),
        ..s
    }
}

/// Nulls every resource in a struct.
pub fn clear_all_resources(value: &mut TagStruct)
    ensures
        final(value)@ == struct_emptied(old(value)@),
    decreases old(value)@,
{
    let ghost start = value@;
    let n: usize = value.len();
    let mut i: usize = 0;
    while i < n
        invariant
            i <= n,
            n == start.fields.len(),
            start == old(value)@,
            value@ == (StructView { fields: value@.fields, ..start }),
            value@.fields.len() == n,
            forall|j: int| 0 <= j < i ==> value@.fields[j] == field_emptied(start.fields[j]),
            forall|j: int| i <= j < n ==> value@.fields[j] == start.fields[j],
        decreases n - i,
    {
        proof {
            field_is_inside(start, i as int);
        }
        clear_field_resources(value.at_mut(i));
        i = i + 1;
    }
    assert(value@.fields =~= struct_emptied(start).fields);
}

fn clear_block_resources(block: &mut TagBlock)
    ensures
        final(block)@ == (BlockView { elements: final(block)@.elements, ..old(block)@ }),
        final(block)@.elements.len() == old(block)@.elements.len(),
        forall|j: int|
            0 <= j < old(block)@.elements.len() ==> final(block)@.elements[j] == struct_emptied(
                old(block)@.elements[j],
            ),
    decreases old(block)@.elements,
{
    let ghost start = block@;
    let n: usize = block.len();
    let mut i: usize = 0;
    while i < n
        invariant
            i <= n,
            n == start.elements.len(),
            start == old(block)@,
            block@ == (BlockView { elements: block@.elements, ..start }),
            block@.elements.len() == n,
            forall|j: int| 0 <= j < i ==> block@.elements[j] == struct_emptied(start.elements[j]),
            forall|j: int| i <= j < n ==> block@.elements[j] == start.elements[j],
        decreases n - i,
    {
        assert(decreases_to!(start.elements => start.elements[i as int]));
        clear_all_resources(block.at_mut(i));
        i = i + 1;
    }
}

fn clear_field_resources(field: &mut TagField)
    ensures
        final(field)@ == field_emptied(old(field)@),
    decreases old(field)@,
{
    let ghost start = field@;
    if field.field_type() == TagFieldType::PageableResource {
        clear_resource(field);
        return;
    }
    if field.holds_struct() {
        if let Some(nested) = field.as_struct_mut() {
            proof {
                struct_is_inside(start, nested@);
            }
            clear_all_resources(nested);
        }
        return;
    }
    if field.holds_block() {
        if let Some(block) = field.as_block_mut() {
            proof {
                elements_are_inside(start, block@);
            }
            clear_block_resources(block);
            assert(block@.elements =~= field_emptied(start).content->Block_0.elements);
        }
    }
}

/// Groups whose substance the target keeps outside the tag, and whether geometry
/// has to have arrived first.
pub open spec fn outside_payload(group: Seq<char>) -> Option<bool> {
    if same_ignoring_case(group, "sound"@) {
        Some(false)
    } else if same_ignoring_case(group, "scenario_structure_bsp"@) {
        Some(true)
    } else {
        None
    }
}

/// Whether what a tag of the group has left behind is not wanted at the target.
pub open spec fn payload_is_outside(
    upgrade: bool,
    group: Seq<char>,
    populated: Option<bool>,
    c: ContextView,
) -> bool {
    upgrade && c.resources_left.len() > 0 && match outside_payload(group) {
        Some(needs_geometry) => needs_geometry ==> populated == Some(true),
        None => false,
    }
}

/// What is said of such a resource.
pub open spec fn outside_text(group: Seq<char>) -> Seq<char> {
    "The Xbox 360 payload was dropped; a "@ + group
        + " on this side of the engine carries this resource null and finds what it needs outside the tag"@
}

/// Stops counting resources as lost that the target would not carry: those of the
/// groups above, when a tag only changes its byte order. `populated` says whether
/// the target holds its geometry itself.
pub fn forgive_externally_stored_payload(
    byte_order_upgrade: bool,
    group_name: &str,
    populated: Option<bool>,
    target: &mut TagFile,
    context: &mut ConversionContext,
)
    ensures
        payload_is_outside(byte_order_upgrade, group_name@, populated, old(context)@) ==> {
            &&& final(target)@ == (FileView {
                root: struct_emptied(old(target)@.root),
                ..old(target)@
            })
            &&& final(context)@ == forgiven(
                old(context)@,
                ScopeView::All,
                MessageView::Plain(outside_text(group_name@)),
            )
        },
        !payload_is_outside(byte_order_upgrade, group_name@, populated, old(context)@) ==> {
            &&& final(target)@ == old(target)@
            &&& final(context)@ == old(context)@
        },
{
    if !byte_order_upgrade || context.resources_left_behind.len() == 0 {
        return;
    }
    let needs_geometry: bool = if eq_ignoring_case(group_name, "sound") {
        false
    } else if eq_ignoring_case(group_name, "scenario_structure_bsp") {
        true
    } else {
        return;
    };
    let held: bool = match populated {
        Some(held) => held,
        None => false,
    };
    if needs_geometry && !held {
        return;
    }
    clear_all_resources(&mut target.root);
    let text: String = concat3(
        "The Xbox 360 payload was dropped; a ",
        group_name,
        " on this side of the engine carries this resource null and finds what it needs outside the tag",
    );
    forgive_resources(context, &ResourceScope::All, &ForgivenMessage::Plain(text));
}

// ---------------------------------------------------------------------------
// Laws
// ---------------------------------------------------------------------------
/// Forgiving takes exactly the resources in the scope off the list.
pub proof fn only_the_scope_is_forgiven(left: Seq<Seq<char>>, scope: ScopeView, path: Seq<char>)
    ensures
        unforgiven(left, scope, left.len()).contains(path) <==> left.contains(path)
            && !scope_holds(scope, path),
{
    lemma_unforgiven(left, scope, path, left.len());
    if left.contains(path) {
        let i = choose|i: int| 0 <= i < left.len() && left[i] == path;
        assert(left.take(left.len() as int)[i] == path);
    }
    assert(left.take(left.len() as int) =~= left);
}

proof fn lemma_unforgiven(left: Seq<Seq<char>>, scope: ScopeView, path: Seq<char>, n: nat)
    requires
        n <= left.len(),
    ensures
        unforgiven(left, scope, n).contains(path) <==> left.take(n as int).contains(path)
            && !scope_holds(scope, path),
    decreases n,
{
    if n == 0 {
        assert(!left.take(0).contains(path));
    } else {
        lemma_unforgiven(left, scope, path, (n - 1) as nat);
        let rest = unforgiven(left, scope, (n - 1) as nat);
        assert(left.take(n as int) =~= left.take(n - 1).push(left[n - 1]));
        lemma_push_contains(left.take(n - 1), left[n - 1], path);
        lemma_push_contains(rest, left[n - 1], path);
    }
}

proof fn lemma_push_contains(s: Seq<Seq<char>>, a: Seq<char>, path: Seq<char>)
    ensures
        s.push(a).contains(path) <==> s.contains(path) || a == path,
{
    if s.contains(path) {
        let i = choose|i: int| 0 <= i < s.len() && s[i] == path;
        assert(s.push(a)[i] == path);
    }
    if a == path {
        assert(s.push(a)[s.len() as int] == path);
    }
}

/// Nothing is struck off the report in silence: every issue stays, and one whose
/// refusal is lifted says why.
pub proof fn a_forgiven_resource_is_still_reported(
    c: ContextView,
    scope: ScopeView,
    message: MessageView,
    i: int,
)
    requires
        0 <= i < c.report.issues.len(),
    ensures
        forgiven(c, scope, message).report.issues.len() == c.report.issues.len(),
        forgiven(c, scope, message).report.issues[i].path == c.report.issues[i].path,
        forgiven(c, scope, message).report.issues[i] != c.report.issues[i] ==> {
            &&& c.report.issues[i].kind == ConversionIssueKind::Unsupported
            &&& forgiven(c, scope, message).report.issues[i].kind == ConversionIssueKind::Warning
            &&& forgiven(c, scope, message).report.issues[i].message == forgiven_text(
                message,
                c.report.issues[i].path,
            )
        },
{
}

}
