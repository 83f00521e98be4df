//! Finding fields: by key, and the target field that a source field goes to.
use crate::convert::catalog::FieldMappingRequest;
use crate::convert::defaults::{path_of, path_to_field};
use crate::convert::environment::{ConversionEnvironment, EnvironmentView};
use crate::convert::report::{
    ContextView, ConversionContext, ConversionIssueKind, record_unsupported,
};
use crate::convert::values::{
    field_has_meaningful_value, field_meaningful, some_field_meaningful, some_struct_meaningful,
};
use crate::fields::{
    FieldValue, TagFieldData, TagFieldType, compatible_field_shapes, enum_type, is_enum_type,
    reference_view, shapes_compatible,
};
use crate::keys::{
    clean_field_key, element_path, field_key, field_names_match, fields_agree, path_of_element,
};
use crate::tag::{
    BlockView, ContentView, FieldView, StructView, TagBlock, TagField, TagStruct,
    elements_are_inside, field_is_inside, items_are_inside, struct_is_inside,
};
use crate::text::{
    begins, concat2, contains_char, copy, eq_ignoring_case, same, same_ignoring_case, starts_with,
};
use vstd::prelude::*;

verus! {

// ---------------------------------------------------------------------------
// By key
// ---------------------------------------------------------------------------
/// The first field at or behind `from` whose key is that of `key`.
pub open spec fn keyed_from(fields: Seq<FieldView>, key: Seq<char>, from: nat) -> Option<nat>
    decreases fields.len() - from,
{
    if from >= fields.len() {
        None
    } else if field_key(fields[from as int].name) == field_key(key) {
        Some(from)
    } else {
        keyed_from(fields, key, from + 1)
    }
}

/// The position of the field with the key `key`.
pub open spec fn keyed(s: StructView, key: Seq<char>) -> Option<nat> {
    keyed_from(s.fields, key, 0)
}

/// The field with the key `key`.
pub open spec fn field_keyed(s: StructView, key: Seq<char>) -> Option<FieldView> {
    match keyed(s, key) {
        Some(i) => Some(s.fields[i as int]),
        None => None,
    }
}

/// The struct that the field with the key `key` holds.
pub open spec fn struct_keyed(s: StructView, key: Seq<char>) -> Option<StructView> {
    match field_keyed(s, key) {
        Some(f) => match f.content {
            ContentView::Struct(n) => Some(n),
            _ => None,
        },
        None => None,
    }
}

/// The block that the field with the key `key` holds.
pub open spec fn block_keyed(s: StructView, key: Seq<char>) -> Option<BlockView> {
    match field_keyed(s, key) {
        Some(f) => match f.content {
            ContentView::Block(b) => Some(b),
            _ => None,
        },
        None => None,
    }
}

/// A found field is in the struct.
pub proof fn lemma_keyed(fields: Seq<FieldView>, key: Seq<char>, from: nat)
    ensures
        keyed_from(fields, key, from) matches Some(i) ==> from <= i < fields.len(),
    decreases fields.len() - from,
{
    if from < fields.len() && field_key(fields[from as int].name) != field_key(key) {
        lemma_keyed(fields, key, from + 1);
    }
}

pub fn field_ordinal_by_key(structure: &TagStruct, key: &str) -> (r: Option<usize>)
    ensures
        match r {
            Some(i) => i < structure@.fields.len() && keyed(structure@, key@) == Some(i as nat),
            None => keyed(structure@, key@) is None,
        },
{
    let wanted: String = clean_field_key(key);
    let n: usize = structure.len();
    let mut i: usize = 0;
    while i < n
        invariant
            i <= n,
            n == structure@.fields.len(),
            wanted@ == field_key(key@),
            keyed(structure@, key@) == keyed_from(structure@.fields, key@, i as nat),
        decreases n - i,
    {
        if same(&clean_field_key(structure.at(i).name()), &wanted) {
            return Some(i);
        }
        i = i + 1;
    }
    None
}

pub fn field_by_key<'a>(structure: &'a TagStruct, key: &str) -> (r: Option<&'a TagField>)
    ensures
        match r {
            Some(f) => field_keyed(structure@, key@) == Some(f@) && decreases_to!(
                structure@ => f@
            ),
            None => field_keyed(structure@, key@) is None,
        },
{
    match field_ordinal_by_key(structure, key) {
        Some(i) => {
            proof {
                field_is_inside(structure@, i as int);
            }
            Some(structure.at(i))
        },
        None => None,
    }
}

pub fn struct_field_by_key<'a>(structure: &'a TagStruct, key: &str) -> (r: Option<&'a TagStruct>)
    ensures
        match r {
            Some(s) => struct_keyed(structure@, key@) == Some(s@) && decreases_to!(
                structure@ => s@
            ),
            None => struct_keyed(structure@, key@) is None,
        },
{
    match field_by_key(structure, key) {
        Some(f) => match f.as_struct() {
            Some(s) => {
                proof {
                    struct_is_inside(f@, s@);
                }
                Some(s)
            },
            None => None,
        },
        None => None,
    }
}

pub fn block_field_by_key<'a>(structure: &'a TagStruct, key: &str) -> (r: Option<&'a TagBlock>)
    ensures
        match r {
            Some(b) => block_keyed(structure@, key@) == Some(b@) && decreases_to!(
                structure@ => b@.elements
            ),
            None => block_keyed(structure@, key@) is None,
        },
{
    match field_by_key(structure, key) {
        Some(f) => match f.as_block() {
            Some(b) => {
                proof {
                    elements_are_inside(f@, b@);
                }
                Some(b)
            },
            None => None,
        },
        None => None,
    }
}

/// Whether a tag path names a tag.
pub open spec fn names_a_tag(path: Seq<char>) -> bool {
    path.len() > 0 && !same_ignoring_case(path, "none"@)
}

pub fn is_tag_path(path: &str) -> (r: bool)
    ensures
        r == names_a_tag(path@),
{
    !path.is_empty() && !eq_ignoring_case(path, "none")
}

/// The tag that the reference with the key `key` names.
pub open spec fn reference_keyed(s: StructView, key: Seq<char>) -> Option<(u32, Seq<char>)> {
    match field_keyed(s, key) {
        Some(f) => match f.content {
            ContentView::Value(FieldValue::Reference(Some((group, path)))) => if names_a_tag(path) {
                Some((group, path))
            } else {
                None
            },
            _ => None,
        },
        None => None,
    }
}

pub fn reference_by_key(structure: &TagStruct, key: &str) -> (r: Option<(u32, String)>)
    ensures
        reference_view(r) == reference_keyed(structure@, key@),
{
    let field: &TagField = match field_by_key(structure, key) {
        Some(field) => field,
        None => {
            return None;
        },
    };
    match field.value() {
        Some(TagFieldData::TagReference(reference)) => match &reference.group_tag_and_name {
            Some((group, path)) => if is_tag_path(path) {
                Some((*group, copy(path)))
            } else {
                None
            },
            None => None,
        },
        _ => None,
    }
}

// ---------------------------------------------------------------------------
// Between two structs
// ---------------------------------------------------------------------------
/// Whether a curve is being matched across its two containers.
pub open spec fn curve_compatible(
    source_key: Seq<char>,
    target_key: Seq<char>,
    source: TagFieldType,
    target: TagFieldType,
) -> bool {
    source_key == "data"@ && target_key == "data"@ && match (source, target) {
        (TagFieldType::Block, TagFieldType::Data) => true,
        (TagFieldType::Data, TagFieldType::Block) => true,
        _ => false,
    }
}

pub fn compatible_function_curve_field(
    source_key: &str,
    target_key: &str,
    source: TagFieldType,
    target: TagFieldType,
) -> (r: bool)
    ensures
        r == curve_compatible(source_key@, target_key@, source, target),
{
    same(source_key, "data") && same(target_key, "data") && match (source, target) {
        (TagFieldType::Block, TagFieldType::Data) => true,
        (TagFieldType::Data, TagFieldType::Block) => true,
        _ => false,
    }
}

/// Whether a field is the lens flare scale that changed its type.
pub open spec fn scale_compatible(
    group: Seq<char>,
    field: Seq<char>,
    source: TagFieldType,
    target: TagFieldType,
) -> bool {
    same_ignoring_case(group, "lens_flare"@) && field_key(field) == "occlusion inner radius scale"@
        && (enum_type(source) && target == TagFieldType::Real || source == TagFieldType::Real
        && enum_type(target))
}

pub fn compatible_semantic_field(
    group: &str,
    field: &str,
    source: TagFieldType,
    target: TagFieldType,
) -> (r: bool)
    ensures
        r == scale_compatible(group@, field@, source, target),
{
    eq_ignoring_case(group, "lens_flare") && same(
        &clean_field_key(field),
        "occlusion inner radius scale",
    ) && ((is_enum_type(source) && target == TagFieldType::Real) || (source == TagFieldType::Real
        && is_enum_type(target)))
}

/// Whether the field `f` of the source struct and the field `g` of the target
/// struct go by the same name: as they stand, by either schema, or by a reviewed
/// rule.
pub open spec fn names_pair(
    env: EnvironmentView,
    s: StructView,
    f: FieldView,
    t: StructView,
    g: FieldView,
) -> bool {
    ||| fields_agree(f.name, g.name)
    ||| env.target_field_aliases.matches(t.guid, t.name, field_key(g.name), field_key(f.name))
    ||| env.source_field_aliases.matches(s.guid, s.name, field_key(f.name), field_key(g.name))
    ||| env.mapping_catalog.relates_fields(
        env.group_name,
        env.source_game,
        env.target_game,
        s.guid,
        t.guid,
        field_key(f.name),
        field_key(g.name),
    )
}

pub fn names_are_paired(
    env: &ConversionEnvironment,
    source: &TagStruct,
    field: &TagField,
    target: &TagStruct,
    candidate: &TagField,
) -> (r: bool)
    ensures
        r == names_pair(env@, source@, field@, target@, candidate@),
{
    let key: String = clean_field_key(field.name());
    let candidate_key: String = clean_field_key(candidate.name());
    field_names_match(field.name(), candidate.name()) || env.target_field_aliases.matches(
        &target.guid(),
        target.name(),
        &candidate_key,
        &key,
    ) || env.source_field_aliases.matches(&source.guid(), source.name(), &key, &candidate_key)
        || env.mapping_catalog.field_names_match(
        &FieldMappingRequest {
            group: env.group_name,
            source_game: env.source_game,
            target_game: env.target_game,
            source_guid: source.guid(),
            target_guid: target.guid(),
            source_name: key.as_str(),
            target_name: candidate_key.as_str(),
        },
    )
}

/// Whether a field may go to a target field: the names pair, the shapes can be
/// converted, and a nameless field only goes to one of the very same struct.
pub open spec fn pairs(
    env: EnvironmentView,
    s: StructView,
    f: FieldView,
    t: StructView,
    g: FieldView,
    same_guid: bool,
) -> bool {
    &&& names_pair(env, s, f, t, g)
    &&& {
        ||| shapes_compatible(f.field_type, g.field_type)
        ||| scale_compatible(env.group_name, field_key(f.name), f.field_type, g.field_type)
        ||| curve_compatible(
            field_key(f.name),
            field_key(g.name),
            f.field_type,
            g.field_type,
        )
    }
    &&& field_key(f.name).len() > 0 || same_guid
}

/// Whether a field of an animation may go to a field of the block that the later
/// generations keep its payload in.
pub open spec fn pairs_in_payload(
    env: EnvironmentView,
    s: StructView,
    f: FieldView,
    t: StructView,
    g: FieldView,
) -> bool {
    &&& names_pair(env, s, f, t, g)
    &&& {
        ||| shapes_compatible(f.field_type, g.field_type)
        ||| curve_compatible(
            field_key(f.name),
            field_key(g.name),
            f.field_type,
            g.field_type,
        )
    }
}

/// The first unused target field at or behind `from` that `f` may go to.
pub open spec fn place_for(
    env: EnvironmentView,
    s: StructView,
    f: FieldView,
    t: StructView,
    used: Seq<bool>,
    same_guid: bool,
    from: nat,
) -> Option<nat>
    decreases t.fields.len() - from,
{
    if from >= t.fields.len() {
        None
    } else if !used[from as int] && pairs(env, s, f, t, t.fields[from as int], same_guid) {
        Some(from)
    } else {
        place_for(env, s, f, t, used, same_guid, from + 1)
    }
}

/// The first unused field of the payload at or behind `from` that `f` may go to.
pub open spec fn place_in_payload(
    env: EnvironmentView,
    s: StructView,
    f: FieldView,
    t: StructView,
    used: Seq<bool>,
    from: nat,
) -> Option<nat>
    decreases t.fields.len() - from,
{
    if from >= t.fields.len() {
        None
    } else if !used[from as int] && pairs_in_payload(env, s, f, t, t.fields[from as int]) {
        Some(from)
    } else {
        place_in_payload(env, s, f, t, used, from + 1)
    }
}

pub fn find_place(
    env: &ConversionEnvironment,
    source: &TagStruct,
    field: &TagField,
    target: &TagStruct,
    used: &Vec<bool>,
    same_guid: bool,
) -> (r: Option<usize>)
    requires
        used@.len() == target@.fields.len(),
    ensures
        match r {
            Some(i) => i < target@.fields.len() && place_for(
                env@,
                source@,
                field@,
                target@,
                used@,
                same_guid,
                0,
            ) == Some(i as nat),
            None => place_for(env@, source@, field@, target@, used@, same_guid, 0) is None,
        },
{
    let key: String = clean_field_key(field.name());
    let n: usize = target.len();
    let mut i: usize = 0;
    while i < n
        invariant
            i <= n,
            n == target@.fields.len(),
            used@.len() == n,
            key@ == field_key(field@.name),
            place_for(env@, source@, field@, target@, used@, same_guid, 0) == place_for(
                env@,
                source@,
                field@,
                target@,
                used@,
                same_guid,
                i as nat,
            ),
        decreases n - i,
    {
        if !used[i] && (!key.as_str().is_empty() || same_guid) {
            let candidate: &TagField = target.at(i);
            if names_are_paired(env, source, field, target, candidate) && (compatible_field_shapes(
                field.field_type(),
                candidate.field_type(),
            ) || compatible_semantic_field(
                env.group_name,
                &key,
                field.field_type(),
                candidate.field_type(),
            ) || compatible_function_curve_field(
                &key,
                &clean_field_key(candidate.name()),
                field.field_type(),
                candidate.field_type(),
            )) {
                return Some(i);
            }
        }
        i = i + 1;
    }
    None
}

pub fn find_place_in_payload(
    env: &ConversionEnvironment,
    source: &TagStruct,
    field: &TagField,
    target: &TagStruct,
    used: &Vec<bool>,
) -> (r: Option<usize>)
    requires
        used@.len() == target@.fields.len(),
    ensures
        match r {
            Some(i) => i < target@.fields.len() && place_in_payload(
                env@,
                source@,
                field@,
                target@,
                used@,
                0,
            ) == Some(i as nat),
            None => place_in_payload(env@, source@, field@, target@, used@, 0) is None,
        },
{
    let key: String = clean_field_key(field.name());
    let n: usize = target.len();
    let mut i: usize = 0;
    while i < n
        invariant
            i <= n,
            n == target@.fields.len(),
            used@.len() == n,
            key@ == field_key(field@.name),
            place_in_payload(env@, source@, field@, target@, used@, 0) == place_in_payload(
                env@,
                source@,
                field@,
                target@,
                used@,
                i as nat,
            ),
        decreases n - i,
    {
        if !used[i] {
            let candidate: &TagField = target.at(i);
            if names_are_paired(env, source, field, target, candidate) && (compatible_field_shapes(
                field.field_type(),
                candidate.field_type(),
            ) || compatible_function_curve_field(
                &key,
                &clean_field_key(candidate.name()),
                field.field_type(),
                candidate.field_type(),
            )) {
                return Some(i);
            }
        }
        i = i + 1;
    }
    None
}

/// A list of `n` unused fields.
pub fn none_used(n: usize) -> (r: Vec<bool>)
    ensures
        r@ == Seq::new(n as nat, |i: int| false),
{
    let mut r: Vec<bool> = Vec::new();
    let mut i: usize = 0;
    while i < n
        invariant
            i <= n,
            r@ == Seq::new(i as nat, |j: int| false),
        decreases n - i,
    {
        r.push(false);
        i = i + 1;
        assert(r@ =~= Seq::new(i as nat, |j: int| false));
    }
    r
}

/// Whether a target field that was left at its default is worth counting.
pub open spec fn reportable_default(t: TagFieldType) -> bool {
    match t {
        TagFieldType::Terminator
        | TagFieldType::Explanation
        | TagFieldType::Pad
        | TagFieldType::UselessPad
        | TagFieldType::Skip
        | TagFieldType::Custom
        | TagFieldType::ApiInterop
        | TagFieldType::PageableResource => false,
        _ => true,
    }
}

pub fn is_reportable_target_default(field_type: TagFieldType) -> (r: bool)
    ensures
        r == reportable_default(field_type),
{
    match field_type {
        TagFieldType::Terminator
        | TagFieldType::Explanation
        | TagFieldType::Pad
        | TagFieldType::UselessPad
        | TagFieldType::Skip
        | TagFieldType::Custom
        | TagFieldType::ApiInterop
        | TagFieldType::PageableResource => false,
        _ => true,
    }
}

/// How many of the first `n` target fields were left at their defaults.
pub open spec fn defaults_among(fields: Seq<FieldView>, used: Seq<bool>, n: nat) -> nat
    decreases n,
{
    if n == 0 || n > fields.len() {
        0
    } else {
        defaults_among(fields, used, (n - 1) as nat) + if !used[n - 1] && reportable_default(
            fields[n - 1].field_type,
        ) {
            1nat
        } else {
            0nat
        }
    }
}

pub fn count_defaults(target: &TagStruct, used: &Vec<bool>) -> (r: usize)
    requires
        used@.len() == target@.fields.len(),
    ensures
        r == defaults_among(target@.fields, used@, target@.fields.len()),
{
    let n: usize = target.len();
    let mut count: usize = 0;
    let mut i: usize = 0;
    while i < n
        invariant
            i <= n,
            n == target@.fields.len(),
            used@.len() == n,
            count == defaults_among(target@.fields, used@, i as nat),
            count <= i,
        decreases n - i,
    {
        if !used[i] && is_reportable_target_default(target.at(i).field_type()) {
            count = count + 1;
        }
        i = i + 1;
    }
    count
}

// ---------------------------------------------------------------------------
// Source fields that go nowhere
// ---------------------------------------------------------------------------
/// What has been gathered after a source field with no counterpart was reported:
/// value by value, and only where it says anything.
pub open spec fn unmatched(f: FieldView, path: Seq<char>, c: ContextView) -> ContextView
    decreases f, 1nat, 0nat,
{
    if !field_meaningful(f) {
        c
    } else if f.name.contains('!') || begins(field_key(f.name), "runtime "@) {
        c.issue(
            ConversionIssueKind::Warning,
            path,
            "Engine-managed source value was reset for the target engine"@,
        )
    } else {
        match f.field_type {
            TagFieldType::Struct => match f.content {
                ContentView::Struct(s) => unmatched_fields(s.fields, path, s.fields.len(), c),
                _ => c,
            },
            TagFieldType::Block => match f.content {
                ContentView::Block(b) => unmatched_elements(
                    b.elements,
                    path,
                    b.elements.len(),
                    c,
                ),
                _ => c,
            },
            TagFieldType::Array => match f.content {
                ContentView::Array(a) => unmatched_elements(a, path, a.len(), c),
                _ => c,
            },
            _ => c.unsupported(path, "No compatible target field for "@ + f.kind_name),
        }
    }
}

/// The same for the first `n` fields of a struct.
pub open spec fn unmatched_fields(
    fields: Seq<FieldView>,
    path: Seq<char>,
    n: nat,
    c: ContextView,
) -> ContextView
    decreases fields, 0nat, n,
{
    if n == 0 || n > fields.len() {
        c
    } else {
        unmatched(
            fields[n - 1],
            path_of(path, fields[n - 1]),
            unmatched_fields(fields, path, (n - 1) as nat, c),
        )
    }
}

/// The same for the first `n` elements of a block or an array.
pub open spec fn unmatched_elements(
    elements: Seq<StructView>,
    path: Seq<char>,
    n: nat,
    c: ContextView,
) -> ContextView
    decreases elements, 0nat, n,
{
    if n == 0 || n > elements.len() {
        c
    } else {
        unmatched_fields(
            elements[n - 1].fields,
            element_path(path, (n - 1) as nat),
            elements[n - 1].fields.len(),
            unmatched_elements(elements, path, (n - 1) as nat, c),
        )
    }
}

/// Reports a source field with no counterpart, value by value.
pub fn record_unmatched_field_values(
    field: &TagField,
    path: &str,
    context: &mut ConversionContext,
)
    ensures
        final(context)@ == unmatched(field@, path@, old(context)@),
    decreases field@, 1nat,
{
    if !field_has_meaningful_value(field) {
        return;
    }
    if contains_char(field.name(), '!') || starts_with(&clean_field_key(field.name()), "runtime ") {
        context.record(
            ConversionIssueKind::Warning,
            path,
            copy("Engine-managed source value was reset for the target engine"),
        );
        return;
    }
    match field.field_type() {
        TagFieldType::Struct => {
            if let Some(s) = field.as_struct() {
                proof {
                    struct_is_inside(field@, s@);
                }
                record_unmatched_fields(s, path, context);
            }
        },
        TagFieldType::Block => {
            if let Some(block) = field.as_block() {
                let ghost start = context@;
                let n: usize = block.len();
                let mut i: usize = 0;
                while i < n
                    invariant
                        i <= n,
                        n == block@.elements.len(),
                        field@.content == ContentView::Block(block@),
                        context@ == unmatched_elements(block@.elements, path@, i as nat, start),
                    decreases n - i,
                {
                    proof {
                        elements_are_inside(field@, block@);
                    }
                    record_unmatched_fields(block.at(i), &path_of_element(path, i), context);
                    i = i + 1;
                }
            }
        },
        TagFieldType::Array => {
            if let Some(array) = field.as_array() {
                let ghost start = context@;
                let n: usize = array.len();
                let mut i: usize = 0;
                while i < n
                    invariant
                        i <= n,
                        n == array@.len(),
                        field@.content == ContentView::Array(array@),
                        context@ == unmatched_elements(array@, path@, i as nat, start),
                    decreases n - i,
                {
                    proof {
                        items_are_inside(field@, array@);
                    }
                    record_unmatched_fields(array.at(i), &path_of_element(path, i), context);
                    i = i + 1;
                }
            }
        },
        _ => record_unsupported(
            context,
            path,
            concat2("No compatible target field for ", field.kind_name()),
        ),
    }
}

fn record_unmatched_fields(s: &TagStruct, path: &str, context: &mut ConversionContext)
    ensures
        final(context)@ == unmatched_fields(s@.fields, path@, s@.fields.len(), old(context)@),
    decreases s@, 0nat,
{
    let ghost start = context@;
    let n: usize = s.len();
    let mut i: usize = 0;
    while i < n
        invariant
            i <= n,
            n == s@.fields.len(),
            context@ == unmatched_fields(s@.fields, path@, i as nat, start),
        decreases n - i,
    {
        proof {
            field_is_inside(s@, i as int);
        }
        let field_path: String = path_to_field(path, s.at(i));
        record_unmatched_field_values(s.at(i), &field_path, context);
        i = i + 1;
    }
}

/// A source field that says nothing is never reported.
pub proof fn nothing_is_reported_of_an_empty_field(f: FieldView, path: Seq<char>, c: ContextView)
    requires
        !field_meaningful(f),
    ensures
        unmatched(f, path, c) == c,
{
}

/// Whether a field holds a value that says anything, however deep. A block whose
/// elements all say nothing holds none.
pub open spec fn holds_values(f: FieldView) -> bool
    decreases f, 0nat,
{
    match f.field_type {
        TagFieldType::Struct => match f.content {
            ContentView::Struct(s) => fields_hold_values(s.fields, s.fields.len()),
            _ => false,
        },
        TagFieldType::Array => match f.content {
            ContentView::Array(a) => structs_hold_values(a, a.len()),
            _ => false,
        },
        TagFieldType::Block => match f.content {
            ContentView::Block(b) => structs_hold_values(b.elements, b.elements.len()),
            _ => false,
        },
        _ => field_meaningful(f),
    }
}

/// The same of the first `n` fields.
pub open spec fn fields_hold_values(fields: Seq<FieldView>, n: nat) -> bool
    decreases fields, n,
{
    if n == 0 || n > fields.len() {
        false
    } else {
        fields_hold_values(fields, (n - 1) as nat) || holds_values(fields[n - 1])
    }
}

/// The same of the first `n` structs.
pub open spec fn structs_hold_values(structs: Seq<StructView>, n: nat) -> bool
    decreases structs, n,
{
    if n == 0 || n > structs.len() {
        false
    } else {
        structs_hold_values(structs, (n - 1) as nat) || fields_hold_values(
            structs[n - 1].fields,
            structs[n - 1].fields.len(),
        )
    }
}

proof fn lemma_fields_meaningful(fields: Seq<FieldView>, n: nat)
    requires
        fields_hold_values(fields, n),
    ensures
        some_field_meaningful(fields, n),
    decreases fields, n,
{
    if fields_hold_values(fields, (n - 1) as nat) {
        lemma_fields_meaningful(fields, (n - 1) as nat);
    } else {
        lemma_values_meaningful(fields[n - 1]);
    }
}

proof fn lemma_structs_meaningful(structs: Seq<StructView>, n: nat)
    requires
        structs_hold_values(structs, n),
    ensures
        some_struct_meaningful(structs, n),
    decreases structs, n,
{
    if structs_hold_values(structs, (n - 1) as nat) {
        lemma_structs_meaningful(structs, (n - 1) as nat);
    } else {
        lemma_fields_meaningful(structs[n - 1].fields, structs[n - 1].fields.len());
    }
}

proof fn lemma_values_meaningful(f: FieldView)
    requires
        holds_values(f),
    ensures
        field_meaningful(f),
    decreases f, 0nat,
{
    match f.content {
        ContentView::Struct(s) => {
            if f.field_type == TagFieldType::Struct {
                lemma_fields_meaningful(s.fields, s.fields.len());
            }
        },
        ContentView::Array(a) => {
            if f.field_type == TagFieldType::Array {
                lemma_structs_meaningful(a, a.len());
            }
        },
        _ => {},
    }
}

proof fn lemma_fields_reported(fields: Seq<FieldView>, path: Seq<char>, n: nat, c: ContextView)
    requires
        n <= fields.len(),
    ensures
        unmatched_fields(fields, path, n, c).report.issues.len() >= c.report.issues.len(),
        fields_hold_values(fields, n) ==> unmatched_fields(fields, path, n, c).report.issues.len()
            > c.report.issues.len(),
    decreases fields, 0nat, n,
{
    if n > 0 {
        lemma_fields_reported(fields, path, (n - 1) as nat, c);
        let before = unmatched_fields(fields, path, (n - 1) as nat, c);
        a_lost_value_is_always_reported(fields[n - 1], path_of(path, fields[n - 1]), before);
    }
}

proof fn lemma_elements_reported(
    elements: Seq<StructView>,
    path: Seq<char>,
    n: nat,
    c: ContextView,
)
    requires
        n <= elements.len(),
    ensures
        unmatched_elements(elements, path, n, c).report.issues.len() >= c.report.issues.len(),
        structs_hold_values(elements, n) ==> unmatched_elements(
            elements,
            path,
            n,
            c,
        ).report.issues.len() > c.report.issues.len(),
    decreases elements, 0nat, n,
{
    if n > 0 {
        lemma_elements_reported(elements, path, (n - 1) as nat, c);
        let before = unmatched_elements(elements, path, (n - 1) as nat, c);
        let own = elements[n - 1].fields;
        lemma_fields_reported(own, element_path(path, (n - 1) as nat), own.len(), before);
    }
}

/// A source field with no counterpart that holds a value, however deep, is always
/// reported, and reporting it strikes no earlier issue off.
pub proof fn a_lost_value_is_always_reported(f: FieldView, path: Seq<char>, c: ContextView)
    ensures
        unmatched(f, path, c).report.issues.len() >= c.report.issues.len(),
        holds_values(f) ==> unmatched(f, path, c).report.issues.len() > c.report.issues.len(),
    decreases f, 1nat, 0nat,
{
    if holds_values(f) {
        lemma_values_meaningful(f);
    }
    match f.content {
        ContentView::Struct(s) => {
            if f.field_type == TagFieldType::Struct {
                lemma_fields_reported(s.fields, path, s.fields.len(), c);
            }
        },
        ContentView::Block(b) => {
            if f.field_type == TagFieldType::Block {
                lemma_elements_reported(b.elements, path, b.elements.len(), c);
            }
        },
        ContentView::Array(a) => {
            if f.field_type == TagFieldType::Array {
                lemma_elements_reported(a, path, a.len(), c);
            }
        },
        _ => {},
    }
}

}
