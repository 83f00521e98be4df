//! No value passes a conversion without a trace.
use crate::convert::environment::EnvironmentView;
use crate::convert::leaves::{converted_string, converted_string_id};
use crate::convert::report::ContextView;
use crate::convert::values::{
    converted_enum, converted_flags, converted_reference, field_meaningful, flags_carried,
};
use crate::convert::walk::{conv_leaf, conv_scalar};
use crate::fields::{
    FieldValue, OptionsView, TagFieldData, TagFieldType, enum_type, flags_type, integer_type,
    real_scalar, shapes_compatible, string_id_type, string_type,
};
use crate::layout::LayoutView;
use crate::tag::{ContentView, FieldView};
use vstd::prelude::*;

verus! {

/// Whether a value is of a kind that its own form can have.
pub open spec fn proper(v: FieldValue) -> bool {
    let k = v.kind();
    &&& (string_type(k) || string_id_type(k)) == (v is Text)
    &&& (k == TagFieldType::TagReference) == (v is Reference)
    &&& enum_type(k) == (v is Enum)
    &&& flags_type(k) == (v is Flags)
    &&& integer_type(k) ==> v is Number
    &&& real_scalar(k) ==> v is Reals
}

/// Every value that a field can hold is proper.
pub proof fn every_value_is_proper(value: TagFieldData)
    ensures
        proper(value@),
{
    match value {
        TagFieldData::String(_)
        | TagFieldData::LongString(_)
        | TagFieldData::StringId(_)
        | TagFieldData::OldStringId(_) => {},
        _ => {},
    }
}

/// Whether a field holds a proper value of its own type.
pub open spec fn typed(f: FieldView) -> bool {
    f.content matches ContentView::Value(v) ==> proper(v) && v.kind() == f.field_type
}

/// Whether a field with options knows what they are.
pub open spec fn knows_its_options(t: FieldView) -> bool {
    &&& enum_type(t.field_type) ==> t.options is Enum
    &&& flags_type(t.field_type) ==> t.options is Flags
}

/// Whether every counter of a report can still count.
pub open spec fn can_count(c: ContextView) -> bool {
    c.report.copied_exact < usize::MAX && c.report.converted_semantic < usize::MAX
        && c.report.transferred_resources < usize::MAX
}

/// Whether something has been counted as carried, or an issue added.
pub open spec fn has_trace(before: ContextView, after: ContextView) -> bool {
    ||| after.report.issues.len() > before.report.issues.len()
    ||| after.report.copied_exact > before.report.copied_exact
    ||| after.report.converted_semantic > before.report.converted_semantic
    ||| after.report.transferred_resources > before.report.transferred_resources
}

proof fn lemma_flags_carried(
    env: EnvironmentView,
    path: Seq<char>,
    options: Seq<(u32, Seq<char>)>,
    names: Seq<(u32, Seq<char>)>,
    n: nat,
    c: ContextView,
)
    ensures
        ({
            let after = flags_carried(env, path, options, names, n, c).1;
            &&& after.report.converted_semantic == c.report.converted_semantic
            &&& after.report.copied_exact == c.report.copied_exact
            &&& after.report.transferred_resources == c.report.transferred_resources
            &&& after.report.issues.len() >= c.report.issues.len()
        }),
    decreases n,
{
    if 0 < n <= names.len() {
        lemma_flags_carried(env, path, options, names, (n - 1) as nat, c);
    }
}

proof fn lemma_enum(
    env: EnvironmentView,
    f: FieldView,
    t: FieldView,
    path: Seq<char>,
    c: ContextView,
)
    requires
        can_count(c),
        field_meaningful(f),
        enum_type(t.field_type),
        knows_its_options(t),
    ensures
        has_trace(c, converted_enum(env, f, t, path, c).1),
{
}

proof fn lemma_flags(
    env: EnvironmentView,
    f: FieldView,
    t: FieldView,
    path: Seq<char>,
    c: ContextView,
)
    requires
        can_count(c),
        field_meaningful(f),
        typed(f),
        flags_type(f.field_type),
        flags_type(t.field_type),
        knows_its_options(t),
    ensures
        has_trace(c, converted_flags(env, f, t, path, c).1),
{
    match (f.content, t.options) {
        (
            ContentView::Value(FieldValue::Flags { names, .. }),
            OptionsView::Flags(options),
        ) => lemma_flags_carried(env, path, options, names, names.len(), c),
        _ => {},
    }
}

proof fn lemma_scalar(
    env: EnvironmentView,
    f: FieldView,
    t: FieldView,
    path: Seq<char>,
    c: ContextView,
)
    requires
        can_count(c),
        field_meaningful(f),
        typed(f),
        f.content is Value,
    ensures
        has_trace(c, conv_scalar(env, f, t, path, c).1),
{
}

proof fn lemma_text(f: FieldView, t: FieldView, path: Seq<char>, c: ContextView)
    requires
        can_count(c),
        typed(f),
        f.content is Value,
    ensures
        string_type(f.field_type) ==> has_trace(c, converted_string(f, t, path, c).1),
        string_id_type(f.field_type) ==> has_trace(c, converted_string_id(f, t, path, c).1),
{
}

proof fn lemma_reference(
    env: EnvironmentView,
    f: FieldView,
    t: FieldView,
    path: Seq<char>,
    c: ContextView,
)
    requires
        can_count(c),
        field_meaningful(f),
        typed(f),
        f.field_type == TagFieldType::TagReference,
    ensures
        has_trace(c, converted_reference(env, f, t, path, c).1),
{
}

/// A source value that says anything, offered to a target field of a compatible
/// shape, leaves a trace: it is counted as carried, or an issue says what became of
/// it.
pub proof fn every_value_leaves_a_trace(
    env: EnvironmentView,
    layout: LayoutView,
    f: FieldView,
    t: FieldView,
    path: Seq<char>,
    verbatim: bool,
    c: ContextView,
)
    requires
        can_count(c),
        field_meaningful(f),
        typed(f),
        knows_its_options(t),
        shapes_compatible(f.field_type, t.field_type),
        f.field_type != TagFieldType::Struct,
        f.field_type != TagFieldType::Block,
        f.field_type != TagFieldType::Array,
    ensures
        has_trace(c, conv_leaf(env, layout, f, t, path, verbatim, c).1),
{
    if f.field_type != TagFieldType::PageableResource {
        lemma_text(f, t, path, c);
        if f.field_type == TagFieldType::TagReference {
            lemma_reference(env, f, t, path, c);
        }
        lemma_scalar(env, f, t, path, c);
        if enum_type(f.field_type) {
            lemma_enum(env, f, t, path, c);
        }
        if flags_type(f.field_type) {
            lemma_flags(env, f, t, path, c);
        }
    }
}

}
