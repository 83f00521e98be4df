//! Numbers, texts and bytes that cross from one type to another.
use crate::convert::environment::EnvironmentView;
use crate::convert::leaves::{
    converted_bytes, converted_scale, converted_string, converted_string_id, rescaled, scale_bits,
    scale_named, scale_names, scale_of, unit_change,
};
use crate::convert::report::{ContextView, ConversionIssueKind};
use crate::convert::values::{converted_integer, field_meaningful, option_held};
use crate::fields::{
    FieldValue, OptionsView, TagFieldType, enum_type, integer_fits, integer_type, reinterpreted,
    signed_integer, value_count, width_of_integer,
};
use crate::keys::field_key;
use crate::single::{in_degrees, in_radians};
use crate::tag::{ContentView, FieldView};
use crate::text::{last_piece, same_ignoring_case};
use vstd::prelude::*;

verus! {

// ---------------------------------------------------------------------------
// Integers
// ---------------------------------------------------------------------------
/// An integer goes into another integer type as the same number, unless the two types
/// differ in signedness alone; where the target has no room for it, the target stays as it
/// was and the report says so.
pub proof fn an_integer_keeps_its_number(
    f: FieldView,
    t: FieldView,
    path: Seq<char>,
    c: ContextView,
    n: int,
)
    requires
        f.content == ContentView::Value(FieldValue::Number { kind: f.field_type, value: n }),
        integer_type(f.field_type),
        integer_type(t.field_type),
        f.field_type == t.field_type || width_of_integer(f.field_type) != width_of_integer(
            t.field_type,
        ),
    ensures
        integer_fits(t.field_type, n) ==> converted_integer(f, t, path, c).0.content
            == ContentView::Value(FieldValue::Number { kind: t.field_type, value: n }),
        !integer_fits(t.field_type, n) ==> {
            &&& converted_integer(f, t, path, c).0 == t
            &&& converted_integer(f, t, path, c).1.report.issues.len() == c.report.issues.len() + 1
            &&& converted_integer(f, t, path, c).1.report.issues.last().path == path
        },
{
}

/// An integer that changes its signedness alone keeps its bytes: the number that arrives
/// differs from the one that left by a whole number of times what its width can count.
pub proof fn an_integer_keeps_its_bytes(source: TagFieldType, target: TagFieldType, n: int)
    requires
        integer_type(source),
        integer_type(target),
        width_of_integer(source) == width_of_integer(target),
        signed_integer(source) != signed_integer(target),
    ensures
        (reinterpreted(source, target, n) - n) % value_count(width_of_integer(source)->0) == 0,
        integer_fits(source, n) ==> integer_fits(target, reinterpreted(source, target, n)),
{
    let count = value_count(width_of_integer(source)->0);
    assert(count > 0);
    vstd::arithmetic::div_mod::lemma_fundamental_div_mod(n, count);
    let q = n / count;
    let stored = n % count;
    assert(stored - n == (-q) * count) by (nonlinear_arith)
        requires
            n == count * q + stored,
    ;
    assert(stored - count - n == (-q - 1) * count) by (nonlinear_arith)
        requires
            n == count * q + stored,
    ;
    vstd::arithmetic::div_mod::lemma_mod_multiples_basic(-q, count);
    vstd::arithmetic::div_mod::lemma_mod_multiples_basic(-q - 1, count);
}

// ---------------------------------------------------------------------------
// Texts
// ---------------------------------------------------------------------------
/// A text that its target has room for arrives whole; a longer one is not cut but left
/// behind, and the report says so.
pub proof fn a_text_arrives_whole_or_not_at_all(
    f: FieldView,
    t: FieldView,
    path: Seq<char>,
    c: ContextView,
    kind: TagFieldType,
    text: Seq<char>,
)
    requires
        f.content == ContentView::Value(FieldValue::Text { kind, text }),
        kind == TagFieldType::String || kind == TagFieldType::LongString,
        t.field_type == TagFieldType::String || t.field_type == TagFieldType::LongString,
        vstd::utf8::encode_utf8(text).len() <= usize::MAX,
    ensures
        ({
            let room: nat = if t.field_type == TagFieldType::String {
                31
            } else {
                255
            };
            let r = converted_string(f, t, path, c);
            &&& vstd::utf8::encode_utf8(text).len() <= room ==> r.0.content == ContentView::Value(
                FieldValue::Text { kind: t.field_type, text },
            )
            &&& vstd::utf8::encode_utf8(text).len() > room ==> {
                &&& r.0 == t
                &&& r.1.report.issues.len() == c.report.issues.len() + 1
                &&& r.1.report.issues.last().path == path
                &&& r.1.report.issues.last().kind == ConversionIssueKind::Unsupported
            }
        }),
{
}

/// An interned string arrives as the same text.
pub proof fn an_interned_string_keeps_its_text(
    f: FieldView,
    t: FieldView,
    path: Seq<char>,
    c: ContextView,
    kind: TagFieldType,
    text: Seq<char>,
)
    requires
        f.content == ContentView::Value(FieldValue::Text { kind, text }),
        kind == TagFieldType::StringId || kind == TagFieldType::OldStringId,
        t.field_type == TagFieldType::StringId || t.field_type == TagFieldType::OldStringId,
    ensures
        converted_string_id(f, t, path, c).0.content == ContentView::Value(
            FieldValue::Text { kind: t.field_type, text },
        ),
{
}

// ---------------------------------------------------------------------------
// Bytes
// ---------------------------------------------------------------------------
/// Opaque bytes arrive as they are where the two structs are known to be the same, and
/// stay behind, reported and counted as a lost payload, where nothing says that the two
/// fields hold the same kind.
pub proof fn bytes_arrive_whole_or_not_at_all(
    env: EnvironmentView,
    f: FieldView,
    t: FieldView,
    path: Seq<char>,
    c: ContextView,
    bytes: Seq<u8>,
)
    requires
        f.field_type == TagFieldType::Data,
        t.field_type == TagFieldType::Data,
        f.content == ContentView::Value(
            FieldValue::Bytes { kind: TagFieldType::Data, bytes },
        ),
    ensures
        converted_bytes(env, f, t, path, true, c).0.content == f.content,
        f.data_definition is Some && f.data_definition == t.data_definition ==> converted_bytes(
            env,
            f,
            t,
            path,
            false,
            c,
        ).0.content == f.content,
        f.data_definition is None && field_meaningful(f) ==> {
            &&& converted_bytes(env, f, t, path, false, c).0 == t
            &&& converted_bytes(env, f, t, path, false, c).1.report.issues.len()
                == c.report.issues.len() + 1
            &&& !env.target_field_aliases.editor_owned.contains(field_key(t.name))
                && !env.source_field_aliases.editor_owned.contains(field_key(f.name))
                ==> converted_bytes(env, f, t, path, false, c).1.payloads_left
                == c.payloads_left.push(path)
        },
{
}

// ---------------------------------------------------------------------------
// The scale of a lens flare
// ---------------------------------------------------------------------------
/// The scale at `i` is one half to the power `i`, but the first, which is zero: its bit
/// pattern has no fraction and the exponent of that power.
pub proof fn a_scale_is_a_power_of_one_half(i: nat)
    requires
        i < 7,
    ensures
        i == 0 ==> scale_bits(i) == 0,
        i > 0 ==> scale_bits(i) % 0x80_0000 == 0 && scale_bits(i) / 0x80_0000 == 127 - i,
{
}

/// The names of the scales say what they are.
pub proof fn a_scale_is_called_by_its_fraction()
    ensures
        scale_names().len() == 7,
        scale_names()[0] == "none"@,
        scale_names()[1] == "1/2"@,
        scale_names()[2] == "1/4"@,
        scale_names()[3] == "1/8"@,
        scale_names()[4] == "1/16"@,
        scale_names()[5] == "1/32"@,
        scale_names()[6] == "1/64"@,
{
}

/// The number of a scale is found as that scale again.
pub proof fn a_scale_is_found_by_its_number(i: nat)
    requires
        i < 7,
    ensures
        scale_of(scale_bits(i), 0) == Some(i),
{
    reveal_with_fuel(scale_of, 8);
}

/// An occlusion scale that is an option becomes the number of its name, and one that is a
/// number becomes the option of that number.
pub proof fn a_scale_keeps_its_meaning(
    env: EnvironmentView,
    f: FieldView,
    t: FieldView,
    path: Seq<char>,
    c: ContextView,
    i: nat,
)
    requires
        same_ignoring_case(env.group_name, "lens_flare"@),
        field_key(last_piece(path, '/')) == "occlusion inner radius scale"@,
        i < 7,
    ensures
        enum_type(f.field_type) && t.field_type == TagFieldType::Real && option_held(f) is Some
            && scale_named(option_held(f)->0, 0) == Some(i) ==> (converted_scale(
            env,
            f,
            t,
            path,
            c,
        ) matches Some(r) && r.0.content == ContentView::Value(
            FieldValue::Reals { kind: TagFieldType::Real, bits: seq![scale_bits(i)] },
        )),
        f.field_type == TagFieldType::Real && t.field_type == TagFieldType::LongEnum && t.options
            == OptionsView::Enum(scale_names()) && f.content == ContentView::Value(
            FieldValue::Reals { kind: TagFieldType::Real, bits: seq![scale_bits(i)] },
        ) ==> (converted_scale(env, f, t, path, c) matches Some(r) && r.0.content
            == ContentView::Value(
            FieldValue::Enum {
                kind: TagFieldType::LongEnum,
                value: i as int,
                name: Some(scale_names()[i as int]),
            },
        )),
{
    a_scale_is_found_by_its_number(i);
}

// ---------------------------------------------------------------------------
// Units
// ---------------------------------------------------------------------------
/// A real number changes only where it crosses between an angle and a plain number and
/// both schemas give its field the same unit: from an angle into degrees, into an angle
/// from degrees. Everywhere else its bits are kept.
pub proof fn a_number_changes_only_with_its_unit(
    source: TagFieldType,
    source_unit: Option<Seq<char>>,
    target: TagFieldType,
    target_unit: Option<Seq<char>>,
    bits: u32,
)
    ensures
        source == target ==> rescaled(
            bits,
            unit_change(source, source_unit, target, target_unit),
        ) == bits,
        source != TagFieldType::Angle && target != TagFieldType::Angle ==> rescaled(
            bits,
            unit_change(source, source_unit, target, target_unit),
        ) == bits,
        source_unit is None || target_unit is None || source_unit != target_unit ==> rescaled(
            bits,
            unit_change(source, source_unit, target, target_unit),
        ) == bits,
        source == TagFieldType::Angle && target != TagFieldType::Angle && source_unit is Some
            && source_unit == target_unit ==> rescaled(
            bits,
            unit_change(source, source_unit, target, target_unit),
        ) == in_degrees(bits),
        source != TagFieldType::Angle && target == TagFieldType::Angle && source_unit is Some
            && source_unit == target_unit ==> rescaled(
            bits,
            unit_change(source, source_unit, target, target_unit),
        ) == in_radians(bits),
{
}

}
