//! Converting the fields whose value is more than a number: real numbers and
//! their units, text, opaque bytes, and the one scale that changed its type.
use crate::convert::catalog::str_option;
use crate::convert::environment::{ConversionEnvironment, EnvironmentView};
use crate::convert::report::{
    ContextView, ConversionContext, ConversionIssueKind, record_unsupported,
};
use crate::convert::values::{
    assigned, enum_at, enum_value_at, field_has_meaningful_value, field_meaningful, held_option,
    option_held, set_converted,
};
use crate::fields::{
    FieldValue, TagFieldData, TagFieldType, enum_type, is_enum_type, is_zero_real,
    real_field_value, real_kind, real_of, real_value, string_id_type, string_type,
};
use crate::keys::{clean_field_key, field_key, option_names_match, options_agree};
use crate::single::{
    degrees_of, finite_real, in_degrees, in_radians, is_finite_real, nonfinite_text, radians_of,
    text_of_nonfinite,
};
use crate::tag::{ContentView, FieldView, TagField};
use crate::text::{
    concat2, concat3, concat4, copy, decimal, decimal_text, eq_ignoring_case, last_piece, same,
    same_ignoring_case, text_after_last,
};
use vstd::prelude::*;
use vstd::string::*;

verus! {

// ---------------------------------------------------------------------------
// Real numbers
// ---------------------------------------------------------------------------
/// What must happen to a real number when it crosses an `angle`/`real` boundary.
///
/// An `angle` field stores radians and is authored in degrees; a plain `real`
/// stores whatever its name says.
#[derive(Clone, Copy, Debug, PartialEq, Eq, Structural)]
pub enum RealUnitChange {
    /// Both sides agree, or nothing proves otherwise: move the bits.
    Copy,
    /// Source stores radians, target stores degrees.
    RadiansToDegrees,
    /// Source stores degrees, target stores radians.
    DegreesToRadians,
}

/// What must happen to a real number: nothing, unless exactly one side is an
/// angle and both schemas give the same unit.
pub open spec fn unit_change(
    source_type: TagFieldType,
    source_unit: Option<Seq<char>>,
    target_type: TagFieldType,
    target_unit: Option<Seq<char>>,
) -> RealUnitChange {
    let source_angle = source_type == TagFieldType::Angle;
    let target_angle = target_type == TagFieldType::Angle;
    if source_angle == target_angle || source_unit is None || source_unit != target_unit {
        RealUnitChange::Copy
    } else if source_angle {
        RealUnitChange::RadiansToDegrees
    } else {
        RealUnitChange::DegreesToRadians
    }
}

pub fn real_scalar_unit_change(
    source_type: TagFieldType,
    source_unit: Option<&str>,
    target_type: TagFieldType,
    target_unit: Option<&str>,
) -> (r: RealUnitChange)
    ensures
        r == unit_change(source_type, str_option(source_unit), target_type, str_option(target_unit)),
{
    let source_angle = source_type == TagFieldType::Angle;
    let target_angle = target_type == TagFieldType::Angle;
    if source_angle == target_angle {
        return RealUnitChange::Copy;
    }
    match (source_unit, target_unit) {
        (Some(a), Some(b)) => if same(a, b) {
            if source_angle {
                RealUnitChange::RadiansToDegrees
            } else {
                RealUnitChange::DegreesToRadians
            }
        } else {
            RealUnitChange::Copy
        },
        _ => RealUnitChange::Copy,
    }
}

/// A number after its change of unit.
pub open spec fn rescaled(bits: u32, change: RealUnitChange) -> u32 {
    match change {
        RealUnitChange::Copy => bits,
        RealUnitChange::RadiansToDegrees => in_degrees(bits),
        RealUnitChange::DegreesToRadians => in_radians(bits),
    }
}

/// A real number converted. One that is not finite leaves the target's default
/// in place.
pub open spec fn converted_real(
    env: EnvironmentView,
    f: FieldView,
    t: FieldView,
    path: Seq<char>,
    c: ContextView,
) -> (FieldView, ContextView) {
    match f.content {
        ContentView::Value(v) => match real_of(v) {
            Some(bits) => if !finite_real(bits) {
                (
                    t,
                    c.issue(
                        ConversionIssueKind::Warning,
                        path,
                        "Source value is not a finite number ("@ + nonfinite_text(bits)
                            + "), so the target keeps its default"@,
                    ),
                )
            } else {
                let change = unit_change(
                    f.field_type,
                    env.source_field_aliases.unit_of(field_key(f.name)),
                    t.field_type,
                    env.target_field_aliases.unit_of(field_key(t.name)),
                );
                assigned(
                    t,
                    FieldValue::Reals {
                        kind: real_kind(t.field_type),
                        bits: seq![rescaled(bits, change)],
                    },
                    path,
                    f.field_type == t.field_type,
                    c,
                )
            },
            None => (t, c),
        },
        _ => (t, c),
    }
}

pub fn convert_real(
    source: &TagField,
    target: &mut TagField,
    path: &str,
    env: &ConversionEnvironment,
    context: &mut ConversionContext,
)
    ensures
        (final(target)@, final(context)@) == converted_real(
            env@,
            source@,
            old(target)@,
            path@,
            old(context)@,
        ),
{
    let bits: u32 = match source.value() {
        Some(value) => match real_value(value) {
            Some(bits) => bits,
            None => {
                return;
            },
        },
        None => {
            return;
        },
    };
    if !is_finite_real(bits) {
        context.record(
            ConversionIssueKind::Warning,
            path,
            concat3(
                "Source value is not a finite number (",
                text_of_nonfinite(bits),
                "), so the target keeps its default",
            ),
        );
        return;
    }
    let target_type: TagFieldType = target.field_type();
    let change: RealUnitChange = real_scalar_unit_change(
        source.field_type(),
        env.source_field_aliases.unit_of(&clean_field_key(source.name())),
        target_type,
        env.target_field_aliases.unit_of(&clean_field_key(target.name())),
    );
    let bits: u32 = match change {
        RealUnitChange::Copy => bits,
        RealUnitChange::RadiansToDegrees => degrees_of(bits),
        RealUnitChange::DegreesToRadians => radians_of(bits),
    };
    set_converted(
        target,
        real_field_value(target_type, bits),
        path,
        source.field_type() == target_type,
        context,
    );
}

/// A number that is not finite never reaches the target: the field stays as it
/// was, and the report says so.
pub proof fn a_nonfinite_number_is_not_carried(
    env: EnvironmentView,
    f: FieldView,
    t: FieldView,
    path: Seq<char>,
    c: ContextView,
    bits: u32,
)
    requires
        f.content matches ContentView::Value(v) && real_of(v) == Some(bits),
        !finite_real(bits),
    ensures
        converted_real(env, f, t, path, c).0 == t,
        converted_real(env, f, t, path, c).1.report.issues.len() == c.report.issues.len() + 1,
{
}

// ---------------------------------------------------------------------------
// Text
// ---------------------------------------------------------------------------
/// The number of bytes of a text.
pub open spec fn byte_length(s: Seq<char>) -> usize {
    vstd::utf8::encode_utf8(s).len() as usize
}

/// How many bytes a text field of type `t` holds.
pub open spec fn text_limit(t: TagFieldType) -> usize {
    if t == TagFieldType::String {
        31
    } else {
        255
    }
}

/// Inline text converted, where it fits.
pub open spec fn converted_string(
    f: FieldView,
    t: FieldView,
    path: Seq<char>,
    c: ContextView,
) -> (FieldView, ContextView) {
    match f.content {
        ContentView::Value(FieldValue::Text { kind, text }) => if !string_type(kind) {
            (t, c)
        } else if byte_length(text) > text_limit(t.field_type) {
            (
                t,
                c.unsupported(
                    path,
                    "String is "@ + decimal(byte_length(text) as nat)
                        + " bytes but target limit is "@ + decimal(
                        text_limit(t.field_type) as nat,
                    ),
                ),
            )
        } else {
            assigned(
                t,
                FieldValue::Text {
                    kind: if t.field_type == TagFieldType::String {
                        TagFieldType::String
                    } else {
                        TagFieldType::LongString
                    },
                    text,
                },
                path,
                f.field_type == t.field_type,
                c,
            )
        },
        _ => (t, c),
    }
}

pub fn convert_string(
    source: &TagField,
    target: &mut TagField,
    path: &str,
    context: &mut ConversionContext,
)
    ensures
        (final(target)@, final(context)@) == converted_string(
            source@,
            old(target)@,
            path@,
            old(context)@,
        ),
{
    let text: &String = match source.value() {
        Some(TagFieldData::String(text)) => text,
        Some(TagFieldData::LongString(text)) => text,
        _ => {
            return;
        },
    };
    let short = target.field_type() == TagFieldType::String;
    let limit: usize = if short {
        31
    } else {
        255
    };
    let length: usize = text.as_str().len();
    if length > limit {
        let shown: String = decimal_text(length as u128);
        let most: String = decimal_text(limit as u128);
        record_unsupported(
            context,
            path,
            concat4("String is ", &shown, " bytes but target limit is ", &most),
        );
        return;
    }
    let value: TagFieldData = if short {
        TagFieldData::String(copy(text))
    } else {
        TagFieldData::LongString(copy(text))
    };
    let exact = source.field_type() == target.field_type();
    set_converted(target, value, path, exact, context);
}

/// An interned string converted.
pub open spec fn converted_string_id(
    f: FieldView,
    t: FieldView,
    path: Seq<char>,
    c: ContextView,
) -> (FieldView, ContextView) {
    match f.content {
        ContentView::Value(FieldValue::Text { kind, text }) => if string_id_type(kind) {
            assigned(
                t,
                FieldValue::Text {
                    kind: if t.field_type == TagFieldType::StringId {
                        TagFieldType::StringId
                    } else {
                        TagFieldType::OldStringId
                    },
                    text,
                },
                path,
                f.field_type == t.field_type,
                c,
            )
        } else {
            (t, c)
        },
        _ => (t, c),
    }
}

pub fn convert_string_id(
    source: &TagField,
    target: &mut TagField,
    path: &str,
    context: &mut ConversionContext,
)
    ensures
        (final(target)@, final(context)@) == converted_string_id(
            source@,
            old(target)@,
            path@,
            old(context)@,
        ),
{
    let text: &String = match source.value() {
        Some(TagFieldData::StringId(text)) => text,
        Some(TagFieldData::OldStringId(text)) => text,
        _ => {
            return;
        },
    };
    let value: TagFieldData = if target.field_type() == TagFieldType::StringId {
        TagFieldData::StringId(copy(text))
    } else {
        TagFieldData::OldStringId(copy(text))
    };
    let exact = source.field_type() == target.field_type();
    set_converted(target, value, path, exact, context);
}

// ---------------------------------------------------------------------------
// Opaque bytes
// ---------------------------------------------------------------------------
/// Whether two fields are declared to hold the same kind of payload.
pub open spec fn same_payload(env: EnvironmentView, f: FieldView, t: FieldView) -> bool {
    f.field_type == t.field_type && match (f.data_definition, t.data_definition) {
        (Some(a), Some(b)) => a == b || env.mapping_catalog.allows_payload(
            env.group_name,
            env.source_game,
            env.target_game,
            a,
            b,
        ),
        _ => false,
    }
}

fn is_same_payload(env: &ConversionEnvironment, source: &TagField, target: &TagField) -> (r: bool)
    ensures
        r == same_payload(env@, source@, target@),
{
    if source.field_type() != target.field_type() {
        return false;
    }
    match (source.data_definition_name(), target.data_definition_name()) {
        (Some(a), Some(b)) => same(a, b) || env.mapping_catalog.payload_alias_allows(
            env.group_name,
            env.source_game,
            env.target_game,
            a,
            b,
        ),
        _ => false,
    }
}

/// Opaque bytes converted: carried verbatim where the two structs are known to be
/// the same, or the two fields to hold the same kind of payload, and left behind
/// otherwise.
pub open spec fn converted_bytes(
    env: EnvironmentView,
    f: FieldView,
    t: FieldView,
    path: Seq<char>,
    verbatim: bool,
    c: ContextView,
) -> (FieldView, ContextView) {
    if (!verbatim && !same_payload(env, f, t)) || f.field_type != t.field_type {
        if field_meaningful(f) {
            let c1 = c.unsupported(
                path,
                "Opaque bytes require an identical struct GUID and field type"@,
            );
            let editor_owned = env.target_field_aliases.editor_owned.contains(field_key(t.name))
                || env.source_field_aliases.editor_owned.contains(field_key(f.name));
            if f.field_type == TagFieldType::Data && !editor_owned {
                (t, c1.payload_left(path))
            } else {
                (t, c1)
            }
        } else {
            (t, c)
        }
    } else {
        copied(f, t, path, c)
    }
}

/// A field with the source's value copied into it as it is.
pub open spec fn copied(f: FieldView, t: FieldView, path: Seq<char>, c: ContextView) -> (
    FieldView,
    ContextView,
) {
    match f.content {
        ContentView::Value(v) => assigned(t, v, path, true, c),
        _ => (t, c),
    }
}

pub fn copy_value(
    source: &TagField,
    target: &mut TagField,
    path: &str,
    context: &mut ConversionContext,
)
    ensures
        (final(target)@, final(context)@) == copied(source@, old(target)@, path@, old(context)@),
{
    if let Some(value) = source.value() {
        set_converted(target, value.duplicate(), path, true, context);
    }
}

pub fn convert_bytes(
    source: &TagField,
    target: &mut TagField,
    path: &str,
    verbatim: bool,
    env: &ConversionEnvironment,
    context: &mut ConversionContext,
)
    ensures
        (final(target)@, final(context)@) == converted_bytes(
            env@,
            source@,
            old(target)@,
            path@,
            verbatim,
            old(context)@,
        ),
{
    let carried = verbatim || is_same_payload(env, source, target);
    if !carried || source.field_type() != target.field_type() {
        if field_has_meaningful_value(source) {
            record_unsupported(
                context,
                path,
                copy("Opaque bytes require an identical struct GUID and field type"),
            );
            let editor_owned = env.target_field_aliases.is_editor_owned(
                &clean_field_key(target.name()),
            ) || env.source_field_aliases.is_editor_owned(&clean_field_key(source.name()));
            if source.field_type() == TagFieldType::Data && !editor_owned {
                context.leave_payload(path);
            }
        }
        return;
    }
    copy_value(source, target, path, context);
}

// ---------------------------------------------------------------------------
// The occlusion scale of lens flares
// ---------------------------------------------------------------------------
/// The scales that the older generations choose from, by name.
pub open spec fn scale_names() -> Seq<Seq<char>> {
    seq!["none"@, "1/2"@, "1/4"@, "1/8"@, "1/16"@, "1/32"@, "1/64"@]
}

/// The bit pattern of a scale.
pub open spec fn scale_bits(index: nat) -> u32 {
    if index == 0 {
        0
    } else if index == 1 {
        0x3f00_0000
    } else if index == 2 {
        0x3e80_0000
    } else if index == 3 {
        0x3e00_0000
    } else if index == 4 {
        0x3d80_0000
    } else if index == 5 {
        0x3d00_0000
    } else {
        0x3c80_0000
    }
}

/// How far a bit pattern may lie under that of a scale and still differ from it
/// by no more than the precision of a single; half as far above it.
pub open spec fn scale_slack(index: nat) -> u32 {
    if index == 1 {
        4
    } else if index == 2 {
        8
    } else if index == 3 {
        16
    } else if index == 4 {
        32
    } else if index == 5 {
        64
    } else {
        128
    }
}

/// Whether a number is a scale, up to the precision of a single.
pub open spec fn is_scale(index: nat, bits: u32) -> bool {
    if index == 0 {
        bits % 0x8000_0000 <= 0x3400_0000
    } else {
        scale_bits(index) - scale_slack(index) <= bits <= scale_bits(index) + scale_slack(index) / 2
    }
}

/// The first scale at or behind `from` that a number is.
pub open spec fn scale_of(bits: u32, from: nat) -> Option<nat>
    decreases 7 - from,
{
    if from >= 7 {
        None
    } else if is_scale(from, bits) {
        Some(from)
    } else {
        scale_of(bits, from + 1)
    }
}

/// The first scale at or behind `from` whose name matches.
pub open spec fn scale_named(name: Seq<char>, from: nat) -> Option<nat>
    decreases 7 - from,
{
    if from >= 7 {
        None
    } else if options_agree(scale_names()[from as int], name) {
        Some(from)
    } else {
        scale_named(name, from + 1)
    }
}

/// The name of a scale.
fn name_of_scale(index: usize) -> (r: &'static str)
    requires
        index < 7,
    ensures
        r@ == scale_names()[index as int],
{
    match index {
        0 => "none",
        1 => "1/2",
        2 => "1/4",
        3 => "1/8",
        4 => "1/16",
        5 => "1/32",
        _ => "1/64",
    }
}

fn bits_of_scale(index: usize) -> (r: u32)
    ensures
        r == scale_bits(index as nat),
{
    match index {
        0 => 0,
        1 => 0x3f00_0000,
        2 => 0x3e80_0000,
        3 => 0x3e00_0000,
        4 => 0x3d80_0000,
        5 => 0x3d00_0000,
        _ => 0x3c80_0000,
    }
}

fn scale_for_bits(bits: u32) -> (r: Option<usize>)
    ensures
        match r {
            Some(i) => i < 7 && scale_of(bits, 0) == Some(i as nat),
            None => scale_of(bits, 0) is None,
        },
{
    let mut i: usize = 0;
    while i < 7
        invariant
            i <= 7,
            scale_of(bits, 0) == scale_of(bits, i as nat),
        decreases 7 - i,
    {
        let found = if i == 0 {
            bits % 0x8000_0000 <= 0x3400_0000
        } else {
            let slack: u32 = match i {
                1 => 4,
                2 => 8,
                3 => 16,
                4 => 32,
                5 => 64,
                _ => 128,
            };
            let middle: u32 = bits_of_scale(i);
            middle - slack <= bits && bits <= middle + slack / 2
        };
        if found {
            return Some(i);
        }
        i = i + 1;
    }
    None
}

fn scale_for_name(name: &str) -> (r: Option<usize>)
    ensures
        match r {
            Some(i) => i < 7 && scale_named(name@, 0) == Some(i as nat),
            None => scale_named(name@, 0) is None,
        },
{
    let mut i: usize = 0;
    while i < 7
        invariant
            i <= 7,
            scale_named(name@, 0) == scale_named(name@, i as nat),
        decreases 7 - i,
    {
        if option_names_match(name_of_scale(i), name) {
            return Some(i);
        }
        i = i + 1;
    }
    None
}

/// A lens flare's occlusion scale converted between the enum of the older
/// generations and the number of the later ones; `None` where the two fields are
/// no such pair.
pub open spec fn converted_scale(
    env: EnvironmentView,
    f: FieldView,
    t: FieldView,
    path: Seq<char>,
    c: ContextView,
) -> Option<(FieldView, ContextView)> {
    if !same_ignoring_case(env.group_name, "lens_flare"@) || field_key(last_piece(path, '/'))
        != "occlusion inner radius scale"@ {
        None
    } else if enum_type(f.field_type) && t.field_type == TagFieldType::Real {
        let found = match option_held(f) {
            Some(name) => scale_named(name, 0),
            None => None,
        };
        match found {
            Some(i) => Some(
                assigned(
                    t,
                    FieldValue::Reals { kind: TagFieldType::Real, bits: seq![scale_bits(i)] },
                    path,
                    false,
                    c,
                ),
            ),
            None => if field_meaningful(f) {
                Some((t, c.unsupported(path, "Unresolved lens-flare occlusion scale enum"@)))
            } else {
                Some((t, c))
            },
        }
    } else if f.field_type == TagFieldType::Real && enum_type(t.field_type) {
        match f.content {
            ContentView::Value(FieldValue::Reals { kind: TagFieldType::Real, bits }) => {
                match scale_of(bits[0], 0) {
                    Some(i) => Some(
                        assigned(
                            t,
                            enum_at(t.field_type, i, scale_names()[i as int]),
                            path,
                            false,
                            c,
                        ),
                    ),
                    None => if !is_zero_real(bits[0]) {
                        Some(
                            (
                                t,
                                c.unsupported(
                                    path,
                                    "Legacy lens-flare schema cannot represent occlusion scale "@
                                        + env.answers.number_text(bits[0]),
                                ),
                            ),
                        )
                    } else {
                        Some((t, c))
                    },
                }
            },
            _ => Some((t, c)),
        }
    } else {
        None
    }
}

/// Converts a lens flare's occlusion scale. Returns whether the two fields were
/// such a pair.
pub fn convert_lens_flare_occlusion_scale(
    source: &TagField,
    target: &mut TagField,
    path: &str,
    env: &ConversionEnvironment,
    context: &mut ConversionContext,
) -> (r: bool)
    ensures
        match converted_scale(env@, source@, old(target)@, path@, old(context)@) {
            Some((t, c)) => r && final(target)@ == t && final(context)@ == c,
            None => !r && final(target)@ == old(target)@ && final(context)@ == old(context)@,
        },
{
    if !eq_ignoring_case(env.group_name, "lens_flare") || !same(
        &clean_field_key(&text_after_last(path, '/')),
        "occlusion inner radius scale",
    ) {
        return false;
    }
    if is_enum_type(source.field_type()) && target.field_type() == TagFieldType::Real {
        let found: Option<usize> = match held_option(source) {
            Some(name) => scale_for_name(name),
            None => None,
        };
        match found {
            Some(i) => set_converted(
                target,
                TagFieldData::Real(bits_of_scale(i)),
                path,
                false,
                context,
            ),
            None => {
                if field_has_meaningful_value(source) {
                    record_unsupported(
                        context,
                        path,
                        copy("Unresolved lens-flare occlusion scale enum"),
                    );
                }
            },
        }
        return true;
    }
    if source.field_type() == TagFieldType::Real && is_enum_type(target.field_type()) {
        let bits: u32 = match source.value() {
            Some(TagFieldData::Real(bits)) => *bits,
            _ => {
                return true;
            },
        };
        match scale_for_bits(bits) {
            Some(i) => {
                if let Some(value) = enum_value_at(target.field_type(), i, name_of_scale(i)) {
                    set_converted(target, value, path, false, context);
                }
            },
            None => {
                if bits != 0 && bits != 0x8000_0000 {
                    let shown: String = env.answers.text_of_number(bits);
                    record_unsupported(
                        context,
                        path,
                        concat2(
                            "Legacy lens-flare schema cannot represent occlusion scale ",
                            &shown,
                        ),
                    );
                }
            },
        }
        return true;
    }
    false
}

}
