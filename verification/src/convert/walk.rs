//! The walk of a conversion: field by field, struct by struct.
use crate::convert::companions::{conv_responses, convert_h3_player_responses_to_reach_companions};
use crate::convert::defaults::{
    initialize_block_index_defaults, nulled_struct, path_of, path_to_field,
};
use crate::convert::environment::{ConversionEnvironment, EnvironmentView};
use crate::convert::functions::{convert_function_mapping, converted_curve};
use crate::convert::layouts::{
    conv_animation, conv_looping_sound, conv_melee, conv_physics,
    convert_effect_looping_sound_layout, convert_local_animation_payload,
    convert_vehicle_physics_types, convert_weapon_melee_layout, inline_animation,
    is_inline_animation, legacy_curve, report_legacy_explicit_function,
};
use crate::convert::leaves::{
    convert_bytes, convert_lens_flare_occlusion_scale, convert_real, convert_string,
    convert_string_id, converted_bytes, converted_real, converted_scale, converted_string,
    converted_string_id, copied, copy_value,
};
use crate::convert::matching::{
    count_defaults, defaults_among, find_place, none_used, place_for,
    record_unmatched_field_values, unmatched,
};
use crate::convert::report::{ContextView, ConversionContext, record_unsupported};
use crate::convert::shapes::{
    WIRE_DEPTH, copy_resource_outcome, moved_resource, resource_copied,
    struct_trees_are_wire_identical, transfer_resource, wire_identical,
};
use crate::convert::values::{
    convert_enum, convert_flags, convert_integer, convert_reference, converted_enum,
    converted_flags, converted_integer, converted_reference, field_has_meaningful_value,
    field_meaningful,
};
use crate::fields::{
    TagFieldType, integer_type, is_integer_type, is_real_scalar, label_of_type, real_scalar,
    type_label,
};
use crate::guid::{is_zero_guid, same_guids, zero_guid};
use crate::keys::{clean_field_key, element_path, field_key, path_of_element};
use crate::layout::{LayoutView, TagLayout};
use crate::tag::{
    BlockView, ContentView, FieldView, StructView, TagArray, TagBlock, TagField, TagStruct,
    elements_are_inside, field_is_inside, items_are_inside, struct_is_inside,
};
use crate::text::{
    append_texts, concat3, concat4, contains_text, copy, decimal, decimal_text, eq_ignoring_case,
    no_texts, same, same_ignoring_case, texts,
};
use vstd::prelude::*;

verus! {

// ---------------------------------------------------------------------------
// One field
// ---------------------------------------------------------------------------
/// How many of `have` elements a target with room for `room` takes.
pub open spec fn fitting(have: nat, room: nat) -> nat {
    if have <= room {
        have
    } else {
        room
    }
}

/// A target field, and what has been gathered, after the source field `f` was
/// converted into it. `verbatim` says that the two structs are known to be the
/// same.
pub open spec fn conv_field(
    env: EnvironmentView,
    layout: LayoutView,
    f: FieldView,
    t: FieldView,
    path: Seq<char>,
    verbatim: bool,
    c: ContextView,
) -> (FieldView, ContextView)
    decreases f, 9nat, None::<nat>, 0nat,
{
    match converted_scale(env, f, t, path, c) {
        Some(done) => done,
        None => match converted_curve(env, layout, f, t, path, c) {
            Some(done) => done,
            None => conv_by_type(env, layout, f, t, path, verbatim, c),
        },
    }
}

/// The same by the type of the source field.
pub open spec fn conv_by_type(
    env: EnvironmentView,
    layout: LayoutView,
    f: FieldView,
    t: FieldView,
    path: Seq<char>,
    verbatim: bool,
    c: ContextView,
) -> (FieldView, ContextView)
    decreases f, 8nat, None::<nat>, 0nat,
{
    match f.field_type {
        TagFieldType::Struct => match (f.content, t.content) {
            (ContentView::Struct(s), ContentView::Struct(ts)) => {
                let (ts1, c1) = conv_struct(env, layout, s, ts, path, false, c);
                (FieldView { content: ContentView::Struct(ts1), ..t }, c1)
            },
            _ => (t, c.unsupported(path, "Missing nested struct data"@)),
        },
        TagFieldType::Block => match (f.content, t.content) {
            (ContentView::Block(b), ContentView::Block(tb)) => {
                let count = fitting(b.elements.len(), tb.max_count as nat);
                let (tb1, c1) = conv_elements(
                    env,
                    layout,
                    b.elements,
                    tb.cleared(),
                    path,
                    count,
                    c,
                );
                let c2 = if b.elements.len() > count {
                    c1.omitted(
                        b.elements.len() - count,
                        path,
                        "Target block limit omitted "@ + decimal(
                            (b.elements.len() - count) as nat,
                        ) + " element(s)"@,
                    )
                } else {
                    c1
                };
                (FieldView { content: ContentView::Block(tb1), ..t }, c2)
            },
            _ => (t, c.unsupported(path, "Missing tag block data"@)),
        },
        TagFieldType::Array => match (f.content, t.content) {
            (ContentView::Array(a), ContentView::Array(ta)) => {
                let count = fitting(a.len(), ta.len());
                let (ta1, c1) = conv_items(env, layout, a, ta, path, count, c);
                let c2 = if a.len() > count {
                    c1.omitted(
                        a.len() - count,
                        path,
                        "Target array omitted "@ + decimal((a.len() - count) as nat)
                            + " element(s)"@,
                    )
                } else {
                    c1
                };
                (FieldView { content: ContentView::Array(ta1), ..t }, c2)
            },
            _ => (t, c.unsupported(path, "Missing fixed-array data"@)),
        },
        _ => conv_leaf(env, layout, f, t, path, verbatim, c),
    }
}

/// The same for a field that nests no structs.
pub open spec fn conv_leaf(
    env: EnvironmentView,
    layout: LayoutView,
    f: FieldView,
    t: FieldView,
    path: Seq<char>,
    verbatim: bool,
    c: ContextView,
) -> (FieldView, ContextView) {
    match f.field_type {
        TagFieldType::PageableResource => {
            let (t1, c1, _) = moved_resource(f, t, resource_copied(env, layout, f, t), path, c);
            (t1, c1)
        },
        TagFieldType::ApiInterop => if field_meaningful(f) {
            (t, c.unsupported(path, "API interop runtime data is not transferred"@))
        } else {
            (t, c)
        },
        TagFieldType::TagReference => converted_reference(env, f, t, path, c),
        TagFieldType::CharEnum | TagFieldType::ShortEnum | TagFieldType::LongEnum => converted_enum(
            env,
            f,
            t,
            path,
            c,
        ),
        TagFieldType::ByteFlags
        | TagFieldType::WordFlags
        | TagFieldType::LongFlags => converted_flags(env, f, t, path, c),
        TagFieldType::StringId | TagFieldType::OldStringId => converted_string_id(f, t, path, c),
        TagFieldType::String | TagFieldType::LongString => converted_string(f, t, path, c),
        TagFieldType::Data | TagFieldType::Custom => converted_bytes(env, f, t, path, verbatim, c),
        _ => conv_scalar(env, f, t, path, c),
    }
}

/// The same for numbers and for what is left.
pub open spec fn conv_scalar(
    env: EnvironmentView,
    f: FieldView,
    t: FieldView,
    path: Seq<char>,
    c: ContextView,
) -> (FieldView, ContextView) {
    if integer_type(f.field_type) && integer_type(t.field_type) {
        converted_integer(f, t, path, c)
    } else if real_scalar(f.field_type) && real_scalar(t.field_type) {
        converted_real(env, f, t, path, c)
    } else if f.field_type == t.field_type {
        copied(f, t, path, c)
    } else if field_meaningful(f) {
        (
            t,
            c.unsupported(
                path,
                "Cannot convert "@ + type_label(f.field_type) + " to "@ + type_label(t.field_type),
            ),
        )
    } else {
        (t, c)
    }
}

/// A target block after the first `n` source elements were converted into fresh
/// elements at its end.
pub open spec fn conv_elements(
    env: EnvironmentView,
    layout: LayoutView,
    elements: Seq<StructView>,
    b: BlockView,
    path: Seq<char>,
    n: nat,
    c: ContextView,
) -> (BlockView, ContextView)
    decreases elements, 1nat, None::<nat>, n,
{
    if n == 0 || n > elements.len() {
        (b, c)
    } else {
        let (b1, c1) = conv_elements(env, layout, elements, b, path, (n - 1) as nat, c);
        let at = b1.elements.len() as int;
        let g = b1.grown(layout);
        if at < g.elements.len() {
            let (e, c2) = conv_struct(
                env,
                layout,
                elements[n - 1],
                nulled_struct(g.elements[at]),
                element_path(path, (n - 1) as nat),
                false,
                c1,
            );
            (BlockView { elements: g.elements.update(at, e), ..g }, c2)
        } else {
            (g, c1)
        }
    }
}

/// A target array after the first `n` source elements were converted into its
/// own.
pub open spec fn conv_items(
    env: EnvironmentView,
    layout: LayoutView,
    elements: Seq<StructView>,
    a: Seq<StructView>,
    path: Seq<char>,
    n: nat,
    c: ContextView,
) -> (Seq<StructView>, ContextView)
    decreases elements, 1nat, None::<nat>, n,
{
    if n == 0 || n > elements.len() || n > a.len() {
        (a, c)
    } else {
        let (a1, c1) = conv_items(env, layout, elements, a, path, (n - 1) as nat, c);
        let (e, c2) = conv_struct(
            env,
            layout,
            elements[n - 1],
            a[n - 1],
            element_path(path, (n - 1) as nat),
            false,
            c1,
        );
        (a1.update(n - 1, e), c2)
    }
}

// ---------------------------------------------------------------------------
// One struct
// ---------------------------------------------------------------------------
/// Whether two structs carry the same identifier. Two that carry none prove
/// nothing.
pub open spec fn same_identity(s: StructView, t: StructView) -> bool {
    s.guid == t.guid && s.guid != zero_guid()
}

/// Whether opaque bytes may cross verbatim between two structs: they carry the
/// same identifier, or describe the same bytes.
pub open spec fn crosses_verbatim(
    env: EnvironmentView,
    layout: LayoutView,
    s: StructView,
    t: StructView,
) -> bool {
    same_identity(s, t) || wire_identical(
        env.source_layout,
        s.index,
        layout,
        t.index,
        WIRE_DEPTH as nat,
    )
}

/// A target struct, which of its fields are taken, and what has been gathered,
/// after the first `n` fields of the source were converted into it. The fields
/// whose keys are in `moved` have gone elsewhere.
pub open spec fn conv_fields(
    env: EnvironmentView,
    layout: LayoutView,
    s: StructView,
    t: StructView,
    path: Seq<char>,
    root: bool,
    same_guid: bool,
    verbatim: bool,
    moved: Seq<Seq<char>>,
    n: nat,
    c: ContextView,
) -> (StructView, Seq<bool>, ContextView)
    decreases s, 1nat, None::<nat>, n,
{
    if n == 0 || n > s.fields.len() {
        (t, Seq::new(t.fields.len(), |i: int| false), c)
    } else {
        let (t1, used, c1) = conv_fields(
            env,
            layout,
            s,
            t,
            path,
            root,
            same_guid,
            verbatim,
            moved,
            (n - 1) as nat,
            c,
        );
        let f = s.fields[n - 1];
        let key = field_key(f.name);
        match place_for(env, s, f, t1, used, same_guid, 0) {
            None => if moved.contains(key) {
                (t1, used, c1)
            } else {
                (t1, used, unmatched(f, path_of(path, f), c1))
            },
            Some(k) => {
                let g = t1.fields[k as int];
                let c2 = if key != field_key(g.name) {
                    c1.aliased()
                } else {
                    c1
                };
                let c3 = if root {
                    c2.matched_root()
                } else {
                    c2
                };
                let (g1, c4) = conv_field(env, layout, f, g, path_of(path, f), verbatim, c3);
                (
                    StructView { fields: t1.fields.update(k as int, g1), ..t1 },
                    used.update(k as int, true),
                    c4,
                )
            },
        }
    }
}

/// The step that brings the payload of an animation across.
pub open spec fn animation_step(
    env: EnvironmentView,
    layout: LayoutView,
    s: StructView,
    t: StructView,
    path: Seq<char>,
    c: ContextView,
) -> (StructView, Seq<Seq<char>>, ContextView)
    decreases s, 8nat, None::<nat>, 0nat,
{
    if is_inline_animation(env, s, path) {
        conv_animation(env, layout, s, t, path, c)
    } else {
        (t, Seq::empty(), c)
    }
}

/// The step that brings the melee layout of a weapon across.
pub open spec fn weapon_step(
    env: EnvironmentView,
    layout: LayoutView,
    s: StructView,
    t: StructView,
    root: bool,
    c: ContextView,
) -> (StructView, Seq<Seq<char>>, ContextView)
    decreases s, 8nat, None::<nat>, 0nat,
{
    if root && same_ignoring_case(env.group_name, "weapon"@) {
        conv_melee(env, layout, s, t, c)
    } else {
        (t, Seq::empty(), c)
    }
}

/// The step that brings the looping sound of an effect across.
pub open spec fn effect_step(
    env: EnvironmentView,
    layout: LayoutView,
    s: StructView,
    t: StructView,
    root: bool,
    c: ContextView,
) -> (StructView, Seq<Seq<char>>, ContextView)
    decreases s, 8nat, None::<nat>, 0nat,
{
    if root && same_ignoring_case(env.group_name, "effect"@) {
        conv_looping_sound(env, layout, s, t, c)
    } else {
        (t, Seq::empty(), c)
    }
}

/// The step that brings the physics of a vehicle across.
pub open spec fn vehicle_step(
    env: EnvironmentView,
    layout: LayoutView,
    s: StructView,
    t: StructView,
    root: bool,
    c: ContextView,
) -> (StructView, Seq<Seq<char>>, ContextView)
    decreases s, 8nat, None::<nat>, 0nat,
{
    if root && same_ignoring_case(env.group_name, "vehicle"@) {
        conv_physics(env, layout, s, t, c)
    } else {
        (t, Seq::empty(), c)
    }
}

/// The step that brings the player responses of a damage effect across; a failure
/// is fatal to the conversion.
pub open spec fn damage_step(
    env: EnvironmentView,
    layout: LayoutView,
    s: StructView,
    t: StructView,
    root: bool,
    c: ContextView,
) -> (StructView, Seq<Seq<char>>, ContextView)
    decreases s, 8nat, None::<nat>, 0nat,
{
    if root && same_ignoring_case(env.group_name, "damage_effect"@) {
        let (t1, c1, outcome) = conv_responses(env, layout, s, t, c);
        match outcome {
            Ok(moved) => (t1, moved, c1),
            Err(message) => (
                t1,
                Seq::empty(),
                ContextView { fatal: Some(message), ..c1 },
            ),
        }
    } else {
        (t, Seq::empty(), c)
    }
}

/// A target struct, the keys of the source fields that have gone elsewhere, and
/// what has been gathered, after the layouts that the generations keep apart
/// were brought across.
pub open spec fn conv_layouts(
    env: EnvironmentView,
    layout: LayoutView,
    s: StructView,
    t: StructView,
    path: Seq<char>,
    root: bool,
    c: ContextView,
) -> (StructView, Seq<Seq<char>>, ContextView)
    decreases s, 9nat, None::<nat>, 0nat,
{
    let (t1, m1, c1) = animation_step(env, layout, s, t, path, c);
    let (t2, m2, c2) = weapon_step(env, layout, s, t1, root, c1);
    let (t3, m3, c3) = effect_step(env, layout, s, t2, root, c2);
    let (m4, c4) = legacy_curve(env, s, t3, path, c3);
    let (t5, m5, c5) = vehicle_step(env, layout, s, t3, root, c4);
    let (t6, m6, c6) = damage_step(env, layout, s, t5, root, c5);
    (t6, m1 + m2 + m3 + m4 + m5 + m6, c6)
}

/// A target struct, and what has been gathered, after the source struct `s` was
/// converted into it.
pub open spec fn conv_struct(
    env: EnvironmentView,
    layout: LayoutView,
    s: StructView,
    t: StructView,
    path: Seq<char>,
    root: bool,
    c: ContextView,
) -> (StructView, ContextView)
    decreases s, 10nat, None::<nat>, 0nat,
{
    let (t1, moved, c1) = conv_layouts(env, layout, s, t, path, root, c);
    let (t2, used, c2) = conv_fields(
        env,
        layout,
        s,
        t1,
        path,
        root,
        same_identity(s, t),
        crosses_verbatim(env, layout, s, t),
        moved,
        s.fields.len(),
        c1,
    );
    (t2, c2.defaulted(defaults_among(t2.fields, used, t2.fields.len()) as int))
}

// ---------------------------------------------------------------------------
// The walk itself
// ---------------------------------------------------------------------------
/// Converts the source field into the target field.
pub fn convert_field(
    source: &TagField,
    target: &mut TagField,
    layout: &TagLayout,
    path: &str,
    verbatim: bool,
    env: &ConversionEnvironment,
    context: &mut ConversionContext,
)
    ensures
        (final(target)@, final(context)@) == conv_field(
            env@,
            layout@,
            source@,
            old(target)@,
            path@,
            verbatim,
            old(context)@,
        ),
    decreases source@, 9nat, None::<nat>, 0nat,
{
    if convert_lens_flare_occlusion_scale(source, target, path, env, context) {
        return;
    }
    if convert_function_mapping(source, target, layout, path, env, context) {
        return;
    }
    match source.field_type() {
        TagFieldType::Struct => convert_struct_field(source, target, layout, path, env, context),
        TagFieldType::Block => convert_block_field(source, target, layout, path, env, context),
        TagFieldType::Array => convert_array_field(source, target, layout, path, env, context),
        _ => convert_leaf(source, target, layout, path, verbatim, env, context),
    }
}

fn convert_struct_field(
    source: &TagField,
    target: &mut TagField,
    layout: &TagLayout,
    path: &str,
    env: &ConversionEnvironment,
    context: &mut ConversionContext,
)
    requires
        source@.field_type == TagFieldType::Struct,
    ensures
        (final(target)@, final(context)@) == conv_by_type(
            env@,
            layout@,
            source@,
            old(target)@,
            path@,
            false,
            old(context)@,
        ),
    decreases source@, 8nat, None::<nat>, 0nat,
{
    if let Some(s) = source.as_struct() {
        if let Some(t) = target.as_struct_mut() {
            proof {
                struct_is_inside(source@, s@);
            }
            convert_struct(s, t, layout, path, false, env, context);
            return;
        }
    }
    record_unsupported(context, path, copy("Missing nested struct data"));
}

fn convert_block_field(
    source: &TagField,
    target: &mut TagField,
    layout: &TagLayout,
    path: &str,
    env: &ConversionEnvironment,
    context: &mut ConversionContext,
)
    requires
        source@.field_type == TagFieldType::Block,
    ensures
        (final(target)@, final(context)@) == conv_by_type(
            env@,
            layout@,
            source@,
            old(target)@,
            path@,
            false,
            old(context)@,
        ),
    decreases source@, 8nat, None::<nat>, 0nat,
{
    if let Some(block) = source.as_block() {
        if let Some(own) = target.as_block_mut() {
            proof {
                elements_are_inside(source@, block@);
            }
            let have: usize = block.len();
            let room: usize = own.max_count() as usize;
            own.clear();
            let count: usize = if have <= room {
                have
            } else {
                room
            };
            convert_elements(block, own, count, layout, path, env, context);
            if have > count {
                let number: String = decimal_text((have - count) as u128);
                context.record_omitted(
                    have - count,
                    path,
                    concat3("Target block limit omitted ", &number, " element(s)"),
                );
            }
            return;
        }
    }
    record_unsupported(context, path, copy("Missing tag block data"));
}

fn convert_array_field(
    source: &TagField,
    target: &mut TagField,
    layout: &TagLayout,
    path: &str,
    env: &ConversionEnvironment,
    context: &mut ConversionContext,
)
    requires
        source@.field_type == TagFieldType::Array,
    ensures
        (final(target)@, final(context)@) == conv_by_type(
            env@,
            layout@,
            source@,
            old(target)@,
            path@,
            false,
            old(context)@,
        ),
    decreases source@, 8nat, None::<nat>, 0nat,
{
    if let Some(array) = source.as_array() {
        if let Some(own) = target.as_array_mut() {
            proof {
                items_are_inside(source@, array@);
            }
            let have: usize = array.len();
            let room: usize = own.len();
            let count: usize = if have <= room {
                have
            } else {
                room
            };
            convert_items(array, own, count, layout, path, env, context);
            if have > count {
                let number: String = decimal_text((have - count) as u128);
                context.record_omitted(
                    have - count,
                    path,
                    concat3("Target array omitted ", &number, " element(s)"),
                );
            }
            return;
        }
    }
    record_unsupported(context, path, copy("Missing fixed-array data"));
}

fn convert_elements(
    source: &TagBlock,
    target: &mut TagBlock,
    count: usize,
    layout: &TagLayout,
    path: &str,
    env: &ConversionEnvironment,
    context: &mut ConversionContext,
)
    requires
        count <= source@.elements.len(),
    ensures
        (final(target)@, final(context)@) == conv_elements(
            env@,
            layout@,
            source@.elements,
            old(target)@,
            path@,
            count as nat,
            old(context)@,
        ),
    decreases source@.elements, 1nat, None::<nat>, 0nat,
{
    let ghost start = target@;
    let ghost before = context@;
    let mut i: usize = 0;
    while i < count
        invariant
            i <= count <= source@.elements.len(),
            (target@, context@) == conv_elements(
                env@,
                layout@,
                source@.elements,
                start,
                path@,
                i as nat,
                before,
            ),
        decreases count - i,
    {
        let at: usize = target.add_element(layout);
        if at < target.len() {
            let ghost grown = target@.elements;
            initialize_block_index_defaults(target.at_mut(at));
            let element_path: String = path_of_element(path, i);
            assert(decreases_to!(source@.elements => source@.elements[i as int]));
            convert_struct(
                source.at(i),
                target.at_mut(at),
                layout,
                &element_path,
                false,
                env,
                context,
            );
            assert(target@.elements =~= grown.update(at as int, target@.elements[at as int]));
        }
        i = i + 1;
    }
}

fn convert_items(
    source: &TagArray,
    target: &mut TagArray,
    count: usize,
    layout: &TagLayout,
    path: &str,
    env: &ConversionEnvironment,
    context: &mut ConversionContext,
)
    requires
        count <= source@.len(),
        count <= old(target)@.len(),
    ensures
        (final(target)@, final(context)@) == conv_items(
            env@,
            layout@,
            source@,
            old(target)@,
            path@,
            count as nat,
            old(context)@,
        ),
    decreases source@, 1nat, None::<nat>, 0nat,
{
    let ghost start = target@;
    let ghost before = context@;
    let mut i: usize = 0;
    while i < count
        invariant
            i <= count <= source@.len(),
            count <= start.len(),
            target@.len() == start.len(),
            forall|j: int| i <= j < start.len() ==> target@[j] == start[j],
            (target@, context@) == conv_items(
                env@,
                layout@,
                source@,
                start,
                path@,
                i as nat,
                before,
            ),
        decreases count - i,
    {
        let element_path: String = path_of_element(path, i);
        assert(decreases_to!(source@ => source@[i as int]));
        convert_struct(source.at(i), target.at_mut(i), layout, &element_path, false, env, context);
        i = i + 1;
    }
}

fn convert_leaf(
    source: &TagField,
    target: &mut TagField,
    layout: &TagLayout,
    path: &str,
    verbatim: bool,
    env: &ConversionEnvironment,
    context: &mut ConversionContext,
)
    ensures
        (final(target)@, final(context)@) == conv_leaf(
            env@,
            layout@,
            source@,
            old(target)@,
            path@,
            verbatim,
            old(context)@,
        ),
{
    match source.field_type() {
        TagFieldType::PageableResource => {
            let copied: Result<(), String> = copy_resource_outcome(source, target, layout, env);
            let _ = transfer_resource(source, target, copied, path, context);
        },
        TagFieldType::ApiInterop => {
            if field_has_meaningful_value(source) {
                record_unsupported(
                    context,
                    path,
                    copy("API interop runtime data is not transferred"),
                );
            }
        },
        TagFieldType::TagReference => convert_reference(source, target, path, env, context),
        TagFieldType::CharEnum | TagFieldType::ShortEnum | TagFieldType::LongEnum => convert_enum(
            source,
            target,
            path,
            env,
            context,
        ),
        TagFieldType::ByteFlags
        | TagFieldType::WordFlags
        | TagFieldType::LongFlags => convert_flags(source, target, path, env, context),
        TagFieldType::StringId | TagFieldType::OldStringId => convert_string_id(
            source,
            target,
            path,
            context,
        ),
        TagFieldType::String | TagFieldType::LongString => convert_string(
            source,
            target,
            path,
            context,
        ),
        TagFieldType::Data | TagFieldType::Custom => convert_bytes(
            source,
            target,
            path,
            verbatim,
            env,
            context,
        ),
        _ => convert_scalar(source, target, path, env, context),
    }
}

fn convert_scalar(
    source: &TagField,
    target: &mut TagField,
    path: &str,
    env: &ConversionEnvironment,
    context: &mut ConversionContext,
)
    ensures
        (final(target)@, final(context)@) == conv_scalar(
            env@,
            source@,
            old(target)@,
            path@,
            old(context)@,
        ),
{
    let source_type: TagFieldType = source.field_type();
    let target_type: TagFieldType = target.field_type();
    if is_integer_type(source_type) && is_integer_type(target_type) {
        convert_integer(source, target, path, context);
    } else if is_real_scalar(source_type) && is_real_scalar(target_type) {
        convert_real(source, target, path, env, context);
    } else if source_type == target_type {
        copy_value(source, target, path, context);
    } else if field_has_meaningful_value(source) {
        record_unsupported(
            context,
            path,
            concat4(
                "Cannot convert ",
                label_of_type(source_type),
                " to ",
                label_of_type(target_type),
            ),
        );
    }
}

fn take_animation_step(
    source: &TagStruct,
    target: &mut TagStruct,
    layout: &TagLayout,
    path: &str,
    env: &ConversionEnvironment,
    context: &mut ConversionContext,
) -> (r: Vec<String>)
    ensures
        (final(target)@, texts(r@), final(context)@) == animation_step(
            env@,
            layout@,
            source@,
            old(target)@,
            path@,
            old(context)@,
        ),
    decreases source@, 8nat, None::<nat>, 0nat,
{
    if inline_animation(source, path, env) {
        convert_local_animation_payload(source, target, layout, path, env, context)
    } else {
        no_texts()
    }
}

fn take_weapon_step(
    source: &TagStruct,
    target: &mut TagStruct,
    layout: &TagLayout,
    root: bool,
    env: &ConversionEnvironment,
    context: &mut ConversionContext,
) -> (r: Vec<String>)
    ensures
        (final(target)@, texts(r@), final(context)@) == weapon_step(
            env@,
            layout@,
            source@,
            old(target)@,
            root,
            old(context)@,
        ),
    decreases source@, 8nat, None::<nat>, 0nat,
{
    if root && eq_ignoring_case(env.group_name, "weapon") {
        convert_weapon_melee_layout(source, target, layout, env, context)
    } else {
        no_texts()
    }
}

fn take_effect_step(
    source: &TagStruct,
    target: &mut TagStruct,
    layout: &TagLayout,
    root: bool,
    env: &ConversionEnvironment,
    context: &mut ConversionContext,
) -> (r: Vec<String>)
    ensures
        (final(target)@, texts(r@), final(context)@) == effect_step(
            env@,
            layout@,
            source@,
            old(target)@,
            root,
            old(context)@,
        ),
    decreases source@, 8nat, None::<nat>, 0nat,
{
    if root && eq_ignoring_case(env.group_name, "effect") {
        convert_effect_looping_sound_layout(source, target, layout, env, context)
    } else {
        no_texts()
    }
}

fn take_vehicle_step(
    source: &TagStruct,
    target: &mut TagStruct,
    layout: &TagLayout,
    root: bool,
    env: &ConversionEnvironment,
    context: &mut ConversionContext,
) -> (r: Vec<String>)
    ensures
        (final(target)@, texts(r@), final(context)@) == vehicle_step(
            env@,
            layout@,
            source@,
            old(target)@,
            root,
            old(context)@,
        ),
    decreases source@, 8nat, None::<nat>, 0nat,
{
    if root && eq_ignoring_case(env.group_name, "vehicle") {
        convert_vehicle_physics_types(source, target, layout, env, context)
    } else {
        no_texts()
    }
}

fn take_damage_step(
    source: &TagStruct,
    target: &mut TagStruct,
    layout: &TagLayout,
    root: bool,
    env: &ConversionEnvironment,
    context: &mut ConversionContext,
) -> (r: Vec<String>)
    ensures
        (final(target)@, texts(r@), final(context)@) == damage_step(
            env@,
            layout@,
            source@,
            old(target)@,
            root,
            old(context)@,
        ),
    decreases source@, 8nat, None::<nat>, 0nat,
{
    if root && eq_ignoring_case(env.group_name, "damage_effect") {
        match convert_h3_player_responses_to_reach_companions(
            source,
            target,
            layout,
            env,
            context,
        ) {
            Ok(keys) => keys,
            Err(message) => {
                context.fatal_error = Some(message);
                no_texts()
            },
        }
    } else {
        no_texts()
    }
}

/// Brings across the layouts that the generations keep apart, and returns the
/// keys of the source fields that have gone elsewhere.
fn convert_layouts(
    source: &TagStruct,
    target: &mut TagStruct,
    layout: &TagLayout,
    path: &str,
    root: bool,
    env: &ConversionEnvironment,
    context: &mut ConversionContext,
) -> (r: Vec<String>)
    ensures
        (final(target)@, texts(r@), final(context)@) == conv_layouts(
            env@,
            layout@,
            source@,
            old(target)@,
            path@,
            root,
            old(context)@,
        ),
    decreases source@, 9nat, None::<nat>, 0nat,
{
    let mut moved: Vec<String> = take_animation_step(source, target, layout, path, env, context);
    let more: Vec<String> = take_weapon_step(source, target, layout, root, env, context);
    append_texts(&mut moved, more);
    let more: Vec<String> = take_effect_step(source, target, layout, root, env, context);
    append_texts(&mut moved, more);
    let more: Vec<String> = report_legacy_explicit_function(source, target, path, env, context);
    append_texts(&mut moved, more);
    let more: Vec<String> = take_vehicle_step(source, target, layout, root, env, context);
    append_texts(&mut moved, more);
    let more: Vec<String> = take_damage_step(source, target, layout, root, env, context);
    append_texts(&mut moved, more);
    moved
}

/// Converts the source struct into the target struct.
pub fn convert_struct(
    source: &TagStruct,
    target: &mut TagStruct,
    layout: &TagLayout,
    path: &str,
    root: bool,
    env: &ConversionEnvironment,
    context: &mut ConversionContext,
)
    ensures
        (final(target)@, final(context)@) == conv_struct(
            env@,
            layout@,
            source@,
            old(target)@,
            path@,
            root,
            old(context)@,
        ),
    decreases source@, 10nat, None::<nat>, 0nat,
{
    let ghost start = target@;
    let source_guid: [u8; 16] = source.guid();
    let same_guid = same_guids(&source_guid, &target.guid()) && !is_zero_guid(&source_guid);
    let verbatim = same_guid || struct_trees_are_wire_identical(
        env.source_layout,
        source.index(),
        layout,
        target.index(),
        WIRE_DEPTH,
    );
    let moved: Vec<String> = convert_layouts(source, target, layout, path, root, env, context);
    let ghost prepared = target@;
    let ghost before = context@;
    let mut used: Vec<bool> = none_used(target.len());
    let n: usize = source.len();
    let mut i: usize = 0;
    while i < n
        invariant
            i <= n,
            n == source@.fields.len(),
            used@.len() == target@.fields.len(),
            (target@, used@, context@) == conv_fields(
                env@,
                layout@,
                source@,
                prepared,
                path@,
                root,
                same_guid,
                verbatim,
                texts(moved@),
                i as nat,
                before,
            ),
        decreases n - i,
    {
        let field: &TagField = source.at(i);
        proof {
            field_is_inside(source@, i as int);
        }
        let key: String = clean_field_key(field.name());
        let field_path: String = path_to_field(path, field);
        match find_place(env, source, field, target, &used, same_guid) {
            None => {
                if !contains_text(&moved, &key) {
                    record_unmatched_field_values(field, &field_path, context);
                }
            },
            Some(k) => {
                if !same(&key, &clean_field_key(target.at(k).name())) {
                    context.count_alias();
                }
                if root {
                    context.count_root_match();
                }
                convert_field(
                    field,
                    target.at_mut(k),
                    layout,
                    &field_path,
                    verbatim,
                    env,
                    context,
                );
                used[k] = true;
            },
        }
        i = i + 1;
    }
    let defaulted: usize = count_defaults(target, &used);
    context.count_defaulted(defaulted);
}

}
