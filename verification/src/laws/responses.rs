//! The player responses of a damage effect: what each companion holds of them.
use crate::bytes::le_bytes;
use crate::convert::answers::EngineAnswersView;
use crate::convert::companions::{
    camera_converted, class_converted, classes_converted, companion_referred, constant_function,
    constant_mapped, copied_pairs, flash_converted, flash_pairs, impulse_keys, responses_referred,
    rumble_converted, rumble_made, section_converted, shake_keys, sound_converted, sound_made,
};
use crate::convert::defaults::nulled_struct;
use crate::convert::environment::EnvironmentView;
use crate::convert::layouts::{copied_key, copied_keys};
use crate::convert::matching::{field_keyed, keyed, struct_keyed};
use crate::convert::report::{CompanionView, ContextView};
use crate::convert::templates::companion;
use crate::convert::walk::conv_struct;
use crate::fields::{FieldValue, TagFieldType};
use crate::keys::field_key;
use crate::laws::keyed::{
    a_plain_name_is_its_own_key, a_plain_value_turns_into_itself,
    a_value_is_carried_from_key_to_key, can_go, carries, every_key_carries_its_value,
    every_pair_carries_its_value, has_taken_pairs, lemma_same_names, paired, plain_name,
    shaped_alike, targets_differ, the_first_field_of_a_key_is_found,
};
use crate::layout::LayoutView;
use crate::tag::{BlockView, ContentView, StructView, fresh_struct};
use crate::text::{begins, decimal};
use vstd::prelude::*;

verus! {

// ---------------------------------------------------------------------------
// The flash
// ---------------------------------------------------------------------------
proof fn lemma_flash_names()
    ensures
        plain_name("duration"@),
        plain_name("fade function"@),
        plain_name("center alpha"@),
        plain_name("offscreen alpha"@),
        plain_name("inner alpha"@),
        plain_name("outer alpha"@),
        plain_name("flash color"@),
        plain_name("arrow color"@),
{
    reveal_strlit("duration");
    reveal_strlit("fade function");
    reveal_strlit("center alpha");
    reveal_strlit("offscreen alpha");
    reveal_strlit("inner alpha");
    reveal_strlit("outer alpha");
    reveal_strlit("flash color");
    reveal_strlit("arrow color");
}

proof fn lemma_flash_targets()
    ensures
        targets_differ(flash_pairs()),
{
    lemma_flash_names();
    a_plain_name_is_its_own_key("duration"@);
    a_plain_name_is_its_own_key("fade function"@);
    a_plain_name_is_its_own_key("center alpha"@);
    a_plain_name_is_its_own_key("offscreen alpha"@);
    a_plain_name_is_its_own_key("inner alpha"@);
    a_plain_name_is_its_own_key("outer alpha"@);
    a_plain_name_is_its_own_key("flash color"@);
    a_plain_name_is_its_own_key("arrow color"@);
    reveal_strlit("duration");
    reveal_strlit("fade function");
    reveal_strlit("center alpha");
    reveal_strlit("offscreen alpha");
    reveal_strlit("inner alpha");
    reveal_strlit("outer alpha");
    reveal_strlit("flash color");
    reveal_strlit("arrow color");
    assert("duration"@.len() == 8);
    assert("fade function"@.len() == 13);
    assert("center alpha"@.len() == 12);
    assert("offscreen alpha"@.len() == 15);
    assert("inner alpha"@[0] == 'i');
    assert("outer alpha"@[0] == 'o');
    assert("flash color"@[0] == 'f');
    assert("arrow color"@[0] == 'a');
    assert("inner alpha"@.len() == 11);
    assert("outer alpha"@.len() == 11);
    assert("flash color"@.len() == 11);
    assert("arrow color"@.len() == 11);
}

/// Whether the field `target_key` of `flash` holds what the field `source_key` of
/// `screen` turns into: the same, where that can go as it is into the field as it was in
/// `before`.
pub open spec fn brings(
    env: EnvironmentView,
    layout: LayoutView,
    screen: StructView,
    source_key: Seq<char>,
    before: StructView,
    target_key: Seq<char>,
    flash: StructView,
) -> bool {
    &&& carries(env, layout, screen, source_key, before, target_key, flash)
    &&& can_go(screen, source_key, before, target_key) ==> {
        &&& field_keyed(flash, target_key) is Some
        &&& field_keyed(flash, target_key)->0.content == field_keyed(screen, source_key)->0.content
    }
}

/// Whether `flash`, which was `before`, shows what a screen flash shows: for as long, as
/// strong in its centre, off the screen, within and without, and in its colour.
pub open spec fn flashes_alike(
    env: EnvironmentView,
    layout: LayoutView,
    screen: StructView,
    before: StructView,
    flash: StructView,
) -> bool {
    &&& brings(env, layout, screen, "duration"@, before, "duration"@, flash)
    &&& brings(env, layout, screen, "fade function"@, before, "fade function"@, flash)
    &&& brings(env, layout, screen, "maximum intensity"@, before, "center alpha"@, flash)
    &&& brings(env, layout, screen, "maximum intensity"@, before, "offscreen alpha"@, flash)
    &&& brings(env, layout, screen, "maximum intensity"@, before, "inner alpha"@, flash)
    &&& brings(env, layout, screen, "maximum intensity"@, before, "outer alpha"@, flash)
    &&& brings(env, layout, screen, "color"@, before, "flash color"@, flash)
    &&& brings(env, layout, screen, "color"@, before, "arrow color"@, flash)
}

proof fn lemma_brings(
    env: EnvironmentView,
    layout: LayoutView,
    screen: StructView,
    before: StructView,
    flash: StructView,
    p: int,
    source_key: Seq<char>,
    target_key: Seq<char>,
)
    requires
        has_taken_pairs(env, layout, screen, before, flash_pairs(), flash_pairs().len(), flash),
        0 <= p < flash_pairs().len(),
        flash_pairs()[p] == (source_key, target_key),
    ensures
        brings(env, layout, screen, source_key, before, target_key, flash),
{
    assert(carries(
        env,
        layout,
        screen,
        flash_pairs()[p].0,
        before,
        flash_pairs()[p].1,
        flash,
    ));
    if can_go(screen, source_key, before, target_key) {
        a_plain_value_turns_into_itself(
            env,
            layout,
            field_keyed(screen, source_key)->0,
            field_keyed(before, target_key)->0,
            field_keyed(flash, target_key)->0,
        );
    }
}

proof fn lemma_flashes_alike(
    env: EnvironmentView,
    layout: LayoutView,
    screen: StructView,
    flash: StructView,
    r: StructView,
)
    requires
        has_taken_pairs(env, layout, screen, flash, flash_pairs(), flash_pairs().len(), r),
    ensures
        flashes_alike(env, layout, screen, flash, r),
{
    lemma_brings(env, layout, screen, flash, r, 0, "duration"@, "duration"@);
    lemma_brings(env, layout, screen, flash, r, 1, "fade function"@, "fade function"@);
    lemma_brings(env, layout, screen, flash, r, 2, "maximum intensity"@, "center alpha"@);
    lemma_brings(env, layout, screen, flash, r, 3, "maximum intensity"@, "offscreen alpha"@);
    lemma_brings(env, layout, screen, flash, r, 4, "maximum intensity"@, "inner alpha"@);
    lemma_brings(env, layout, screen, flash, r, 5, "maximum intensity"@, "outer alpha"@);
    lemma_brings(env, layout, screen, flash, r, 6, "color"@, "flash color"@);
    lemma_brings(env, layout, screen, flash, r, 7, "color"@, "arrow color"@);
}

/// Whether `r` is `t` in all but the field of one key.
pub open spec fn differs_only_at(r: StructView, t: StructView, key: Seq<char>) -> bool {
    &&& shaped_alike(r, t)
    &&& forall|j: int|
        0 <= j < t.fields.len() && field_key(t.fields[j].name) != field_key(key)
            ==> #[trigger] r.fields[j] == t.fields[j]
}

pub proof fn lemma_nested_set(t: StructView, key: Seq<char>, k: int, own: StructView)
    requires
        keyed(t, key) == Some(k as nat),
        k >= 0,
    ensures
        k < t.fields.len(),
        struct_keyed(t.with_nested(k, own), key) == Some(own),
        differs_only_at(t.with_nested(k, own), t, key),
{
    the_first_field_of_a_key_is_found(t, key);
    let after = t.with_nested(k, own);
    assert forall|j: int| 0 <= j < after.fields.len() implies (#[trigger] after.fields[j]).name
        == t.fields[j].name by {}
    lemma_same_names(after, t, key);
}

proof fn lemma_flash_step(
    env: EnvironmentView,
    layout: LayoutView,
    s: StructView,
    t: StructView,
    c: ContextView,
    screen: StructView,
    flash: StructView,
)
    requires
        struct_keyed(s, "screen flash"@) == Some(screen),
        struct_keyed(t, "directional flash"@) == Some(flash),
    ensures
        flash_converted(env, layout, s, t, c).0 == t.with_nested(
            keyed(t, "directional flash"@)->0 as int,
            copied_pairs(
                env,
                layout,
                screen,
                flash,
                flash_pairs(),
                flash_pairs().len(),
                c,
            ).0,
        ),
{
    the_first_field_of_a_key_is_found(s, "screen flash"@);
}

/// After a screen flash is converted into a directional flash, the flash lasts as long
/// as the source's `duration`, its four alphas are each the source's `maximum
/// intensity`, and its two colours are the source's `color`, wherever both sides hold
/// plain values of one type. Nothing else of the class changes.
pub proof fn a_flash_keeps_its_duration_and_its_intensity(
    env: EnvironmentView,
    layout: LayoutView,
    s: StructView,
    t: StructView,
    c: ContextView,
    screen: StructView,
    flash: StructView,
)
    requires
        struct_keyed(s, "screen flash"@) == Some(screen),
        struct_keyed(t, "directional flash"@) == Some(flash),
    ensures
        struct_keyed(
            flash_converted(env, layout, s, t, c).0,
            "directional flash"@,
        ) matches Some(r) && flashes_alike(env, layout, screen, flash, r),
        differs_only_at(flash_converted(env, layout, s, t, c).0, t, "directional flash"@),
{
    lemma_flash_targets();
    let pairs = flash_pairs();
    let r = copied_pairs(env, layout, screen, flash, pairs, pairs.len(), c).0;
    let k = keyed(t, "directional flash"@)->0 as int;
    assert(has_taken_pairs(env, layout, screen, flash, pairs, pairs.len(), r)) by {
        every_pair_carries_its_value(env, layout, screen, flash, pairs, pairs.len(), c);
    }
    lemma_flash_step(env, layout, s, t, c, screen, flash);
    lemma_flashes_alike(env, layout, screen, flash, r);
    lemma_nested_set(t, "directional flash"@, k, r);
}

/// A field of another key reads as it did.
pub proof fn lemma_other_key(r: StructView, t: StructView, key: Seq<char>, other: Seq<char>)
    requires
        differs_only_at(r, t, key),
        field_key(other) != field_key(key),
    ensures
        field_keyed(r, other) == field_keyed(t, other),
        keyed(r, other) == keyed(t, other),
{
    assert forall|j: int| 0 <= j < r.fields.len() implies (#[trigger] r.fields[j]).name
        == t.fields[j].name by {}
    lemma_same_names(r, t, other);
    the_first_field_of_a_key_is_found(t, other);
}

// ---------------------------------------------------------------------------
// The references to companions
// ---------------------------------------------------------------------------
/// A reference to a companion stands under the given key, names the companion by its
/// key, and is of the companion's group. Nothing else of the struct changes.
pub proof fn a_companion_is_referred_to_by_its_key(
    env: EnvironmentView,
    t: StructView,
    target_key: Seq<char>,
    companion_key: Seq<char>,
)
    requires
        companion_referred(env, t, target_key, companion_key) is Ok,
    ensures
        differs_only_at(
            companion_referred(env, t, target_key, companion_key)->Ok_0,
            t,
            target_key,
        ),
        field_keyed(
            companion_referred(env, t, target_key, companion_key)->Ok_0,
            target_key,
        ) matches Some(f) && (f.content matches ContentView::Value(v) && (v matches FieldValue::Reference(
            held,
        ) && (held matches Some((group, path)) && path == "__baboon_companion__/"@ + companion_key
            && {
            &&& companion_key == "response"@ ==> env.target.groups@.tag_of(
                "damage_response_definition"@,
            ) == Some(group)
            &&& companion_key == "camera"@ ==> env.target.groups@.tag_of("camera_shake"@) == Some(
                group,
            )
            &&& begins(companion_key, "rumble_"@) ==> env.target.groups@.tag_of("rumble"@) == Some(
                group,
            )
        }))),
{
    reveal_strlit("response");
    reveal_strlit("camera");
    reveal_strlit("rumble_");
    assert("response"@.len() == 8 && "camera"@.len() == 6 && "rumble_"@.len() == 7);
    assert("response"@[1] == 'e');
    assert("rumble_"@[1] == 'u');
    if begins(companion_key, "rumble_"@) {
        assert(companion_key.take(7)[1] == 'u');
    }
    the_first_field_of_a_key_is_found(t, target_key);
    let r = companion_referred(env, t, target_key, companion_key)->Ok_0;
    assert forall|j: int| 0 <= j < r.fields.len() implies (#[trigger] r.fields[j]).name
        == t.fields[j].name by {}
    lemma_same_names(r, t, target_key);
}

/// A damage effect whose responses were brought into companions refers to its response
/// companion under `damage response`, and keeps the response first and the camera, where
/// there is one, behind it.
pub proof fn a_damage_effect_refers_to_its_response(
    env: EnvironmentView,
    t: StructView,
    camera: Option<CompanionView>,
    response: CompanionView,
    c: ContextView,
)
    requires
        responses_referred(env, t, camera, response, c).2 is Ok,
    ensures
        field_keyed(
            responses_referred(env, t, camera, response, c).0,
            "damage response"@,
        ) matches Some(f) && (f.content matches ContentView::Value(v) && (v matches FieldValue::Reference(
            held,
        ) && (held matches Some((group, path)) && path == "__baboon_companion__/"@ + "response"@
            && env.target.groups@.tag_of("damage_response_definition"@) == Some(group)))),
        responses_referred(env, t, camera, response, c).1.companions == c.companions + match camera {
            Some(d) => seq![response, d],
            None => seq![response],
        },
{
    a_companion_is_referred_to_by_its_key(env, t, "damage response"@, "response"@);
    let r = responses_referred(env, t, camera, response, c).1;
    match camera {
        Some(d) => {
            assert(r.companions =~= c.companions + seq![response, d]);
        },
        None => {
            assert(r.companions =~= c.companions + seq![response]);
        },
    }
}

// ---------------------------------------------------------------------------
// Constants
// ---------------------------------------------------------------------------
/// The bytes of a constant function are thirty-two: the kind of function, its flag, two
/// zeros, the number from which it rises and the number to which it rises, which are the
/// same, lowest byte first, and zeros.
pub proof fn a_constant_function_says_its_number_twice(answers: EngineAnswersView, bits: u32)
    ensures
        constant_function(answers, bits).len() == 32,
        constant_function(answers, bits)[0] == answers.constant_function,
        constant_function(answers, bits)[1] == answers.gpu_flag,
        constant_function(answers, bits)[2] == 0,
        constant_function(answers, bits)[3] == 0,
        constant_function(answers, bits).subrange(4, 8) == le_bytes(bits),
        constant_function(answers, bits).subrange(8, 12) == le_bytes(bits),
        forall|i: int| 12 <= i < 32 ==> #[trigger] constant_function(answers, bits)[i] == 0,
{
    let b = constant_function(answers, bits);
    assert(b.subrange(4, 8) =~= le_bytes(bits));
    assert(b.subrange(8, 12) =~= le_bytes(bits));
}

/// A mapping that was set to a constant holds the bytes of that constant, under the given
/// key and nowhere else.
pub proof fn a_mapping_is_set_to_its_constant(
    answers: EngineAnswersView,
    t: StructView,
    key: Seq<char>,
    bits: u32,
    mapping: StructView,
)
    requires
        struct_keyed(t, key) == Some(mapping),
        field_keyed(mapping, "data"@) matches Some(f) && f.field_type == TagFieldType::Data,
    ensures
        constant_mapped(answers, t, key, bits) matches Ok(r) && differs_only_at(r, t, key) && (
        struct_keyed(r, key) matches Some(m) && (field_keyed(m, "data"@) matches Some(f)
            && f.content == ContentView::Value(
            FieldValue::Bytes { kind: TagFieldType::Data, bytes: constant_function(answers, bits) },
        ))),
{
    the_first_field_of_a_key_is_found(t, key);
    the_first_field_of_a_key_is_found(mapping, "data"@);
    let r = constant_mapped(answers, t, key, bits)->Ok_0;
    let k = keyed(t, key)->0 as int;
    let d = keyed(mapping, "data"@)->0 as int;
    let mapping1 = StructView {
        fields: mapping.fields.update(
            d,
            mapping.fields[d].with_value(
                FieldValue::Bytes {
                    kind: TagFieldType::Data,
                    bytes: constant_function(answers, bits),
                },
            ),
        ),
        ..mapping
    };
    assert forall|j: int| 0 <= j < mapping1.fields.len() implies (#[trigger] mapping1.fields[j]).name
        == mapping.fields[j].name by {}
    lemma_same_names(mapping1, mapping, "data"@);
    assert(r == t.with_nested(k, mapping1));
    lemma_nested_set(t, key, k, mapping1);
}

// ---------------------------------------------------------------------------
// The camera
// ---------------------------------------------------------------------------
proof fn lemma_camera_keys()
    ensures
        targets_differ(paired(impulse_keys())),
        targets_differ(paired(shake_keys())),
        field_key("camera impulse"@) != field_key("camera shake"@),
{
    reveal_strlit("impulse duration");
    reveal_strlit("rotation");
    reveal_strlit("pushback");
    reveal_strlit("jitter");
    reveal_strlit("shake duration");
    reveal_strlit("random translation");
    reveal_strlit("random rotation");
    reveal_strlit("wobble function period");
    reveal_strlit("wobble weight");
    reveal_strlit("wobble function");
    reveal_strlit("camera impulse");
    reveal_strlit("camera shake");
    a_plain_name_is_its_own_key("impulse duration"@);
    a_plain_name_is_its_own_key("rotation"@);
    a_plain_name_is_its_own_key("pushback"@);
    a_plain_name_is_its_own_key("jitter"@);
    a_plain_name_is_its_own_key("shake duration"@);
    a_plain_name_is_its_own_key("random translation"@);
    a_plain_name_is_its_own_key("random rotation"@);
    a_plain_name_is_its_own_key("wobble function period"@);
    a_plain_name_is_its_own_key("wobble weight"@);
    a_plain_name_is_its_own_key("wobble function"@);
    a_plain_name_is_its_own_key("camera impulse"@);
    a_plain_name_is_its_own_key("camera shake"@);
    assert("impulse duration"@.len() == 16);
    assert("rotation"@.len() == 8 && "rotation"@[0] == 'r');
    assert("pushback"@.len() == 8 && "pushback"@[0] == 'p');
    assert("jitter"@.len() == 6);
    assert("shake duration"@.len() == 14);
    assert("random translation"@.len() == 18);
    assert("random rotation"@.len() == 15 && "random rotation"@[0] == 'r');
    assert("wobble function period"@.len() == 22);
    assert("wobble weight"@.len() == 13);
    assert("wobble function"@.len() == 15 && "wobble function"@[0] == 'w');
    assert("camera impulse"@.len() == 14);
    assert("camera shake"@.len() == 12);
}

proof fn lemma_section(
    env: EnvironmentView,
    layout: LayoutView,
    s: StructView,
    root: StructView,
    section: Seq<char>,
    keys: Seq<Seq<char>>,
    c: ContextView,
    own: StructView,
)
    requires
        struct_keyed(root, section) == Some(own),
        targets_differ(paired(keys)),
    ensures
        struct_keyed(
            section_converted(env, layout, s, root, section, keys, c).0,
            section,
        ) matches Some(r) && has_taken_pairs(env, layout, s, own, paired(keys), keys.len(), r),
        differs_only_at(
            section_converted(env, layout, s, root, section, keys, c).0,
            root,
            section,
        ),
{
    let none = Seq::<char>::empty();
    let r = copied_keys(env, layout, s, own, keys, none, keys.len(), c).0;
    assert(has_taken_pairs(env, layout, s, own, paired(keys), keys.len(), r)) by {
        every_key_carries_its_value(env, layout, s, own, keys, none, keys.len(), c);
    }
    let k = keyed(root, section)->0 as int;
    assert(section_converted(env, layout, s, root, section, keys, c).0 == root.with_nested(k, r));
    lemma_nested_set(root, section, k, r);
}

proof fn lemma_key_brought(
    env: EnvironmentView,
    layout: LayoutView,
    s: StructView,
    before: StructView,
    keys: Seq<Seq<char>>,
    r: StructView,
    p: int,
    key: Seq<char>,
)
    requires
        has_taken_pairs(env, layout, s, before, paired(keys), keys.len(), r),
        0 <= p < keys.len(),
        keys[p] == key,
    ensures
        brings(env, layout, s, key, before, key, r),
{
    assert(carries(env, layout, s, paired(keys)[p].0, before, paired(keys)[p].1, r));
    if can_go(s, key, before, key) {
        a_plain_value_turns_into_itself(
            env,
            layout,
            field_keyed(s, key)->0,
            field_keyed(before, key)->0,
            field_keyed(r, key)->0,
        );
    }
}

/// Whether `r`, which was `before`, holds the impulse of the damage effect `s`.
pub open spec fn pushes_alike(
    env: EnvironmentView,
    layout: LayoutView,
    s: StructView,
    before: StructView,
    r: StructView,
) -> bool {
    &&& brings(env, layout, s, "impulse duration"@, before, "impulse duration"@, r)
    &&& brings(env, layout, s, "rotation"@, before, "rotation"@, r)
    &&& brings(env, layout, s, "pushback"@, before, "pushback"@, r)
    &&& brings(env, layout, s, "jitter"@, before, "jitter"@, r)
}

/// Whether `r`, which was `before`, holds the shake of the damage effect `s`.
pub open spec fn shakes_alike(
    env: EnvironmentView,
    layout: LayoutView,
    s: StructView,
    before: StructView,
    r: StructView,
) -> bool {
    &&& brings(env, layout, s, "shake duration"@, before, "shake duration"@, r)
    &&& brings(env, layout, s, "random translation"@, before, "random translation"@, r)
    &&& brings(env, layout, s, "random rotation"@, before, "random rotation"@, r)
    &&& brings(env, layout, s, "wobble function period"@, before, "wobble function period"@, r)
    &&& brings(env, layout, s, "wobble weight"@, before, "wobble weight"@, r)
    &&& brings(env, layout, s, "wobble function"@, before, "wobble function"@, r)
}

proof fn lemma_pushes_alike(
    env: EnvironmentView,
    layout: LayoutView,
    s: StructView,
    before: StructView,
    r: StructView,
)
    requires
        has_taken_pairs(env, layout, s, before, paired(impulse_keys()), impulse_keys().len(), r),
    ensures
        pushes_alike(env, layout, s, before, r),
{
    lemma_key_brought(env, layout, s, before, impulse_keys(), r, 0, "impulse duration"@);
    lemma_key_brought(env, layout, s, before, impulse_keys(), r, 1, "rotation"@);
    lemma_key_brought(env, layout, s, before, impulse_keys(), r, 2, "pushback"@);
    lemma_key_brought(env, layout, s, before, impulse_keys(), r, 3, "jitter"@);
}

proof fn lemma_shakes_alike(
    env: EnvironmentView,
    layout: LayoutView,
    s: StructView,
    before: StructView,
    r: StructView,
)
    requires
        has_taken_pairs(env, layout, s, before, paired(shake_keys()), shake_keys().len(), r),
    ensures
        shakes_alike(env, layout, s, before, r),
{
    lemma_key_brought(env, layout, s, before, shake_keys(), r, 0, "shake duration"@);
    lemma_key_brought(env, layout, s, before, shake_keys(), r, 1, "random translation"@);
    lemma_key_brought(env, layout, s, before, shake_keys(), r, 2, "random rotation"@);
    lemma_key_brought(env, layout, s, before, shake_keys(), r, 3, "wobble function period"@);
    lemma_key_brought(env, layout, s, before, shake_keys(), r, 4, "wobble weight"@);
    lemma_key_brought(env, layout, s, before, shake_keys(), r, 5, "wobble function"@);
}

proof fn lemma_camera_step(
    env: EnvironmentView,
    layout: LayoutView,
    s: StructView,
    root: StructView,
    c: ContextView,
) -> (r: (StructView, ContextView))
    ensures
        r == section_converted(env, layout, s, root, "camera impulse"@, impulse_keys(), c),
        camera_converted(env, layout, s, root, c).0 == section_converted(
            env,
            layout,
            s,
            r.0,
            "camera shake"@,
            shake_keys(),
            r.1,
        ).0,
{
    section_converted(env, layout, s, root, "camera impulse"@, impulse_keys(), c)
}

/// The camera companion of a damage effect holds, in its `camera impulse` and its `camera
/// shake`, each number under the name that the damage effect holds it under.
pub proof fn a_camera_keeps_its_impulse_and_its_shake(
    env: EnvironmentView,
    layout: LayoutView,
    s: StructView,
    root: StructView,
    c: ContextView,
    impulse: StructView,
    shake: StructView,
)
    requires
        struct_keyed(root, "camera impulse"@) == Some(impulse),
        struct_keyed(root, "camera shake"@) == Some(shake),
    ensures
        struct_keyed(camera_converted(env, layout, s, root, c).0, "camera impulse"@) matches Some(r)
            && pushes_alike(env, layout, s, impulse, r),
        struct_keyed(camera_converted(env, layout, s, root, c).0, "camera shake"@) matches Some(r)
            && shakes_alike(env, layout, s, shake, r),
{
    let (r1, c1) = lemma_camera_step(env, layout, s, root, c);
    let r2 = camera_converted(env, layout, s, root, c).0;
    assert(field_key("camera impulse"@) != field_key("camera shake"@) && targets_differ(
        paired(impulse_keys()),
    ) && targets_differ(paired(shake_keys()))) by {
        lemma_camera_keys();
    }
    lemma_section(env, layout, s, root, "camera impulse"@, impulse_keys(), c, impulse);
    lemma_other_key(r1, root, "camera impulse"@, "camera shake"@);
    lemma_section(env, layout, s, r1, "camera shake"@, shake_keys(), c1, shake);
    lemma_other_key(r2, r1, "camera shake"@, "camera impulse"@);
    lemma_pushes_alike(env, layout, s, impulse, struct_keyed(r1, "camera impulse"@)->0);
    lemma_shakes_alike(env, layout, s, shake, struct_keyed(r2, "camera shake"@)->0);
}

// ---------------------------------------------------------------------------
// The classes
// ---------------------------------------------------------------------------
/// Whether `e` is what the response `s` becomes, as the class at `index`.
#[verifier::opaque]
pub open spec fn is_class_of(
    env: EnvironmentView,
    layout: LayoutView,
    s: StructView,
    fresh: StructView,
    index: nat,
    has_camera: bool,
    e: StructView,
) -> bool {
    exists|c: ContextView|
        (#[trigger] class_converted(env, layout, s, fresh, index, has_camera, c)).0 == e
}

/// Where no response fails, each becomes a class of its own, in their order: the class at
/// `i` of those added is what the response at `i` becomes.
pub proof fn every_response_becomes_its_own_class(
    env: EnvironmentView,
    layout: LayoutView,
    responses: Seq<StructView>,
    b: BlockView,
    has_camera: bool,
    n: nat,
    c: ContextView,
)
    requires
        n <= responses.len(),
        b.struct_index < layout.structs.len(),
        classes_converted(env, layout, responses, b, has_camera, n, c).2 is None,
    ensures
        ({
            let r = classes_converted(env, layout, responses, b, has_camera, n, c).0;
            &&& r == (BlockView { elements: r.elements, ..b })
            &&& r.elements.len() == b.elements.len() + n
            &&& forall|i: int|
                0 <= i < b.elements.len() ==> #[trigger] r.elements[i] == b.elements[i]
            &&& forall|i: int|
                #![trigger responses[i]]
                0 <= i < n ==> is_class_of(
                    env,
                    layout,
                    responses[i],
                    nulled_struct(fresh_struct(layout, b.struct_index)),
                    i as nat,
                    has_camera,
                    r.elements[b.elements.len() + i],
                )
        }),
    decreases n,
{
    if n > 0 {
        let m = (n - 1) as nat;
        let fresh = fresh_struct(layout, b.struct_index);
        let (b1, e) = lemma_class_added(env, layout, responses, b, has_camera, n, c);
        every_response_becomes_its_own_class(env, layout, responses, b, has_camera, m, c);
        let r = classes_converted(env, layout, responses, b, has_camera, n, c).0;
        assert(b1.grown(layout).elements =~= b1.elements.push(fresh));
        assert forall|i: int| #![trigger responses[i]] 0 <= i < n implies is_class_of(
            env,
            layout,
            responses[i],
            nulled_struct(fresh),
            i as nat,
            has_camera,
            r.elements[b.elements.len() + i],
        ) by {
            if i < n - 1 {
                assert(r.elements[b.elements.len() + i] == b1.elements[b.elements.len() + i]);
            }
        }
    }
}

proof fn lemma_class_added(
    env: EnvironmentView,
    layout: LayoutView,
    responses: Seq<StructView>,
    b: BlockView,
    has_camera: bool,
    n: nat,
    c: ContextView,
) -> (r: (BlockView, StructView))
    requires
        0 < n <= responses.len(),
        classes_converted(env, layout, responses, b, has_camera, n, c).2 is None,
    ensures
        r.0 == classes_converted(env, layout, responses, b, has_camera, (n - 1) as nat, c).0,
        classes_converted(env, layout, responses, b, has_camera, (n - 1) as nat, c).2 is None,
        ({
            let g = r.0.grown(layout);
            let at = r.0.elements.len() as int;
            &&& at < g.elements.len()
            &&& classes_converted(env, layout, responses, b, has_camera, n, c).0 == (BlockView {
                elements: g.elements.update(at, r.1),
                ..g
            })
            &&& is_class_of(
                env,
                layout,
                responses[n - 1],
                nulled_struct(g.elements[at]),
                (n - 1) as nat,
                has_camera,
                r.1,
            )
        }),
{
    reveal(is_class_of);
    let (b1, c1, _) = classes_converted(env, layout, responses, b, has_camera, (n - 1) as nat, c);
    let g = b1.grown(layout);
    let e = class_converted(
        env,
        layout,
        responses[n - 1],
        nulled_struct(g.elements[b1.elements.len() as int]),
        (n - 1) as nat,
        has_camera,
        c1,
    ).0;
    (b1, e)
}

// ---------------------------------------------------------------------------
// One class
// ---------------------------------------------------------------------------
proof fn lemma_class_keys()
    ensures
        field_key("directional flash"@) != field_key("type"@),
        field_key("directional flash"@) != field_key("rumble"@),
        field_key("directional flash"@) != field_key("camera shake"@),
        field_key("directional flash"@) != field_key("global sound effect"@),
        field_key("rumble"@) != field_key("camera shake"@),
        field_key("rumble"@) != field_key("global sound effect"@),
        field_key("camera shake"@) != field_key("global sound effect"@),
        field_key("type"@) != field_key("rumble"@),
        field_key("type"@) != field_key("camera shake"@),
        field_key("type"@) != field_key("global sound effect"@),
{
    reveal_strlit("directional flash");
    reveal_strlit("type");
    reveal_strlit("rumble");
    reveal_strlit("camera shake");
    reveal_strlit("global sound effect");
    a_plain_name_is_its_own_key("directional flash"@);
    a_plain_name_is_its_own_key("type"@);
    a_plain_name_is_its_own_key("rumble"@);
    a_plain_name_is_its_own_key("camera shake"@);
    a_plain_name_is_its_own_key("global sound effect"@);
    assert("directional flash"@.len() == 17);
    assert("type"@.len() == 4);
    assert("rumble"@.len() == 6);
    assert("camera shake"@.len() == 12);
    assert("global sound effect"@.len() == 19);
}

proof fn lemma_unchanged(t: StructView, key: Seq<char>)
    ensures
        differs_only_at(t, t, key),
{
}

proof fn lemma_rumble_step(
    env: EnvironmentView,
    s: StructView,
    t: StructView,
    index: nat,
    c: ContextView,
)
    ensures
        differs_only_at(rumble_converted(env, s, t, index, c).0, t, "rumble"@),
{
    lemma_unchanged(t, "rumble"@);
    let key = "rumble_"@ + decimal(index);
    if companion_referred(env, t, "rumble"@, key) is Ok {
        a_companion_is_referred_to_by_its_key(env, t, "rumble"@, key);
    }
    if let Some(i) = keyed(s, "rumble"@) {
        if i < s.fields.len() {
            if let ContentView::Struct(rumble) = s.fields[i as int].content {
                lemma_rumble_made(env, rumble, t, index, c);
            }
        }
    }
}

proof fn lemma_rumble_made(
    env: EnvironmentView,
    rumble: StructView,
    t: StructView,
    index: nat,
    c: ContextView,
)
    ensures
        rumble_made(env, rumble, t, index, c).0 == t || companion_referred(
            env,
            t,
            "rumble"@,
            "rumble_"@ + decimal(index),
        ) == Ok::<StructView, Seq<char>>(rumble_made(env, rumble, t, index, c).0),
{
}

proof fn lemma_sound_step(
    env: EnvironmentView,
    layout: LayoutView,
    s: StructView,
    t: StructView,
    c: ContextView,
)
    ensures
        differs_only_at(sound_converted(env, layout, s, t, c).0, t, "global sound effect"@),
{
    lemma_unchanged(t, "global sound effect"@);
    the_first_field_of_a_key_is_found(t, "global sound effect"@);
    if let Some(k) = keyed(t, "global sound effect"@) {
        let r = sound_converted(env, layout, s, t, c).0;
        if r != t {
            let b = lemma_sound_set(env, layout, s, t, c, k);
            assert forall|j: int| 0 <= j < r.fields.len() implies (#[trigger] r.fields[j]).name
                == t.fields[j].name by {}
        }
    }
}

proof fn lemma_sound_set(
    env: EnvironmentView,
    layout: LayoutView,
    s: StructView,
    t: StructView,
    c: ContextView,
    k: nat,
) -> (b: BlockView)
    requires
        keyed(t, "global sound effect"@) == Some(k),
        sound_converted(env, layout, s, t, c).0 != t,
    ensures
        sound_converted(env, layout, s, t, c).0 == t.with_block(k as int, b),
{
    let i = keyed(s, "sound effect"@)->0;
    let sound = s.fields[i as int].content->Struct_0;
    sound_made(env, layout, sound, t.fields[k as int].content->Block_0, c).0
}

/// The steps in which a class is filled, each of which changes one field.
proof fn lemma_class_steps(
    env: EnvironmentView,
    layout: LayoutView,
    s: StructView,
    t: StructView,
    index: nat,
    has_camera: bool,
    c: ContextView,
) -> (r: (StructView, StructView, ContextView, StructView, StructView))
    ensures
        r.0 == copied_key(env, layout, s, "response type"@, t, "type"@, "type"@, c).0,
        r.1 == flash_converted(env, layout, s, r.0, r.2).0,
        differs_only_at(r.3, r.1, "rumble"@),
        differs_only_at(r.4, r.3, "camera shake"@),
        differs_only_at(
            class_converted(env, layout, s, t, index, has_camera, c).0,
            r.4,
            "global sound effect"@,
        ),
        class_converted(env, layout, s, t, index, has_camera, c).2 is None && has_camera
            ==> companion_referred(env, r.3, "camera shake"@, "camera"@) == Ok::<
            StructView,
            Seq<char>,
        >(r.4),
{
    let (t1, c1) = copied_key(env, layout, s, "response type"@, t, "type"@, "type"@, c);
    let (t2, c2) = flash_converted(env, layout, s, t1, c1);
    let (t3, c3, fault) = rumble_converted(env, s, t2, index, c2);
    lemma_rumble_step(env, s, t2, index, c2);
    lemma_unchanged(t3, "camera shake"@);
    let referred = companion_referred(env, t3, "camera shake"@, "camera"@);
    let t4 = if fault is None && has_camera && referred is Ok {
        referred->Ok_0
    } else {
        t3
    };
    if referred is Ok {
        a_companion_is_referred_to_by_its_key(env, t3, "camera shake"@, "camera"@);
    }
    lemma_unchanged(t4, "global sound effect"@);
    lemma_sound_step(env, layout, s, t4, c3);
    (t1, t2, c1, t3, t4)
}

/// A class flashes as its own response does: what the flash of the class holds is what the
/// screen flash of that response holds, whatever else the class was filled with.
pub proof fn a_class_flashes_as_its_response_does(
    env: EnvironmentView,
    layout: LayoutView,
    s: StructView,
    t: StructView,
    index: nat,
    has_camera: bool,
    c: ContextView,
    screen: StructView,
    flash: StructView,
)
    requires
        struct_keyed(s, "screen flash"@) == Some(screen),
        struct_keyed(t, "directional flash"@) == Some(flash),
    ensures
        struct_keyed(
            class_converted(env, layout, s, t, index, has_camera, c).0,
            "directional flash"@,
        ) matches Some(r) && flashes_alike(env, layout, screen, flash, r),
{
    lemma_class_keys();
    let (t1, t2, c1, t3, t4) = lemma_class_steps(env, layout, s, t, index, has_camera, c);
    let t5 = class_converted(env, layout, s, t, index, has_camera, c).0;
    a_value_is_carried_from_key_to_key(
        env,
        layout,
        s,
        "response type"@,
        t,
        "type"@,
        "type"@,
        c,
    );
    assert(differs_only_at(t1, t, "type"@));
    lemma_other_key(t1, t, "type"@, "directional flash"@);
    a_flash_keeps_its_duration_and_its_intensity(env, layout, s, t1, c1, screen, flash);
    lemma_other_key(t3, t2, "rumble"@, "directional flash"@);
    lemma_other_key(t4, t3, "camera shake"@, "directional flash"@);
    lemma_other_key(t5, t4, "global sound effect"@, "directional flash"@);
}

/// The rumble of a response goes into a companion of its own, which the class at `index`
/// names by that number, and which holds what the rumble is converted into.
pub proof fn a_class_names_its_own_rumble(
    env: EnvironmentView,
    rumble: StructView,
    t: StructView,
    index: nat,
    c: ContextView,
    own: StructView,
)
    requires
        rumble_made(env, rumble, t, index, c).2 is None,
        companion(
            env,
            "rumble_"@ + decimal(index),
            "__rumble_"@ + decimal(index),
            "rumble"@,
        ) matches Ok(draft) && struct_keyed(draft.tag.root, "rumble"@) == Some(own),
    ensures
        field_keyed(rumble_made(env, rumble, t, index, c).0, "rumble"@) matches Some(f) && (
        f.content matches ContentView::Value(v) && (v matches FieldValue::Reference(held) && (
        held matches Some((group, path)) && path == "__baboon_companion__/"@ + ("rumble_"@
            + decimal(index)) && env.target.groups@.tag_of("rumble"@) == Some(group)))),
        rumble_made(env, rumble, t, index, c).1.companions.len() > 0,
        ({
            let d = rumble_made(env, rumble, t, index, c).1.companions.last();
            &&& d.key == "rumble_"@ + decimal(index)
            &&& d.group_name == "rumble"@
            &&& struct_keyed(d.tag.root, "rumble"@) matches Some(r) && exists|layout: LayoutView|
                (#[trigger] conv_struct(
                    env,
                    layout,
                    rumble,
                    own,
                    "player responses/rumble"@,
                    false,
                    c,
                )).0 == r
        }),
{
    let key = "rumble_"@ + decimal(index);
    let draft = companion(env, key, "__rumble_"@ + decimal(index), "rumble"@)->Ok_0;
    let k = keyed(draft.tag.root, "rumble"@)->0 as int;
    a_companion_is_referred_to_by_its_key(env, t, "rumble"@, key);
    assert(begins(key, "rumble_"@)) by {
        assert(key.take("rumble_"@.len() as int) =~= "rumble_"@);
    }
    let r = conv_struct(
        env,
        draft.tag.layout,
        rumble,
        own,
        "player responses/rumble"@,
        false,
        c,
    ).0;
    lemma_nested_set(draft.tag.root, "rumble"@, k, r);
}

}
