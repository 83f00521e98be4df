//! Companion tags: what one generation keeps inline and another in tags of their
//! own.
use crate::bytes::{le_bytes, push_le};
use crate::convert::answers::{EngineAnswers, EngineAnswersView};
use crate::convert::defaults::{ended_with, initialize_block_index_defaults, nulled_struct};
use crate::convert::environment::{ConversionEnvironment, EnvironmentView};
use crate::convert::layouts::{copied_key, copied_keys, copy_named_field, copy_named_fields};
use crate::convert::matching::{
    block_field_by_key, field_by_key, field_keyed, field_ordinal_by_key, keyed, lemma_keyed,
    struct_field_by_key,
};
use crate::convert::report::{
    CompanionTagDraft, CompanionView, ContextView, ConversionContext, ConversionIssueKind,
    companion_views,
};
use crate::convert::schema::pair_views;
use crate::convert::templates::{companion, companion_result, create_companion_tag};
use crate::convert::values::{
    field_has_meaningful_value, field_meaningful, struct_has_meaningful_value, struct_meaningful,
};
use crate::convert::walk::{conv_struct, convert_struct, fitting};
use crate::fields::{FieldValue, TagFieldData, TagFieldType, TagReferenceData, zero_bytes};
use crate::file::FileView;
use crate::layout::{LayoutView, TagLayout};
use crate::tag::{BlockView, ContentView, FieldView, StructView, TagBlock, TagSetError, TagStruct};
use crate::text::{
    begins, concat2, concat3, concat4, concat5, copy, decimal, decimal_text, no_texts, same,
    starts_with, texts,
};
use vstd::prelude::*;

verus! {

/// What the path of a reference to a companion begins with until the companion
/// has a place of its own.
pub const COMPANION_REFERENCE_PREFIX: &'static str = "__baboon_companion__/";

/// The group of a companion by its key.
pub open spec fn companion_group(key: Seq<char>) -> Option<Seq<char>> {
    if key == "response"@ {
        Some("damage_response_definition"@)
    } else if key == "camera"@ {
        Some("camera_shake"@)
    } else if begins(key, "rumble_"@) {
        Some("rumble"@)
    } else {
        None
    }
}

/// A struct with a reference to a companion in the field with the key `key`, or
/// why there is none.
pub open spec fn companion_referred(
    env: EnvironmentView,
    t: StructView,
    target_key: Seq<char>,
    companion_key: Seq<char>,
) -> Result<StructView, Seq<char>> {
    match companion_group(companion_key) {
        None => Err("Unknown companion reference "@ + companion_key),
        Some(group_name) => match env.target.groups@.tag_of(group_name) {
            None => Err(env.target_game + " has no "@ + group_name + " group"@),
            Some(group) => match keyed(t, target_key) {
                None => Err("Target companion layout has no "@ + target_key + " field"@),
                Some(k) => if t.fields[k as int].field_type == TagFieldType::TagReference {
                    Ok(
                        StructView {
                            fields: t.fields.update(
                                k as int,
                                t.fields[k as int].with_value(
                                    FieldValue::Reference(
                                        Some((group, COMPANION_REFERENCE_PREFIX@ + companion_key)),
                                    ),
                                ),
                            ),
                            ..t
                        },
                    )
                } else {
                    Err(
                        "Could not set "@ + target_key + " companion reference: TypeMismatch"@,
                    )
                },
            },
        },
    }
}

pub fn set_companion_reference(
    target: &mut TagStruct,
    target_key: &str,
    companion_key: &str,
    env: &ConversionEnvironment,
) -> (r: Result<(), String>)
    ensures
        match companion_referred(env@, old(target)@, target_key@, companion_key@) {
            Ok(t) => r is Ok && final(target)@ == t,
            Err(message) => r matches Err(m) && m@ == message && final(target)@ == old(target)@,
        },
{
    let group_name: &str = if same(companion_key, "response") {
        "damage_response_definition"
    } else if same(companion_key, "camera") {
        "camera_shake"
    } else if starts_with(companion_key, "rumble_") {
        "rumble"
    } else {
        return Err(concat2("Unknown companion reference ", companion_key));
    };
    let group: u32 = match env.target.groups.tag_of(group_name) {
        Some(group) => group,
        None => {
            return Err(concat4(env.target_game, " has no ", group_name, " group"));
        },
    };
    match field_ordinal_by_key(target, target_key) {
        None => Err(concat3("Target companion layout has no ", target_key, " field")),
        Some(k) => {
            let path: String = concat2(COMPANION_REFERENCE_PREFIX, companion_key);
            let ghost before = target@;
            let outcome: Result<(), TagSetError> = target.at_mut(k).set(
                TagFieldData::TagReference(
                    TagReferenceData { group_tag_and_name: Some((group, path)) },
                ),
            );
            match outcome {
                Ok(()) => Ok(()),
                Err(_) => {
                    assert(target@.fields =~= before.fields);
                    Err(
                        concat3(
                            "Could not set ",
                            target_key,
                            " companion reference: TypeMismatch",
                        ),
                    )
                },
            }
        },
    }
}

/// What has been gathered after the layout of a companion was noted.
pub open spec fn layout_noted(draft: CompanionView, c: ContextView) -> ContextView {
    c.issue(
        ConversionIssueKind::Warning,
        "companion/"@ + draft.group_name,
        match draft.template {
            Some(path) => "Used native companion layout template "@ + path,
            None => "Used generated companion layout; native compatibility remains unverified"@,
        },
    )
}

pub fn record_companion_layout(draft: &CompanionTagDraft, context: &mut ConversionContext)
    ensures
        final(context)@ == layout_noted(draft@, old(context)@),
{
    let message: String = match &draft.native_layout_template {
        Some(path) => concat2("Used native companion layout template ", path),
        None => copy(
            "Used generated companion layout; native compatibility remains unverified",
        ),
    };
    context.record(
        ConversionIssueKind::Warning,
        &concat2("companion/", &draft.group_name),
        message,
    );
}

impl ContextView {
    /// With one more companion.
    pub open spec fn companied(self, draft: CompanionView) -> ContextView {
        ContextView { companions: self.companions.push(draft), ..self }
    }
}

fn add_companion(context: &mut ConversionContext, draft: CompanionTagDraft)
    ensures
        final(context)@ == old(context)@.companied(draft@),
{
    let ghost before = context.companion_tags@;
    context.companion_tags.push(draft);
    assert(companion_views(context.companion_tags@) =~= companion_views(before).push(draft@));
}

// ---------------------------------------------------------------------------
// Constant functions
// ---------------------------------------------------------------------------
/// The bytes of a function that is the same number everywhere.
pub open spec fn constant_function(answers: EngineAnswersView, bits: u32) -> Seq<u8> {
    seq![answers.constant_function, answers.gpu_flag, 0u8, 0u8] + le_bytes(bits) + le_bytes(bits)
        + Seq::new(20, |i: int| 0u8)
}

/// A struct with the mapping `key` set to a constant, or why it could not be.
pub open spec fn constant_mapped(
    answers: EngineAnswersView,
    t: StructView,
    key: Seq<char>,
    bits: u32,
) -> Result<StructView, Seq<char>> {
    match keyed(t, key) {
        None => Ok(t),
        Some(k) => match t.fields[k as int].content {
            ContentView::Struct(mapping) => match keyed(mapping, "data"@) {
                None => Ok(t),
                Some(d) => if mapping.fields[d as int].field_type == TagFieldType::Data {
                    let mapping1 = StructView {
                        fields: mapping.fields.update(
                            d as int,
                            mapping.fields[d as int].with_value(
                                FieldValue::Bytes {
                                    kind: TagFieldType::Data,
                                    bytes: constant_function(answers, bits),
                                },
                            ),
                        ),
                        ..mapping
                    };
                    Ok(
                        StructView {
                            fields: t.fields.update(
                                k as int,
                                FieldView {
                                    content: ContentView::Struct(mapping1),
                                    ..t.fields[k as int]
                                },
                            ),
                            ..t
                        },
                    )
                } else {
                    Err("Could not set companion mapping function: TypeMismatch"@)
                },
            },
            _ => Ok(t),
        },
    }
}

pub fn set_constant_mapping(
    target: &mut TagStruct,
    key: &str,
    bits: u32,
    answers: &EngineAnswers,
) -> (r: Result<(), String>)
    ensures
        match constant_mapped(answers@, old(target)@, key@, bits) {
            Ok(t) => r is Ok && final(target)@ == t,
            Err(message) => r matches Err(m) && m@ == message && final(target)@ == old(target)@,
        },
{
    let ghost start = target@;
    let k: usize = match field_ordinal_by_key(target, key) {
        Some(k) => k,
        None => {
            return Ok(());
        },
    };
    let ordinal: Option<usize> = match target.at(k).as_struct() {
        Some(mapping) => match field_ordinal_by_key(mapping, "data") {
            Some(d) => if mapping.at(d).field_type() == TagFieldType::Data {
                Some(d)
            } else {
                return Err(copy("Could not set companion mapping function: TypeMismatch"));
            },
            None => None,
        },
        None => None,
    };
    let d: usize = match ordinal {
        Some(d) => d,
        None => {
            return Ok(());
        },
    };
    let mut bytes: Vec<u8> = Vec::new();
    bytes.push(answers.constant_function);
    bytes.push(answers.gpu_flag);
    bytes.push(0);
    bytes.push(0);
    push_le(&mut bytes, bits);
    push_le(&mut bytes, bits);
    let mut rest: Vec<u8> = zero_bytes(20);
    bytes.append(&mut rest);
    assert(bytes@ =~= constant_function(answers@, bits));
    if let Some(mapping) = target.at_mut(k).as_struct_mut() {
        let _ = mapping.at_mut(d).set(TagFieldData::Data(bytes));
    }
    Ok(())
}

// ---------------------------------------------------------------------------
// Player responses
// ---------------------------------------------------------------------------
/// A struct with a list of fields converted into others, each pair of keys in
/// turn; the path of each is its target key.
pub open spec fn copied_pairs(
    env: EnvironmentView,
    layout: LayoutView,
    s: StructView,
    t: StructView,
    pairs: Seq<(Seq<char>, Seq<char>)>,
    n: nat,
    c: ContextView,
) -> (StructView, ContextView)
    decreases s, 2nat, None::<nat>, n,
{
    if n == 0 || n > pairs.len() {
        (t, c)
    } else {
        let (t1, c1) = copied_pairs(env, layout, s, t, pairs, (n - 1) as nat, c);
        copied_key(env, layout, s, pairs[n - 1].0, t1, pairs[n - 1].1, pairs[n - 1].1, c1)
    }
}

/// Where the fields of a screen flash go.
pub open spec fn flash_pairs() -> Seq<(Seq<char>, Seq<char>)> {
    seq![
        ("duration"@, "duration"@),
        ("fade function"@, "fade function"@),
        ("maximum intensity"@, "center alpha"@),
        ("maximum intensity"@, "offscreen alpha"@),
        ("maximum intensity"@, "inner alpha"@),
        ("maximum intensity"@, "outer alpha"@),
        ("color"@, "flash color"@),
        ("color"@, "arrow color"@),
    ]
}

fn flash_pair_list() -> (r: Vec<(String, String)>)
    ensures
        pair_views(r@) == flash_pairs(),
{
    let r: Vec<(String, String)> = vec![
        (copy("duration"), copy("duration")),
        (copy("fade function"), copy("fade function")),
        (copy("maximum intensity"), copy("center alpha")),
        (copy("maximum intensity"), copy("offscreen alpha")),
        (copy("maximum intensity"), copy("inner alpha")),
        (copy("maximum intensity"), copy("outer alpha")),
        (copy("color"), copy("flash color")),
        (copy("color"), copy("arrow color")),
    ];
    assert(pair_views(r@) =~= flash_pairs());
    r
}

/// A response class with the flash of a response in it.
pub open spec fn flash_converted(
    env: EnvironmentView,
    layout: LayoutView,
    s: StructView,
    t: StructView,
    c: ContextView,
) -> (StructView, ContextView)
    decreases s, 3nat, None::<nat>, 0nat,
{
    match (keyed(s, "screen flash"@), keyed(t, "directional flash"@)) {
        (Some(i), Some(k)) => if i < s.fields.len() {
            match (s.fields[i as int].content, t.fields[k as int].content) {
                (ContentView::Struct(screen), ContentView::Struct(flash)) => {
                    let (flash1, c1) = copied_pairs(
                        env,
                        layout,
                        screen,
                        flash,
                        flash_pairs(),
                        flash_pairs().len(),
                        c,
                    );
                    (t.with_nested(k as int, flash1), c1)
                },
                _ => (t, c),
            }
        } else {
            (t, c)
        },
        _ => (t, c),
    }
}

/// The root of a rumble companion with the rumble of a response in it.
pub open spec fn rumble_root(
    env: EnvironmentView,
    layout: LayoutView,
    rumble: StructView,
    root: StructView,
    c: ContextView,
) -> (StructView, ContextView)
    decreases rumble, 11nat, None::<nat>, 0nat,
{
    match keyed(root, "rumble"@) {
        Some(k) => match root.fields[k as int].content {
            ContentView::Struct(own) => {
                let (own1, c1) = conv_struct(
                    env,
                    layout,
                    rumble,
                    own,
                    "player responses/rumble"@,
                    false,
                    c,
                );
                (root.with_nested(k as int, own1), c1)
            },
            _ => (root, c),
        },
        None => (root, c),
    }
}

/// A response class with a reference to a rumble companion, what has been
/// gathered, and why that failed.
pub open spec fn rumble_made(
    env: EnvironmentView,
    rumble: StructView,
    t: StructView,
    index: nat,
    c: ContextView,
) -> (StructView, ContextView, Option<Seq<char>>)
    decreases rumble, 12nat, None::<nat>, 0nat,
{
    let key = "rumble_"@ + decimal(index);
    match companion(env, key, "__rumble_"@ + decimal(index), "rumble"@) {
        Err(message) => (t, c, Some(message)),
        Ok(draft) => {
            let (root, c1) = rumble_root(env, draft.tag.layout, rumble, draft.tag.root, c);
            let draft1 = CompanionView { tag: FileView { root, ..draft.tag }, ..draft };
            match companion_referred(env, t, "rumble"@, key) {
                Err(message) => (t, c1, Some(message)),
                Ok(t1) => (t1, layout_noted(draft1, c1).companied(draft1), None),
            }
        },
    }
}

/// The same for a response, where it rumbles.
pub open spec fn rumble_converted(
    env: EnvironmentView,
    s: StructView,
    t: StructView,
    index: nat,
    c: ContextView,
) -> (StructView, ContextView, Option<Seq<char>>)
    decreases s, 3nat, None::<nat>, 0nat,
{
    match keyed(s, "rumble"@) {
        Some(i) => if i < s.fields.len() {
            match s.fields[i as int].content {
                ContentView::Struct(rumble) => if struct_meaningful(rumble) {
                    rumble_made(env, rumble, t, index, c)
                } else {
                    (t, c, None)
                },
                _ => (t, c, None),
            }
        } else {
            (t, c, None)
        },
        None => (t, c, None),
    }
}

/// A sound element with the duration of a sound effect as its constant mapping,
/// or why it could not be set.
pub open spec fn duration_mapped(
    answers: EngineAnswersView,
    sound: StructView,
    e: StructView,
) -> (StructView, Option<Seq<char>>) {
    match field_keyed(sound, "duration"@) {
        Some(f) => match f.content {
            ContentView::Value(
                FieldValue::Reals { kind: TagFieldType::Real, bits },
            ) => match constant_mapped(answers, e, "scale => duration"@, bits[0]) {
                Ok(e1) => (e1, None),
                Err(message) => (e, Some(message)),
            },
            _ => (e, None),
        },
        None => (e, None),
    }
}

/// A block of sounds with a sound effect as its one element, what has been
/// gathered, and why that failed.
pub open spec fn sound_made(
    env: EnvironmentView,
    layout: LayoutView,
    sound: StructView,
    b: BlockView,
    c: ContextView,
) -> (BlockView, ContextView, Option<Seq<char>>)
    decreases sound, 3nat, None::<nat>, 0nat,
{
    let g = b.cleared().grown(layout);
    if g.elements.len() == 0 {
        (g, c, None)
    } else {
        let (e, c1) = copied_key(
            env,
            layout,
            sound,
            "effect name"@,
            nulled_struct(g.elements[0]),
            "effect name"@,
            "effect name"@,
            c,
        );
        let (e1, fault) = duration_mapped(env.answers, sound, e);
        (BlockView { elements: g.elements.update(0, e1), ..g }, c1, fault)
    }
}

/// A response class with the sound effect of a response in it, what has been
/// gathered, and why that failed.
pub open spec fn sound_converted(
    env: EnvironmentView,
    layout: LayoutView,
    s: StructView,
    t: StructView,
    c: ContextView,
) -> (StructView, ContextView, Option<Seq<char>>)
    decreases s, 3nat, None::<nat>, 0nat,
{
    match (keyed(s, "sound effect"@), keyed(t, "global sound effect"@)) {
        (Some(i), Some(k)) => if i < s.fields.len() {
            match (s.fields[i as int].content, t.fields[k as int].content) {
                (ContentView::Struct(sound), ContentView::Block(b)) => if struct_meaningful(sound) {
                    let (b1, c1, fault) = sound_made(env, layout, sound, b, c);
                    (t.with_block(k as int, b1), c1, fault)
                } else {
                    (t, c, None)
                },
                _ => (t, c, None),
            }
        } else {
            (t, c, None)
        },
        _ => (t, c, None),
    }
}

/// A response class filled from a response, what has been gathered, and why that
/// failed.
pub open spec fn class_converted(
    env: EnvironmentView,
    layout: LayoutView,
    s: StructView,
    t: StructView,
    index: nat,
    has_camera: bool,
    c: ContextView,
) -> (StructView, ContextView, Option<Seq<char>>)
    decreases s, 4nat, None::<nat>, 0nat,
{
    let (t1, c1) = copied_key(env, layout, s, "response type"@, t, "type"@, "type"@, c);
    let (t2, c2) = flash_converted(env, layout, s, t1, c1);
    let (t3, c3, fault) = rumble_converted(env, s, t2, index, c2);
    if fault is Some {
        (t3, c3, fault)
    } else {
        let (t4, fault) = if has_camera {
            match companion_referred(env, t3, "camera shake"@, "camera"@) {
                Ok(t4) => (t4, None),
                Err(message) => (t3, Some(message)),
            }
        } else {
            (t3, None)
        };
        if fault is Some {
            (t4, c3, fault)
        } else {
            sound_converted(env, layout, s, t4, c3)
        }
    }
}

/// A block of response classes with the first `n` responses converted into it,
/// what has been gathered, and why that stopped.
pub open spec fn classes_converted(
    env: EnvironmentView,
    layout: LayoutView,
    responses: Seq<StructView>,
    b: BlockView,
    has_camera: bool,
    n: nat,
    c: ContextView,
) -> (BlockView, ContextView, Option<Seq<char>>)
    decreases responses, 1nat, None::<nat>, n,
{
    if n == 0 || n > responses.len() {
        (b, c, None)
    } else {
        let (b1, c1, fault) = classes_converted(
            env,
            layout,
            responses,
            b,
            has_camera,
            (n - 1) as nat,
            c,
        );
        if fault is Some {
            (b1, c1, fault)
        } else {
            let at = b1.elements.len() as int;
            let g = b1.grown(layout);
            if at < g.elements.len() {
                let (e, c2, fault) = class_converted(
                    env,
                    layout,
                    responses[n - 1],
                    nulled_struct(g.elements[at]),
                    (n - 1) as nat,
                    has_camera,
                    c1,
                );
                (BlockView { elements: g.elements.update(at, e), ..g }, c2, fault)
            } else {
                (
                    g,
                    c1,
                    Some(
                        "Could not allocate Reach player response class "@ + decimal(
                            (n - 1) as nat,
                        ),
                    ),
                )
            }
        }
    }
}

/// The fields of a camera impulse.
pub open spec fn impulse_keys() -> Seq<Seq<char>> {
    seq!["impulse duration"@, "rotation"@, "pushback"@, "jitter"@]
}

/// The fields of a camera shake.
pub open spec fn shake_keys() -> Seq<Seq<char>> {
    seq![
        "shake duration"@,
        "random translation"@,
        "random rotation"@,
        "wobble function period"@,
        "wobble weight"@,
        "wobble function"@,
    ]
}

fn impulse_key_list() -> (r: Vec<String>)
    ensures
        texts(r@) == impulse_keys(),
{
    let r: Vec<String> = vec![
        copy("impulse duration"),
        copy("rotation"),
        copy("pushback"),
        copy("jitter"),
    ];
    assert(texts(r@) =~= impulse_keys());
    r
}

fn shake_key_list() -> (r: Vec<String>)
    ensures
        texts(r@) == shake_keys(),
{
    let r: Vec<String> = vec![
        copy("shake duration"),
        copy("random translation"),
        copy("random rotation"),
        copy("wobble function period"),
        copy("wobble weight"),
        copy("wobble function"),
    ];
    assert(texts(r@) =~= shake_keys());
    r
}

/// A companion's root with the fields of one section converted into it.
pub open spec fn section_converted(
    env: EnvironmentView,
    layout: LayoutView,
    s: StructView,
    root: StructView,
    section: Seq<char>,
    keys: Seq<Seq<char>>,
    c: ContextView,
) -> (StructView, ContextView)
    decreases s, 3nat, None::<nat>, 0nat,
{
    match keyed(root, section) {
        None => (root, c),
        Some(k) => match root.fields[k as int].content {
            ContentView::Struct(own) => {
                let (own1, c1) = copied_keys(
                    env,
                    layout,
                    s,
                    own,
                    keys,
                    Seq::empty(),
                    keys.len(),
                    c,
                );
                (root.with_nested(k as int, own1), c1)
            },
            _ => (root, c),
        },
    }
}

/// A camera shake companion's root filled from a damage effect.
pub open spec fn camera_converted(
    env: EnvironmentView,
    layout: LayoutView,
    s: StructView,
    root: StructView,
    c: ContextView,
) -> (StructView, ContextView)
    decreases s, 4nat, None::<nat>, 0nat,
{
    let (r1, c1) = section_converted(env, layout, s, root, "camera impulse"@, impulse_keys(), c);
    let (r2, c2) = section_converted(env, layout, s, r1, "camera shake"@, shake_keys(), c1);
    (
        r2,
        c2.issue(
            ConversionIssueKind::Warning,
            "camera shake/mapping"@,
            "H3 fade and falloff enums have no byte-identical Reach mapping-function representation; scalar camera data was preserved and Reach mapping defaults were retained"@,
        ),
    )
}

/// Whether one of the first `n` of a list of fields says anything.
pub open spec fn some_key_meaningful(s: StructView, keys: Seq<Seq<char>>, n: nat) -> bool
    decreases n,
{
    if n == 0 || n > keys.len() {
        false
    } else {
        some_key_meaningful(s, keys, (n - 1) as nat) || (field_keyed(s, keys[n - 1]) matches Some(f)
            && field_meaningful(f))
    }
}

/// Whether a damage effect shakes the camera.
pub open spec fn shakes_the_camera(s: StructView) -> bool {
    some_key_meaningful(s, impulse_keys(), impulse_keys().len()) || some_key_meaningful(
        s,
        shake_keys(),
        shake_keys().len(),
    )
}

/// The keys of a damage effect that have gone to companions.
pub open spec fn response_keys() -> Seq<Seq<char>> {
    seq![
        "player responses"@,
        "damage response"@,
        "impulse duration"@,
        "fade function"@,
        "rotation"@,
        "pushback"@,
        "jitter"@,
        "shake duration"@,
        "falloff function"@,
        "random translation"@,
        "random rotation"@,
        "wobble function"@,
        "wobble function period"@,
        "wobble weight"@,
    ]
}

fn response_key_list() -> (r: Vec<String>)
    ensures
        texts(r@) == response_keys(),
{
    let r: Vec<String> = vec![
        copy("player responses"),
        copy("damage response"),
        copy("impulse duration"),
        copy("fade function"),
        copy("rotation"),
        copy("pushback"),
        copy("jitter"),
        copy("shake duration"),
        copy("falloff function"),
        copy("random translation"),
        copy("random rotation"),
        copy("wobble function"),
        copy("wobble function period"),
        copy("wobble weight"),
    ];
    assert(texts(r@) =~= response_keys());
    r
}

/// The camera companion of a damage effect, or why there is none, with what has
/// been gathered.
pub open spec fn camera_draft(
    env: EnvironmentView,
    s: StructView,
    c: ContextView,
) -> (ContextView, Result<CompanionView, Seq<char>>)
    decreases s, 5nat, None::<nat>, 0nat,
{
    match companion(env, "camera"@, "__camera_shake"@, "camera_shake"@) {
        Err(message) => (c, Err(message)),
        Ok(draft) => {
            let (root, c1) = camera_converted(env, draft.tag.layout, s, draft.tag.root, c);
            let draft1 = CompanionView { tag: FileView { root, ..draft.tag }, ..draft };
            (layout_noted(draft1, c1), Ok(draft1))
        },
    }
}

/// The same, where the damage effect shakes the camera.
pub open spec fn camera_made(
    env: EnvironmentView,
    s: StructView,
    c: ContextView,
) -> (ContextView, Result<Option<CompanionView>, Seq<char>>)
    decreases s, 6nat, None::<nat>, 0nat,
{
    if shakes_the_camera(s) {
        let (c1, camera) = camera_draft(env, s, c);
        match camera {
            Ok(draft) => (c1, Ok(Some(draft))),
            Err(message) => (c1, Err(message)),
        }
    } else {
        (c, Ok(None))
    }
}

/// The response companion of a damage effect with its classes filled, with what
/// has been gathered.
pub open spec fn response_made(
    env: EnvironmentView,
    responses: Seq<StructView>,
    has_camera: bool,
    c: ContextView,
) -> (ContextView, Result<CompanionView, Seq<char>>)
    decreases responses, 2nat, None::<nat>, 0nat,
{
    match companion(env, "response"@, "__damage_response"@, "damage_response_definition"@) {
        Err(message) => (c, Err(message)),
        Ok(draft) => {
            let root = draft.tag.root;
            match keyed(root, "classes"@) {
                None => (c, Err("Reach damage response companion has no classes block"@)),
                Some(k) => match root.fields[k as int].content {
                    ContentView::Block(b) => {
                        let count = fitting(responses.len(), b.max_count as nat);
                        let (b1, c1, fault) = classes_converted(
                            env,
                            draft.tag.layout,
                            responses,
                            b.cleared(),
                            has_camera,
                            count,
                            c,
                        );
                        match fault {
                            Some(message) => (c1, Err(message)),
                            None => {
                                let c2 = if responses.len() > count {
                                    c1.omitted(
                                        responses.len() - count,
                                        "player responses"@,
                                        "Reach damage response supports "@ + decimal(count)
                                            + " classes; omitted "@ + decimal(
                                            (responses.len() - count) as nat,
                                        ) + " H3 response(s)"@,
                                    )
                                } else {
                                    c1
                                };
                                let draft1 = CompanionView {
                                    tag: FileView { root: root.with_block(k as int, b1), ..draft.tag },
                                    ..draft
                                };
                                (layout_noted(draft1, c2), Ok(draft1))
                            },
                        }
                    },
                    _ => (c, Err("Reach damage response classes is not a block"@)),
                },
            }
        },
    }
}

/// The inline player responses of a damage effect brought into companion tags:
/// the target, what has been gathered, and the keys that have gone there or why
/// that failed.
pub open spec fn conv_responses(
    env: EnvironmentView,
    layout: LayoutView,
    s: StructView,
    t: StructView,
    c: ContextView,
) -> (StructView, ContextView, Result<Seq<Seq<char>>, Seq<char>>)
    decreases s, 7nat, None::<nat>, 0nat,
{
    let nothing = (t, c, Ok(Seq::empty()));
    if env.source_game != "halo3_mcc"@ || env.target_game != "haloreach_mcc"@ {
        nothing
    } else {
        match keyed(s, "player responses"@) {
            None => nothing,
            Some(i) => if i < s.fields.len() {
                match s.fields[i as int].content {
                    ContentView::Block(b) => if b.elements.len() == 0 {
                        nothing
                    } else {
                        let (c1, camera) = camera_made(env, s, c);
                        match camera {
                            Err(message) => (t, c1, Err(message)),
                            Ok(camera) => {
                                let (c2, response) = response_made(
                                    env,
                                    b.elements,
                                    camera is Some,
                                    c1,
                                );
                                match response {
                                    Err(message) => (t, c2, Err(message)),
                                    Ok(response) => responses_referred(
                                        env,
                                        t,
                                        camera,
                                        response,
                                        c2,
                                    ),
                                }
                            },
                        }
                    },
                    _ => nothing,
                }
            } else {
                nothing
            },
        }
    }
}

/// A damage effect with a reference to its response companion, and the companions
/// kept.
pub open spec fn responses_referred(
    env: EnvironmentView,
    t: StructView,
    camera: Option<CompanionView>,
    response: CompanionView,
    c: ContextView,
) -> (StructView, ContextView, Result<Seq<Seq<char>>, Seq<char>>) {
    match companion_referred(env, t, "damage response"@, "response"@) {
        Err(message) => (t, c, Err(message)),
        Ok(t1) => {
            let c1 = c.companied(response);
            let c2 = match camera {
                Some(camera) => c1.companied(camera),
                None => c1,
            };
            (
                t1,
                c2.issue(
                    ConversionIssueKind::Warning,
                    "player responses"@,
                    "Generated Reach damage-response, rumble, and camera-shake companion tags from H3 inline player response data"@,
                ),
                Ok(response_keys()),
            )
        },
    }
}

fn copy_named_pairs(
    source: &TagStruct,
    target: &mut TagStruct,
    pairs: &Vec<(String, String)>,
    layout: &TagLayout,
    env: &ConversionEnvironment,
    context: &mut ConversionContext,
)
    ensures
        (final(target)@, final(context)@) == copied_pairs(
            env@,
            layout@,
            source@,
            old(target)@,
            pair_views(pairs@),
            pair_views(pairs@).len(),
            old(context)@,
        ),
    decreases source@, 2nat, None::<nat>, 0nat,
{
    let ghost start = target@;
    let ghost before = context@;
    let ghost views = pair_views(pairs@);
    let mut i: usize = 0;
    while i < pairs.len()
        invariant
            i <= pairs.len(),
            views == pair_views(pairs@),
            (target@, context@) == copied_pairs(
                env@,
                layout@,
                source@,
                start,
                views,
                i as nat,
                before,
            ),
        decreases pairs.len() - i,
    {
        assert(views[i as int] == (pairs@[i as int].0@, pairs@[i as int].1@));
        copy_named_field(
            source,
            &pairs[i].0,
            target,
            &pairs[i].1,
            layout,
            &pairs[i].1,
            env,
            context,
        );
        i = i + 1;
    }
}

fn convert_flash(
    source: &TagStruct,
    target: &mut TagStruct,
    layout: &TagLayout,
    env: &ConversionEnvironment,
    context: &mut ConversionContext,
)
    ensures
        (final(target)@, final(context)@) == flash_converted(
            env@,
            layout@,
            source@,
            old(target)@,
            old(context)@,
        ),
    decreases source@, 3nat, None::<nat>, 0nat,
{
    let screen: &TagStruct = match struct_field_by_key(source, "screen flash") {
        Some(screen) => screen,
        None => {
            return;
        },
    };
    proof {
        lemma_keyed(source@.fields, "screen flash"@, 0);
    }
    let k: usize = match field_ordinal_by_key(target, "directional flash") {
        Some(k) => k,
        None => {
            return;
        },
    };
    if !target.at(k).holds_struct() {
        return;
    }
    let pairs: Vec<(String, String)> = flash_pair_list();
    if let Some(flash) = target.at_mut(k).as_struct_mut() {
        copy_named_pairs(screen, flash, &pairs, layout, env, context);
    }
}

fn fill_rumble_root(
    rumble: &TagStruct,
    root: &mut TagStruct,
    layout: &TagLayout,
    env: &ConversionEnvironment,
    context: &mut ConversionContext,
)
    ensures
        (final(root)@, final(context)@) == rumble_root(
            env@,
            layout@,
            rumble@,
            old(root)@,
            old(context)@,
        ),
    decreases rumble@, 11nat, None::<nat>, 0nat,
{
    if let Some(k) = field_ordinal_by_key(root, "rumble") {
        if root.at(k).holds_struct() {
            if let Some(own) = root.at_mut(k).as_struct_mut() {
                convert_struct(
                    rumble,
                    own,
                    layout,
                    "player responses/rumble",
                    false,
                    env,
                    context,
                );
            }
        }
    }
}

fn make_rumble(
    rumble: &TagStruct,
    target: &mut TagStruct,
    index: usize,
    env: &ConversionEnvironment,
    context: &mut ConversionContext,
) -> (r: Result<(), String>)
    ensures
        ({
            let done = rumble_made(env@, rumble@, old(target)@, index as nat, old(context)@);
            final(target)@ == done.0 && final(context)@ == done.1 && ended_with(r, done.2)
        }),
    decreases rumble@, 12nat, None::<nat>, 0nat,
{
    let number: String = decimal_text(index as u128);
    let key: String = concat2("rumble_", &number);
    let suffix: String = concat2("__rumble_", &number);
    let mut draft: CompanionTagDraft = match create_companion_tag(&key, &suffix, "rumble", env) {
        Ok(draft) => draft,
        Err(message) => {
            return Err(message);
        },
    };
    fill_rumble_root(rumble, &mut draft.tag.root, &draft.tag.layout, env, context);
    match set_companion_reference(target, "rumble", &key, env) {
        Ok(()) => {},
        Err(message) => {
            return Err(message);
        },
    }
    record_companion_layout(&draft, context);
    add_companion(context, draft);
    Ok(())
}

fn convert_rumble(
    source: &TagStruct,
    target: &mut TagStruct,
    index: usize,
    env: &ConversionEnvironment,
    context: &mut ConversionContext,
) -> (r: Result<(), String>)
    ensures
        ({
            let done = rumble_converted(
                env@,
                source@,
                old(target)@,
                index as nat,
                old(context)@,
            );
            final(target)@ == done.0 && final(context)@ == done.1 && ended_with(r, done.2)
        }),
    decreases source@, 3nat, None::<nat>, 0nat,
{
    let rumble: &TagStruct = match struct_field_by_key(source, "rumble") {
        Some(rumble) => rumble,
        None => {
            return Ok(());
        },
    };
    proof {
        lemma_keyed(source@.fields, "rumble"@, 0);
    }
    if !struct_has_meaningful_value(rumble) {
        return Ok(());
    }
    make_rumble(rumble, target, index, env, context)
}

fn map_duration(sound: &TagStruct, element: &mut TagStruct, answers: &EngineAnswers) -> (r: Result<
    (),
    String,
>)
    ensures
        final(element)@ == duration_mapped(answers@, sound@, old(element)@).0,
        ended_with(r, duration_mapped(answers@, sound@, old(element)@).1),
{
    match field_by_key(sound, "duration") {
        Some(field) => match field.value() {
            Some(TagFieldData::Real(bits)) => set_constant_mapping(
                element,
                "scale => duration",
                *bits,
                answers,
            ),
            _ => Ok(()),
        },
        None => Ok(()),
    }
}

fn make_sound(
    sound: &TagStruct,
    block: &mut TagBlock,
    layout: &TagLayout,
    env: &ConversionEnvironment,
    context: &mut ConversionContext,
) -> (r: Result<(), String>)
    ensures
        ({
            let done = sound_made(env@, layout@, sound@, old(block)@, old(context)@);
            final(block)@ == done.0 && final(context)@ == done.1 && ended_with(r, done.2)
        }),
    decreases sound@, 3nat, None::<nat>, 0nat,
{
    block.clear();
    let at: usize = block.add_element(layout);
    if at >= block.len() {
        return Ok(());
    }
    let element: &mut TagStruct = block.at_mut(at);
    initialize_block_index_defaults(element);
    copy_named_field(
        sound,
        "effect name",
        element,
        "effect name",
        layout,
        "effect name",
        env,
        context,
    );
    map_duration(sound, element, env.answers)
}

fn convert_sound(
    source: &TagStruct,
    target: &mut TagStruct,
    layout: &TagLayout,
    env: &ConversionEnvironment,
    context: &mut ConversionContext,
) -> (r: Result<(), String>)
    ensures
        ({
            let done = sound_converted(
                env@,
                layout@,
                source@,
                old(target)@,
                old(context)@,
            );
            final(target)@ == done.0 && final(context)@ == done.1 && ended_with(r, done.2)
        }),
    decreases source@, 3nat, None::<nat>, 0nat,
{
    let sound: &TagStruct = match struct_field_by_key(source, "sound effect") {
        Some(sound) => sound,
        None => {
            return Ok(());
        },
    };
    proof {
        lemma_keyed(source@.fields, "sound effect"@, 0);
    }
    let k: usize = match field_ordinal_by_key(target, "global sound effect") {
        Some(k) => k,
        None => {
            return Ok(());
        },
    };
    if !struct_has_meaningful_value(sound) || !target.at(k).holds_block() {
        return Ok(());
    }
    match target.at_mut(k).as_block_mut() {
        Some(block) => make_sound(sound, block, layout, env, context),
        None => Ok(()),
    }
}

fn populate_response_class(
    source: &TagStruct,
    target: &mut TagStruct,
    layout: &TagLayout,
    index: usize,
    has_camera: bool,
    env: &ConversionEnvironment,
    context: &mut ConversionContext,
) -> (r: Result<(), String>)
    ensures
        ({
            let done = class_converted(
                env@,
                layout@,
                source@,
                old(target)@,
                index as nat,
                has_camera,
                old(context)@,
            );
            final(target)@ == done.0 && final(context)@ == done.1 && ended_with(r, done.2)
        }),
    decreases source@, 4nat, None::<nat>, 0nat,
{
    copy_named_field(source, "response type", target, "type", layout, "type", env, context);
    convert_flash(source, target, layout, env, context);
    match convert_rumble(source, target, index, env, context) {
        Ok(()) => {},
        Err(message) => {
            return Err(message);
        },
    }
    if has_camera {
        match set_companion_reference(target, "camera shake", "camera", env) {
            Ok(()) => {},
            Err(message) => {
                return Err(message);
            },
        }
    }
    convert_sound(source, target, layout, env, context)
}

proof fn lemma_classes_stop(
    env: EnvironmentView,
    layout: LayoutView,
    responses: Seq<StructView>,
    b: BlockView,
    has_camera: bool,
    i: nat,
    n: nat,
    c: ContextView,
)
    requires
        i <= n <= responses.len(),
        classes_converted(env, layout, responses, b, has_camera, i, c).2 is Some,
    ensures
        classes_converted(env, layout, responses, b, has_camera, n, c) == classes_converted(
            env,
            layout,
            responses,
            b,
            has_camera,
            i,
            c,
        ),
    decreases n,
{
    if i < n {
        lemma_classes_stop(env, layout, responses, b, has_camera, i, (n - 1) as nat, c);
    }
}

fn populate_classes(
    responses: &TagBlock,
    classes: &mut TagBlock,
    layout: &TagLayout,
    count: usize,
    has_camera: bool,
    env: &ConversionEnvironment,
    context: &mut ConversionContext,
) -> (r: Result<(), String>)
    requires
        count <= responses@.elements.len(),
    ensures
        ({
            let done = classes_converted(
                env@,
                layout@,
                responses@.elements,
                old(classes)@,
                has_camera,
                count as nat,
                old(context)@,
            );
            final(classes)@ == done.0 && final(context)@ == done.1 && ended_with(r, done.2)
        }),
    decreases responses@.elements, 1nat, None::<nat>, 0nat,
{
    let ghost start = classes@;
    let ghost before = context@;
    let mut i: usize = 0;
    while i < count
        invariant
            i <= count <= responses@.elements.len(),
            start == old(classes)@,
            before == old(context)@,
            (classes@, context@, None::<Seq<char>>) == classes_converted(
                env@,
                layout@,
                responses@.elements,
                start,
                has_camera,
                i as nat,
                before,
            ),
        decreases count - i,
    {
        let at: usize = classes.add_element(layout);
        if at >= classes.len() {
            proof {
                lemma_classes_stop(
                    env@,
                    layout@,
                    responses@.elements,
                    start,
                    has_camera,
                    (i + 1) as nat,
                    count as nat,
                    before,
                );
            }
            let number: String = decimal_text(i as u128);
            return Err(concat2("Could not allocate Reach player response class ", &number));
        }
        let ghost grown = classes@.elements;
        assert(decreases_to!(responses@.elements => responses@.elements[i as int]));
        let class: &mut TagStruct = classes.at_mut(at);
        initialize_block_index_defaults(class);
        match populate_response_class(
            responses.at(i),
            class,
            layout,
            i,
            has_camera,
            env,
            context,
        ) {
            Ok(()) => {},
            Err(message) => {
                proof {
                    lemma_classes_stop(
                        env@,
                        layout@,
                        responses@.elements,
                        start,
                        has_camera,
                        (i + 1) as nat,
                        count as nat,
                        before,
                    );
                }
                return Err(message);
            },
        }
        i = i + 1;
    }
    Ok(())
}

fn convert_section(
    source: &TagStruct,
    root: &mut TagStruct,
    section: &str,
    keys: &Vec<String>,
    layout: &TagLayout,
    env: &ConversionEnvironment,
    context: &mut ConversionContext,
)
    ensures
        (final(root)@, final(context)@) == section_converted(
            env@,
            layout@,
            source@,
            old(root)@,
            section@,
            texts(keys@),
            old(context)@,
        ),
    decreases source@, 3nat, None::<nat>, 0nat,
{
    if let Some(k) = field_ordinal_by_key(root, section) {
        if root.at(k).holds_struct() {
            let prefix: String = String::new();
            if let Some(own) = root.at_mut(k).as_struct_mut() {
                copy_named_fields(source, own, keys, &prefix, layout, env, context);
            }
        }
    }
}

fn populate_camera_shake(
    source: &TagStruct,
    root: &mut TagStruct,
    layout: &TagLayout,
    env: &ConversionEnvironment,
    context: &mut ConversionContext,
)
    ensures
        (final(root)@, final(context)@) == camera_converted(
            env@,
            layout@,
            source@,
            old(root)@,
            old(context)@,
        ),
    decreases source@, 4nat, None::<nat>, 0nat,
{
    let impulse: Vec<String> = impulse_key_list();
    let shake: Vec<String> = shake_key_list();
    convert_section(source, root, "camera impulse", &impulse, layout, env, context);
    convert_section(source, root, "camera shake", &shake, layout, env, context);
    context.record(
        ConversionIssueKind::Warning,
        "camera shake/mapping",
        copy(
            "H3 fade and falloff enums have no byte-identical Reach mapping-function representation; scalar camera data was preserved and Reach mapping defaults were retained",
        ),
    );
}

fn any_key_meaningful(source: &TagStruct, keys: &Vec<String>) -> (r: bool)
    ensures
        r == some_key_meaningful(source@, texts(keys@), texts(keys@).len()),
{
    let mut found = false;
    let mut i: usize = 0;
    while i < keys.len()
        invariant
            i <= keys.len(),
            found == some_key_meaningful(source@, texts(keys@), i as nat),
        decreases keys.len() - i,
    {
        if let Some(field) = field_by_key(source, &keys[i]) {
            if field_has_meaningful_value(field) {
                found = true;
            }
        }
        i = i + 1;
    }
    found
}

fn draft_camera(
    source: &TagStruct,
    env: &ConversionEnvironment,
    context: &mut ConversionContext,
) -> (r: Result<CompanionTagDraft, String>)
    ensures
        ({
            let done = camera_draft(env@, source@, old(context)@);
            final(context)@ == done.0 && companion_result(r) == done.1
        }),
    decreases source@, 5nat, None::<nat>, 0nat,
{
    let mut draft: CompanionTagDraft = match create_companion_tag(
        "camera",
        "__camera_shake",
        "camera_shake",
        env,
    ) {
        Ok(draft) => draft,
        Err(message) => {
            return Err(message);
        },
    };
    populate_camera_shake(source, &mut draft.tag.root, &draft.tag.layout, env, context);
    record_companion_layout(&draft, context);
    Ok(draft)
}

fn camera_shakes(source: &TagStruct) -> (r: bool)
    ensures
        r == shakes_the_camera(source@),
{
    let impulse: Vec<String> = impulse_key_list();
    let shake: Vec<String> = shake_key_list();
    any_key_meaningful(source, &impulse) || any_key_meaningful(source, &shake)
}

fn make_camera(
    source: &TagStruct,
    env: &ConversionEnvironment,
    context: &mut ConversionContext,
) -> (r: Result<Option<CompanionTagDraft>, String>)
    ensures
        ({
            let done = camera_made(env@, source@, old(context)@);
            final(context)@ == done.0 && match r {
                Ok(Some(draft)) => done.1 == Ok::<Option<CompanionView>, Seq<char>>(Some(draft@)),
                Ok(None) => done.1 == Ok::<Option<CompanionView>, Seq<char>>(None),
                Err(message) => done.1 == Err::<Option<CompanionView>, Seq<char>>(message@),
            }
        }),
    decreases source@, 6nat, None::<nat>, 0nat,
{
    if !camera_shakes(source) {
        return Ok(None);
    }
    match draft_camera(source, env, context) {
        Ok(draft) => Ok(Some(draft)),
        Err(message) => Err(message),
    }
}

fn make_response(
    responses: &TagBlock,
    has_camera: bool,
    env: &ConversionEnvironment,
    context: &mut ConversionContext,
) -> (r: Result<CompanionTagDraft, String>)
    ensures
        ({
            let done = response_made(env@, responses@.elements, has_camera, old(context)@);
            final(context)@ == done.0 && companion_result(r) == done.1
        }),
    decreases responses@.elements, 2nat, None::<nat>, 0nat,
{
    let mut draft: CompanionTagDraft = match create_companion_tag(
        "response",
        "__damage_response",
        "damage_response_definition",
        env,
    ) {
        Ok(draft) => draft,
        Err(message) => {
            return Err(message);
        },
    };
    let k: usize = match field_ordinal_by_key(&draft.tag.root, "classes") {
        Some(k) => k,
        None => {
            return Err(copy("Reach damage response companion has no classes block"));
        },
    };
    let have: usize = responses.len();
    if let Some(classes) = draft.tag.root.at_mut(k).as_block_mut() {
        classes.clear();
        let room: usize = classes.max_count() as usize;
        let count: usize = if have <= room {
            have
        } else {
            room
        };
        match populate_classes(
            responses,
            classes,
            &draft.tag.layout,
            count,
            has_camera,
            env,
            context,
        ) {
            Ok(()) => {},
            Err(message) => {
                return Err(message);
            },
        }
        if have > count {
            let kept: String = decimal_text(count as u128);
            let lost: String = decimal_text((have - count) as u128);
            context.record_omitted(
                have - count,
                "player responses",
                concat5(
                    "Reach damage response supports ",
                    &kept,
                    " classes; omitted ",
                    &lost,
                    " H3 response(s)",
                ),
            );
        }
    } else {
        return Err(copy("Reach damage response classes is not a block"));
    }
    record_companion_layout(&draft, context);
    Ok(draft)
}

/// Brings the inline player responses of a damage effect into companion tags, and
/// returns the keys that have gone there.
pub fn convert_h3_player_responses_to_reach_companions(
    source: &TagStruct,
    target: &mut TagStruct,
    layout: &TagLayout,
    env: &ConversionEnvironment,
    context: &mut ConversionContext,
) -> (r: Result<Vec<String>, String>)
    ensures
        ({
            let done = conv_responses(
                env@,
                layout@,
                source@,
                old(target)@,
                old(context)@,
            );
            final(target)@ == done.0 && final(context)@ == done.1 && match r {
                Ok(keys) => done.2 == Ok::<Seq<Seq<char>>, Seq<char>>(texts(keys@)),
                Err(message) => done.2 == Err::<Seq<Seq<char>>, Seq<char>>(message@),
            }
        }),
    decreases source@, 7nat, None::<nat>, 0nat,
{
    if !same(env.source_game, "halo3_mcc") || !same(env.target_game, "haloreach_mcc") {
        return Ok(no_texts());
    }
    let responses: &TagBlock = match block_field_by_key(source, "player responses") {
        Some(responses) => responses,
        None => {
            return Ok(no_texts());
        },
    };
    proof {
        lemma_keyed(source@.fields, "player responses"@, 0);
    }
    if responses.is_empty() {
        return Ok(no_texts());
    }
    let camera: Option<CompanionTagDraft> = match make_camera(source, env, context) {
        Ok(camera) => camera,
        Err(message) => {
            return Err(message);
        },
    };
    let response: CompanionTagDraft = match make_response(
        responses,
        camera.is_some(),
        env,
        context,
    ) {
        Ok(response) => response,
        Err(message) => {
            return Err(message);
        },
    };
    match set_companion_reference(target, "damage response", "response", env) {
        Ok(()) => {},
        Err(message) => {
            return Err(message);
        },
    }
    add_companion(context, response);
    if let Some(camera) = camera {
        add_companion(context, camera);
    }
    context.record(
        ConversionIssueKind::Warning,
        "player responses",
        copy(
            "Generated Reach damage-response, rumble, and camera-shake companion tags from H3 inline player response data",
        ),
    );
    Ok(response_key_list())
}

}
