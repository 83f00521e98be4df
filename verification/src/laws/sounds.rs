//! The looping sound of an effect: one flat sound, or a block of them.
use crate::convert::defaults::nulled_struct;
use crate::convert::environment::EnvironmentView;
use crate::convert::layouts::{copied_keys, first_sound, sound_in_block, sound_keys};
use crate::convert::report::ContextView;
use crate::laws::keyed::{
    a_plain_name_is_its_own_key, carries, every_key_carries_its_value, has_taken_pairs, paired,
    shaped_alike, targets_differ,
};
use crate::layout::LayoutView;
use crate::tag::{BlockView, StructView, fresh_struct};
use vstd::prelude::*;

verus! {

proof fn lemma_sound_keys()
    ensures
        targets_differ(paired(sound_keys())),
{
    reveal_strlit("looping sound");
    reveal_strlit("location");
    reveal_strlit("bind scale to event");
    a_plain_name_is_its_own_key("looping sound"@);
    a_plain_name_is_its_own_key("location"@);
    a_plain_name_is_its_own_key("bind scale to event"@);
    assert("looping sound"@.len() == 13);
    assert("location"@.len() == 8);
    assert("bind scale to event"@.len() == 19);
}

/// Whether `r`, which was `before`, holds the looping sound of `s`: the sound, where it
/// sounds, and what its scale is bound to.
pub open spec fn sounds_alike(
    env: EnvironmentView,
    layout: LayoutView,
    s: StructView,
    before: StructView,
    r: StructView,
) -> bool {
    &&& shaped_alike(r, before)
    &&& carries(env, layout, s, "looping sound"@, before, "looping sound"@, r)
    &&& carries(env, layout, s, "location"@, before, "location"@, r)
    &&& carries(env, layout, s, "bind scale to event"@, before, "bind scale to event"@, r)
}

proof fn lemma_sounds_alike(
    env: EnvironmentView,
    layout: LayoutView,
    s: StructView,
    before: StructView,
    r: StructView,
)
    requires
        has_taken_pairs(env, layout, s, before, paired(sound_keys()), sound_keys().len(), r),
    ensures
        sounds_alike(env, layout, s, before, r),
{
    let pairs = paired(sound_keys());
    assert(carries(env, layout, s, pairs[0].0, before, pairs[0].1, r));
    assert(carries(env, layout, s, pairs[1].0, before, pairs[1].1, r));
    assert(carries(env, layout, s, pairs[2].0, before, pairs[2].1, r));
}

proof fn lemma_sounds_copied(
    env: EnvironmentView,
    layout: LayoutView,
    s: StructView,
    t: StructView,
    prefix: Seq<char>,
    c: ContextView,
)
    ensures
        sounds_alike(
            env,
            layout,
            s,
            t,
            copied_keys(env, layout, s, t, sound_keys(), prefix, sound_keys().len(), c).0,
        ),
{
    lemma_sound_keys();
    let r = copied_keys(env, layout, s, t, sound_keys(), prefix, sound_keys().len(), c).0;
    assert(has_taken_pairs(
        env,
        layout,
        s,
        t,
        paired(sound_keys()),
        sound_keys().len(),
        r,
    )) by {
        every_key_carries_its_value(
            env,
            layout,
            s,
            t,
            sound_keys(),
            prefix,
            sound_keys().len(),
            c,
        );
    }
    lemma_sounds_alike(env, layout, s, t, r);
}

/// An effect with a flat looping sound has it as the one element of the target's block;
/// one whose sound names no tag has an empty block.
pub proof fn a_flat_sound_becomes_the_one_element(
    env: EnvironmentView,
    layout: LayoutView,
    s: StructView,
    b: BlockView,
    has_sound: bool,
    c: ContextView,
)
    requires
        b.struct_index < layout.structs.len(),
    ensures
        !has_sound ==> sound_in_block(env, layout, s, b, has_sound, c).0.elements.len() == 0,
        has_sound ==> {
            &&& sound_in_block(env, layout, s, b, has_sound, c).0.elements.len() == 1
            &&& sounds_alike(
                env,
                layout,
                s,
                nulled_struct(fresh_struct(layout, b.struct_index)),
                sound_in_block(env, layout, s, b, has_sound, c).0.elements[0],
            )
        },
{
    if has_sound {
        lemma_sounds_copied(
            env,
            layout,
            s,
            nulled_struct(fresh_struct(layout, b.struct_index)),
            "looping sounds[0]/"@,
            c,
        );
    }
}

/// The first of an effect's looping sounds becomes the flat one; without any, the target
/// stays as it was.
pub proof fn the_first_sound_becomes_the_flat_one(
    env: EnvironmentView,
    layout: LayoutView,
    elements: Seq<StructView>,
    t: StructView,
    c: ContextView,
)
    ensures
        elements.len() == 0 ==> first_sound(env, layout, elements, t, c).0 == t,
        elements.len() > 0 ==> sounds_alike(
            env,
            layout,
            elements[0],
            t,
            first_sound(env, layout, elements, t, c).0,
        ),
{
    if elements.len() > 0 {
        lemma_sounds_copied(env, layout, elements[0], t, Seq::empty(), c);
    }
}

}
