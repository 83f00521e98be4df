//! The physics of a vehicle: which block of the target holds it, and what is in it.
use crate::convert::environment::EnvironmentView;
use crate::convert::layouts::{
    conv_physics, filled_fields, physics_filled, physics_in_block, physics_key,
};
use crate::convert::matching::{block_keyed, field_keyed, keyed, struct_keyed};
use crate::convert::report::ContextView;
use crate::convert::values::option_held;
use crate::fields::{TagFieldType, shapes_compatible};
use crate::keys::{field_key, joined};
use crate::laws::keyed::{
    lemma_same_names, lemma_turns_into, the_first_field_of_a_key_is_found, turns_into,
};
use crate::laws::responses::{differs_only_at, lemma_nested_set};
use crate::layout::LayoutView;
use crate::tag::{
    BlockView, ContentView, FieldView, StructView, field_is_inside, fresh_struct,
    struct_is_inside,
};
use crate::text::{lowered, trim_start, trimmed};
use vstd::prelude::*;

verus! {

/// The key of a vehicle type's block is `type-`, followed by the type's name without
/// the white space around it and in lower case, in which every space stands as `_` and
/// every other character is kept.
pub proof fn a_physics_key_spells_its_vehicle_type(name: Seq<char>, word: Seq<char>)
    requires
        word == lowered(trimmed(name)),
    ensures
        physics_key(name).len() == 5 + word.len(),
        physics_key(name)[0] == 't',
        physics_key(name)[1] == 'y',
        physics_key(name)[2] == 'p',
        physics_key(name)[3] == 'e',
        physics_key(name)[4] == '-',
        forall|i: int|
            #![trigger word[i]]
            0 <= i < word.len() ==> {
                &&& word[i] == ' ' ==> physics_key(name)[5 + i] == '_'
                &&& word[i] != ' ' ==> physics_key(name)[5 + i] == word[i]
            },
        forall|i: int| 0 <= i < physics_key(name).len() ==> #[trigger] physics_key(name)[i] != ' ',
{
    reveal_strlit("type-");
    assert("type-"@.len() == 5);
    assert forall|i: int| 0 <= i < physics_key(name).len() implies #[trigger] physics_key(name)[i]
        != ' ' by {
        if i >= 5 {
            assert(word[i - 5] == ' ' ==> physics_key(name)[i] == '_');
        }
    }
}

/// The vehicle type `human plane` has the block `type-human_plane`.
pub proof fn a_human_plane_has_its_block()
    ensures
        physics_key("human plane"@) == "type-human_plane"@,
{
    reveal_strlit("human plane");
    reveal_strlit("type-human_plane");
    reveal_strlit("type-");
    let name = "human plane"@;
    assert(name.len() == 11);
    assert(trim_start(name) == name);
    assert(trimmed(name) == name);
    assert(lowered(name) =~= name);
    assert(physics_key(name) =~= "type-human_plane"@);
}

/// Two vehicle types that differ, and not in capitals, white space around them or
/// spaces against underscores alone, have different blocks.
pub proof fn different_vehicle_types_have_different_blocks(a: Seq<char>, b: Seq<char>, i: int)
    requires
        0 <= i < lowered(trimmed(a)).len(),
        0 <= i < lowered(trimmed(b)).len(),
        lowered(trimmed(a))[i] != lowered(trimmed(b))[i],
        lowered(trimmed(a))[i] != '_',
        lowered(trimmed(b))[i] != '_',
    ensures
        physics_key(a) != physics_key(b),
{
    a_physics_key_spells_its_vehicle_type(a, lowered(trimmed(a)));
    a_physics_key_spells_its_vehicle_type(b, lowered(trimmed(b)));
    assert(physics_key(a)[5 + i] != physics_key(b)[5 + i]);
}

// ---------------------------------------------------------------------------
// The block
// ---------------------------------------------------------------------------
/// Whether `r` is the field `g` of a physics block filled from the flat source `s`: with
/// what the source's field of the same key turns into, where there is one that it can
/// hold, and as it was otherwise; structs are filled field by field.
pub open spec fn field_is_filled(
    env: EnvironmentView,
    layout: LayoutView,
    s: StructView,
    g: FieldView,
    r: FieldView,
) -> bool
    decreases g, 0nat,
{
    if g.field_type == TagFieldType::Struct {
        match g.content {
            ContentView::Struct(child) => r.content matches ContentView::Struct(filled)
                && struct_is_filled(env, layout, s, child, filled),
            _ => r == g,
        }
    } else {
        match field_keyed(s, field_key(g.name)) {
            Some(f) => if field_key(g.name).len() > 0 && shapes_compatible(
                f.field_type,
                g.field_type,
            ) {
                turns_into(env, layout, f, g, r)
            } else {
                r == g
            },
            None => r == g,
        }
    }
}

/// The same for a struct of a physics block.
pub open spec fn struct_is_filled(
    env: EnvironmentView,
    layout: LayoutView,
    s: StructView,
    t: StructView,
    r: StructView,
) -> bool
    decreases t, 1nat,
{
    r.fields.len() == t.fields.len() && forall|j: int|
        #![trigger t.fields[j]]
        #![trigger r.fields[j]]
        0 <= j < t.fields.len() ==> field_is_filled(env, layout, s, t.fields[j], r.fields[j])
}

#[verifier::rlimit(40)]
#[verifier::spinoff_prover]
proof fn lemma_filled(
    env: EnvironmentView,
    layout: LayoutView,
    s: StructView,
    t: StructView,
    path: Seq<char>,
    used: Seq<Seq<char>>,
    n: nat,
    c: ContextView,
)
    requires
        n <= t.fields.len(),
    ensures
        ({
            let r = filled_fields(env, layout, s, t, path, used, n, c).0;
            &&& r == (StructView { fields: r.fields, ..t })
            &&& r.fields.len() == t.fields.len()
            &&& forall|j: int| n <= j < t.fields.len() ==> #[trigger] r.fields[j] == t.fields[j]
            &&& forall|j: int|
                0 <= j < n ==> field_is_filled(
                    env,
                    layout,
                    s,
                    t.fields[j],
                    #[trigger] r.fields[j],
                )
        }),
    decreases t, n,
{
    if n > 0 {
        let m = (n - 1) as nat;
        lemma_filled(env, layout, s, t, path, used, m, c);
        let (t1, used1, c1) = filled_fields(env, layout, s, t, path, used, m, c);
        let g = t.fields[n - 1];
        let key = field_key(g.name);
        if g.field_type == TagFieldType::Struct {
            match g.content {
                ContentView::Struct(child) => {
                    field_is_inside(t, n - 1);
                    struct_is_inside(g, child);
                    lemma_filled(
                        env,
                        layout,
                        s,
                        child,
                        joined(path, key),
                        used1,
                        child.fields.len(),
                        c1,
                    );
                },
                _ => {},
            }
        } else if key.len() > 0 {
            the_first_field_of_a_key_is_found(s, key);
            if let Some(i) = keyed(s, key) {
                let f = s.fields[i as int];
                lemma_turns_into(env, layout, f, g, joined(path, key), c1);
            }
        }
    }
}

/// The physics block of a vehicle holds, in the first of its elements, the flat physics of
/// the source: each field what the source's field of the same key turns into.
pub proof fn a_physics_block_is_filled_from_the_flat_source(
    env: EnvironmentView,
    layout: LayoutView,
    s: StructView,
    b: BlockView,
    path: Seq<char>,
    c: ContextView,
)
    requires
        b.elements.len() > 0 || b.struct_index < layout.structs.len(),
    ensures
        ({
            let r = physics_in_block(env, layout, s, b, path, c).0;
            let before = if b.elements.len() == 0 {
                seq![fresh_struct(layout, b.struct_index)]
            } else {
                b.elements
            };
            &&& r.elements.len() == before.len()
            &&& struct_is_filled(env, layout, s, before[0], r.elements[0])
            &&& forall|i: int| 1 <= i < before.len() ==> #[trigger] r.elements[i] == before[i]
        }),
{
    let before = if b.elements.len() == 0 {
        seq![fresh_struct(layout, b.struct_index)]
    } else {
        b.elements
    };
    let e = lemma_element_filled(env, layout, s, b, path, c, before);
}

proof fn lemma_element_filled(
    env: EnvironmentView,
    layout: LayoutView,
    s: StructView,
    b: BlockView,
    path: Seq<char>,
    c: ContextView,
    before: Seq<StructView>,
) -> (e: StructView)
    requires
        b.elements.len() > 0 ==> before == b.elements,
        b.elements.len() == 0 ==> b.struct_index < layout.structs.len() && before
            == seq![fresh_struct(layout, b.struct_index)],
    ensures
        physics_in_block(env, layout, s, b, path, c).0.elements == before.update(0, e),
        struct_is_filled(env, layout, s, before[0], e),
{
    let none = Seq::<Seq<char>>::empty();
    let g = if b.elements.len() == 0 {
        b.grown(layout)
    } else {
        b
    };
    assert(g.elements =~= before);
    let n = before[0].fields.len();
    let e = lemma_struct_filled(env, layout, s, before[0], path, none, c);
    assert(physics_in_block(env, layout, s, b, path, c).0.elements == g.elements.update(0, e));
    e
}

proof fn lemma_struct_filled(
    env: EnvironmentView,
    layout: LayoutView,
    s: StructView,
    t: StructView,
    path: Seq<char>,
    used: Seq<Seq<char>>,
    c: ContextView,
) -> (e: StructView)
    ensures
        e == filled_fields(env, layout, s, t, path, used, t.fields.len(), c).0,
        struct_is_filled(env, layout, s, t, e),
{
    lemma_filled(env, layout, s, t, path, used, t.fields.len(), c);
    filled_fields(env, layout, s, t, path, used, t.fields.len(), c).0
}

proof fn lemma_block_set(t: StructView, key: Seq<char>, k: int, b: BlockView)
    requires
        keyed(t, key) == Some(k as nat),
        k >= 0,
    ensures
        k < t.fields.len(),
        block_keyed(t.with_block(k, b), key) == Some(b),
        differs_only_at(t.with_block(k, b), t, key),
{
    the_first_field_of_a_key_is_found(t, key);
    let after = t.with_block(k, b);
    assert forall|j: int| 0 <= j < after.fields.len() implies (#[trigger] after.fields[j]).name
        == t.fields[j].name by {}
    lemma_same_names(after, t, key);
}

proof fn lemma_types_filled(
    env: EnvironmentView,
    layout: LayoutView,
    s: StructView,
    types: StructView,
    key: Seq<char>,
    c: ContextView,
    b: BlockView,
)
    requires
        block_keyed(types, key) == Some(b),
    ensures
        block_keyed(physics_filled(env, layout, s, types, key, c).0, key) == Some(
            physics_in_block(env, layout, s, b, "physics types/"@ + key + "[0]"@, c).0,
        ),
        differs_only_at(physics_filled(env, layout, s, types, key, c).0, types, key),
{
    let j = keyed(types, key)->0 as int;
    let b1 = physics_in_block(env, layout, s, b, "physics types/"@ + key + "[0]"@, c).0;
    assert(physics_filled(env, layout, s, types, key, c).0 == types.with_block(j, b1));
    lemma_block_set(types, key, j, b1);
}

proof fn lemma_physics_step(
    env: EnvironmentView,
    layout: LayoutView,
    s: StructView,
    t: StructView,
    c: ContextView,
    kind: FieldView,
    name: Seq<char>,
    types: StructView,
)
    requires
        field_keyed(s, "type"@) == Some(kind),
        option_held(kind) == Some(name),
        field_keyed(s, "physics types"@) is None,
        struct_keyed(t, "physics types"@) == Some(types),
    ensures
        conv_physics(env, layout, s, t, c).0 == t.with_nested(
            keyed(t, "physics types"@)->0 as int,
            physics_filled(env, layout, s, types, physics_key(name), c).0,
        ),
{
}

/// A vehicle that names its type has its flat physics in the one block of that type, in
/// the block's first element, and in no other block.
pub proof fn a_vehicle_fills_the_block_of_its_type(
    env: EnvironmentView,
    layout: LayoutView,
    s: StructView,
    t: StructView,
    c: ContextView,
    kind: FieldView,
    name: Seq<char>,
    types: StructView,
    b: BlockView,
)
    requires
        field_keyed(s, "type"@) == Some(kind),
        option_held(kind) == Some(name),
        field_keyed(s, "physics types"@) is None,
        struct_keyed(t, "physics types"@) == Some(types),
        block_keyed(types, physics_key(name)) == Some(b),
        b.elements.len() == 0,
        b.struct_index < layout.structs.len(),
    ensures
        differs_only_at(conv_physics(env, layout, s, t, c).0, t, "physics types"@),
        struct_keyed(conv_physics(env, layout, s, t, c).0, "physics types"@) matches Some(r)
            && differs_only_at(r, types, physics_key(name)) && (block_keyed(
            r,
            physics_key(name),
        ) matches Some(filled) && filled.elements.len() == 1 && struct_is_filled(
            env,
            layout,
            s,
            fresh_struct(layout, b.struct_index),
            filled.elements[0],
        )),
{
    let key = physics_key(name);
    let k = keyed(t, "physics types"@)->0 as int;
    let r = physics_filled(env, layout, s, types, key, c).0;
    lemma_physics_step(env, layout, s, t, c, kind, name, types);
    lemma_types_filled(env, layout, s, types, key, c, b);
    lemma_nested_set(t, "physics types"@, k, r);
    a_physics_block_is_filled_from_the_flat_source(
        env,
        layout,
        s,
        b,
        "physics types/"@ + key + "[0]"@,
        c,
    );
}

}
