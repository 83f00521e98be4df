//! The melee damage of weapons: the flat layout with its three hits, and the block with
//! one element for each pair of a damage and a response.
use crate::convert::defaults::{nulled_struct, path_of};
use crate::convert::environment::{EnvironmentView, reference_group};
use crate::convert::layouts::{
    ReferencePairView, hit_name, hits_written, mapped_reference, melee_elements, melee_pairs,
    with_pair, without_hits,
};
use crate::convert::matching::{field_keyed, place_for, reference_keyed};
use crate::convert::report::ContextView;
use crate::convert::walk::{
    conv_field, conv_fields, conv_layouts, conv_struct, crosses_verbatim, same_identity,
};
use crate::fields::{FieldValue, TagFieldType};
use crate::keys::{element_path, field_key};
use crate::laws::carriage::{field_by_field, lemma_place_found};
use crate::laws::keyed::{
    a_plain_name_is_its_own_key, a_target_field_keeps_its_declaration, declared_alike,
    lemma_same_names, shaped_alike, the_first_field_of_a_key_is_found,
};
use crate::laws::responses::{differs_only_at, lemma_other_key};
use crate::layout::LayoutView;
use crate::tag::{BlockView, ContentView, FieldView, StructView, fresh_struct};
use vstd::prelude::*;

verus! {

// ---------------------------------------------------------------------------
// A target struct keeps its shape
// ---------------------------------------------------------------------------
proof fn lemma_fields_declared(
    env: EnvironmentView,
    layout: LayoutView,
    s: StructView,
    t: StructView,
    path: Seq<char>,
    root: bool,
    same_guid: bool,
    verbatim: bool,
    moved: Seq<Seq<char>>,
    n: nat,
    c: ContextView,
)
    requires
        n <= s.fields.len(),
    ensures
        shaped_alike(
            conv_fields(env, layout, s, t, path, root, same_guid, verbatim, moved, n, c).0,
            t,
        ),
    decreases n,
{
    if n > 0 {
        let m = (n - 1) as nat;
        lemma_fields_declared(env, layout, s, t, path, root, same_guid, verbatim, moved, m, c);
        let (t1, used, c1) = conv_fields(
            env,
            layout,
            s,
            t,
            path,
            root,
            same_guid,
            verbatim,
            moved,
            m,
            c,
        );
        let f = s.fields[n - 1];
        match place_for(env, s, f, t1, used, same_guid, 0) {
            None => {},
            Some(k) => {
                lemma_place_found(env, s, f, t1, used, same_guid, 0);
                let g = t1.fields[k as int];
                let c2 = if field_key(f.name) != field_key(g.name) {
                    c1.aliased()
                } else {
                    c1
                };
                let c3 = if root {
                    c2.matched_root()
                } else {
                    c2
                };
                a_target_field_keeps_its_declaration(
                    env,
                    layout,
                    f,
                    g,
                    path_of(path, f),
                    verbatim,
                    c3,
                );
                let h = conv_field(env, layout, f, g, path_of(path, f), verbatim, c3).0;
                lemma_replaced_alike(t, t1, k as int, h);
            },
        }
    }
}

proof fn lemma_replaced_alike(t: StructView, t1: StructView, k: int, h: FieldView)
    requires
        shaped_alike(t1, t),
        0 <= k < t1.fields.len(),
        declared_alike(h, t1.fields[k]),
    ensures
        shaped_alike(StructView { fields: t1.fields.update(k, h), ..t1 }, t),
{
    let r = StructView { fields: t1.fields.update(k, h), ..t1 };
    assert forall|j: int| 0 <= j < t.fields.len() implies declared_alike(
        #[trigger] r.fields[j],
        t.fields[j],
    ) by {
        assert(declared_alike(t1.fields[j], t.fields[j]));
    }
}

/// A conversion fills a target struct and leaves its shape alone: the same fields, of the
/// same names, types and options, in the same order.
pub proof fn a_target_struct_keeps_its_shape(
    env: EnvironmentView,
    layout: LayoutView,
    s: StructView,
    t: StructView,
    path: Seq<char>,
    root: bool,
    c: ContextView,
)
    requires
        field_by_field(env, root),
    ensures
        shaped_alike(conv_struct(env, layout, s, t, path, root, c).0, t),
{
    let (t1, moved, c1) = conv_layouts(env, layout, s, t, path, root, c);
    assert(t1 == t);
    lemma_fields_declared(
        env,
        layout,
        s,
        t,
        path,
        root,
        same_identity(s, t),
        crosses_verbatim(env, layout, s, t),
        moved,
        s.fields.len(),
        c1,
    );
}

// ---------------------------------------------------------------------------
// References
// ---------------------------------------------------------------------------
/// Whether the reference `value` stands under the key `key` of `r`, which was `t`: its
/// path as it is, under the group that its group becomes.
pub open spec fn refers_under(
    env: EnvironmentView,
    t: StructView,
    key: Seq<char>,
    value: Option<(u32, Seq<char>)>,
    r: StructView,
) -> bool {
    match (value, field_keyed(t, key)) {
        (Some((group, path)), Some(f)) => f.field_type == TagFieldType::TagReference
            && reference_group(env, group) is Ok ==> field_keyed(r, key) is Some && field_keyed(
            r,
            key,
        )->0.content == ContentView::Value(
            FieldValue::Reference(Some((reference_group(env, group)->Ok_0, path))),
        ),
        _ => field_keyed(r, key) == field_keyed(t, key),
    }
}

/// A reference that is mapped stands under its key, and nothing else changes.
pub proof fn a_mapped_reference_stands_under_its_key(
    env: EnvironmentView,
    t: StructView,
    key: Seq<char>,
    value: Option<(u32, Seq<char>)>,
    path: Seq<char>,
    c: ContextView,
)
    ensures
        refers_under(env, t, key, value, mapped_reference(env, t, key, value, path, c).0),
        differs_only_at(mapped_reference(env, t, key, value, path, c).0, t, key),
{
    the_first_field_of_a_key_is_found(t, key);
    let r = mapped_reference(env, t, key, value, path, c).0;
    assert forall|j: int| 0 <= j < r.fields.len() implies (#[trigger] r.fields[j]).name
        == t.fields[j].name by {}
    lemma_same_names(r, t, key);
}

// ---------------------------------------------------------------------------
// The pairs of a flat layout
// ---------------------------------------------------------------------------
/// The damage and the response of a flat layout at `which`: the weapon's own, and those
/// of its three hits.
pub open spec fn flat_pair(s: StructView, m: StructView, which: int) -> ReferencePairView {
    if which == 0 {
        (
            reference_keyed(s, "player melee damage"@),
            reference_keyed(s, "player melee response"@),
        )
    } else if which == 1 {
        (
            reference_keyed(m, "1st hit melee damage"@),
            reference_keyed(m, "1st hit melee response"@),
        )
    } else if which == 2 {
        (
            reference_keyed(m, "2nd hit melee damage"@),
            reference_keyed(m, "2nd hit melee response"@),
        )
    } else {
        (
            reference_keyed(m, "3rd hit melee damage"@),
            reference_keyed(m, "3rd hit melee response"@),
        )
    }
}

proof fn lemma_hit_names()
    ensures
        "1st hit"@ + " melee damage"@ == "1st hit melee damage"@,
        "1st hit"@ + " melee response"@ == "1st hit melee response"@,
        "2nd hit"@ + " melee damage"@ == "2nd hit melee damage"@,
        "2nd hit"@ + " melee response"@ == "2nd hit melee response"@,
        "3rd hit"@ + " melee damage"@ == "3rd hit melee damage"@,
        "3rd hit"@ + " melee response"@ == "3rd hit melee response"@,
{
    reveal_strlit("1st hit");
    reveal_strlit("2nd hit");
    reveal_strlit("3rd hit");
    reveal_strlit(" melee damage");
    reveal_strlit(" melee response");
    reveal_strlit("1st hit melee damage");
    reveal_strlit("1st hit melee response");
    reveal_strlit("2nd hit melee damage");
    reveal_strlit("2nd hit melee response");
    reveal_strlit("3rd hit melee damage");
    reveal_strlit("3rd hit melee response");
    assert("1st hit"@ + " melee damage"@ =~= "1st hit melee damage"@);
    assert("1st hit"@ + " melee response"@ =~= "1st hit melee response"@);
    assert("2nd hit"@ + " melee damage"@ =~= "2nd hit melee damage"@);
    assert("2nd hit"@ + " melee response"@ =~= "2nd hit melee response"@);
    assert("3rd hit"@ + " melee damage"@ =~= "3rd hit melee damage"@);
    assert("3rd hit"@ + " melee response"@ =~= "3rd hit melee response"@);
}

/// Whether a pair names a damage or a response.
pub open spec fn names_something(pair: ReferencePairView) -> bool {
    pair.0 is Some || pair.1 is Some
}

/// Whether `list` holds nothing twice, and holds exactly those of the first `n` pairs of
/// a flat layout that name a damage or a response.
pub open spec fn gathers(
    s: StructView,
    m: StructView,
    n: int,
    list: Seq<ReferencePairView>,
) -> bool {
    &&& list.no_duplicates()
    &&& forall|which: int|
        0 <= which < n && names_something(#[trigger] flat_pair(s, m, which)) ==> list.contains(
            flat_pair(s, m, which),
        )
    &&& forall|i: int|
        0 <= i < list.len() ==> names_something(#[trigger] list[i]) && exists|which: int|
            0 <= which < n && #[trigger] flat_pair(s, m, which) == list[i]
}

proof fn lemma_gathered_more(s: StructView, m: StructView, n: int, list: Seq<ReferencePairView>)
    requires
        n >= 0,
        gathers(s, m, n, list),
    ensures
        gathers(s, m, n + 1, with_pair(list, flat_pair(s, m, n))),
{
    let pair = flat_pair(s, m, n);
    let more = with_pair(list, pair);
    assert forall|i: int| 0 <= i < more.len() implies names_something(#[trigger] more[i]) && exists|
        which: int,
    |
        0 <= which < n + 1 && #[trigger] flat_pair(s, m, which) == more[i] by {
        if i < list.len() {
            assert(more[i] == list[i]);
            let which = choose|which: int| 0 <= which < n && #[trigger] flat_pair(s, m, which)
                == list[i];
            assert(flat_pair(s, m, which) == more[i]);
        } else {
            assert(flat_pair(s, m, n) == more[i]);
        }
    }
    assert forall|which: int|
        0 <= which < n + 1 && names_something(#[trigger] flat_pair(s, m, which)) implies more.contains(
        flat_pair(s, m, which),
    ) by {
        let p = flat_pair(s, m, which);
        if list.contains(p) {
            let i = choose|i: int| 0 <= i < list.len() && list[i] == p;
            assert(more[i] == p);
        } else {
            assert(which == n);
            assert(more[list.len() as int] == p);
        }
    }
}

/// The pairs of a flat layout are the weapon's own and those of its three hits, each
/// once, without those that name nothing.
pub proof fn every_pair_is_gathered_once(s: StructView, m: StructView)
    ensures
        gathers(s, m, 4, melee_pairs(s, m)),
{
    lemma_hit_names();
    let none = Seq::<ReferencePairView>::empty();
    assert(gathers(s, m, 0, none));
    lemma_gathered_more(s, m, 0, none);
    let one = with_pair(none, flat_pair(s, m, 0));
    lemma_gathered_more(s, m, 1, one);
    let two = with_pair(one, flat_pair(s, m, 1));
    lemma_gathered_more(s, m, 2, two);
    let three = with_pair(two, flat_pair(s, m, 2));
    lemma_gathered_more(s, m, 3, three);
    assert(melee_pairs(s, m) == with_pair(three, flat_pair(s, m, 3)));
}

// ---------------------------------------------------------------------------
// From the flat layout into the block
// ---------------------------------------------------------------------------
/// Whether the element `e` holds the references of a pair, where the fresh element has
/// the fields for them.
pub open spec fn holds_pair(
    env: EnvironmentView,
    fresh: StructView,
    pair: ReferencePairView,
    e: StructView,
) -> bool {
    &&& shaped_alike(e, fresh)
    &&& pair.0 matches Some((group, path)) ==> (field_keyed(fresh, "melee damage"@) matches Some(f)
        && f.field_type == TagFieldType::TagReference && reference_group(env, group) is Ok ==> (
    field_keyed(e, "melee damage"@) matches Some(g) && g.content == ContentView::Value(
        FieldValue::Reference(Some((reference_group(env, group)->Ok_0, path))),
    )))
    &&& pair.1 matches Some((group, path)) ==> (field_keyed(
        fresh,
        "melee response"@,
    ) matches Some(f) && f.field_type == TagFieldType::TagReference && reference_group(env, group) is Ok
        ==> (field_keyed(e, "melee response"@) matches Some(g) && g.content == ContentView::Value(
        FieldValue::Reference(Some((reference_group(env, group)->Ok_0, path))),
    )))
}

proof fn lemma_melee_keys()
    ensures
        field_key("melee damage"@) != field_key("melee response"@),
{
    reveal_strlit("melee damage");
    reveal_strlit("melee response");
    a_plain_name_is_its_own_key("melee damage"@);
    a_plain_name_is_its_own_key("melee response"@);
    assert("melee damage"@.len() == 12);
    assert("melee response"@.len() == 14);
}

proof fn lemma_pair_held(
    env: EnvironmentView,
    fresh: StructView,
    pair: ReferencePairView,
    e: StructView,
    e1: StructView,
    e2: StructView,
)
    requires
        shaped_alike(e, fresh),
        refers_under(env, e, "melee damage"@, pair.0, e1),
        differs_only_at(e1, e, "melee damage"@),
        refers_under(env, e1, "melee response"@, pair.1, e2),
        differs_only_at(e2, e1, "melee response"@),
    ensures
        holds_pair(env, fresh, pair, e2),
{
    lemma_melee_keys();
    assert forall|j: int| 0 <= j < fresh.fields.len() implies declared_alike(
        #[trigger] e2.fields[j],
        fresh.fields[j],
    ) by {
        assert(declared_alike(e1.fields[j], e.fields[j]));
        assert(declared_alike(e.fields[j], fresh.fields[j]));
    }
    assert forall|j: int| 0 <= j < e.fields.len() implies (#[trigger] e.fields[j]).name
        == fresh.fields[j].name by {}
    lemma_same_names(e, fresh, "melee damage"@);
    lemma_same_names(e, fresh, "melee response"@);
    the_first_field_of_a_key_is_found(fresh, "melee damage"@);
    the_first_field_of_a_key_is_found(fresh, "melee response"@);
    lemma_other_key(e1, e, "melee damage"@, "melee response"@);
    lemma_other_key(e2, e1, "melee response"@, "melee damage"@);
}

proof fn lemma_melee_added(
    env: EnvironmentView,
    layout: LayoutView,
    m: StructView,
    b: BlockView,
    pairs: Seq<ReferencePairView>,
    n: nat,
    c: ContextView,
) -> (r: (BlockView, StructView))
    requires
        0 < n <= pairs.len(),
        b.struct_index < layout.structs.len(),
        env.group_name != "model_animation_graph"@,
        melee_elements(env, layout, m, b, pairs, (n - 1) as nat, c).0.struct_index
            == b.struct_index,
    ensures
        r.0 == melee_elements(env, layout, m, b, pairs, (n - 1) as nat, c).0,
        melee_elements(env, layout, m, b, pairs, n, c).0 == (BlockView {
            elements: r.0.elements.push(r.1),
            ..r.0
        }),
        holds_pair(
            env,
            nulled_struct(fresh_struct(layout, b.struct_index)),
            pairs[n - 1],
            r.1,
        ),
{
    let index = (n - 1) as nat;
    let path = element_path("melee damage parameters"@, index);
    let (b1, c1) = melee_elements(env, layout, m, b, pairs, index, c);
    let at = b1.elements.len() as int;
    let g = b1.grown(layout);
    let fresh = nulled_struct(fresh_struct(layout, b.struct_index));
    assert(g.elements[at] == fresh_struct(layout, b.struct_index));
    let (e, c2) = conv_struct(env, layout, m, fresh, path, false, c1);
    let (e1, c3) = mapped_reference(
        env,
        e,
        "melee damage"@,
        pairs[index as int].0,
        path + "/melee damage"@,
        without_hits(c2, index),
    );
    let (e2, c4) = mapped_reference(
        env,
        e1,
        "melee response"@,
        pairs[index as int].1,
        path + "/melee response"@,
        c3,
    );
    assert(melee_elements(env, layout, m, b, pairs, n, c).0 == (BlockView {
        elements: g.elements.update(at, e2),
        ..g
    }));
    assert(g.elements.update(at, e2) =~= b1.elements.push(e2));
    assert(shaped_alike(e, fresh)) by {
        a_target_struct_keeps_its_shape(env, layout, m, fresh, path, false, c1);
    }
    a_mapped_reference_stands_under_its_key(
        env,
        e,
        "melee damage"@,
        pairs[index as int].0,
        path + "/melee damage"@,
        without_hits(c2, index),
    );
    a_mapped_reference_stands_under_its_key(
        env,
        e1,
        "melee response"@,
        pairs[index as int].1,
        path + "/melee response"@,
        c3,
    );
    lemma_pair_held(env, fresh, pairs[index as int], e, e1, e2);
    (b1, e2)
}

/// Each pair of a flat layout becomes an element of its own, in their order: element `i`
/// of those added holds the damage and the response of pair `i`.
pub proof fn every_pair_becomes_its_own_element(
    env: EnvironmentView,
    layout: LayoutView,
    m: StructView,
    b: BlockView,
    pairs: Seq<ReferencePairView>,
    n: nat,
    c: ContextView,
)
    requires
        n <= pairs.len(),
        b.struct_index < layout.structs.len(),
        env.group_name != "model_animation_graph"@,
    ensures
        ({
            let r = melee_elements(env, layout, m, b, pairs, n, c).0;
            &&& r == (BlockView { elements: r.elements, ..b })
            &&& r.elements.len() == b.elements.len() + n
            &&& forall|i: int|
                0 <= i < b.elements.len() ==> #[trigger] r.elements[i] == b.elements[i]
            &&& forall|i: int|
                #![trigger pairs[i]]
                0 <= i < n ==> holds_pair(
                    env,
                    nulled_struct(fresh_struct(layout, b.struct_index)),
                    pairs[i],
                    r.elements[b.elements.len() + i],
                )
        }),
    decreases n,
{
    if n > 0 {
        every_pair_becomes_its_own_element(env, layout, m, b, pairs, (n - 1) as nat, c);
        let (b1, e) = lemma_melee_added(env, layout, m, b, pairs, n, c);
        let r = melee_elements(env, layout, m, b, pairs, n, c).0;
        let fresh = nulled_struct(fresh_struct(layout, b.struct_index));
        assert forall|i: int| #![trigger pairs[i]] 0 <= i < n implies holds_pair(
            env,
            fresh,
            pairs[i],
            r.elements[b.elements.len() + i],
        ) by {
            if i < n - 1 {
                assert(r.elements[b.elements.len() + i] == b1.elements[b.elements.len() + i]);
            }
        }
    }
}

// ---------------------------------------------------------------------------
// From the block into the flat layout
// ---------------------------------------------------------------------------
/// The name of the field of a flat layout that holds the damage of element `i`.
pub open spec fn flat_damage(i: int) -> Seq<char> {
    if i == 0 {
        "1st hit melee damage"@
    } else if i == 1 {
        "2nd hit melee damage"@
    } else {
        "3rd hit melee damage"@
    }
}

/// The name of the field of a flat layout that holds the response of element `i`.
pub open spec fn flat_response(i: int) -> Seq<char> {
    if i == 0 {
        "1st hit melee response"@
    } else if i == 1 {
        "2nd hit melee response"@
    } else {
        "3rd hit melee response"@
    }
}

proof fn lemma_flat_names()
    ensures
        forall|i: int| 0 <= i < 3 ==> #[trigger] flat_damage(i) == hit_name(i) + " melee damage"@,
        forall|i: int|
            0 <= i < 3 ==> #[trigger] flat_response(i) == hit_name(i) + " melee response"@,
        forall|i: int, j: int|
            0 <= i < 3 && 0 <= j < 3 ==> field_key(#[trigger] flat_damage(i)) != field_key(
                #[trigger] flat_response(j),
            ),
        forall|i: int, j: int|
            0 <= i < j < 3 ==> field_key(#[trigger] flat_damage(i)) != field_key(
                #[trigger] flat_damage(j),
            ),
        forall|i: int, j: int|
            0 <= i < j < 3 ==> field_key(#[trigger] flat_response(i)) != field_key(
                #[trigger] flat_response(j),
            ),
{
    lemma_hit_names();
    reveal_strlit("1st hit melee damage");
    reveal_strlit("1st hit melee response");
    reveal_strlit("2nd hit melee damage");
    reveal_strlit("2nd hit melee response");
    reveal_strlit("3rd hit melee damage");
    reveal_strlit("3rd hit melee response");
    a_plain_name_is_its_own_key("1st hit melee damage"@);
    a_plain_name_is_its_own_key("1st hit melee response"@);
    a_plain_name_is_its_own_key("2nd hit melee damage"@);
    a_plain_name_is_its_own_key("2nd hit melee response"@);
    a_plain_name_is_its_own_key("3rd hit melee damage"@);
    a_plain_name_is_its_own_key("3rd hit melee response"@);
    assert("1st hit melee damage"@.len() == 20 && "1st hit melee damage"@[0] == '1');
    assert("2nd hit melee damage"@.len() == 20 && "2nd hit melee damage"@[0] == '2');
    assert("3rd hit melee damage"@.len() == 20 && "3rd hit melee damage"@[0] == '3');
    assert("1st hit melee response"@.len() == 22 && "1st hit melee response"@[0] == '1');
    assert("2nd hit melee response"@.len() == 22 && "2nd hit melee response"@[0] == '2');
    assert("3rd hit melee response"@.len() == 22 && "3rd hit melee response"@[0] == '3');
}

/// Whether the hits of a flat layout, which was `m`, hold the pairs of the first `n`
/// elements, each its own.
pub open spec fn hits_hold(
    env: EnvironmentView,
    elements: Seq<StructView>,
    m: StructView,
    n: int,
    r: StructView,
) -> bool {
    &&& shaped_alike(r, m)
    &&& forall|i: int|
        0 <= i < n ==> refers_under(
            env,
            m,
            #[trigger] flat_damage(i),
            reference_keyed(elements[i], "melee damage"@),
            r,
        )
    &&& forall|i: int|
        0 <= i < n ==> refers_under(
            env,
            m,
            #[trigger] flat_response(i),
            reference_keyed(elements[i], "melee response"@),
            r,
        )
    &&& forall|i: int|
        n <= i < 3 ==> field_keyed(r, #[trigger] flat_damage(i)) == field_keyed(m, flat_damage(i))
    &&& forall|i: int|
        n <= i < 3 ==> field_keyed(r, #[trigger] flat_response(i)) == field_keyed(
            m,
            flat_response(i),
        )
}

/// The pairs of the first elements of a block become the hits of the flat layout, in
/// their order: the first element's damage and response those of the first hit, and so
/// on.
pub proof fn every_element_becomes_its_own_hit(
    env: EnvironmentView,
    elements: Seq<StructView>,
    m: StructView,
    n: nat,
    c: ContextView,
)
    requires
        n <= elements.len(),
        n <= 3,
    ensures
        hits_hold(env, elements, m, n as int, hits_written(env, elements, m, n, c).0),
    decreases n,
{
    if n > 0 {
        let i = n - 1;
        every_element_becomes_its_own_hit(env, elements, m, i as nat, c);
        lemma_flat_names();
        let (m1, c1) = hits_written(env, elements, m, i as nat, c);
        let damage = flat_damage(i);
        let response = flat_response(i);
        assert(damage == hit_name(i) + " melee damage"@);
        assert(response == hit_name(i) + " melee response"@);
        let first = reference_keyed(elements[i], "melee damage"@);
        let second = reference_keyed(elements[i], "melee response"@);
        let path = "melee damage parameters/"@ + damage;
        let (m2, c2) = mapped_reference(env, m1, damage, first, path, c1);
        a_mapped_reference_stands_under_its_key(env, m1, damage, first, path, c1);
        let path2 = "melee damage parameters/"@ + response;
        let m3 = mapped_reference(env, m2, response, second, path2, c2).0;
        a_mapped_reference_stands_under_its_key(env, m2, response, second, path2, c2);
        assert(hits_written(env, elements, m, n, c).0 == m3);
        lemma_hit_held(env, elements, m, i, m1, m2, m3);
    }
}

proof fn lemma_hit_held(
    env: EnvironmentView,
    elements: Seq<StructView>,
    m: StructView,
    i: int,
    m1: StructView,
    m2: StructView,
    m3: StructView,
)
    requires
        0 <= i < 3,
        hits_hold(env, elements, m, i, m1),
        refers_under(env, m1, flat_damage(i), reference_keyed(elements[i], "melee damage"@), m2),
        differs_only_at(m2, m1, flat_damage(i)),
        refers_under(
            env,
            m2,
            flat_response(i),
            reference_keyed(elements[i], "melee response"@),
            m3,
        ),
        differs_only_at(m3, m2, flat_response(i)),
    ensures
        hits_hold(env, elements, m, i + 1, m3),
{
    lemma_flat_names();
    assert forall|j: int| 0 <= j < m.fields.len() implies declared_alike(
        #[trigger] m3.fields[j],
        m.fields[j],
    ) by {
        assert(declared_alike(m2.fields[j], m1.fields[j]));
        assert(declared_alike(m1.fields[j], m.fields[j]));
    }
    assert forall|k: int| 0 <= k < 3 && k != i implies field_keyed(m3, #[trigger] flat_damage(k))
        == field_keyed(m1, flat_damage(k)) by {
        assert(field_key(flat_damage(k)) != field_key(flat_damage(i)));
        assert(field_key(flat_damage(k)) != field_key(flat_response(i)));
        lemma_other_key(m2, m1, flat_damage(i), flat_damage(k));
        lemma_other_key(m3, m2, flat_response(i), flat_damage(k));
    }
    assert forall|k: int| 0 <= k < 3 && k != i implies field_keyed(m3, #[trigger] flat_response(k))
        == field_keyed(m1, flat_response(k)) by {
        assert(field_key(flat_damage(i)) != field_key(flat_response(k)));
        assert(field_key(flat_response(k)) != field_key(flat_response(i)));
        lemma_other_key(m2, m1, flat_damage(i), flat_response(k));
        lemma_other_key(m3, m2, flat_response(i), flat_response(k));
    }
    assert(field_key(flat_damage(i)) != field_key(flat_response(i)));
    lemma_other_key(m3, m2, flat_response(i), flat_damage(i));
    lemma_other_key(m2, m1, flat_damage(i), flat_response(i));
    assert(field_keyed(m1, flat_damage(i)) == field_keyed(m, flat_damage(i)));
    assert(field_keyed(m1, flat_response(i)) == field_keyed(m, flat_response(i)));
}

}
