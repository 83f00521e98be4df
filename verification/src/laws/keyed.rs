//! Fields that are found by their keys, and values that are carried from key to key.
use crate::convert::companions::copied_pairs;
use crate::convert::environment::{EnvironmentView, reference_group};
use crate::convert::functions::converted_curve;
use crate::convert::layouts::{copied_key, copied_keys};
use crate::convert::leaves::converted_scale;
use crate::convert::matching::{field_keyed, keyed, keyed_from};
use crate::convert::report::ContextView;
use crate::convert::walk::{conv_by_type, conv_field, conv_leaf};
use crate::fields::{FieldValue, TagFieldType};
use crate::keys::{field_key, index_open};
use crate::laws::carriage::{a_plain_value_is_carried_as_it_is, plain_field};
use crate::layout::LayoutView;
use crate::tag::{ContentView, FieldView, StructView};
use vstd::prelude::*;

verus! {

// ---------------------------------------------------------------------------
// Keys
// ---------------------------------------------------------------------------
/// Whether a name is written the way keys are: no capitals, no markup, no index.
pub open spec fn plain_name(name: Seq<char>) -> bool {
    forall|i: int|
        0 <= i < name.len() ==> {
            &&& #[trigger] name[i] != '['
            &&& name[i] != '*'
            &&& name[i] != '!'
            &&& name[i] != '^'
            &&& !('A' <= name[i] <= 'Z')
        }
}

/// A name that is written the way keys are is its own key.
pub proof fn a_plain_name_is_its_own_key(name: Seq<char>)
    requires
        plain_name(name),
    ensures
        field_key(name) == name,
        !index_open(name),
    decreases name.len(),
{
    if name.len() > 0 {
        let rest = name.drop_last();
        assert forall|i: int| 0 <= i < rest.len() implies {
            &&& #[trigger] rest[i] != '['
            &&& rest[i] != '*'
            &&& rest[i] != '!'
            &&& rest[i] != '^'
            &&& !('A' <= rest[i] <= 'Z')
        } by {
            assert(rest[i] == name[i]);
        }
        a_plain_name_is_its_own_key(rest);
        assert(name[name.len() - 1] == name.last());
        assert(field_key(name) =~= name);
    }
}

proof fn lemma_keyed_from(fields: Seq<FieldView>, key: Seq<char>, from: nat)
    requires
        from <= fields.len(),
    ensures
        match keyed_from(fields, key, from) {
            Some(k) => from <= k < fields.len() && field_key(fields[k as int].name) == field_key(key)
                && forall|j: int|
                from <= j < k ==> field_key((#[trigger] fields[j]).name) != field_key(key),
            None => forall|j: int|
                from <= j < fields.len() ==> field_key((#[trigger] fields[j]).name) != field_key(
                    key,
                ),
        },
    decreases fields.len() - from,
{
    if from < fields.len() && field_key(fields[from as int].name) != field_key(key) {
        lemma_keyed_from(fields, key, from + 1);
    }
}

/// What is found under a key is the first field with that key.
pub proof fn the_first_field_of_a_key_is_found(s: StructView, key: Seq<char>)
    ensures
        match keyed(s, key) {
            Some(k) => k < s.fields.len() && field_key(s.fields[k as int].name) == field_key(key)
                && forall|j: int|
                0 <= j < k ==> field_key((#[trigger] s.fields[j]).name) != field_key(key),
            None => forall|j: int|
                0 <= j < s.fields.len() ==> field_key((#[trigger] s.fields[j]).name) != field_key(
                    key,
                ),
        },
{
    lemma_keyed_from(s.fields, key, 0);
}

pub proof fn lemma_same_names(s: StructView, t: StructView, key: Seq<char>)
    requires
        s.fields.len() == t.fields.len(),
        forall|j: int| 0 <= j < s.fields.len() ==> (#[trigger] s.fields[j]).name == t.fields[j].name,
    ensures
        keyed(s, key) == keyed(t, key),
{
    the_first_field_of_a_key_is_found(s, key);
    the_first_field_of_a_key_is_found(t, key);
    match (keyed(s, key), keyed(t, key)) {
        (Some(i), Some(j)) => {
            assert(s.fields[i as int].name == t.fields[i as int].name);
            assert(s.fields[j as int].name == t.fields[j as int].name);
            if i < j {
                assert(field_key(t.fields[i as int].name) != field_key(key));
            } else if j < i {
                assert(field_key(s.fields[j as int].name) != field_key(key));
            }
        },
        (Some(i), None) => {
            assert(s.fields[i as int].name == t.fields[i as int].name);
        },
        (None, Some(j)) => {
            assert(s.fields[j as int].name == t.fields[j as int].name);
        },
        _ => {},
    }
}

// ---------------------------------------------------------------------------
// A target field keeps its shape
// ---------------------------------------------------------------------------
/// Whether two fields are declared alike.
pub open spec fn declared_alike(a: FieldView, b: FieldView) -> bool {
    &&& a.name == b.name
    &&& a.kind_name == b.kind_name
    &&& a.field_type == b.field_type
    &&& a.options == b.options
    &&& a.data_definition == b.data_definition
}

proof fn lemma_scale_declared(
    env: EnvironmentView,
    f: FieldView,
    t: FieldView,
    path: Seq<char>,
    c: ContextView,
)
    ensures
        converted_scale(env, f, t, path, c) matches Some(done) ==> declared_alike(done.0, t),
{
}

proof fn lemma_curve_declared(
    env: EnvironmentView,
    layout: LayoutView,
    f: FieldView,
    t: FieldView,
    path: Seq<char>,
    c: ContextView,
)
    ensures
        converted_curve(env, layout, f, t, path, c) matches Some(done) ==> declared_alike(
            done.0,
            t,
        ),
{
}

proof fn lemma_leaf_declared(
    env: EnvironmentView,
    layout: LayoutView,
    f: FieldView,
    t: FieldView,
    path: Seq<char>,
    verbatim: bool,
    c: ContextView,
)
    ensures
        declared_alike(conv_leaf(env, layout, f, t, path, verbatim, c).0, t),
{
}

proof fn lemma_type_declared(
    env: EnvironmentView,
    layout: LayoutView,
    f: FieldView,
    t: FieldView,
    path: Seq<char>,
    verbatim: bool,
    c: ContextView,
)
    ensures
        declared_alike(conv_by_type(env, layout, f, t, path, verbatim, c).0, t),
{
    lemma_leaf_declared(env, layout, f, t, path, verbatim, c);
}

/// A conversion fills a target field and leaves what the target's layout says of it
/// alone: its name, its type, its options and the kind of its bytes.
pub proof fn a_target_field_keeps_its_declaration(
    env: EnvironmentView,
    layout: LayoutView,
    f: FieldView,
    t: FieldView,
    path: Seq<char>,
    verbatim: bool,
    c: ContextView,
)
    ensures
        declared_alike(conv_field(env, layout, f, t, path, verbatim, c).0, t),
{
    lemma_scale_declared(env, f, t, path, c);
    lemma_curve_declared(env, layout, f, t, path, c);
    lemma_type_declared(env, layout, f, t, path, verbatim, c);
}

// ---------------------------------------------------------------------------
// From key to key
// ---------------------------------------------------------------------------
/// Whether the value under a source key can go under a target key as it is.
pub open spec fn can_go(
    s: StructView,
    source_key: Seq<char>,
    t: StructView,
    target_key: Seq<char>,
) -> bool {
    match (field_keyed(s, source_key), field_keyed(t, target_key)) {
        (Some(f), Some(g)) => plain_field(f) && g.field_type == f.field_type,
        _ => false,
    }
}

/// Whether `h` is what the target field `g` becomes when `f` is converted into it.
#[verifier::opaque]
pub open spec fn turns_into(
    env: EnvironmentView,
    layout: LayoutView,
    f: FieldView,
    g: FieldView,
    h: FieldView,
) -> bool {
    exists|path: Seq<char>, c: ContextView|
        (#[trigger] conv_field(env, layout, f, g, path, false, c)).0 == h
}

pub proof fn lemma_turns_into(
    env: EnvironmentView,
    layout: LayoutView,
    f: FieldView,
    g: FieldView,
    path: Seq<char>,
    c: ContextView,
)
    ensures
        turns_into(env, layout, f, g, conv_field(env, layout, f, g, path, false, c).0),
{
    reveal(turns_into);
}

/// A plain value turns into itself where the target field is of its type.
pub proof fn a_plain_value_turns_into_itself(
    env: EnvironmentView,
    layout: LayoutView,
    f: FieldView,
    g: FieldView,
    h: FieldView,
)
    requires
        turns_into(env, layout, f, g, h),
        plain_field(f),
        g.field_type == f.field_type,
    ensures
        h.content == f.content,
{
    reveal(turns_into);
    let (path, c) = choose|path: Seq<char>, c: ContextView|
        (#[trigger] conv_field(env, layout, f, g, path, false, c)).0 == h;
    a_plain_value_is_carried_as_it_is(env, layout, f, g, path, false, c);
}

/// A reference turns into one to the same path, of the group that its group becomes.
pub proof fn a_reference_turns_into_one_to_the_same_path(
    env: EnvironmentView,
    layout: LayoutView,
    f: FieldView,
    g: FieldView,
    h: FieldView,
    group: u32,
    name: Seq<char>,
)
    requires
        turns_into(env, layout, f, g, h),
        f.field_type == TagFieldType::TagReference,
        g.field_type == TagFieldType::TagReference,
        f.content == ContentView::Value(FieldValue::Reference(Some((group, name)))),
        reference_group(env, group) is Ok,
    ensures
        h.content == ContentView::Value(
            FieldValue::Reference(Some((reference_group(env, group)->Ok_0, name))),
        ),
{
    reveal(turns_into);
    let (path, c) = choose|path: Seq<char>, c: ContextView|
        (#[trigger] conv_field(env, layout, f, g, path, false, c)).0 == h;
}

/// Whether the field under a target key holds what the field under a source key turns
/// into; where either is missing, it is as it was.
pub open spec fn carries(
    env: EnvironmentView,
    layout: LayoutView,
    s: StructView,
    source_key: Seq<char>,
    t: StructView,
    target_key: Seq<char>,
    r: StructView,
) -> bool {
    match (field_keyed(s, source_key), field_keyed(t, target_key)) {
        (Some(f), Some(g)) => field_keyed(r, target_key) is Some && turns_into(
            env,
            layout,
            f,
            g,
            field_keyed(r, target_key)->0,
        ),
        _ => field_keyed(r, target_key) == field_keyed(t, target_key),
    }
}

/// Whether `r` is `t` in all but what some of its fields hold.
pub open spec fn shaped_alike(r: StructView, t: StructView) -> bool {
    &&& r.fields.len() == t.fields.len()
    &&& r == (StructView { fields: r.fields, ..t })
    &&& forall|j: int|
        0 <= j < t.fields.len() ==> declared_alike(#[trigger] r.fields[j], t.fields[j])
}

/// Whether `r` is `t` with what `s` holds under the source key under the target key, and
/// otherwise as it was.
pub open spec fn has_taken(
    env: EnvironmentView,
    layout: LayoutView,
    s: StructView,
    source_key: Seq<char>,
    t: StructView,
    target_key: Seq<char>,
    r: StructView,
) -> bool {
    &&& shaped_alike(r, t)
    &&& forall|j: int|
        0 <= j < t.fields.len() && field_key(t.fields[j].name) != field_key(target_key)
            ==> #[trigger] r.fields[j] == t.fields[j]
    &&& carries(env, layout, s, source_key, t, target_key, r)
}

/// A value that is carried from one key to another arrives in the field of the target's
/// key, as it is where it is plain and the two fields have one type; every other field
/// of the target stays as it was.
pub proof fn a_value_is_carried_from_key_to_key(
    env: EnvironmentView,
    layout: LayoutView,
    s: StructView,
    source_key: Seq<char>,
    t: StructView,
    target_key: Seq<char>,
    path: Seq<char>,
    c: ContextView,
)
    ensures
        has_taken(
            env,
            layout,
            s,
            source_key,
            t,
            target_key,
            copied_key(env, layout, s, source_key, t, target_key, path, c).0,
        ),
{
    the_first_field_of_a_key_is_found(s, source_key);
    the_first_field_of_a_key_is_found(t, target_key);
    let r = copied_key(env, layout, s, source_key, t, target_key, path, c).0;
    match (keyed(s, source_key), keyed(t, target_key)) {
        (Some(i), Some(k)) => {
            let f = s.fields[i as int];
            let g = t.fields[k as int];
            let h = conv_field(env, layout, f, g, path, false, c).0;
            assert(r == (StructView { fields: t.fields.update(k as int, h), ..t }));
            a_target_field_keeps_its_declaration(env, layout, f, g, path, false, c);
            lemma_turns_into(env, layout, f, g, path, c);
            lemma_taken(env, layout, s, source_key, i, t, target_key, k, h);
        },
        _ => {},
    }
}

proof fn lemma_taken(
    env: EnvironmentView,
    layout: LayoutView,
    s: StructView,
    source_key: Seq<char>,
    i: nat,
    t: StructView,
    target_key: Seq<char>,
    k: nat,
    h: FieldView,
)
    requires
        keyed(s, source_key) == Some(i),
        keyed(t, target_key) == Some(k),
        k < t.fields.len(),
        field_key(t.fields[k as int].name) == field_key(target_key),
        declared_alike(h, t.fields[k as int]),
        turns_into(env, layout, s.fields[i as int], t.fields[k as int], h),
    ensures
        has_taken(
            env,
            layout,
            s,
            source_key,
            t,
            target_key,
            StructView { fields: t.fields.update(k as int, h), ..t },
        ),
{
    let r = StructView { fields: t.fields.update(k as int, h), ..t };
    assert forall|j: int| 0 <= j < r.fields.len() implies (#[trigger] r.fields[j]).name
        == t.fields[j].name by {}
    lemma_same_names(r, t, target_key);
}

/// Whether no two of the pairs have one target key.
pub open spec fn targets_differ(pairs: Seq<(Seq<char>, Seq<char>)>) -> bool {
    forall|p: int, q: int|
        0 <= p < q < pairs.len() ==> field_key((#[trigger] pairs[p]).1) != field_key(
            (#[trigger] pairs[q]).1,
        )
}

/// Whether `r` is `t` with what `s` holds under the source key of each of the first `n`
/// pairs under its target key, and otherwise as it was.
pub open spec fn has_taken_pairs(
    env: EnvironmentView,
    layout: LayoutView,
    s: StructView,
    t: StructView,
    pairs: Seq<(Seq<char>, Seq<char>)>,
    n: nat,
    r: StructView,
) -> bool {
    &&& shaped_alike(r, t)
    &&& forall|j: int|
        0 <= j < t.fields.len() && (forall|p: int|
            0 <= p < n ==> field_key(t.fields[j].name) != field_key((#[trigger] pairs[p]).1))
            ==> #[trigger] r.fields[j] == t.fields[j]
    &&& forall|p: int|
        0 <= p < n ==> carries(env, layout, s, (#[trigger] pairs[p]).0, t, pairs[p].1, r)
}

proof fn lemma_pair_taken(
    env: EnvironmentView,
    layout: LayoutView,
    s: StructView,
    t: StructView,
    pairs: Seq<(Seq<char>, Seq<char>)>,
    n: nat,
    t1: StructView,
    r: StructView,
)
    requires
        targets_differ(pairs),
        0 < n <= pairs.len(),
        has_taken_pairs(env, layout, s, t, pairs, (n - 1) as nat, t1),
        has_taken(env, layout, s, pairs[n - 1].0, t1, pairs[n - 1].1, r),
    ensures
        has_taken_pairs(env, layout, s, t, pairs, n, r),
{
    let target_key = pairs[n - 1].1;
    assert forall|j: int| 0 <= j < t.fields.len() implies declared_alike(
        #[trigger] r.fields[j],
        t.fields[j],
    ) by {
        assert(declared_alike(t1.fields[j], t.fields[j]));
    }
    assert forall|j: int|
        0 <= j < t.fields.len() && (forall|p: int|
            0 <= p < n ==> field_key(t.fields[j].name) != field_key((#[trigger] pairs[p]).1)) implies #[trigger] r.fields[j]
        == t.fields[j] by {
        assert(declared_alike(t1.fields[j], t.fields[j]));
        assert(field_key(t.fields[j].name) != field_key(pairs[n - 1].1));
        assert(t1.fields[j] == t.fields[j]);
    }
    assert forall|p: int| 0 <= p < n implies carries(
        env,
        layout,
        s,
        (#[trigger] pairs[p]).0,
        t,
        pairs[p].1,
        r,
    ) by {
        assert forall|j: int| 0 <= j < r.fields.len() implies (#[trigger] r.fields[j]).name
            == t.fields[j].name by {}
        assert forall|j: int| 0 <= j < t1.fields.len() implies (#[trigger] t1.fields[j]).name
            == t.fields[j].name by {}
        lemma_same_names(r, t, pairs[p].1);
        lemma_same_names(t1, t, pairs[p].1);
        the_first_field_of_a_key_is_found(t, pairs[p].1);
        if let Some(k) = keyed(t, pairs[p].1) {
            assert(declared_alike(t1.fields[k as int], t.fields[k as int]));
            if p < n - 1 {
                assert(field_key(t1.fields[k as int].name) != field_key(target_key));
                assert(r.fields[k as int] == t1.fields[k as int]);
            } else {
                assert forall|q: int| 0 <= q < n - 1 implies field_key(t.fields[k as int].name)
                    != field_key((#[trigger] pairs[q]).1) by {}
                assert(t1.fields[k as int] == t.fields[k as int]);
            }
        }
    }
}

/// Each of a list of pairs carries its value: after all of them, the field under the
/// target key of each pair holds what the source holds under its source key.
pub proof fn every_pair_carries_its_value(
    env: EnvironmentView,
    layout: LayoutView,
    s: StructView,
    t: StructView,
    pairs: Seq<(Seq<char>, Seq<char>)>,
    n: nat,
    c: ContextView,
)
    requires
        targets_differ(pairs),
        n <= pairs.len(),
    ensures
        has_taken_pairs(
            env,
            layout,
            s,
            t,
            pairs,
            n,
            copied_pairs(env, layout, s, t, pairs, n, c).0,
        ),
    decreases n,
{
    if n > 0 {
        let m = (n - 1) as nat;
        every_pair_carries_its_value(env, layout, s, t, pairs, m, c);
        let (t1, c1) = copied_pairs(env, layout, s, t, pairs, m, c);
        let (source_key, target_key) = pairs[n - 1];
        a_value_is_carried_from_key_to_key(
            env,
            layout,
            s,
            source_key,
            t1,
            target_key,
            target_key,
            c1,
        );
        let r = copied_pairs(env, layout, s, t, pairs, n, c).0;
        lemma_pair_taken(env, layout, s, t, pairs, n, t1, r);
    }
}

/// A list of keys as pairs of a key with itself.
pub open spec fn paired(keys: Seq<Seq<char>>) -> Seq<(Seq<char>, Seq<char>)> {
    Seq::new(keys.len(), |i: int| (keys[i], keys[i]))
}

/// The same for a list of keys that both sides have.
pub proof fn every_key_carries_its_value(
    env: EnvironmentView,
    layout: LayoutView,
    s: StructView,
    t: StructView,
    keys: Seq<Seq<char>>,
    prefix: Seq<char>,
    n: nat,
    c: ContextView,
)
    requires
        targets_differ(paired(keys)),
        n <= keys.len(),
    ensures
        has_taken_pairs(
            env,
            layout,
            s,
            t,
            paired(keys),
            n,
            copied_keys(env, layout, s, t, keys, prefix, n, c).0,
        ),
    decreases n,
{
    if n > 0 {
        let m = (n - 1) as nat;
        every_key_carries_its_value(env, layout, s, t, keys, prefix, m, c);
        let (t1, c1) = copied_keys(env, layout, s, t, keys, prefix, m, c);
        let key = keys[n - 1];
        a_value_is_carried_from_key_to_key(env, layout, s, key, t1, key, prefix + key, c1);
        let r = copied_keys(env, layout, s, t, keys, prefix, n, c).0;
        lemma_pair_taken(env, layout, s, t, paired(keys), n, t1, r);
    }
}

}
