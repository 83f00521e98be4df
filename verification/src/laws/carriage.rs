//! The walk of a conversion carries each value to the place where it belongs: field to
//! field, element to element, in every depth.
use crate::convert::defaults::{nulled_struct, path_of};
use crate::convert::environment::EnvironmentView;
use crate::convert::matching::{names_pair, pairs, place_for};
use crate::convert::report::{ContextView, ConversionIssueKind};
use crate::convert::traces::typed;
use crate::convert::walk::{
    conv_by_type, conv_elements, conv_field, conv_fields, conv_items, conv_layouts, conv_struct,
    crosses_verbatim, fitting, same_identity,
};
use crate::fields::{FieldValue, TagFieldType, integer_fits, integer_type, real_scalar};
use crate::keys::{element_path, field_key};
use crate::laws::keyed::declared_alike;
use crate::layout::LayoutView;
use crate::single::finite_real;
use crate::tag::{
    BlockView, ContentView, FieldView, StructView, elements_are_inside, field_is_inside,
    fresh_struct, items_are_inside, struct_is_inside,
};
use crate::text::{decimal, same_ignoring_case};
use vstd::prelude::*;

verus! {

// ---------------------------------------------------------------------------
// Plain values
// ---------------------------------------------------------------------------
/// Whether a field of type `t` holds a value of its own, and one that means the same
/// in every game: no struct, no list, no reference, no option and no opaque bytes.
pub open spec fn plain_type(t: TagFieldType) -> bool {
    match t {
        TagFieldType::Struct
        | TagFieldType::Block
        | TagFieldType::Array
        | TagFieldType::PageableResource
        | TagFieldType::ApiInterop
        | TagFieldType::TagReference
        | TagFieldType::CharEnum
        | TagFieldType::ShortEnum
        | TagFieldType::LongEnum
        | TagFieldType::ByteFlags
        | TagFieldType::WordFlags
        | TagFieldType::LongFlags
        | TagFieldType::Data
        | TagFieldType::Custom => false,
        _ => true,
    }
}

/// Whether a field holds such a value: an integer of its type, a finite real number, a
/// vector, a colour, or a text that its type has room for.
pub open spec fn plain_field(f: FieldView) -> bool {
    &&& plain_type(f.field_type)
    &&& typed(f)
    &&& match f.content {
        ContentView::Value(FieldValue::Number { kind, value }) => integer_type(kind)
            ==> integer_fits(kind, value),
        ContentView::Value(FieldValue::Reals { kind, bits }) => real_scalar(kind) ==> bits.len()
            == 1 && finite_real(bits[0]),
        ContentView::Value(FieldValue::Shorts { .. }) => true,
        ContentView::Value(FieldValue::Text { kind, text }) => {
            &&& kind == TagFieldType::String ==> vstd::utf8::encode_utf8(text).len() <= 31
            &&& kind == TagFieldType::LongString ==> vstd::utf8::encode_utf8(text).len() <= 255
        },
        _ => false,
    }
}

/// A plain value goes into a field of the same type as it is, and nothing else of the
/// target field changes.
pub proof fn a_plain_value_is_carried_as_it_is(
    env: EnvironmentView,
    layout: LayoutView,
    f: FieldView,
    t: FieldView,
    path: Seq<char>,
    verbatim: bool,
    c: ContextView,
)
    requires
        plain_field(f),
        t.field_type == f.field_type,
    ensures
        conv_field(env, layout, f, t, path, verbatim, c).0 == (FieldView {
            content: f.content,
            ..t
        }),
        conv_field(env, layout, f, t, path, verbatim, c).1.report.issues == c.report.issues,
{
    match f.content {
        ContentView::Value(FieldValue::Reals { kind, bits }) => {
            if real_scalar(kind) {
                assert(seq![bits[0]] =~= bits);
            }
        },
        _ => {},
    }
}

// ---------------------------------------------------------------------------
// Trees of one shape
// ---------------------------------------------------------------------------
/// Whether the field `f` can be carried whole into the field `t`: the two have one name
/// and one type, what `f` holds is plain in every depth, and `t` has room for it.
pub open spec fn fits_into(layout: LayoutView, f: FieldView, t: FieldView) -> bool
    decreases f, 0nat,
{
    &&& f.name == t.name
    &&& field_key(f.name).len() > 0
    &&& f.field_type == t.field_type
    &&& match (f.content, t.content) {
        (ContentView::Struct(s), ContentView::Struct(u)) => f.field_type == TagFieldType::Struct
            && struct_fits_into(layout, s, u),
        (ContentView::Block(b), ContentView::Block(u)) => f.field_type == TagFieldType::Block
            && b.elements.len() <= u.max_count && elements_fit_into(
            layout,
            b.elements,
            nulled_struct(fresh_struct(layout, u.struct_index)),
        ) && u.struct_index < layout.structs.len(),
        (ContentView::Array(a), ContentView::Array(u)) => f.field_type == TagFieldType::Array
            && items_fit_into(layout, a, u),
        _ => plain_field(f),
    }
}

/// The same for two structs: field by field.
pub open spec fn struct_fits_into(layout: LayoutView, s: StructView, t: StructView) -> bool
    decreases s, 1nat,
{
    s.fields.len() == t.fields.len() && forall|k: int|
        #![trigger s.fields[k]]
        #![trigger t.fields[k]]
        0 <= k < s.fields.len() ==> fits_into(layout, s.fields[k], t.fields[k])
}

/// The same for elements that each go into a copy of `t`.
pub open spec fn elements_fit_into(layout: LayoutView, a: Seq<StructView>, t: StructView) -> bool
    decreases a, 0nat,
{
    forall|i: int| 0 <= i < a.len() ==> struct_fits_into(layout, #[trigger] a[i], t)
}

/// The same for the items of two arrays.
pub open spec fn items_fit_into(layout: LayoutView, a: Seq<StructView>, t: Seq<StructView>) -> bool
    decreases a, 0nat,
{
    a.len() == t.len() && forall|i: int|
        0 <= i < a.len() ==> struct_fits_into(layout, #[trigger] a[i], t[i])
}

/// Whether the field `r` holds what the field `f` holds: the same value, or structs that
/// hold the same, one for one and place for place.
pub open spec fn holds_the_same(f: FieldView, r: FieldView) -> bool
    decreases f, 0nat,
{
    match f.content {
        ContentView::Struct(s) => r.content matches ContentView::Struct(u)
            && struct_holds_the_same(s, u),
        ContentView::Block(b) => r.content matches ContentView::Block(u) && items_hold_the_same(
            b.elements,
            u.elements,
        ),
        ContentView::Array(a) => r.content matches ContentView::Array(u) && items_hold_the_same(
            a,
            u,
        ),
        _ => r.content == f.content,
    }
}

/// The same for two structs.
pub open spec fn struct_holds_the_same(s: StructView, r: StructView) -> bool
    decreases s, 1nat,
{
    r.fields.len() == s.fields.len() && forall|k: int|
        #![trigger s.fields[k]]
        #![trigger r.fields[k]]
        0 <= k < s.fields.len() ==> holds_the_same(s.fields[k], r.fields[k])
}

/// The same for two lists of structs.
pub open spec fn items_hold_the_same(a: Seq<StructView>, r: Seq<StructView>) -> bool
    decreases a, 0nat,
{
    r.len() == a.len() && forall|i: int|
        #![trigger a[i]]
        #![trigger r[i]]
        0 <= i < a.len() ==> struct_holds_the_same(a[i], r[i])
}

/// Whether a struct of this tag is in a layout that is brought across field by field.
pub open spec fn field_by_field(env: EnvironmentView, root: bool) -> bool {
    &&& env.group_name != "model_animation_graph"@
    &&& root ==> {
        &&& !same_ignoring_case(env.group_name, "weapon"@)
        &&& !same_ignoring_case(env.group_name, "effect"@)
        &&& !same_ignoring_case(env.group_name, "vehicle"@)
        &&& !same_ignoring_case(env.group_name, "damage_effect"@)
    }
}

// ---------------------------------------------------------------------------
// Where a field goes
// ---------------------------------------------------------------------------
proof fn lemma_place_for(
    env: EnvironmentView,
    s: StructView,
    f: FieldView,
    t: StructView,
    used: Seq<bool>,
    same_guid: bool,
    from: nat,
    k: nat,
)
    requires
        from <= k < t.fields.len(),
        !used[k as int],
        pairs(env, s, f, t, t.fields[k as int], same_guid),
        forall|j: int|
            from <= j < k ==> #[trigger] used[j] || !pairs(env, s, f, t, t.fields[j], same_guid),
    ensures
        place_for(env, s, f, t, used, same_guid, from) == Some(k),
    decreases k - from,
{
    if from < k {
        assert(used[from as int] || !pairs(env, s, f, t, t.fields[from as int], same_guid));
        lemma_place_for(env, s, f, t, used, same_guid, from + 1, k);
    }
}

pub proof fn lemma_place_found(
    env: EnvironmentView,
    s: StructView,
    f: FieldView,
    t: StructView,
    used: Seq<bool>,
    same_guid: bool,
    from: nat,
)
    ensures
        match place_for(env, s, f, t, used, same_guid, from) {
            Some(k) => from <= k < t.fields.len() && !used[k as int] && pairs(
                env,
                s,
                f,
                t,
                t.fields[k as int],
                same_guid,
            ) && forall|j: int|
                from <= j < k ==> #[trigger] used[j] || !pairs(
                    env,
                    s,
                    f,
                    t,
                    t.fields[j],
                    same_guid,
                ),
            None => forall|j: int|
                from <= j < t.fields.len() ==> #[trigger] used[j] || !pairs(
                    env,
                    s,
                    f,
                    t,
                    t.fields[j],
                    same_guid,
                ),
        },
    decreases t.fields.len() - from,
{
    if from < t.fields.len() && (used[from as int] || !pairs(
        env,
        s,
        f,
        t,
        t.fields[from as int],
        same_guid,
    )) {
        lemma_place_found(env, s, f, t, used, same_guid, from + 1);
    }
}

/// A field goes to the first field of the target that is still free, has its name and
/// can hold it.
pub proof fn a_field_goes_to_the_first_free_counterpart(
    env: EnvironmentView,
    s: StructView,
    f: FieldView,
    t: StructView,
    used: Seq<bool>,
    same_guid: bool,
    k: nat,
)
    requires
        k < t.fields.len(),
        !used[k as int],
        field_key(f.name).len() > 0,
        field_key(f.name) == field_key(t.fields[k as int].name),
        f.field_type == t.fields[k as int].field_type,
        forall|j: int|
            0 <= j < k ==> #[trigger] used[j] || !names_pair(env, s, f, t, t.fields[j]),
    ensures
        place_for(env, s, f, t, used, same_guid, 0) == Some(k),
{
    assert(pairs(env, s, f, t, t.fields[k as int], same_guid));
    assert forall|j: int| 0 <= j < k implies #[trigger] used[j] || !pairs(
        env,
        s,
        f,
        t,
        t.fields[j],
        same_guid,
    ) by {}
    lemma_place_for(env, s, f, t, used, same_guid, 0, k);
}

// ---------------------------------------------------------------------------
// Every depth
// ---------------------------------------------------------------------------
#[verifier::rlimit(40)]
#[verifier::spinoff_prover]
proof fn lemma_fields_kept(
    env: EnvironmentView,
    layout: LayoutView,
    s: StructView,
    t: StructView,
    path: Seq<char>,
    root: bool,
    same_guid: bool,
    verbatim: bool,
    moved: Seq<Seq<char>>,
    n: nat,
    c: ContextView,
)
    requires
        struct_fits_into(layout, s, t),
        n <= s.fields.len(),
        env.group_name != "model_animation_graph"@,
    ensures
        ({
            let r = conv_fields(env, layout, s, t, path, root, same_guid, verbatim, moved, n, c);
            &&& r.0 == (StructView { fields: r.0.fields, ..t })
            &&& r.0.fields.len() == t.fields.len()
            &&& r.1.len() == t.fields.len()
            &&& forall|k: int| 0 <= k < t.fields.len() ==> #[trigger] r.1[k] == (k < n)
            &&& forall|k: int| n <= k < t.fields.len() ==> #[trigger] r.0.fields[k] == t.fields[k]
            &&& forall|k: int|
                0 <= k < n ==> holds_the_same(s.fields[k], #[trigger] r.0.fields[k])
            &&& forall|k: int|
                0 <= k < n ==> (FieldView {
                    content: t.fields[k].content,
                    ..(#[trigger] r.0.fields[k])
                }) == t.fields[k]
        }),
    decreases s, 1nat, n,
{
    if n > 0 {
        let m = (n - 1) as nat;
        lemma_fields_kept(env, layout, s, t, path, root, same_guid, verbatim, moved, m, c);
        let (t1, used, c1) = conv_fields(
            env,
            layout,
            s,
            t,
            path,
            root,
            same_guid,
            verbatim,
            moved,
            m,
            c,
        );
        let f = s.fields[n - 1];
        let g = t1.fields[n - 1];
        assert(g == t.fields[n - 1]);
        assert(fits_into(layout, f, g));
        assert forall|j: int| 0 <= j < m implies #[trigger] used[j] || !names_pair(
            env,
            s,
            f,
            t1,
            t1.fields[j],
        ) by {}
        a_field_goes_to_the_first_free_counterpart(env, s, f, t1, used, same_guid, m);
        let c3 = if root {
            c1.matched_root()
        } else {
            c1
        };
        field_is_inside(s, n - 1);
        lemma_field_kept(env, layout, f, g, path_of(path, f), verbatim, c3);
    }
}

proof fn lemma_field_kept(
    env: EnvironmentView,
    layout: LayoutView,
    f: FieldView,
    t: FieldView,
    path: Seq<char>,
    verbatim: bool,
    c: ContextView,
)
    requires
        fits_into(layout, f, t),
        env.group_name != "model_animation_graph"@,
    ensures
        holds_the_same(f, conv_field(env, layout, f, t, path, verbatim, c).0),
        (FieldView {
            content: t.content,
            ..conv_field(env, layout, f, t, path, verbatim, c).0
        }) == t,
    decreases f, 2nat, 0nat,
{
    match (f.content, t.content) {
        (ContentView::Struct(s), ContentView::Struct(u)) => {
            struct_is_inside(f, s);
            lemma_struct_kept(env, layout, s, u, path, false, c);
        },
        (ContentView::Block(b), ContentView::Block(u)) => {
            elements_are_inside(f, b);
            lemma_elements_kept(
                env,
                layout,
                b.elements,
                u.cleared(),
                path,
                b.elements.len(),
                c,
            );
            let r = conv_elements(
                env,
                layout,
                b.elements,
                u.cleared(),
                path,
                b.elements.len(),
                c,
            ).0;
            assert(items_hold_the_same(b.elements, r.elements)) by {
                assert forall|i: int|
                    #![trigger b.elements[i]]
                    #![trigger r.elements[i]]
                    0 <= i < b.elements.len() implies struct_holds_the_same(
                    b.elements[i],
                    r.elements[i],
                ) by {
                    assert(struct_holds_the_same(b.elements[i], r.elements[0 + i]));
                }
            }
        },
        (ContentView::Array(a), ContentView::Array(u)) => {
            items_are_inside(f, a);
            lemma_items_kept(env, layout, a, u, path, a.len(), c);
            let r = conv_items(env, layout, a, u, path, a.len(), c).0;
            assert(items_hold_the_same(a, r)) by {
                assert forall|i: int|
                    #![trigger a[i]]
                    #![trigger r[i]]
                    0 <= i < a.len() implies struct_holds_the_same(a[i], r[i]) by {
                    assert(struct_holds_the_same(a[i], r[i]));
                }
            }
        },
        _ => {
            a_plain_value_is_carried_as_it_is(env, layout, f, t, path, verbatim, c);
        },
    }
}

proof fn lemma_struct_kept(
    env: EnvironmentView,
    layout: LayoutView,
    s: StructView,
    t: StructView,
    path: Seq<char>,
    root: bool,
    c: ContextView,
)
    requires
        struct_fits_into(layout, s, t),
        field_by_field(env, root),
    ensures
        struct_holds_the_same(s, conv_struct(env, layout, s, t, path, root, c).0),
    decreases s, 2nat, 0nat,
{
    let (t1, moved, c1) = conv_layouts(env, layout, s, t, path, root, c);
    assert(t1 == t);
    lemma_fields_kept(
        env,
        layout,
        s,
        t,
        path,
        root,
        same_identity(s, t),
        crosses_verbatim(env, layout, s, t),
        moved,
        s.fields.len(),
        c1,
    );
    let r = conv_fields(
        env,
        layout,
        s,
        t,
        path,
        root,
        same_identity(s, t),
        crosses_verbatim(env, layout, s, t),
        moved,
        s.fields.len(),
        c1,
    );
    assert forall|k: int| 0 <= k < s.fields.len() implies #[trigger] holds_the_same(
        s.fields[k],
        r.0.fields[k],
    ) by {}
}

proof fn lemma_elements_kept(
    env: EnvironmentView,
    layout: LayoutView,
    elements: Seq<StructView>,
    b: BlockView,
    path: Seq<char>,
    n: nat,
    c: ContextView,
)
    requires
        b.struct_index < layout.structs.len(),
        elements_fit_into(
            layout,
            elements,
            nulled_struct(fresh_struct(layout, b.struct_index)),
        ),
        n <= elements.len(),
        env.group_name != "model_animation_graph"@,
    ensures
        conv_elements(env, layout, elements, b, path, n, c).0.elements.len() == b.elements.len()
            + n,
        conv_elements(env, layout, elements, b, path, n, c).0 == (BlockView {
            elements: conv_elements(env, layout, elements, b, path, n, c).0.elements,
            ..b
        }),
        forall|i: int|
            0 <= i < b.elements.len() ==> #[trigger] conv_elements(
                env,
                layout,
                elements,
                b,
                path,
                n,
                c,
            ).0.elements[i] == b.elements[i],
        forall|i: int|
            #![trigger elements[i]]
            0 <= i < n ==> struct_holds_the_same(
                elements[i],
                conv_elements(env, layout, elements, b, path, n, c).0.elements[b.elements.len()
                    + i],
            ),
    decreases elements, 1nat, n,
{
    if n > 0 {
        let m = (n - 1) as nat;
        lemma_elements_kept(env, layout, elements, b, path, m, c);
        let (b1, c1) = conv_elements(env, layout, elements, b, path, m, c);
        let fresh = fresh_struct(layout, b.struct_index);
        assert(b1.grown(layout).elements =~= b1.elements.push(fresh));
        lemma_struct_kept(
            env,
            layout,
            elements[n - 1],
            nulled_struct(fresh),
            element_path(path, m),
            false,
            c1,
        );
        let r = conv_elements(env, layout, elements, b, path, n, c).0;
        assert forall|i: int| #![trigger elements[i]] 0 <= i < n implies struct_holds_the_same(
            elements[i],
            r.elements[b.elements.len() + i],
        ) by {
            if i < n - 1 {
                assert(r.elements[b.elements.len() + i] == b1.elements[b.elements.len() + i]);
            }
        }
    }
}

proof fn lemma_items_kept(
    env: EnvironmentView,
    layout: LayoutView,
    elements: Seq<StructView>,
    a: Seq<StructView>,
    path: Seq<char>,
    n: nat,
    c: ContextView,
)
    requires
        items_fit_into(layout, elements, a),
        n <= elements.len(),
        env.group_name != "model_animation_graph"@,
    ensures
        conv_items(env, layout, elements, a, path, n, c).0.len() == a.len(),
        forall|i: int|
            0 <= i < n ==> #[trigger] struct_holds_the_same(
                elements[i],
                conv_items(env, layout, elements, a, path, n, c).0[i],
            ),
        forall|i: int|
            n <= i < a.len() ==> #[trigger] conv_items(env, layout, elements, a, path, n, c).0[i]
                == a[i],
    decreases elements, 1nat, n,
{
    if n > 0 {
        let m = (n - 1) as nat;
        lemma_items_kept(env, layout, elements, a, path, m, c);
        let (a1, c1) = conv_items(env, layout, elements, a, path, m, c);
        assert(struct_fits_into(layout, elements[n - 1], a[n - 1]));
        lemma_struct_kept(
            env,
            layout,
            elements[n - 1],
            a[n - 1],
            element_path(path, m),
            false,
            c1,
        );
        let r = conv_items(env, layout, elements, a, path, n, c).0;
        assert forall|i: int| 0 <= i < n implies #[trigger] struct_holds_the_same(
            elements[i],
            r[i],
        ) by {
            if i < n - 1 {
                assert(struct_holds_the_same(elements[i], a1[i]));
            }
        }
    }
}

/// A struct that is converted into one of its own shape arrives whole: every value, in
/// every nested struct, every element of every block and every item of every array,
/// stands in the target where it stood in the source.
pub proof fn a_tree_of_plain_values_arrives_whole(
    env: EnvironmentView,
    layout: LayoutView,
    s: StructView,
    t: StructView,
    path: Seq<char>,
    root: bool,
    c: ContextView,
)
    requires
        struct_fits_into(layout, s, t),
        field_by_field(env, root),
    ensures
        struct_holds_the_same(s, conv_struct(env, layout, s, t, path, root, c).0),
{
    lemma_struct_kept(env, layout, s, t, path, root, c);
}

/// The elements of a block of plain values arrive in their places: behind what the
/// target held, element `i` of those that were carried holds field for field what
/// element `i` of the source holds.
pub proof fn elements_arrive_in_their_places(
    env: EnvironmentView,
    layout: LayoutView,
    elements: Seq<StructView>,
    b: BlockView,
    path: Seq<char>,
    n: nat,
    c: ContextView,
    i: int,
    k: int,
)
    requires
        b.struct_index < layout.structs.len(),
        n <= elements.len(),
        0 <= i < n,
        env.group_name != "model_animation_graph"@,
        elements_fit_into(
            layout,
            elements,
            nulled_struct(fresh_struct(layout, b.struct_index)),
        ),
        0 <= k < elements[i].fields.len(),
        plain_field(elements[i].fields[k]),
    ensures
        conv_elements(env, layout, elements, b, path, n, c).0.elements.len() == b.elements.len()
            + n,
        conv_elements(env, layout, elements, b, path, n, c).0.elements[b.elements.len()
            + i].fields[k].content == elements[i].fields[k].content,
{
    lemma_elements_kept(env, layout, elements, b, path, n, c);
    let e = conv_elements(env, layout, elements, b, path, n, c).0.elements[b.elements.len() + i];
    assert(struct_holds_the_same(elements[i], e));
    assert(holds_the_same(elements[i].fields[k], e.fields[k]));
}

/// Two source elements that differ in a plain value become two target elements that
/// differ in it.
pub proof fn different_elements_stay_different(
    env: EnvironmentView,
    layout: LayoutView,
    elements: Seq<StructView>,
    b: BlockView,
    path: Seq<char>,
    n: nat,
    c: ContextView,
    i: int,
    j: int,
    k: int,
)
    requires
        b.struct_index < layout.structs.len(),
        n <= elements.len(),
        0 <= i < n,
        0 <= j < n,
        env.group_name != "model_animation_graph"@,
        elements_fit_into(
            layout,
            elements,
            nulled_struct(fresh_struct(layout, b.struct_index)),
        ),
        0 <= k < elements[i].fields.len(),
        0 <= k < elements[j].fields.len(),
        plain_field(elements[i].fields[k]),
        plain_field(elements[j].fields[k]),
        elements[i].fields[k].content != elements[j].fields[k].content,
    ensures
        conv_elements(env, layout, elements, b, path, n, c).0.elements[b.elements.len() + i]
            != conv_elements(env, layout, elements, b, path, n, c).0.elements[b.elements.len() + j],
{
    elements_arrive_in_their_places(env, layout, elements, b, path, n, c, i, k);
    elements_arrive_in_their_places(env, layout, elements, b, path, n, c, j, k);
}

// ---------------------------------------------------------------------------
// Elements of any kind
// ---------------------------------------------------------------------------
/// Whether `e` is what the fresh element `fresh` becomes when the source element `s` at
/// `path` is converted into it.
#[verifier::opaque]
pub open spec fn becomes(
    env: EnvironmentView,
    layout: LayoutView,
    s: StructView,
    fresh: StructView,
    path: Seq<char>,
    e: StructView,
) -> bool {
    exists|c: ContextView|
        (#[trigger] conv_struct(env, layout, s, fresh, path, false, c)).0 == e
}

proof fn lemma_becomes(
    env: EnvironmentView,
    layout: LayoutView,
    s: StructView,
    fresh: StructView,
    path: Seq<char>,
    c: ContextView,
)
    ensures
        becomes(
            env,
            layout,
            s,
            fresh,
            path,
            conv_struct(env, layout, s, fresh, path, false, c).0,
        ),
{
    reveal(becomes);
}

proof fn lemma_element_added(
    env: EnvironmentView,
    layout: LayoutView,
    elements: Seq<StructView>,
    b: BlockView,
    path: Seq<char>,
    n: nat,
    c: ContextView,
) -> (r: (BlockView, StructView))
    requires
        0 < n <= elements.len(),
        b.struct_index < layout.structs.len(),
        conv_elements(env, layout, elements, b, path, (n - 1) as nat, c).0.struct_index
            == b.struct_index,
    ensures
        r.0 == conv_elements(env, layout, elements, b, path, (n - 1) as nat, c).0,
        conv_elements(env, layout, elements, b, path, n, c).0 == (BlockView {
            elements: r.0.elements.push(r.1),
            ..r.0
        }),
        becomes(
            env,
            layout,
            elements[n - 1],
            nulled_struct(fresh_struct(layout, b.struct_index)),
            element_path(path, (n - 1) as nat),
            r.1,
        ),
{
    let (b1, c1) = conv_elements(env, layout, elements, b, path, (n - 1) as nat, c);
    let at = b1.elements.len() as int;
    let g = b1.grown(layout);
    let fresh = nulled_struct(fresh_struct(layout, b.struct_index));
    assert(g.elements[at] == fresh_struct(layout, b.struct_index));
    let e = conv_struct(
        env,
        layout,
        elements[n - 1],
        fresh,
        element_path(path, (n - 1) as nat),
        false,
        c1,
    ).0;
    lemma_becomes(
        env,
        layout,
        elements[n - 1],
        fresh,
        element_path(path, (n - 1) as nat),
        c1,
    );
    assert(conv_elements(env, layout, elements, b, path, n, c).0 == (BlockView {
        elements: g.elements.update(at, e),
        ..g
    }));
    assert(g.elements.update(at, e) =~= b1.elements.push(e));
    (b1, e)
}

/// The elements of a block, whatever they hold, are converted one by one: behind what the
/// target held stands, for each source element and in their order, what a fresh element
/// becomes when that very element is converted into it.
pub proof fn every_element_is_converted_in_its_place(
    env: EnvironmentView,
    layout: LayoutView,
    elements: Seq<StructView>,
    b: BlockView,
    path: Seq<char>,
    n: nat,
    c: ContextView,
)
    requires
        n <= elements.len(),
        b.struct_index < layout.structs.len(),
    ensures
        ({
            let r = conv_elements(env, layout, elements, b, path, n, c).0;
            &&& r == (BlockView { elements: r.elements, ..b })
            &&& r.elements.len() == b.elements.len() + n
            &&& forall|i: int|
                0 <= i < b.elements.len() ==> #[trigger] r.elements[i] == b.elements[i]
            &&& forall|i: int|
                #![trigger elements[i]]
                0 <= i < n ==> becomes(
                    env,
                    layout,
                    elements[i],
                    nulled_struct(fresh_struct(layout, b.struct_index)),
                    element_path(path, i as nat),
                    r.elements[b.elements.len() + i],
                )
        }),
    decreases n,
{
    if n > 0 {
        every_element_is_converted_in_its_place(
            env,
            layout,
            elements,
            b,
            path,
            (n - 1) as nat,
            c,
        );
        let (b1, e) = lemma_element_added(env, layout, elements, b, path, n, c);
        let r = conv_elements(env, layout, elements, b, path, n, c).0;
        let fresh = nulled_struct(fresh_struct(layout, b.struct_index));
        assert forall|i: int| #![trigger elements[i]] 0 <= i < n implies becomes(
            env,
            layout,
            elements[i],
            fresh,
            element_path(path, i as nat),
            r.elements[b.elements.len() + i],
        ) by {
            if i < n - 1 {
                assert(r.elements[b.elements.len() + i] == b1.elements[b.elements.len() + i]);
            }
        }
    }
}

/// A block field takes as many elements as its target has room for, the first ones, in
/// place of what it held. Those that it has no room for are counted and reported.
pub proof fn a_block_takes_what_it_has_room_for(
    env: EnvironmentView,
    layout: LayoutView,
    f: FieldView,
    t: FieldView,
    path: Seq<char>,
    verbatim: bool,
    c: ContextView,
    b: BlockView,
    tb: BlockView,
    i: int,
)
    requires
        f.field_type == TagFieldType::Block,
        t.field_type == TagFieldType::Block,
        f.content == ContentView::Block(b),
        t.content == ContentView::Block(tb),
        tb.struct_index < layout.structs.len(),
    ensures
        ({
            let taken = if b.elements.len() <= tb.max_count {
                b.elements.len() as int
            } else {
                tb.max_count as int
            };
            let r = conv_by_type(env, layout, f, t, path, verbatim, c);
            &&& declared_alike(r.0, t)
            &&& r.0.content matches ContentView::Block(rb) && rb.elements.len() == taken && (0 <= i
                < taken ==> becomes(
                env,
                layout,
                b.elements[i],
                nulled_struct(fresh_struct(layout, tb.struct_index)),
                element_path(path, i as nat),
                rb.elements[i],
            ))
            &&& b.elements.len() > taken ==> {
                &&& r.1.report.issues.len() > 0
                &&& r.1.report.issues.last().kind == ConversionIssueKind::Truncated
                &&& r.1.report.issues.last().path == path
                &&& r.1.report.issues.last().message == "Target block limit omitted "@ + decimal(
                    (b.elements.len() - taken) as nat,
                ) + " element(s)"@
            }
        }),
{
    let count = fitting(b.elements.len(), tb.max_count as nat);
    every_element_is_converted_in_its_place(
        env,
        layout,
        b.elements,
        tb.cleared(),
        path,
        count,
        c,
    );
    lemma_block_step(env, layout, f, t, path, verbatim, c, b, tb);
    let (tb1, c1) = conv_elements(env, layout, b.elements, tb.cleared(), path, count, c);
    if 0 <= i < count {
        assert(tb1.elements[0 + i] == tb1.elements[i]);
        let e = b.elements[i];
    }
}

proof fn lemma_block_step(
    env: EnvironmentView,
    layout: LayoutView,
    f: FieldView,
    t: FieldView,
    path: Seq<char>,
    verbatim: bool,
    c: ContextView,
    b: BlockView,
    tb: BlockView,
)
    requires
        f.field_type == TagFieldType::Block,
        f.content == ContentView::Block(b),
        t.content == ContentView::Block(tb),
    ensures
        ({
            let count = fitting(b.elements.len(), tb.max_count as nat);
            let (tb1, c1) = conv_elements(env, layout, b.elements, tb.cleared(), path, count, c);
            conv_by_type(env, layout, f, t, path, verbatim, c) == (
                FieldView { content: ContentView::Block(tb1), ..t },
                if b.elements.len() > count {
                    c1.omitted(
                        b.elements.len() - count,
                        path,
                        "Target block limit omitted "@ + decimal(
                            (b.elements.len() - count) as nat,
                        ) + " element(s)"@,
                    )
                } else {
                    c1
                },
            )
        }),
{
}

}
