//! Starting a tag from another: what is emptied, and what is kept.
use crate::convert::defaults::{
    kept, nulled_struct, path_of, render_method, reset_field, reset_fields, reset_items,
};
use crate::convert::forgiving::{field_emptied, struct_emptied};
use crate::convert::schema::AliasesView;
use crate::fields::{FieldValue, TagFieldType, block_index_type, default_of, resolved};
use crate::keys::element_path;
use crate::laws::keyed::declared_alike;
use crate::tag::{
    ContentView, FieldView, ResourceContentView, ResourceView, StructView, elements_are_inside,
    field_is_inside, struct_is_inside,
};
use vstd::prelude::*;

verus! {

// ---------------------------------------------------------------------------
// Templates
// ---------------------------------------------------------------------------
/// A template that was reset keeps the fields that are to be kept as they were, each in its
/// place; every other block is empty and every other value is the default of what stood
/// there.
pub proof fn a_reset_keeps_what_is_kept_alone(
    s: StructView,
    path: Seq<char>,
    managed: Option<AliasesView>,
    n: nat,
    i: int,
)
    requires
        n <= s.fields.len(),
        0 <= i < n,
        reset_fields(s, path, managed, n).1 is None,
    ensures
        reset_fields(s, path, managed, n).0.fields.len() == s.fields.len(),
        kept(s.fields[i], render_method(s), managed) ==> reset_fields(
            s,
            path,
            managed,
            n,
        ).0.fields[i] == s.fields[i],
        !kept(s.fields[i], render_method(s), managed) ==> {
            let f = s.fields[i];
            let r = reset_fields(s, path, managed, n).0.fields[i];
            &&& declared_alike(r, f)
            &&& f.field_type == TagFieldType::Block && f.content is Block ==> r.content
                == ContentView::Block(f.content->Block_0.cleared())
            &&& resets_to_default(f) ==> r.content == ContentView::Value(
                resolved(default_of(f.content->Value_0), f.options),
            )
        },
    decreases n,
{
    lemma_reset_length(s, path, managed, n);
    if i < n - 1 {
        a_reset_keeps_what_is_kept_alone(s, path, managed, (n - 1) as nat, i);
    } else {
        let m = (n - 1) as nat;
        lemma_reset_last(s, path, managed, m, n - 1);
        let f = s.fields[n - 1];
        lemma_field_reset(f, path_of(path, f), managed);
        if !kept(f, render_method(s), managed) {
            let s1 = reset_fields(s, path, managed, m).0;
            let f1 = reset_field(f, path_of(path, f), managed).0;
            assert(reset_fields(s, path, managed, n).0 == (StructView {
                fields: s1.fields.update(n - 1, f1),
                ..s1
            }));
        }
    }
}

proof fn lemma_field_reset(f: FieldView, path: Seq<char>, managed: Option<AliasesView>)
    ensures
        declared_alike(reset_field(f, path, managed).0, f),
        f.field_type == TagFieldType::Block && f.content is Block ==> reset_field(
            f,
            path,
            managed,
        ).0.content == ContentView::Block(f.content->Block_0.cleared()),
        resets_to_default(f) ==> reset_field(f, path, managed).0.content == ContentView::Value(
            resolved(default_of(f.content->Value_0), f.options),
        ),
{
}

/// Whether a field holds a value of its own type that has a default.
pub open spec fn resets_to_default(f: FieldView) -> bool {
    match f.field_type {
        TagFieldType::Struct
        | TagFieldType::Block
        | TagFieldType::Array
        | TagFieldType::PageableResource
        | TagFieldType::ApiInterop => false,
        t => f.content matches ContentView::Value(v) && v.kind() == t,
    }
}

proof fn lemma_reset_length(
    s: StructView,
    path: Seq<char>,
    managed: Option<AliasesView>,
    n: nat,
)
    requires
        n <= s.fields.len(),
    ensures
        reset_fields(s, path, managed, n).0.fields.len() == s.fields.len(),
    decreases n,
{
    if n > 0 {
        lemma_reset_length(s, path, managed, (n - 1) as nat);
    }
}

proof fn lemma_reset_last(
    s: StructView,
    path: Seq<char>,
    managed: Option<AliasesView>,
    n: nat,
    i: int,
)
    requires
        n <= i < s.fields.len(),
    ensures
        reset_fields(s, path, managed, n).0.fields.len() == s.fields.len(),
        reset_fields(s, path, managed, n).0.fields[i] == s.fields[i],
    decreases n,
{
    if n > 0 {
        lemma_reset_last(s, path, managed, (n - 1) as nat, i);
    }
}

/// The items of an array are reset each in its place.
pub proof fn every_item_is_reset_in_its_place(
    a: Seq<StructView>,
    path: Seq<char>,
    managed: Option<AliasesView>,
    n: nat,
    i: int,
)
    requires
        n <= a.len(),
        0 <= i < n,
        reset_items(a, path, managed, n).1 is None,
    ensures
        reset_items(a, path, managed, n).0.len() == a.len(),
        reset_items(a, path, managed, n).0[i] == reset_fields(
            a[i],
            element_path(path, i as nat),
            managed,
            a[i].fields.len(),
        ).0,
    decreases n,
{
    lemma_items_length(a, path, managed, (n - 1) as nat);
    if i < n - 1 {
        every_item_is_reset_in_its_place(a, path, managed, (n - 1) as nat, i);
    }
}

proof fn lemma_items_length(
    a: Seq<StructView>,
    path: Seq<char>,
    managed: Option<AliasesView>,
    n: nat,
)
    ensures
        reset_items(a, path, managed, n).0.len() == a.len(),
    decreases n,
{
    if 0 < n <= a.len() {
        lemma_items_length(a, path, managed, (n - 1) as nat);
    }
}

// ---------------------------------------------------------------------------
// Null indices
// ---------------------------------------------------------------------------
/// The block indices of a fresh struct, and they alone, are set to minus one.
pub proof fn block_indices_alone_are_nulled(s: StructView, i: int)
    requires
        0 <= i < s.fields.len(),
    ensures
        nulled_struct(s).fields.len() == s.fields.len(),
        declared_alike(nulled_struct(s).fields[i], s.fields[i]),
        block_index_type(s.fields[i].field_type) ==> nulled_struct(s).fields[i].content
            == ContentView::Value(
            FieldValue::Number { kind: s.fields[i].field_type, value: -1 },
        ),
        !block_index_type(s.fields[i].field_type) && s.fields[i].field_type != TagFieldType::Struct
            && s.fields[i].field_type != TagFieldType::Array ==> nulled_struct(s).fields[i]
            == s.fields[i],
{
}

// ---------------------------------------------------------------------------
// Resources
// ---------------------------------------------------------------------------
/// Whether no field of a struct, in any depth that is emptied, is a resource.
pub open spec fn without_resources(s: StructView) -> bool
    decreases s, 1nat,
{
    forall|k: int|
        0 <= k < s.fields.len() ==> field_without_resources(#[trigger] s.fields[k])
}

/// The same for a field.
pub open spec fn field_without_resources(f: FieldView) -> bool
    decreases f, 0nat,
{
    &&& f.field_type != TagFieldType::PageableResource
    &&& match f.content {
        ContentView::Struct(s) => without_resources(s),
        ContentView::Block(b) => forall|i: int|
            0 <= i < b.elements.len() ==> without_resources(#[trigger] b.elements[i]),
        _ => true,
    }
}

proof fn lemma_field_kept_whole(f: FieldView)
    requires
        field_without_resources(f),
    ensures
        field_emptied(f) == f,
    decreases f, 0nat,
{
    match f.content {
        ContentView::Struct(s) => {
            struct_is_inside(f, s);
            a_tree_without_resources_stays_as_it_was(s);
        },
        ContentView::Block(b) => {
            elements_are_inside(f, b);
            assert forall|i: int| 0 <= i < b.elements.len() implies struct_emptied(
                #[trigger] b.elements[i],
            ) == b.elements[i] by {
                a_tree_without_resources_stays_as_it_was(b.elements[i]);
            }
            assert(field_emptied(f).content->Block_0.elements =~= b.elements);
        },
        _ => {},
    }
}

/// Emptying the resources of a tree that has none leaves it as it was, in every depth and
/// every place.
pub proof fn a_tree_without_resources_stays_as_it_was(s: StructView)
    requires
        without_resources(s),
    ensures
        struct_emptied(s) == s,
    decreases s, 1nat,
{
    assert forall|k: int| 0 <= k < s.fields.len() implies field_emptied(#[trigger] s.fields[k])
        == s.fields[k] by {
        field_is_inside(s, k);
        lemma_field_kept_whole(s.fields[k]);
    }
    assert(struct_emptied(s).fields =~= s.fields);
}

/// A resource that is emptied is null, and still of its own struct.
pub proof fn an_emptied_resource_is_null(f: FieldView, r: ResourceView)
    requires
        f.field_type == TagFieldType::PageableResource,
        f.content == ContentView::Resource(r),
    ensures
        field_emptied(f).content == ContentView::Resource(
            ResourceView { struct_index: r.struct_index, content: ResourceContentView::Null },
        ),
        declared_alike(field_emptied(f), f),
{
}

}
