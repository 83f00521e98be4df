//! Fresh structs: what they hold, and what says something.
use crate::convert::values::{
    field_meaningful, some_field_meaningful, some_struct_meaningful, struct_meaningful,
};
use crate::data::{EntryView, default_chunk, default_entries};
use crate::fields::{
    FieldValue, OptionsView, TagFieldType, enum_type, flags_type, meaningful, resolved, zero_of,
};
use crate::layout::{LayoutView, TagFieldLayout};
use crate::tag::{
    ContentView, FieldView, StructView, declared_options, default_field, default_struct,
    fresh_struct,
};
use vstd::prelude::*;

verus! {

// ---------------------------------------------------------------------------
// What says something
// ---------------------------------------------------------------------------
/// Some of the first `n` fields say something where one of them does, and nowhere else.
pub proof fn a_struct_says_something_where_a_field_does(fields: Seq<FieldView>, n: nat)
    requires
        n <= fields.len(),
    ensures
        some_field_meaningful(fields, n) <==> exists|i: int|
            0 <= i < n && field_meaningful(#[trigger] fields[i]),
    decreases n,
{
    if n > 0 {
        let m = (n - 1) as nat;
        a_struct_says_something_where_a_field_does(fields, m);
        if some_field_meaningful(fields, m) {
            let i = choose|i: int| 0 <= i < m && field_meaningful(#[trigger] fields[i]);
            assert(0 <= i < n && field_meaningful(fields[i]));
        }
        if field_meaningful(fields[n - 1]) {
            assert(0 <= n - 1 < n);
        }
    }
}

/// Some of the first `n` items of an array say something where one of them does, and
/// nowhere else.
pub proof fn an_array_says_something_where_an_item_does(items: Seq<StructView>, n: nat)
    requires
        n <= items.len(),
    ensures
        some_struct_meaningful(items, n) <==> exists|i: int|
            0 <= i < n && struct_meaningful(#[trigger] items[i]),
    decreases n,
{
    if n > 0 {
        let m = (n - 1) as nat;
        an_array_says_something_where_an_item_does(items, m);
        if some_struct_meaningful(items, m) {
            let i = choose|i: int| 0 <= i < m && struct_meaningful(#[trigger] items[i]);
            assert(0 <= i < n && struct_meaningful(items[i]));
        }
        if struct_meaningful(items[n - 1]) {
            assert(0 <= n - 1 < n);
        }
    }
}

// ---------------------------------------------------------------------------
// Fresh structs
// ---------------------------------------------------------------------------
/// A fresh struct has a field for each that its layout declares, in their order, called
/// and typed as declared.
pub proof fn a_fresh_struct_has_the_fields_of_its_layout(layout: LayoutView, index: u32, k: int)
    requires
        index < layout.structs.len(),
        0 <= k < layout.run_end(layout.structs[index as int].first_field_index as int)
            - layout.structs[index as int].first_field_index,
    ensures
        ({
            let own = layout.structs[index as int];
            let at = own.first_field_index + k;
            let s = fresh_struct(layout, index);
            &&& s.fields.len() == layout.run_end(own.first_field_index as int)
                - own.first_field_index
            &&& s.guid == own.guid@
            &&& s.size == own.size
            &&& s.name == layout.string(own.name_offset)
            &&& s.fields[k].name == layout.string(layout.fields[at].name_offset)
            &&& s.fields[k].field_type == layout.fields[at].field_type
        }),
{
}

proof fn lemma_zero_says_nothing(t: TagFieldType, options: OptionsView)
    ensures
        zero_of(t) matches Some(v) ==> !meaningful(resolved(v, options)),
{
    reveal(crate::fields::some_nonzero);
    reveal(crate::fields::some_short);
    reveal(crate::fields::some_real);
}

/// Nothing in a fresh struct says anything.
pub proof fn a_fresh_struct_says_nothing(layout: LayoutView, index: u32, depth: nat)
    ensures
        !struct_meaningful(default_struct(layout, index, depth)),
    decreases depth, 2nat,
{
    let s = default_struct(layout, index, depth);
    assert forall|k: int| 0 <= k < s.fields.len() implies !field_meaningful(
        #[trigger] s.fields[k],
    ) by {
        let at = layout.structs[index as int].first_field_index + k;
        lemma_fresh_field_says_nothing(layout, at, depth);
    }
    a_struct_says_something_where_a_field_does(s.fields, s.fields.len());
}

proof fn lemma_fresh_field_says_nothing(layout: LayoutView, at: int, depth: nat)
    ensures
        !field_meaningful(default_field(layout, at, depth)),
    decreases depth, 1nat,
{
    let field = layout.fields[at];
    let f = default_field(layout, at, depth);
    lemma_zero_says_nothing(field.field_type, declared_options(layout, field));
    match field.field_type {
        TagFieldType::Struct => {
            if depth > 0 {
                a_fresh_struct_says_nothing(layout, field.definition, (depth - 1) as nat);
            }
        },
        TagFieldType::Array => {
            if depth > 0 && field.definition < layout.arrays.len() {
                let array = layout.arrays[field.definition as int];
                a_fresh_struct_says_nothing(layout, array.struct_index, (depth - 1) as nat);
                if let ContentView::Array(items) = f.content {
                    an_array_says_something_where_an_item_does(items, items.len());
                }
            }
        },
        _ => {},
    }
}

/// The options that a field is declared with are those of its list: an enumeration has the
/// names in their order, and each flag stands for the bit of its place.
pub proof fn declared_options_are_those_of_the_list(
    layout: LayoutView,
    field: TagFieldLayout,
    i: int,
)
    requires
        field.definition < layout.string_lists.len(),
        0 <= i < layout.string_lists[field.definition as int].len() <= u32::MAX,
    ensures
        enum_type(field.field_type) ==> (declared_options(layout, field) matches OptionsView::Enum(
            names,
        ) && names == layout.string_lists[field.definition as int]),
        flags_type(field.field_type) && !enum_type(field.field_type) ==> (declared_options(
            layout,
            field,
        ) matches OptionsView::Flags(flags) && flags.len()
            == layout.string_lists[field.definition as int].len() && flags[i].0 == i && flags[i].1
            == layout.string_lists[field.definition as int][i]),
{
}

/// An enumeration is named by the option at its number, and flags by those whose bits are
/// set.
pub proof fn a_value_is_named_by_its_options(
    kind: TagFieldType,
    value: int,
    name: Option<Seq<char>>,
    names: Seq<Seq<char>>,
)
    ensures
        resolved(FieldValue::Enum { kind, value, name }, OptionsView::Enum(names)) matches
            FieldValue::Enum { kind: k, value: v, name: chosen } && k == kind && v == value
            && (0 <= value < names.len() ==> chosen == Some(names[value])) && (!(0 <= value
            < names.len()) ==> chosen is None),
{
}

// ---------------------------------------------------------------------------
// Fresh data
// ---------------------------------------------------------------------------
proof fn lemma_fresh_entries(
    layout: LayoutView,
    first: int,
    n: nat,
    big_endian: bool,
    depth: nat,
    j: int,
)
    requires
        0 <= first,
        first + n <= layout.fields.len() <= u32::MAX,
        0 <= j < n,
    ensures
        ({
            let entries = default_entries(layout, first, n, big_endian, depth);
            let own = default_chunk(layout, layout.fields[first + j], big_endian, depth);
            &&& forall|p: int|
                0 <= p < entries.len() ==> ((#[trigger] entries[p]).field matches Some(f) && first
                    <= f < first + n)
            &&& own matches Some(content) ==> entries.contains(
                (EntryView { field: Some((first + j) as u32), content }),
            )
            &&& forall|p: int|
                0 <= p < entries.len() && (#[trigger] entries[p]).field == Some((first + j) as u32)
                    ==> own == Some(entries[p].content)
        }),
    decreases n,
{
    let m = (n - 1) as nat;
    let rest = default_entries(layout, first, m, big_endian, depth);
    let all = default_entries(layout, first, n, big_endian, depth);
    let last = default_chunk(layout, layout.fields[first + n - 1], big_endian, depth);
    if m > 0 {
        lemma_fresh_entries(
            layout,
            first,
            m,
            big_endian,
            depth,
            if j < m {
                j
            } else {
                0
            },
        );
    } else {
        assert(rest.len() == 0);
    }
    let own = default_chunk(layout, layout.fields[first + j], big_endian, depth);
    if let Some(content) = own {
        let entry = EntryView { field: Some((first + j) as u32), content };
        if j < m {
            let p = choose|p: int| 0 <= p < rest.len() && rest[p] == entry;
            assert(all[p] == entry);
        } else {
            assert(all[rest.len() as int] == entry);
        }
    }
    assert forall|p: int|
        0 <= p < all.len() && (#[trigger] all[p]).field == Some((first + j) as u32) implies own
        == Some(all[p].content) by {
        if p < rest.len() {
            assert(all[p] == rest[p]);
        }
    }
    assert forall|p: int| 0 <= p < all.len() implies ((#[trigger] all[p]).field matches Some(f)
        && first <= f < first + n) by {
        if p < rest.len() {
            assert(all[p] == rest[p]);
        }
    }
}

/// In fresh data each field that has a chunk has its own, under its own number, and no
/// field has another's.
pub proof fn every_chunk_of_fresh_data_is_its_field_s(
    layout: LayoutView,
    first: int,
    n: nat,
    big_endian: bool,
    depth: nat,
    j: int,
    p: int,
)
    requires
        0 <= first,
        first + n <= layout.fields.len() <= u32::MAX,
        0 <= j < n,
    ensures
        ({
            let entries = default_entries(layout, first, n, big_endian, depth);
            let own = default_chunk(layout, layout.fields[first + j], big_endian, depth);
            &&& own is Some <==> exists|q: int|
                0 <= q < entries.len() && (#[trigger] entries[q]).field == Some((first + j) as u32)
            &&& 0 <= p < entries.len() && entries[p].field == Some((first + j) as u32) ==> own
                == Some(entries[p].content)
        }),
{
    lemma_fresh_entries(layout, first, n, big_endian, depth, j);
    let entries = default_entries(layout, first, n, big_endian, depth);
    let own = default_chunk(layout, layout.fields[first + j], big_endian, depth);
    if let Some(content) = own {
        let entry = EntryView { field: Some((first + j) as u32), content };
        let q = choose|q: int| 0 <= q < entries.len() && entries[q] == entry;
        assert(entries[q].field == Some((first + j) as u32));
    }
}

}
