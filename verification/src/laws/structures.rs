//! Resources: when one may cross as it is, and where an unpacked one is put.
use crate::convert::carrying::{interface_with_items, one_with_items};
use crate::convert::report::ContextView;
use crate::convert::shapes::{
    moved_resource, wire_identical, wire_identical_field, wire_identical_fields,
};
use crate::fields::TagFieldType;
use crate::laws::lookup::lemma_field_replaced;
use crate::layout::LayoutView;
use crate::reads::{elements_named, field_answering, place_named, struct_named};
use crate::tag::{ContentView, FieldView, StructView};
use vstd::prelude::*;

verus! {

// ---------------------------------------------------------------------------
// Structs of one form
// ---------------------------------------------------------------------------
/// Two structs have one form on the wire only where they take the same number of bytes and
/// each field has the type and the place of its counterpart.
pub proof fn structs_of_one_form_agree_field_by_field(
    a: LayoutView,
    a_index: u32,
    b: LayoutView,
    b_index: u32,
    depth: nat,
    i: int,
)
    requires
        wire_identical(a, a_index, b, b_index, depth),
        0 <= i < a.run_end(a.structs[a_index as int].first_field_index as int)
            - a.structs[a_index as int].first_field_index,
    ensures
        ({
            let x = a.structs[a_index as int];
            let y = b.structs[b_index as int];
            let f = a.fields[x.first_field_index + i];
            let g = b.fields[y.first_field_index + i];
            &&& x.size == y.size
            &&& f.field_type == g.field_type
            &&& f.offset == g.offset
            &&& depth > 0 && f.field_type == TagFieldType::Struct ==> wire_identical(
                a,
                f.definition,
                b,
                g.definition,
                (depth - 1) as nat,
            )
            &&& depth > 0 && f.field_type == TagFieldType::Block ==> wire_identical(
                a,
                a.blocks[f.definition as int].struct_index,
                b,
                b.blocks[g.definition as int].struct_index,
                (depth - 1) as nat,
            )
            &&& depth > 0 && f.field_type == TagFieldType::Array ==> a.arrays[f.definition as int].count
                == b.arrays[g.definition as int].count && wire_identical(
                a,
                a.arrays[f.definition as int].struct_index,
                b,
                b.arrays[g.definition as int].struct_index,
                (depth - 1) as nat,
            )
        }),
{
    let x = a.structs[a_index as int];
    let y = b.structs[b_index as int];
    lemma_counterparts(
        a,
        x.first_field_index as int,
        b,
        y.first_field_index as int,
        (a.run_end(x.first_field_index as int) - x.first_field_index) as nat,
        depth,
        i,
    );
}

proof fn lemma_counterparts(
    a: LayoutView,
    a_first: int,
    b: LayoutView,
    b_first: int,
    n: nat,
    depth: nat,
    i: int,
)
    requires
        wire_identical_fields(a, a_first, b, b_first, n, depth),
        0 <= i < n,
    ensures
        wire_identical_field(a, a.fields[a_first + i], b, b.fields[b_first + i], depth),
    decreases n,
{
    if i < n - 1 {
        lemma_counterparts(a, a_first, b, b_first, (n - 1) as nat, depth, i);
    }
}

/// A resource that crosses arrives with the content it had, in the field that was its
/// counterpart; one that is null leaves its counterpart null.
pub proof fn a_resource_arrives_with_its_content(
    f: FieldView,
    t: FieldView,
    copied: Result<(), Seq<char>>,
    path: Seq<char>,
    c: ContextView,
)
    requires
        f.content is Resource,
        t.content is Resource,
    ensures
        ({
            let (after, _, carried) = moved_resource(f, t, copied, path, c);
            let had = f.content->Resource_0.content;
            &&& carried <==> !(had is Null) && copied is Ok
            &&& had is Null || copied is Ok ==> after.content is Resource
                && after.content->Resource_0.content == had
            &&& after.content is Resource && after.content->Resource_0.struct_index
                == t.content->Resource_0.struct_index
            &&& after.name == t.name
        }),
{
}

// ---------------------------------------------------------------------------
// An unpacked structure
// ---------------------------------------------------------------------------
/// What was read out of a structure's resource stands in the one element that the interface
/// keeps for it, under its own name, and nothing else of the interface is touched.
pub proof fn what_was_unpacked_stands_in_the_one_element(
    layout: LayoutView,
    interface: StructView,
    items: StructView,
    other: Seq<char>,
)
    ensures
        ({
            let (after, placed) = interface_with_items(layout, interface, items);
            &&& placed ==> {
                &&& elements_named(after, "raw_resources"@).len() == 1
                &&& struct_named(elements_named(after, "raw_resources"@)[0], "raw_items"@)
                    == Some(items)
            }
            &&& other != "raw_resources"@ ==> field_answering(after, other) == field_answering(
                interface,
                other,
            )
        }),
{
    match place_named(interface, "raw_resources"@) {
        Some(k) => match interface.fields[k as int].content {
            ContentView::Block(raw) => {
                let (one, placed) = one_with_items(layout, raw, items);
                let kept = FieldView {
                    content: ContentView::Block(one),
                    ..interface.fields[k as int]
                };
                lemma_field_replaced(interface, "raw_resources"@, k, kept, other);
                assert(interface.with_field_at(k as int, kept) == interface.with_block(
                    k as int,
                    one,
                ));
                let grown = raw.cleared().grown(layout);
                if placed {
                    let element = grown.elements[0];
                    let p = place_named(element, "raw_items"@)->0;
                    let filled = FieldView {
                        content: ContentView::Struct(items),
                        ..element.fields[p as int]
                    };
                    lemma_field_replaced(element, "raw_items"@, p, filled, other);
                    assert(element.with_field_at(p as int, filled) == element.with_nested(
                        p as int,
                        items,
                    ));
                    assert(one.elements.len() == 1);
                    assert(one.elements[0] == element.with_nested(p as int, items));
                }
            },
            _ => {},
        },
        None => {},
    }
}

}
