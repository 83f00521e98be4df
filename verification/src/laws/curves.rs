//! Function curves: a block of bytes and a run of bytes that say the same.
use crate::convert::functions::{
    Filling, bytes_of_elements, element_byte, filled_with, values_among, with_byte,
};
use crate::fields::{FieldValue, TagFieldType, integer_type};
use crate::layout::LayoutView;
use crate::tag::{BlockView, ContentView, StructView, fresh_struct};
use vstd::prelude::*;

verus! {

/// Whether an element holds one value, and that value is the byte `b`.
pub open spec fn holds_byte(e: StructView, b: u8) -> bool {
    &&& e.fields.len() == 1
    &&& e.fields[0].content matches ContentView::Value(v) && (v matches FieldValue::Number {
        kind,
        value,
    } && integer_type(kind) && value == b)
}

/// An element that holds one byte is that byte.
pub proof fn an_element_spells_its_byte(e: StructView, b: u8)
    requires
        holds_byte(e, b),
    ensures
        element_byte(e) == Some(b),
{
    reveal_with_fuel(values_among, 2);
    let v = e.fields[0].content->Value_0;
    assert(values_among(e.fields, 1) =~= seq![v]);
}

/// The bytes of a curve that is a block stand in the order of its elements: byte `i` is
/// that of element `i`.
pub proof fn a_block_spells_its_bytes_in_order(elements: Seq<StructView>, bytes: Seq<u8>, n: nat)
    requires
        n <= elements.len(),
        n <= bytes.len(),
        forall|i: int| 0 <= i < n ==> holds_byte(#[trigger] elements[i], bytes[i]),
    ensures
        bytes_of_elements(elements, n) == Some(bytes.take(n as int)),
    decreases n,
{
    if n > 0 {
        a_block_spells_its_bytes_in_order(elements, bytes, (n - 1) as nat);
        assert(holds_byte(elements[n - 1], bytes[n - 1]));
        an_element_spells_its_byte(elements[n - 1], bytes[n - 1]);
        assert(bytes.take(n - 1).push(bytes[n - 1]) =~= bytes.take(n as int));
    } else {
        assert(bytes.take(0) =~= Seq::<u8>::empty());
    }
}

/// Whether the elements that a block gets are of one byte each.
pub open spec fn grows_by_bytes(layout: LayoutView, b: BlockView) -> bool {
    let fresh = fresh_struct(layout, b.struct_index);
    &&& b.struct_index < layout.structs.len()
    &&& fresh.fields.len() == 1
    &&& fresh.fields[0].field_type == TagFieldType::ByteInteger
}

/// A block that is filled with bytes has one element for each, in their order.
pub proof fn a_block_is_filled_byte_by_byte(
    layout: LayoutView,
    b: BlockView,
    bytes: Seq<u8>,
    n: nat,
)
    requires
        n <= bytes.len(),
        grows_by_bytes(layout, b),
    ensures
        filled_with(layout, b, bytes, n) matches Filling::Going(r) && {
            &&& r == (BlockView { elements: r.elements, ..b })
            &&& r.elements.len() == b.elements.len() + n
            &&& forall|i: int|
                0 <= i < b.elements.len() ==> #[trigger] r.elements[i] == b.elements[i]
            &&& forall|i: int|
                #![trigger bytes[i]]
                0 <= i < n ==> holds_byte(r.elements[b.elements.len() + i], bytes[i])
        },
    decreases n,
{
    if n > 0 {
        a_block_is_filled_byte_by_byte(layout, b, bytes, (n - 1) as nat);
        let t = filled_with(layout, b, bytes, (n - 1) as nat)->Going_0;
        let r = filled_with(layout, b, bytes, n)->Going_0;
        let fresh = fresh_struct(layout, b.struct_index);
        assert(t.grown(layout).elements =~= t.elements.push(fresh));
        assert(holds_byte(with_byte(fresh, bytes[n - 1]), bytes[n - 1]));
        assert forall|i: int| #![trigger bytes[i]] 0 <= i < n implies holds_byte(
            r.elements[b.elements.len() + i],
            bytes[i],
        ) by {
            if i < n - 1 {
                assert(r.elements[b.elements.len() + i] == t.elements[b.elements.len() + i]);
            }
        }
    }
}

/// A curve that was written into a block of bytes reads back from it.
pub proof fn a_curve_reads_back_from_its_block(layout: LayoutView, b: BlockView, bytes: Seq<u8>)
    requires
        grows_by_bytes(layout, b),
    ensures
        filled_with(layout, b.cleared(), bytes, bytes.len()) matches Filling::Going(r)
            && bytes_of_elements(r.elements, r.elements.len()) == Some(bytes),
{
    a_block_is_filled_byte_by_byte(layout, b.cleared(), bytes, bytes.len());
    let r = filled_with(layout, b.cleared(), bytes, bytes.len())->Going_0;
    assert forall|i: int| 0 <= i < bytes.len() implies holds_byte(#[trigger] r.elements[i], bytes[i]) by {
        assert(holds_byte(r.elements[0 + i], bytes[i]));
    }
    a_block_spells_its_bytes_in_order(r.elements, bytes, bytes.len());
    assert(bytes.take(bytes.len() as int) =~= bytes);
}

}
