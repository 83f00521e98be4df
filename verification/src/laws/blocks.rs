//! The elements of a block and their bytes: which stands where after a change.
use crate::blocks::replaced;
use crate::data::{
    BlockDataView, EntryView, addressable, chunk_place, field_named, fresh_data, names_among,
    stored_string,
};
use crate::fields::TagFieldType;
use crate::laws::lookup::{a_name_answers_to_what_it_is_called, is_called};
use crate::layout::LayoutView;
use vstd::prelude::*;

verus! {

/// The bytes of element `i` of a block whose elements take `size` bytes each.
pub open spec fn bytes_at(raw: Seq<u8>, size: int, i: int) -> Seq<u8> {
    raw.subrange(i * size, (i + 1) * size)
}

proof fn lemma_times(a: int, b: int, size: int)
    requires
        a <= b,
        size >= 0,
    ensures
        a * size <= b * size,
        (a + 1) * size == a * size + size,
        (b + 1) * size == b * size + size,
{
    assert(a * size <= b * size) by (nonlinear_arith)
        requires
            a <= b,
            size >= 0,
    ;
    assert((a + 1) * size == a * size + size) by (nonlinear_arith);
    assert((b + 1) * size == b * size + size) by (nonlinear_arith);
}

proof fn lemma_block_size(b: BlockDataView, layout: LayoutView)
    ensures
        0 <= b.element_size(layout),
{
    if b.elements.len() > 0 && b.raw.len() > 0 {
        vstd::arithmetic::div_mod::lemma_div_pos_is_pos(b.raw.len() as int, b.elements.len() as int);
    }
}

// ---------------------------------------------------------------------------
// Elements
// ---------------------------------------------------------------------------
/// An element that is inserted stands at its place, fresh and zero; those before it stay
/// where they were and those behind it move one place up, each with its bytes.
pub proof fn insertion_moves_what_is_behind(
    b: BlockDataView,
    layout: LayoutView,
    index: int,
    k: int,
)
    requires
        b.whole(layout),
        0 <= index <= b.elements.len(),
    ensures
        ({
            let size = b.element_size(layout);
            let r = b.inserted(layout, index);
            &&& r.elements.len() == b.elements.len() + 1
            &&& r.elements[index] == fresh_data(layout, b.element_struct(layout), b.big_endian)
            &&& bytes_at(r.raw, size, index) == Seq::new(size as nat, |i: int| 0u8)
            &&& 0 <= k < index ==> r.elements[k] == b.elements[k]
            &&& 0 <= k < index ==> bytes_at(r.raw, size, k) == bytes_at(b.raw, size, k)
            &&& index <= k < b.elements.len() ==> r.elements[k + 1] == b.elements[k]
            &&& index <= k < b.elements.len() ==> bytes_at(r.raw, size, k + 1) == bytes_at(
                b.raw,
                size,
                k,
            )
        }),
{
    lemma_block_size(b, layout);
    let size = b.element_size(layout);
    let n = b.elements.len() as int;
    let r = b.inserted(layout, index);
    let at = index * size;
    lemma_times(0, index, size);
    lemma_times(index, n, size);
    assert(0 * size == 0) by (nonlinear_arith);
    assert(bytes_at(r.raw, size, index) =~= Seq::new(size as nat, |i: int| 0u8));
    if 0 <= k < index {
        lemma_times(0, k, size);
        lemma_times(k + 1, index, size);
        assert(bytes_at(r.raw, size, k) =~= bytes_at(b.raw, size, k));
    } else if index <= k < n {
        lemma_times(index, k, size);
        lemma_times(k + 1, n, size);
        lemma_times(k, n, size);
        lemma_times(k + 1, k + 2, size);
        assert(bytes_at(r.raw, size, k + 1) =~= bytes_at(b.raw, size, k));
    }
}

/// Where an element is removed, those before it stay where they were and those behind it
/// move one place down, each with its bytes.
pub proof fn removal_closes_the_gap(b: BlockDataView, layout: LayoutView, index: int, k: int)
    requires
        b.whole(layout),
        0 <= index < b.elements.len(),
        0 <= k < b.elements.len(),
        k != index,
    ensures
        ({
            let size = b.element_size(layout);
            let r = b.removed(layout, index);
            &&& r.elements.len() == b.elements.len() - 1
            &&& k < index ==> r.elements[k] == b.elements[k] && bytes_at(r.raw, size, k) == bytes_at(
                b.raw,
                size,
                k,
            )
            &&& k > index ==> r.elements[k - 1] == b.elements[k] && bytes_at(r.raw, size, k - 1)
                == bytes_at(b.raw, size, k)
        }),
{
    lemma_block_size(b, layout);
    let size = b.element_size(layout);
    let n = b.elements.len() as int;
    let r = b.removed(layout, index);
    assert(0 * size == 0) by (nonlinear_arith);
    lemma_times(0, index, size);
    lemma_times(index + 1, n, size);
    lemma_times(index, n, size);
    lemma_times(0, k, size);
    lemma_times(k + 1, n, size);
    lemma_times(k, n, size);
    if k < index {
        lemma_times(k + 1, index, size);
        assert(bytes_at(r.raw, size, k) =~= bytes_at(b.raw, size, k));
    } else {
        lemma_times(index + 1, k, size);
        lemma_times(k - 1, k, size);
        assert(bytes_at(r.raw, size, k - 1) =~= bytes_at(b.raw, size, k));
    }
}

/// Two elements that are swapped stand in each other's places, with their bytes; every
/// other stays where it was.
pub proof fn swapped_elements_change_places(
    b: BlockDataView,
    layout: LayoutView,
    i: int,
    j: int,
    k: int,
)
    requires
        b.whole(layout),
        0 <= i < b.elements.len(),
        0 <= j < b.elements.len(),
        0 <= k < b.elements.len(),
        i != j,
    ensures
        ({
            let size = b.element_size(layout);
            let r = b.swapped(layout, i, j);
            &&& r.elements.len() == b.elements.len()
            &&& r.elements[i] == b.elements[j]
            &&& r.elements[j] == b.elements[i]
            &&& bytes_at(r.raw, size, i) == bytes_at(b.raw, size, j)
            &&& bytes_at(r.raw, size, j) == bytes_at(b.raw, size, i)
            &&& k != i && k != j ==> r.elements[k] == b.elements[k]
            &&& k != i && k != j ==> bytes_at(r.raw, size, k) == bytes_at(b.raw, size, k)
        }),
{
    lemma_swapped_bytes(b, layout, i, j, i);
    lemma_swapped_bytes(b, layout, i, j, j);
    lemma_swapped_bytes(b, layout, i, j, k);
}

/// Whose bytes stand at a place after a swap.
proof fn lemma_swapped_bytes(b: BlockDataView, layout: LayoutView, i: int, j: int, k: int)
    requires
        b.whole(layout),
        0 <= i < b.elements.len(),
        0 <= j < b.elements.len(),
        0 <= k < b.elements.len(),
        i != j,
    ensures
        bytes_at(b.swapped(layout, i, j).raw, b.element_size(layout), k) == bytes_at(
            b.raw,
            b.element_size(layout),
            if k == i {
                j
            } else if k == j {
                i
            } else {
                k
            },
        ),
{
    lemma_block_size(b, layout);
    let size = b.element_size(layout);
    let n = b.elements.len() as int;
    let r = b.swapped(layout, i, j);
    assert(0 * size == 0) by (nonlinear_arith);
    lemma_times(0, i, size);
    lemma_times(0, j, size);
    lemma_times(0, k, size);
    lemma_times(i + 1, n, size);
    lemma_times(j + 1, n, size);
    lemma_times(k + 1, n, size);
    lemma_times(i, n, size);
    lemma_times(j, n, size);
    lemma_times(k, n, size);
    if i < j {
        lemma_times(i + 1, j, size);
    } else {
        lemma_times(j + 1, i, size);
    }
    if k < i {
        lemma_times(k + 1, i, size);
    } else if i < k {
        lemma_times(i + 1, k, size);
    }
    if k < j {
        lemma_times(k + 1, j, size);
    } else if j < k {
        lemma_times(j + 1, k, size);
    }
    let whence = if k == i {
        j
    } else if k == j {
        i
    } else {
        k
    };
    assert(bytes_at(r.raw, size, k) =~= bytes_at(b.raw, size, whence));
}

/// An element that is moved stands at its new place, with its bytes; those that it passed
/// moved one place towards where it was, and every other stays.
pub proof fn a_moved_element_stands_at_its_new_place(
    b: BlockDataView,
    layout: LayoutView,
    from: int,
    to: int,
    k: int,
)
    requires
        b.whole(layout),
        0 <= from < b.elements.len(),
        0 <= to < b.elements.len(),
        0 <= k < b.elements.len(),
        from != to,
        k != from,
    ensures
        ({
            let r = b.moved(layout, from, to);
            &&& r.elements.len() == b.elements.len()
            &&& r.elements[to] == b.elements[from]
            &&& bytes_at(r.raw, b.element_size(layout), to) == bytes_at(
                b.raw,
                b.element_size(layout),
                from,
            )
            &&& from < k <= to ==> r.elements[k - 1] == b.elements[k]
            &&& to <= k < from ==> r.elements[k + 1] == b.elements[k]
            &&& k < from && k < to ==> r.elements[k] == b.elements[k]
            &&& k > from && k > to ==> r.elements[k] == b.elements[k]
        }),
{
    lemma_block_size(b, layout);
    let size = b.element_size(layout);
    let n = b.elements.len() as int;
    let r = b.moved(layout, from, to);
    assert(0 * size == 0) by (nonlinear_arith);
    lemma_times(0, from, size);
    lemma_times(from + 1, n, size);
    lemma_times(from, n, size);
    lemma_times(0, to, size);
    lemma_times(to, n - 1, size);
    lemma_times(n - 1, n, size);
    assert(bytes_at(r.raw, size, to) =~= bytes_at(b.raw, size, from));
}

/// An element that is copied stands twice, the copy behind it; those before stay where
/// they were and those behind move one place up, each with its bytes.
pub proof fn a_copy_stands_behind_its_element(
    b: BlockDataView,
    layout: LayoutView,
    index: int,
    k: int,
)
    requires
        b.whole(layout),
        0 <= index < b.elements.len(),
        0 <= k < b.elements.len(),
    ensures
        ({
            let size = b.element_size(layout);
            let r = b.duplicated(layout, index);
            &&& r.elements.len() == b.elements.len() + 1
            &&& r.elements[index + 1] == b.elements[index]
            &&& bytes_at(r.raw, size, index + 1) == bytes_at(b.raw, size, index)
            &&& k <= index ==> r.elements[k] == b.elements[k]
            &&& k <= index ==> bytes_at(r.raw, size, k) == bytes_at(b.raw, size, k)
            &&& k > index ==> r.elements[k + 1] == b.elements[k]
            &&& k > index ==> bytes_at(r.raw, size, k + 1) == bytes_at(b.raw, size, k)
        }),
{
    lemma_block_size(b, layout);
    let size = b.element_size(layout);
    let n = b.elements.len() as int;
    let r = b.duplicated(layout, index);
    assert(0 * size == 0) by (nonlinear_arith);
    lemma_times(0, index, size);
    lemma_times(index + 1, n, size);
    lemma_times(index, n, size);
    lemma_times(0, k, size);
    lemma_times(k + 1, n, size);
    lemma_times(k, n, size);
    lemma_times(k + 1, k + 2, size);
    assert(bytes_at(r.raw, size, index + 1) =~= bytes_at(b.raw, size, index));
    if k <= index {
        lemma_times(k + 1, index + 1, size);
        assert(bytes_at(r.raw, size, k) =~= bytes_at(b.raw, size, k));
    } else {
        lemma_times(index + 1, k, size);
        assert(bytes_at(r.raw, size, k + 1) =~= bytes_at(b.raw, size, k));
    }
}

/// An element that is added stands at the end, fresh and zero, and every other stays where
/// it was, with its bytes.
pub proof fn an_added_element_stands_at_the_end(b: BlockDataView, layout: LayoutView, k: int)
    requires
        b.whole(layout),
    ensures
        ({
            let size = b.element_size(layout);
            let n = b.elements.len() as int;
            let r = b.appended(layout);
            &&& r.elements.len() == n + 1
            &&& r.elements[n] == fresh_data(layout, b.element_struct(layout), b.big_endian)
            &&& bytes_at(r.raw, size, n) == Seq::new(size as nat, |i: int| 0u8)
            &&& 0 <= k < n ==> r.elements[k] == b.elements[k]
            &&& 0 <= k < n ==> bytes_at(r.raw, size, k) == bytes_at(b.raw, size, k)
        }),
{
    lemma_block_size(b, layout);
    let size = b.element_size(layout);
    let n = b.elements.len() as int;
    let r = b.appended(layout);
    assert(0 * size == 0) by (nonlinear_arith);
    lemma_times(0, n, size);
    lemma_times(n, n + 1, size);
    assert(bytes_at(r.raw, size, n) =~= Seq::new(size as nat, |i: int| 0u8));
    if 0 <= k < n {
        lemma_times(0, k, size);
        lemma_times(k + 1, n, size);
        lemma_times(k, n, size);
        assert(bytes_at(r.raw, size, k) =~= bytes_at(b.raw, size, k));
    }
}

/// The bytes that replace others stand in their place, and every other byte stays.
pub proof fn replaced_bytes_stand_in_their_place(raw: Seq<u8>, at: int, part: Seq<u8>, i: int)
    requires
        0 <= at,
        at + part.len() <= raw.len(),
        0 <= i < raw.len(),
    ensures
        replaced(raw, at, part).len() == raw.len(),
        at <= i < at + part.len() ==> replaced(raw, at, part)[i] == part[i - at],
        i < at || at + part.len() <= i ==> replaced(raw, at, part)[i] == raw[i],
{
}

// ---------------------------------------------------------------------------
// Names
// ---------------------------------------------------------------------------
/// The names of a struct's fields are those of its fields that have a value and a name, and
/// no other.
pub proof fn every_named_field_is_listed(layout: LayoutView, first: int, n: nat, name: Seq<char>)
    requires
        0 <= first,
        first + n <= layout.fields.len(),
    ensures
        names_among(layout, first, n).contains(name) <==> exists|i: int|
            first <= i < first + n && addressable((#[trigger] layout.fields[i]).field_type)
                && stored_string(layout, layout.fields[i].name_offset) == Some(name) && name.len()
                > 0,
    decreases n,
{
    if n > 0 {
        let m = (n - 1) as nat;
        every_named_field_is_listed(layout, first, m, name);
        let rest = names_among(layout, first, m);
        let all = names_among(layout, first, n);
        let field = layout.fields[first + n - 1];
        if rest.contains(name) {
            let i = choose|i: int| 0 <= i < rest.len() && rest[i] == name;
            assert(all[i] == name);
            let j = choose|j: int|
                first <= j < first + m && addressable((#[trigger] layout.fields[j]).field_type)
                    && stored_string(layout, layout.fields[j].name_offset) == Some(name)
                    && name.len() > 0;
            assert(addressable(layout.fields[j].field_type));
        }
        if all.contains(name) {
            let i = choose|i: int| 0 <= i < all.len() && all[i] == name;
            if i < rest.len() {
                assert(rest[i] == name);
            } else {
                assert(stored_string(layout, field.name_offset) == Some(name));
            }
        }
        if addressable(field.field_type) && stored_string(layout, field.name_offset) == Some(name)
            && name.len() > 0 {
            assert(all[rest.len() as int] == name);
        }
    }
}

/// A field is found by its name at the first place of its struct's run that is called so.
pub proof fn the_first_field_of_a_run_is_found(
    layout: LayoutView,
    name: Seq<char>,
    from: int,
    k: int,
)
    requires
        0 <= from <= k < layout.fields.len(),
        forall|j: int|
            from <= j <= k ==> (#[trigger] layout.fields[j]).field_type != TagFieldType::Terminator,
        stored_string(layout, layout.fields[k].name_offset) matches Some(stored) && is_called(
            stored,
            name,
        ),
        forall|j: int|
            from <= j < k ==> !(stored_string(
                layout,
                (#[trigger] layout.fields[j]).name_offset,
            ) matches Some(stored) && is_called(stored, name)),
    ensures
        field_named(layout, name, from) == Some(k),
    decreases k - from,
{
    if let Some(stored) = stored_string(layout, layout.fields[from].name_offset) {
        a_name_answers_to_what_it_is_called(stored, name);
    }
    if from < k {
        assert(layout.fields[from].field_type != TagFieldType::Terminator);
        the_first_field_of_a_run_is_found(layout, name, from + 1, k);
    }
}

/// The chunk of a field is the first that is marked with it.
pub proof fn the_first_chunk_of_a_field_is_found(
    entries: Seq<EntryView>,
    field: u32,
    from: nat,
    k: nat,
)
    requires
        from <= k < entries.len(),
        entries[k as int].field == Some(field),
        forall|j: int| from <= j < k ==> (#[trigger] entries[j]).field != Some(field),
    ensures
        chunk_place(entries, field, from) == Some(k),
    decreases k - from,
{
    if from < k {
        assert(entries[from as int].field != Some(field));
        the_first_chunk_of_a_field_is_found(entries, field, from + 1, k);
    }
}

}
