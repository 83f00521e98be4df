//! What is counted while a tree is gone through.
use crate::convert::settling::{
    settled_in_field, settled_in_fields, settled_in_list, settled_in_struct,
};
use crate::convert::turning::{
    swapped_in_field, swapped_in_fields, swapped_in_list, swapped_in_struct, turned_in_field,
    turned_in_fields, turned_in_list, turned_in_struct,
};
use crate::tag::{FieldView, StructView};
use vstd::prelude::*;

verus! {

proof fn lemma_turned_before_fields(a: Seq<FieldView>, b: Seq<FieldView>, n: nat)
    requires
        n <= a.len(),
    ensures
        turned_in_fields(a + b, n) == turned_in_fields(a, n),
    decreases n,
{
    if n > 0 {
        lemma_turned_before_fields(a, b, (n - 1) as nat);
        assert((a + b)[n - 1] == a[n - 1]);
    }
}

proof fn lemma_turned_behind_fields(a: Seq<FieldView>, b: Seq<FieldView>, n: nat)
    requires
        n <= b.len(),
    ensures
        turned_in_fields(a + b, a.len() + n) == turned_in_fields(a, a.len())
            + turned_in_fields(b, n),
    decreases n,
{
    if n == 0 {
        lemma_turned_before_fields(a, b, a.len());
    } else {
        lemma_turned_behind_fields(a, b, (n - 1) as nat);
        assert((a + b)[a.len() + n - 1] == b[n - 1]);
        assert(turned_in_fields(a + b, a.len() + n) == turned_in_fields(
            a + b,
            (a.len() + n - 1) as nat,
        ) + turned_in_field((a + b)[a.len() + n - 1]));
    }
}

proof fn lemma_turned_before_list(a: Seq<StructView>, b: Seq<StructView>, n: nat)
    requires
        n <= a.len(),
    ensures
        turned_in_list(a + b, n) == turned_in_list(a, n),
    decreases n,
{
    if n > 0 {
        lemma_turned_before_list(a, b, (n - 1) as nat);
        assert((a + b)[n - 1] == a[n - 1]);
    }
}

proof fn lemma_turned_behind_list(a: Seq<StructView>, b: Seq<StructView>, n: nat)
    requires
        n <= b.len(),
    ensures
        turned_in_list(a + b, a.len() + n) == turned_in_list(a, a.len())
            + turned_in_list(b, n),
    decreases n,
{
    if n == 0 {
        lemma_turned_before_list(a, b, a.len());
    } else {
        lemma_turned_behind_list(a, b, (n - 1) as nat);
        assert((a + b)[a.len() + n - 1] == b[n - 1]);
        assert(turned_in_list(a + b, a.len() + n) == turned_in_list(
            a + b,
            (a.len() + n - 1) as nat,
        ) + turned_in_struct((a + b)[a.len() + n - 1]));
    }
}

/// The blobs that are turned of fields, or of elements, one behind the other
/// are those of the one part and those of the other; those of a single one are its own.
pub proof fn every_blob_of_words_is_counted_once(
    a: Seq<FieldView>,
    b: Seq<FieldView>,
    f: FieldView,
    c: Seq<StructView>,
    d: Seq<StructView>,
    s: StructView,
)
    ensures
        turned_in_fields(a + b, (a + b).len()) == turned_in_fields(a, a.len())
            + turned_in_fields(b, b.len()),
        turned_in_fields(seq![f], 1) == turned_in_field(f),
        turned_in_list(c + d, (c + d).len()) == turned_in_list(c, c.len())
            + turned_in_list(d, d.len()),
        turned_in_list(seq![s], 1) == turned_in_struct(s),
{
    lemma_turned_behind_fields(a, b, b.len());
    lemma_turned_behind_list(c, d, d.len());
    assert(turned_in_fields(seq![f], 0) == 0);
    assert(turned_in_list(seq![s], 0) == 0);
}

proof fn lemma_settled_before_fields(a: Seq<FieldView>, b: Seq<FieldView>, n: nat)
    requires
        n <= a.len(),
    ensures
        settled_in_fields(a + b, n) == settled_in_fields(a, n),
    decreases n,
{
    if n > 0 {
        lemma_settled_before_fields(a, b, (n - 1) as nat);
        assert((a + b)[n - 1] == a[n - 1]);
    }
}

proof fn lemma_settled_behind_fields(a: Seq<FieldView>, b: Seq<FieldView>, n: nat)
    requires
        n <= b.len(),
    ensures
        settled_in_fields(a + b, a.len() + n) == settled_in_fields(a, a.len())
            + settled_in_fields(b, n),
    decreases n,
{
    if n == 0 {
        lemma_settled_before_fields(a, b, a.len());
    } else {
        lemma_settled_behind_fields(a, b, (n - 1) as nat);
        assert((a + b)[a.len() + n - 1] == b[n - 1]);
        assert(settled_in_fields(a + b, a.len() + n) == settled_in_fields(
            a + b,
            (a.len() + n - 1) as nat,
        ) + settled_in_field((a + b)[a.len() + n - 1]));
    }
}

proof fn lemma_settled_before_list(a: Seq<StructView>, b: Seq<StructView>, n: nat)
    requires
        n <= a.len(),
    ensures
        settled_in_list(a + b, n) == settled_in_list(a, n),
    decreases n,
{
    if n > 0 {
        lemma_settled_before_list(a, b, (n - 1) as nat);
        assert((a + b)[n - 1] == a[n - 1]);
    }
}

proof fn lemma_settled_behind_list(a: Seq<StructView>, b: Seq<StructView>, n: nat)
    requires
        n <= b.len(),
    ensures
        settled_in_list(a + b, a.len() + n) == settled_in_list(a, a.len())
            + settled_in_list(b, n),
    decreases n,
{
    if n == 0 {
        lemma_settled_before_list(a, b, a.len());
    } else {
        lemma_settled_behind_list(a, b, (n - 1) as nat);
        assert((a + b)[a.len() + n - 1] == b[n - 1]);
        assert(settled_in_list(a + b, a.len() + n) == settled_in_list(
            a + b,
            (a.len() + n - 1) as nat,
        ) + settled_in_struct((a + b)[a.len() + n - 1]));
    }
}

/// The meshes that are settled of fields, or of elements, one behind the other
/// are those of the one part and those of the other; those of a single one are its own.
pub proof fn every_mesh_is_counted_once(
    a: Seq<FieldView>,
    b: Seq<FieldView>,
    f: FieldView,
    c: Seq<StructView>,
    d: Seq<StructView>,
    s: StructView,
)
    ensures
        settled_in_fields(a + b, (a + b).len()) == settled_in_fields(a, a.len())
            + settled_in_fields(b, b.len()),
        settled_in_fields(seq![f], 1) == settled_in_field(f),
        settled_in_list(c + d, (c + d).len()) == settled_in_list(c, c.len())
            + settled_in_list(d, d.len()),
        settled_in_list(seq![s], 1) == settled_in_struct(s),
{
    lemma_settled_behind_fields(a, b, b.len());
    lemma_settled_behind_list(c, d, d.len());
    assert(settled_in_fields(seq![f], 0) == 0);
    assert(settled_in_list(seq![s], 0) == 0);
}

proof fn lemma_swapped_before_fields(
    a: Seq<FieldView>,
    b: Seq<FieldView>,
    table: Seq<(Seq<u8>, Seq<u8>)>,
    n: nat,
)
    requires
        n <= a.len(),
    ensures
        swapped_in_fields(a + b, table, n) == swapped_in_fields(a, table, n),
    decreases n,
{
    if n > 0 {
        lemma_swapped_before_fields(a, b, table, (n - 1) as nat);
        assert((a + b)[n - 1] == a[n - 1]);
    }
}

proof fn lemma_swapped_behind_fields(
    a: Seq<FieldView>,
    b: Seq<FieldView>,
    table: Seq<(Seq<u8>, Seq<u8>)>,
    n: nat,
)
    requires
        n <= b.len(),
    ensures
        swapped_in_fields(a + b, table, a.len() + n) == swapped_in_fields(a, table, a.len())
            + swapped_in_fields(b, table, n),
    decreases n,
{
    if n == 0 {
        lemma_swapped_before_fields(a, b, table, a.len());
    } else {
        lemma_swapped_behind_fields(a, b, table, (n - 1) as nat);
        assert((a + b)[a.len() + n - 1] == b[n - 1]);
        assert(swapped_in_fields(a + b, table, a.len() + n) == swapped_in_fields(
            a + b, table,
            (a.len() + n - 1) as nat,
        ) + swapped_in_field((a + b)[a.len() + n - 1], table));
    }
}

proof fn lemma_swapped_before_list(
    a: Seq<StructView>,
    b: Seq<StructView>,
    table: Seq<(Seq<u8>, Seq<u8>)>,
    n: nat,
)
    requires
        n <= a.len(),
    ensures
        swapped_in_list(a + b, table, n) == swapped_in_list(a, table, n),
    decreases n,
{
    if n > 0 {
        lemma_swapped_before_list(a, b, table, (n - 1) as nat);
        assert((a + b)[n - 1] == a[n - 1]);
    }
}

proof fn lemma_swapped_behind_list(
    a: Seq<StructView>,
    b: Seq<StructView>,
    table: Seq<(Seq<u8>, Seq<u8>)>,
    n: nat,
)
    requires
        n <= b.len(),
    ensures
        swapped_in_list(a + b, table, a.len() + n) == swapped_in_list(a, table, a.len())
            + swapped_in_list(b, table, n),
    decreases n,
{
    if n == 0 {
        lemma_swapped_before_list(a, b, table, a.len());
    } else {
        lemma_swapped_behind_list(a, b, table, (n - 1) as nat);
        assert((a + b)[a.len() + n - 1] == b[n - 1]);
        assert(swapped_in_list(a + b, table, a.len() + n) == swapped_in_list(
            a + b, table,
            (a.len() + n - 1) as nat,
        ) + swapped_in_struct((a + b)[a.len() + n - 1], table));
    }
}

/// The curves that are corrected of fields, or of elements, one behind the other
/// are those of the one part and those of the other; those of a single one are its own.
pub proof fn every_curve_is_counted_once(
    a: Seq<FieldView>,
    b: Seq<FieldView>,
    f: FieldView,
    c: Seq<StructView>,
    d: Seq<StructView>,
    s: StructView,
    table: Seq<(Seq<u8>, Seq<u8>)>,
)
    ensures
        swapped_in_fields(a + b, table, (a + b).len()) == swapped_in_fields(a, table, a.len())
            + swapped_in_fields(b, table, b.len()),
        swapped_in_fields(seq![f], table, 1) == swapped_in_field(f, table),
        swapped_in_list(c + d, table, (c + d).len()) == swapped_in_list(c, table, c.len())
            + swapped_in_list(d, table, d.len()),
        swapped_in_list(seq![s], table, 1) == swapped_in_struct(s, table),
{
    lemma_swapped_behind_fields(a, b, table, b.len());
    lemma_swapped_behind_list(c, d, table, d.len());
    assert(swapped_in_fields(seq![f], table, 0) == 0);
    assert(swapped_in_list(seq![s], table, 0) == 0);
}

}
