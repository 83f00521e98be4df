//! Geometry that changes its side: what a mesh forgets, and what every tree keeps.
use crate::convert::setting::int_set;
use crate::convert::settling::{
    all_settled, field_settled, format_unpacked, mesh_settled, meshes_in, meshes_settled,
    name_position, slots_zeroed, struct_settled, unpacked_format,
};
use crate::convert::turning::{
    all_turned, curve_from, field_swapped, field_turned, struct_swapped, struct_turned,
    words_turned,
};
use crate::fields::{FieldValue, OptionsView, TagFieldType};
use crate::laws::lookup::{has_room_for, lemma_field_replaced, setting_one_number_keeps_the_others};
use crate::reads::{field_answering, int_named, place_named};
use crate::tag::{
    BlockView, ContentView, FieldView, StructView, elements_are_inside, field_is_inside,
    items_are_inside, struct_is_inside,
};
use vstd::prelude::*;

verus! {

// ---------------------------------------------------------------------------
// One mesh
// ---------------------------------------------------------------------------
proof fn lemma_mesh_names()
    ensures
        "index buffer index"@ != "index buffer tessellation"@,
        "index buffer index"@ != "vertex buffer indices"@,
        "index buffer index"@ != "vertex type"@,
        "index buffer tessellation"@ != "vertex buffer indices"@,
        "index buffer tessellation"@ != "vertex type"@,
        "vertex buffer indices"@ != "vertex type"@,
{
    reveal_strlit("index buffer index");
    reveal_strlit("index buffer tessellation");
    reveal_strlit("vertex buffer indices");
    reveal_strlit("vertex type");
    assert("index buffer index"@.len() == 18);
    assert("index buffer tessellation"@.len() == 25);
    assert("vertex buffer indices"@.len() == 21);
    assert("vertex type"@.len() == 11);
}

proof fn lemma_slots(m: StructView, other: Seq<char>)
    requires
        other != "vertex buffer indices"@,
    ensures
        field_answering(slots_zeroed(m), other) == field_answering(m, other),
        field_answering(m, "vertex buffer indices"@) matches Some(f) ==> (
        f.content matches ContentView::Array(a) ==> field_answering(
            slots_zeroed(m),
            "vertex buffer indices"@,
        ) == Some(
            FieldView {
                content: ContentView::Array(
                    Seq::new(a.len(), |i: int| int_set(a[i], "vertex buffer index"@, 0)),
                ),
                ..f
            },
        )),
{
    if let Some(k) = place_named(m, "vertex buffer indices"@) {
        if let ContentView::Array(a) = m.fields[k as int].content {
            lemma_field_replaced(
                m,
                "vertex buffer indices"@,
                k,
                FieldView {
                    content: ContentView::Array(
                        Seq::new(a.len(), |i: int| int_set(a[i], "vertex buffer index"@, 0)),
                    ),
                    ..m.fields[k as int]
                },
                other,
            );
        }
    }
}

proof fn lemma_format(m: StructView, other: Seq<char>)
    requires
        other != "vertex type"@,
    ensures
        field_answering(format_unpacked(m), other) == field_answering(m, other),
        field_answering(m, "vertex type"@) matches Some(f) ==> field_answering(
            format_unpacked(m),
            "vertex type"@,
        ) == Some(
            match unpacked_format(f) {
                Some(v) => f.offered(v),
                None => f,
            },
        ),
{
    if let Some(k) = place_named(m, "vertex type"@) {
        if let Some(v) = unpacked_format(m.fields[k as int]) {
            lemma_field_replaced(
                m,
                "vertex type"@,
                k,
                m.fields[k as int].offered(v),
                other,
            );
        }
    }
}

/// A settled mesh points at no index buffer and no tessellation, its slots are all zero,
/// and whatever else it holds, but for the format of its vertices, it holds still.
pub proof fn a_settled_mesh_points_at_nothing(m: StructView, other: Seq<char>)
    requires
        other != "index buffer index"@,
        other != "index buffer tessellation"@,
        other != "vertex buffer indices"@,
        other != "vertex type"@,
    ensures
        has_room_for(m, "index buffer index"@, -1i64) ==> int_named(
            mesh_settled(m),
            "index buffer index"@,
        ) == Some(-1int),
        has_room_for(m, "index buffer tessellation"@, -1i64) ==> int_named(
            mesh_settled(m),
            "index buffer tessellation"@,
        ) == Some(-1int),
        field_answering(mesh_settled(m), other) == field_answering(m, other),
        field_answering(m, "vertex buffer indices"@) matches Some(f) ==> (
        f.content matches ContentView::Array(a) ==> (field_answering(
            mesh_settled(m),
            "vertex buffer indices"@,
        ) matches Some(g) && (g.content matches ContentView::Array(r) && slots_are_zero(a, r)))),
        field_answering(m, "vertex type"@) matches Some(f) ==> field_answering(
            mesh_settled(m),
            "vertex type"@,
        ) == Some(
            match unpacked_format(f) {
                Some(v) => f.offered(v),
                None => f,
            },
        ),
{
    lemma_mesh_names();
    let m1 = int_set(m, "index buffer index"@, -1i64);
    let m2 = int_set(m1, "index buffer tessellation"@, -1i64);
    let m3 = slots_zeroed(m2);
    setting_one_number_keeps_the_others(m, "index buffer index"@, -1i64, other);
    setting_one_number_keeps_the_others(m, "index buffer index"@, -1i64, "index buffer tessellation"@);
    setting_one_number_keeps_the_others(m, "index buffer index"@, -1i64, "vertex buffer indices"@);
    setting_one_number_keeps_the_others(m, "index buffer index"@, -1i64, "vertex type"@);
    setting_one_number_keeps_the_others(m1, "index buffer tessellation"@, -1i64, other);
    setting_one_number_keeps_the_others(
        m1,
        "index buffer tessellation"@,
        -1i64,
        "index buffer index"@,
    );
    setting_one_number_keeps_the_others(
        m1,
        "index buffer tessellation"@,
        -1i64,
        "vertex buffer indices"@,
    );
    setting_one_number_keeps_the_others(m1, "index buffer tessellation"@, -1i64, "vertex type"@);
    lemma_slots(m2, other);
    lemma_slots(m2, "index buffer index"@);
    lemma_slots(m2, "index buffer tessellation"@);
    lemma_slots(m2, "vertex type"@);
    lemma_format(m3, other);
    lemma_format(m3, "index buffer index"@);
    lemma_format(m3, "index buffer tessellation"@);
    lemma_format(m3, "vertex buffer indices"@);
    if let Some(f) = field_answering(m, "vertex buffer indices"@) {
        if let ContentView::Array(a) = f.content {
            let r = Seq::new(a.len(), |i: int| int_set(a[i], "vertex buffer index"@, 0));
            assert(slots_are_zero(a, r)) by {
                assert forall|i: int| 0 <= i < a.len() implies slot_is_zero(#[trigger] a[i], r[i]) by {
                    assert forall|name: Seq<char>|
                        name != "vertex buffer index"@ implies #[trigger] field_answering(r[i], name)
                        == field_answering(a[i], name) by {
                        setting_one_number_keeps_the_others(a[i], "vertex buffer index"@, 0, name);
                    }
                    setting_one_number_keeps_the_others(
                        a[i],
                        "vertex buffer index"@,
                        0,
                        "vertex buffer index"@,
                    );
                }
            }
        }
    }
}

/// Whether `r` is the slot `a` with its index at zero.
pub open spec fn slot_is_zero(a: StructView, r: StructView) -> bool {
    &&& has_room_for(a, "vertex buffer index"@, 0) ==> int_named(r, "vertex buffer index"@) == Some(
        0int,
    )
    &&& forall|name: Seq<char>|
        name != "vertex buffer index"@ ==> #[trigger] field_answering(r, name) == field_answering(
            a,
            name,
        )
}

/// The same for all slots of a mesh.
pub open spec fn slots_are_zero(a: Seq<StructView>, r: Seq<StructView>) -> bool {
    r.len() == a.len() && forall|i: int| 0 <= i < a.len() ==> slot_is_zero(#[trigger] a[i], r[i])
}

/// A packed vertex format becomes the plain one of the same kind, by its place among the
/// options; every other format is left as it is.
pub proof fn a_packed_format_becomes_its_plain_one(
    f: FieldView,
    names: Seq<Seq<char>>,
    held: Seq<char>,
    j: int,
)
    requires
        f.options == OptionsView::Enum(names),
        names.len() <= 0x80,
        f.content matches ContentView::Value(v) && (v matches FieldValue::Enum { kind, name, .. }
            && kind == TagFieldType::CharEnum && name == Some(held)),
        0 <= j < names.len(),
        held == "rigid compressed"@ && names[j] == "rigid"@ || held == "skinned compressed"@
            && names[j] == "skinned"@,
        forall|k: int| 0 <= k < j ==> names[k] != names[j],
    ensures
        unpacked_format(f) == Some(
            FieldValue::Enum { kind: TagFieldType::CharEnum, value: j, name: None },
        ),
{
    reveal_strlit("rigid compressed");
    reveal_strlit("skinned compressed");
    assert("rigid compressed"@.len() == 16);
    assert("skinned compressed"@.len() == 18);
    lemma_name_position(names, names[j], 0, j as nat);
}

proof fn lemma_name_position(names: Seq<Seq<char>>, name: Seq<char>, from: nat, j: nat)
    requires
        from <= j < names.len(),
        names[j as int] == name,
        forall|k: int| 0 <= k < j ==> names[k] != name,
    ensures
        name_position(names, name, from) == Some(j),
    decreases j - from,
{
    if from < j {
        assert(names[from as int] != name);
        lemma_name_position(names, name, from + 1, j);
    }
}

/// A format that is not packed is left as it is.
pub proof fn a_plain_format_is_kept(f: FieldView, held: Option<Seq<char>>)
    requires
        f.content matches ContentView::Value(v) && (v matches FieldValue::Enum { name, .. } && name
            == held),
        held != Some("rigid compressed"@),
        held != Some("skinned compressed"@),
    ensures
        unpacked_format(f) is None,
{
}

/// The meshes of a geometry are settled each in its place.
pub proof fn every_mesh_is_settled_in_its_place(s: StructView, i: int, other: Seq<char>)
    requires
        0 <= i < meshes_in(s).len(),
        other != "index buffer index"@,
        other != "index buffer tessellation"@,
        other != "vertex buffer indices"@,
        other != "vertex type"@,
    ensures
        meshes_in(meshes_settled(s)).len() == meshes_in(s).len(),
        field_answering(meshes_in(meshes_settled(s))[i], other) == field_answering(
            meshes_in(s)[i],
            other,
        ),
        has_room_for(meshes_in(s)[i], "index buffer index"@, -1i64) ==> int_named(
            meshes_in(meshes_settled(s))[i],
            "index buffer index"@,
        ) == Some(-1int),
{
    let k = place_named(s, "meshes"@)->0;
    let b = s.fields[k as int].content->Block_0;
    let f = FieldView {
        content: ContentView::Block(
            BlockView {
                elements: Seq::new(b.elements.len(), |i: int| mesh_settled(b.elements[i])),
                ..b
            },
        ),
        ..s.fields[k as int]
    };
    lemma_field_replaced(s, "meshes"@, k, f, "meshes"@);
    a_settled_mesh_points_at_nothing(meshes_in(s)[i], other);
}

// ---------------------------------------------------------------------------
// Words
// ---------------------------------------------------------------------------
/// In every word of four bytes the last byte comes first, the third second, the second
/// third and the first last.
pub proof fn every_word_is_turned_round(bytes: Seq<u8>, w: int)
    requires
        0 <= w,
        4 * w + 3 < bytes.len(),
    ensures
        words_turned(bytes).len() == bytes.len(),
        words_turned(bytes)[4 * w] == bytes[4 * w + 3],
        words_turned(bytes)[4 * w + 1] == bytes[4 * w + 2],
        words_turned(bytes)[4 * w + 2] == bytes[4 * w + 1],
        words_turned(bytes)[4 * w + 3] == bytes[4 * w],
{
    assert((4 * w) % 4 == 0);
    assert((4 * w + 1) % 4 == 1);
    assert((4 * w + 2) % 4 == 2);
    assert((4 * w + 3) % 4 == 3);
}

// ---------------------------------------------------------------------------
// Trees that there is nothing to change in
// ---------------------------------------------------------------------------
/// Whether a field and what is inside it holds no geometry, nothing stored as words, and
/// no curve of the table.
pub open spec fn untouched_field(f: FieldView, table: Seq<(Seq<u8>, Seq<u8>)>) -> bool
    decreases f, 0nat,
{
    match f.content {
        ContentView::Struct(s) => untouched(s, table),
        ContentView::Block(b) => forall|i: int|
            0 <= i < b.elements.len() ==> untouched(#[trigger] b.elements[i], table),
        ContentView::Array(a) => forall|i: int|
            0 <= i < a.len() ==> untouched(#[trigger] a[i], table),
        ContentView::Value(FieldValue::Bytes { bytes, .. }) => forall|i: int|
            0 <= i < table.len() ==> (#[trigger] table[i]).0 != bytes,
        _ => true,
    }
}

/// The same for a struct.
pub open spec fn untouched(s: StructView, table: Seq<(Seq<u8>, Seq<u8>)>) -> bool
    decreases s, 1nat,
{
    &&& place_named(s, "meshes"@) is None
    &&& place_named(s, "user data header"@) is None
    &&& forall|k: int| 0 <= k < s.fields.len() ==> untouched_field(#[trigger] s.fields[k], table)
}

proof fn lemma_not_in_table(table: Seq<(Seq<u8>, Seq<u8>)>, bytes: Seq<u8>, from: nat)
    requires
        forall|i: int| 0 <= i < table.len() ==> (#[trigger] table[i]).0 != bytes,
    ensures
        curve_from(table, bytes, from) is None,
    decreases table.len() - from,
{
    if from < table.len() {
        assert(table[from as int].0 != bytes);
        lemma_not_in_table(table, bytes, from + 1);
    }
}

proof fn lemma_field_untouched(f: FieldView, table: Seq<(Seq<u8>, Seq<u8>)>)
    requires
        untouched_field(f, table),
    ensures
        field_settled(f) == f,
        field_turned(f) == f,
        field_swapped(f, table) == f,
    decreases f, 0nat,
{
    match f.content {
        ContentView::Struct(s) => {
            struct_is_inside(f, s);
            an_untouched_tree_stays_as_it_was(s, table);
        },
        ContentView::Block(b) => {
            elements_are_inside(f, b);
            assert forall|i: int| 0 <= i < b.elements.len() implies struct_settled(
                #[trigger] b.elements[i],
            ) == b.elements[i] && struct_turned(b.elements[i]) == b.elements[i] && struct_swapped(
                b.elements[i],
                table,
            ) == b.elements[i] by {
                an_untouched_tree_stays_as_it_was(b.elements[i], table);
            }
            assert(field_settled(f).content->Block_0.elements =~= b.elements);
            assert(field_turned(f).content->Block_0.elements =~= b.elements);
            assert(field_swapped(f, table).content->Block_0.elements =~= b.elements);
        },
        ContentView::Array(a) => {
            items_are_inside(f, a);
            assert forall|i: int| 0 <= i < a.len() implies struct_swapped(#[trigger] a[i], table)
                == a[i] by {
                an_untouched_tree_stays_as_it_was(a[i], table);
            }
            assert(field_swapped(f, table).content->Array_0 =~= a);
        },
        ContentView::Value(FieldValue::Bytes { kind, bytes }) => {
            lemma_not_in_table(table, bytes, 0);
        },
        _ => {},
    }
}

/// A tree without geometry, without words and without curves of the table stays as it was,
/// in every depth and every place: settling, turning and correcting curves leave it alone.
pub proof fn an_untouched_tree_stays_as_it_was(s: StructView, table: Seq<(Seq<u8>, Seq<u8>)>)
    requires
        untouched(s, table),
    ensures
        struct_settled(s) == s,
        struct_turned(s) == s,
        struct_swapped(s, table) == s,
    decreases s, 1nat,
{
    assert forall|k: int| 0 <= k < s.fields.len() implies field_settled(#[trigger] s.fields[k])
        == s.fields[k] && field_turned(s.fields[k]) == s.fields[k] && field_swapped(
        s.fields[k],
        table,
    ) == s.fields[k] by {
        field_is_inside(s, k);
        lemma_field_untouched(s.fields[k], table);
    }
    assert(all_settled(s).fields =~= s.fields);
    assert(all_turned(s).fields =~= s.fields);
    assert(struct_swapped(s, table).fields =~= s.fields);
}

/// Bytes that stand in the table of curves become the curve that stands beside them, the
/// first that does.
pub proof fn a_curve_of_the_table_is_corrected(
    f: FieldView,
    table: Seq<(Seq<u8>, Seq<u8>)>,
    j: int,
)
    requires
        f.field_type == TagFieldType::Data,
        0 <= j < table.len(),
        f.content == ContentView::Value(
            FieldValue::Bytes { kind: TagFieldType::Data, bytes: table[j].0 },
        ),
        forall|k: int| 0 <= k < j ==> (#[trigger] table[k]).0 != table[j].0,
    ensures
        field_swapped(f, table).content == ContentView::Value(
            FieldValue::Bytes { kind: TagFieldType::Data, bytes: table[j].1 },
        ),
{
    lemma_in_table(table, table[j].0, 0, j as nat);
}

proof fn lemma_in_table(table: Seq<(Seq<u8>, Seq<u8>)>, bytes: Seq<u8>, from: nat, j: nat)
    requires
        from <= j < table.len(),
        table[j as int].0 == bytes,
        forall|k: int| 0 <= k < j ==> (#[trigger] table[k]).0 != bytes,
    ensures
        curve_from(table, bytes, from) == Some(table[j as int].1),
    decreases j - from,
{
    if from < j {
        assert(table[from as int].0 != bytes);
        lemma_in_table(table, bytes, from + 1, j);
    }
}

}
