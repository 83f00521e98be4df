//! Bytes that a tag holds without knowing what they are, put into the byte order
//! of the target.
use crate::convert::report::{ConversionContext, plus, plus_of};
use crate::convert::settling::{counted_warning, warn_of_count};
use crate::fields::{FieldValue, TagFieldData, TagFieldType, copy_bytes};
use crate::file::{FileView, TagFile};
use crate::json::bytes_option;
use crate::reads::{
    descend, option_named, place_named, place_of_field, read_enum_name, struct_named,
};
use crate::tag::{
    BlockView, ContentView, FieldView, StructView, TagArray, TagBlock, TagField, TagStruct,
    elements_are_inside, field_is_inside, items_are_inside, struct_is_inside,
};
use crate::text::same;
use vstd::prelude::*;

verus! {

// ---------------------------------------------------------------------------
// User data of geometry
// ---------------------------------------------------------------------------
/// Bytes with every word of four turned round.
pub open spec fn words_turned(bytes: Seq<u8>) -> Seq<u8> {
    Seq::new(bytes.len(), |i: int| bytes[i - i % 4 + 3 - i % 4])
}

/// Turning words round twice changes nothing.
pub proof fn turning_twice_changes_nothing(bytes: Seq<u8>)
    requires
        bytes.len() % 4 == 0,
    ensures
        words_turned(words_turned(bytes)) == bytes,
{
    let once = words_turned(bytes);
    let twice = words_turned(once);
    assert forall|i: int| 0 <= i < bytes.len() implies twice[i] == bytes[i] by {
        let j = i - i % 4 + 3 - i % 4;
        assert(0 <= j < bytes.len());
        assert(j % 4 == 3 - i % 4);
        assert(j - j % 4 == i - i % 4);
        assert(once[j] == bytes[j - j % 4 + 3 - j % 4]);
    }
    assert(twice =~= bytes);
}

/// Turns every word of four bytes round.
pub fn turn_words(bytes: &Vec<u8>) -> (r: Vec<u8>)
    requires
        bytes@.len() % 4 == 0,
    ensures
        r@ == words_turned(bytes@),
{
    let mut r: Vec<u8> = Vec::new();
    let n: usize = bytes.len();
    let mut i: usize = 0;
    while i < n
        invariant
            i <= n,
            n == bytes@.len(),
            n % 4 == 0,
            i % 4 == 0,
            r@.len() == i,
            forall|j: int| 0 <= j < i ==> r@[j] == words_turned(bytes@)[j],
        decreases n - i,
    {
        r.push(bytes[i + 3]);
        r.push(bytes[i + 2]);
        r.push(bytes[i + 1]);
        r.push(bytes[i]);
        i = i + 4;
    }
    assert(r@ =~= words_turned(bytes@));
    r
}

/// Whether the user data of a struct is made of words: its header says which
/// payload it is, and one alone is known to be.
pub open spec fn holds_words(s: StructView) -> bool {
    match struct_named(s, "user data header"@) {
        Some(header) => option_named(header, "data type"@) == Some("PRT Info"@),
        None => false,
    }
}

/// The user data of a struct, with its place, where it is made of whole words.
pub open spec fn words_of(s: StructView) -> Option<(nat, Seq<u8>)> {
    if !holds_words(s) {
        None
    } else {
        match place_named(s, "user data"@) {
            Some(k) => match s.fields[k as int].content {
                ContentView::Value(FieldValue::Bytes { kind: TagFieldType::Data, bytes }) => if bytes.len()
                    % 4 == 0 {
                    Some((k, bytes))
                } else {
                    None
                },
                _ => None,
            },
            None => None,
        }
    }
}

/// A struct with its own user data turned round.
pub open spec fn own_turned(s: StructView) -> StructView {
    match words_of(s) {
        Some((k, bytes)) => s.with_field_at(
            k as int,
            s.fields[k as int].offered(
                FieldValue::Bytes { kind: TagFieldType::Data, bytes: words_turned(bytes) },
            ),
        ),
        None => s,
    }
}

/// How many blobs of user data a struct has of its own.
pub open spec fn own_blobs(s: StructView) -> nat {
    if words_of(s) is Some {
        1
    } else {
        0
    }
}

fn turn_own(value: &mut TagStruct, counted: &mut usize)
    ensures
        final(value)@ == own_turned(old(value)@),
        *final(counted) == plus(*old(counted), own_blobs(old(value)@) as int),
{
    let known: bool = match descend(value, "user data header") {
        Some(header) => match read_enum_name(header, "data type") {
            Some(kind) => same(kind, "PRT Info"),
            None => false,
        },
        None => false,
    };
    if !known {
        return;
    }
    let k: usize = match place_of_field(value, "user data") {
        Some(k) => k,
        None => {
            return;
        },
    };
    let fixed: Vec<u8> = match value.at(k).as_data() {
        Some(bytes) => if bytes.len() % 4 == 0 {
            turn_words(bytes)
        } else {
            return;
        },
        None => {
            return;
        },
    };
    let _ = value.at_mut(k).set(TagFieldData::Data(fixed));
    assert(value@.fields =~= own_turned(old(value)@).fields);
    *counted = plus_of(*counted, 1);
}

/// What becomes of a field.
pub open spec fn field_turned(f: FieldView) -> FieldView
    decreases f, 0nat,
{
    match f.content {
        ContentView::Struct(s) => FieldView {
            content: ContentView::Struct(struct_turned(s)),
            ..f
        },
        ContentView::Block(b) => FieldView {
            content: ContentView::Block(
                BlockView {
                    elements: Seq::new(
                        b.elements.len(),
                        |i: int|
                            if 0 <= i < b.elements.len() {
                                struct_turned(b.elements[i])
                            } else {
                                arbitrary()
                            },
                    ),
                    ..b
                },
            ),
            ..f
        },
        _ => f,
    }
}

/// A struct with the user data inside it turned round.
pub open spec fn all_turned(s: StructView) -> StructView
    decreases s, 0nat,
{
    StructView {
        fields: Seq::new(
            s.fields.len(),
            |i: int|
                if 0 <= i < s.fields.len() {
                    field_turned(s.fields[i])
                } else {
                    arbitrary()
                },
        ),
        ..s
    }
}

/// A struct with all user data turned round, its own among it.
pub open spec fn struct_turned(s: StructView) -> StructView
    decreases s, 1nat,
{
    own_turned(all_turned(s))
}

/// How many are counted in the first `n` fields.
pub open spec fn turned_in_fields(fields: Seq<FieldView>, n: nat) -> nat
    decreases fields, n,
{
    if n == 0 || n > fields.len() {
        0
    } else {
        turned_in_fields(fields, (n - 1) as nat) + turned_in_field(fields[n - 1])
    }
}

/// How many are counted in a field.
pub open spec fn turned_in_field(f: FieldView) -> nat
    decreases f, 0nat,
{
    match f.content {
        ContentView::Struct(s) => turned_in_struct(s),
        ContentView::Block(b) => turned_in_list(b.elements, b.elements.len()),
        _ => 0,
    }
}

/// How many are counted in the first `n` structs.
pub open spec fn turned_in_list(list: Seq<StructView>, n: nat) -> nat
    decreases list, n,
{
    if n == 0 || n > list.len() {
        0
    } else {
        turned_in_list(list, (n - 1) as nat) + turned_in_struct(list[n - 1])
    }
}

/// How many are counted in a struct.
pub open spec fn turned_in_struct(s: StructView) -> nat
    decreases s, 0nat,
{
    turned_in_fields(s.fields, s.fields.len()) + own_blobs(all_turned(s))
}

/// Turns the user data in a struct round.
pub fn swap_user_data_in(value: &mut TagStruct, counted: &mut usize)
    ensures
        final(value)@ == struct_turned(old(value)@),
        *final(counted) == plus(*old(counted), turned_in_struct(old(value)@) as int),
    decreases old(value)@,
{
    let ghost start = value@;
    let n: usize = value.len();
    let mut i: usize = 0;
    while i < n
        invariant
            i <= n,
            n == start.fields.len(),
            start == old(value)@,
            value@ == (StructView { fields: value@.fields, ..start }),
            value@.fields.len() == n,
            forall|j: int| 0 <= j < i ==> value@.fields[j] == field_turned(start.fields[j]),
            forall|j: int| i <= j < n ==> value@.fields[j] == start.fields[j],
            *counted == plus(*old(counted), turned_in_fields(start.fields, i as nat) as int),
        decreases n - i,
    {
        proof {
            field_is_inside(start, i as int);
        }
        swap_user_data_in_field(value.at_mut(i), counted);
        i = i + 1;
    }
    assert(value@.fields =~= all_turned(start).fields);
    turn_own(value, counted);
}

fn swap_user_data_in_block(block: &mut TagBlock, counted: &mut usize)
    ensures
        final(block)@ == (BlockView { elements: final(block)@.elements, ..old(block)@ }),
        final(block)@.elements.len() == old(block)@.elements.len(),
        forall|j: int|
            0 <= j < old(block)@.elements.len() ==> final(block)@.elements[j] == struct_turned(
                old(block)@.elements[j],
            ),
        *final(counted) == plus(
            *old(counted),
            turned_in_list(old(block)@.elements, old(block)@.elements.len()) as int,
        ),
    decreases old(block)@.elements,
{
    let ghost start = block@;
    let n: usize = block.len();
    let mut i: usize = 0;
    while i < n
        invariant
            i <= n,
            n == start.elements.len(),
            start == old(block)@,
            block@ == (BlockView { elements: block@.elements, ..start }),
            block@.elements.len() == n,
            forall|j: int| 0 <= j < i ==> block@.elements[j] == struct_turned(start.elements[j]),
            forall|j: int| i <= j < n ==> block@.elements[j] == start.elements[j],
            *counted == plus(*old(counted), turned_in_list(start.elements, i as nat) as int),
        decreases n - i,
    {
        assert(decreases_to!(start.elements => start.elements[i as int]));
        swap_user_data_in(block.at_mut(i), counted);
        i = i + 1;
    }
}

fn swap_user_data_in_field(field: &mut TagField, counted: &mut usize)
    ensures
        final(field)@ == field_turned(old(field)@),
        *final(counted) == plus(*old(counted), turned_in_field(old(field)@) as int),
    decreases old(field)@,
{
    let ghost start = field@;
    if field.holds_struct() {
        if let Some(nested) = field.as_struct_mut() {
            proof {
                struct_is_inside(start, nested@);
            }
            swap_user_data_in(nested, counted);
        }
        return;
    }
    if field.holds_block() {
        if let Some(block) = field.as_block_mut() {
            proof {
                elements_are_inside(start, block@);
            }
            swap_user_data_in_block(block, counted);
            assert(block@.elements =~= field_turned(start).content->Block_0.elements);
        }
        return;
    }
}

/// Puts the user data of geometry into the target's byte order, where a tag only
/// changes that.
pub fn swap_geometry_user_data(
    byte_order_upgrade: bool,
    target: &mut TagFile,
    context: &mut ConversionContext,
)
    ensures
        byte_order_upgrade ==> {
            &&& final(target)@ == (FileView { root: struct_turned(old(target)@.root), ..old(target)@ })
            &&& final(context)@ == counted_warning(
                old(context)@,
                turned_in_struct(old(target)@.root),
                " geometry user-data blob(s) were byte-swapped for the target"@,
            )
        },
        !byte_order_upgrade ==> final(target)@ == old(target)@ && final(context)@ == old(context)@,
{
    if !byte_order_upgrade {
        return;
    }
    let mut counted: usize = 0;
    swap_user_data_in(&mut target.root, &mut counted);
    warn_of_count(
        context,
        counted,
        " geometry user-data blob(s) were byte-swapped for the target",
    );
}

// ---------------------------------------------------------------------------
// Curves
// ---------------------------------------------------------------------------
/// Curves, each with what it is in the other byte order.
pub open spec fn curve_views(v: Seq<(Vec<u8>, Vec<u8>)>) -> Seq<(Seq<u8>, Seq<u8>)> {
    Seq::new(v.len(), |i: int| (v[i].0@, v[i].1@))
}

/// What the curve `bytes` is in the other byte order; none for bytes that are no
/// curve.
pub open spec fn curve_from(table: Seq<(Seq<u8>, Seq<u8>)>, bytes: Seq<u8>, i: nat) -> Option<Seq<u8>>
    decreases table.len() - i,
{
    if i >= table.len() {
        None
    } else if table[i as int].0 == bytes {
        Some(table[i as int].1)
    } else {
        curve_from(table, bytes, i + 1)
    }
}

/// Whether two lists of bytes are the same.
pub fn same_bytes(a: &Vec<u8>, b: &Vec<u8>) -> (r: bool)
    ensures
        r == (a@ == b@),
{
    if a.len() != b.len() {
        return false;
    }
    let mut i: usize = 0;
    while i < a.len()
        invariant
            i <= a.len(),
            a@.len() == b@.len(),
            forall|j: int| 0 <= j < i ==> a@[j] == b@[j],
        decreases a.len() - i,
    {
        if a[i] != b[i] {
            return false;
        }
        i = i + 1;
    }
    assert(a@ =~= b@);
    true
}

fn turned_curve(table: &Vec<(Vec<u8>, Vec<u8>)>, bytes: &Vec<u8>) -> (r: Option<Vec<u8>>)
    ensures
        bytes_option(r) == curve_from(curve_views(table@), bytes@, 0),
{
    let mut i: usize = 0;
    while i < table.len()
        invariant
            i <= table.len(),
            curve_from(curve_views(table@), bytes@, 0) == curve_from(
                curve_views(table@),
                bytes@,
                i as nat,
            ),
        decreases table.len() - i,
    {
        if same_bytes(&table[i].0, bytes) {
            return Some(copy_bytes(&table[i].1));
        }
        i = i + 1;
    }
    None
}

/// What becomes of a field.
pub open spec fn field_swapped(f: FieldView, table: Seq<(Seq<u8>, Seq<u8>)>) -> FieldView
    decreases f,
{
    match f.content {
        ContentView::Value(FieldValue::Bytes { kind: TagFieldType::Data, bytes }) => match curve_from(
            table,
            bytes,
            0,
        ) {
            Some(fixed) => f.offered(
                FieldValue::Bytes { kind: TagFieldType::Data, bytes: fixed },
            ),
            None => f,
        },
        ContentView::Struct(s) => FieldView {
            content: ContentView::Struct(struct_swapped(s, table)),
            ..f
        },
        ContentView::Block(b) => FieldView {
            content: ContentView::Block(
                BlockView {
                    elements: Seq::new(
                        b.elements.len(),
                        |i: int|
                            if 0 <= i < b.elements.len() {
                                struct_swapped(b.elements[i], table)
                            } else {
                                arbitrary()
                            },
                    ),
                    ..b
                },
            ),
            ..f
        },
        ContentView::Array(a) => FieldView {
            content: ContentView::Array(
                Seq::new(
                    a.len(),
                    |i: int|
                        if 0 <= i < a.len() {
                            struct_swapped(a[i], table)
                        } else {
                            arbitrary()
                        },
                ),
            ),
            ..f
        },
        _ => f,
    }
}

/// A struct with every curve in it in the other byte order.
pub open spec fn struct_swapped(s: StructView, table: Seq<(Seq<u8>, Seq<u8>)>) -> StructView
    decreases s,
{
    StructView {
        fields: Seq::new(
            s.fields.len(),
            |i: int|
                if 0 <= i < s.fields.len() {
                    field_swapped(s.fields[i], table)
                } else {
                    arbitrary()
                },
        ),
        ..s
    }
}

/// How many are counted in the first `n` fields.
pub open spec fn swapped_in_fields(fields: Seq<FieldView>, table: Seq<(Seq<u8>, Seq<u8>)>, n: nat) -> nat
    decreases fields, n,
{
    if n == 0 || n > fields.len() {
        0
    } else {
        swapped_in_fields(fields, table, (n - 1) as nat) + swapped_in_field(fields[n - 1], table)
    }
}

/// How many are counted in a field.
pub open spec fn swapped_in_field(f: FieldView, table: Seq<(Seq<u8>, Seq<u8>)>) -> nat
    decreases f, 0nat,
{
    match f.content {
        ContentView::Value(FieldValue::Bytes { kind: TagFieldType::Data, bytes }) => if curve_from(
            table,
            bytes,
            0,
        ) is Some {
            1
        } else {
            0
        },
        ContentView::Struct(s) => swapped_in_struct(s, table),
        ContentView::Block(b) => swapped_in_list(b.elements, table, b.elements.len()),
        ContentView::Array(a) => swapped_in_list(a, table, a.len()),
        _ => 0,
    }
}

/// How many are counted in the first `n` structs.
pub open spec fn swapped_in_list(list: Seq<StructView>, table: Seq<(Seq<u8>, Seq<u8>)>, n: nat) -> nat
    decreases list, n,
{
    if n == 0 || n > list.len() {
        0
    } else {
        swapped_in_list(list, table, (n - 1) as nat) + swapped_in_struct(list[n - 1], table)
    }
}

/// How many are counted in a struct.
pub open spec fn swapped_in_struct(s: StructView, table: Seq<(Seq<u8>, Seq<u8>)>) -> nat
    decreases s, 0nat,
{
    swapped_in_fields(s.fields, table, s.fields.len())
}

/// Puts every curve in a struct into the other byte order.
pub fn swap_curves_in(value: &mut TagStruct, table: &Vec<(Vec<u8>, Vec<u8>)>, counted: &mut usize)
    ensures
        final(value)@ == struct_swapped(old(value)@, curve_views(table@)),
        *final(counted) == plus(*old(counted), swapped_in_struct(old(value)@, curve_views(table@)) as int),
    decreases old(value)@,
{
    let ghost start = value@;
    let n: usize = value.len();
    let mut i: usize = 0;
    while i < n
        invariant
            i <= n,
            n == start.fields.len(),
            start == old(value)@,
            value@ == (StructView { fields: value@.fields, ..start }),
            value@.fields.len() == n,
            forall|j: int| 0 <= j < i ==> value@.fields[j] == field_swapped(start.fields[j], curve_views(table@)),
            forall|j: int| i <= j < n ==> value@.fields[j] == start.fields[j],
            *counted == plus(*old(counted), swapped_in_fields(start.fields, curve_views(table@), i as nat) as int),
        decreases n - i,
    {
        proof {
            field_is_inside(start, i as int);
        }
        swap_curves_in_field(value.at_mut(i), table, counted);
        i = i + 1;
    }
    assert(value@.fields =~= struct_swapped(start, curve_views(table@)).fields);
}

fn swap_curves_in_block(block: &mut TagBlock, table: &Vec<(Vec<u8>, Vec<u8>)>, counted: &mut usize)
    ensures
        final(block)@ == (BlockView { elements: final(block)@.elements, ..old(block)@ }),
        final(block)@.elements.len() == old(block)@.elements.len(),
        forall|j: int|
            0 <= j < old(block)@.elements.len() ==> final(block)@.elements[j] == struct_swapped(
                old(block)@.elements[j], curve_views(table@),
            ),
        *final(counted) == plus(
            *old(counted),
            swapped_in_list(old(block)@.elements, curve_views(table@), old(block)@.elements.len()) as int,
        ),
    decreases old(block)@.elements,
{
    let ghost start = block@;
    let n: usize = block.len();
    let mut i: usize = 0;
    while i < n
        invariant
            i <= n,
            n == start.elements.len(),
            start == old(block)@,
            block@ == (BlockView { elements: block@.elements, ..start }),
            block@.elements.len() == n,
            forall|j: int| 0 <= j < i ==> block@.elements[j] == struct_swapped(start.elements[j], curve_views(table@)),
            forall|j: int| i <= j < n ==> block@.elements[j] == start.elements[j],
            *counted == plus(*old(counted), swapped_in_list(start.elements, curve_views(table@), i as nat) as int),
        decreases n - i,
    {
        assert(decreases_to!(start.elements => start.elements[i as int]));
        swap_curves_in(block.at_mut(i), table, counted);
        i = i + 1;
    }
}

fn swap_curves_in_array(array: &mut TagArray, table: &Vec<(Vec<u8>, Vec<u8>)>, counted: &mut usize)
    ensures
        final(array)@.len() == old(array)@.len(),
        forall|j: int|
            0 <= j < old(array)@.len() ==> final(array)@[j] == struct_swapped(old(array)@[j], curve_views(table@)),
        *final(counted) == plus(
            *old(counted),
            swapped_in_list(old(array)@, curve_views(table@), old(array)@.len()) as int,
        ),
    decreases old(array)@,
{
    let ghost start = array@;
    let n: usize = array.len();
    let mut i: usize = 0;
    while i < n
        invariant
            i <= n,
            n == start.len(),
            start == old(array)@,
            array@.len() == n,
            forall|j: int| 0 <= j < i ==> array@[j] == struct_swapped(start[j], curve_views(table@)),
            forall|j: int| i <= j < n ==> array@[j] == start[j],
            *counted == plus(*old(counted), swapped_in_list(start, curve_views(table@), i as nat) as int),
        decreases n - i,
    {
        assert(decreases_to!(start => start[i as int]));
        swap_curves_in(array.at_mut(i), table, counted);
        i = i + 1;
    }
}

fn swap_curves_in_field(field: &mut TagField, table: &Vec<(Vec<u8>, Vec<u8>)>, counted: &mut usize)
    ensures
        final(field)@ == field_swapped(old(field)@, curve_views(table@)),
        *final(counted) == plus(*old(counted), swapped_in_field(old(field)@, curve_views(table@)) as int),
    decreases old(field)@,
{
    let ghost start = field@;
    let fixed: Option<Vec<u8>> = match field.as_data() {
        Some(bytes) => turned_curve(table, bytes),
        None => None,
    };
    if let Some(bytes) = fixed {
        let _ = field.set(TagFieldData::Data(bytes));
        *counted = plus_of(*counted, 1);
        return;
    }
    if field.holds_struct() {
        if let Some(nested) = field.as_struct_mut() {
            proof {
                struct_is_inside(start, nested@);
            }
            swap_curves_in(nested, table, counted);
        }
        return;
    }
    if field.holds_block() {
        if let Some(block) = field.as_block_mut() {
            proof {
                elements_are_inside(start, block@);
            }
            swap_curves_in_block(block, table, counted);
            assert(block@.elements =~= field_swapped(start, curve_views(table@)).content->Block_0.elements);
        }
        return;
    }
    if let Some(array) = field.as_array_mut() {
        proof {
            items_are_inside(start, array@);
        }
        swap_curves_in_array(array, table, counted);
        assert(array@ =~= field_swapped(start, curve_views(table@)).content->Array_0);
    }
}

/// Puts every curve of a tag that only changes its byte order into that of the
/// target. `table` holds the curves of the tag, each with what it is in the other
/// order; what is not in it is no curve.
pub fn swap_function_curves(
    byte_order_upgrade: bool,
    table: &Vec<(Vec<u8>, Vec<u8>)>,
    target: &mut TagFile,
    context: &mut ConversionContext,
)
    ensures
        byte_order_upgrade ==> {
            &&& final(target)@ == (FileView {
                root: struct_swapped(old(target)@.root, curve_views(table@)),
                ..old(target)@
            })
            &&& final(context)@ == counted_warning(
                old(context)@,
                swapped_in_struct(old(target)@.root, curve_views(table@)),
                " function curve(s) were byte-swapped for the target"@,
            )
        },
        !byte_order_upgrade ==> final(target)@ == old(target)@ && final(context)@ == old(context)@,
{
    if !byte_order_upgrade {
        return;
    }
    let mut counted: usize = 0;
    swap_curves_in(&mut target.root, table, &mut counted);
    warn_of_count(context, counted, " function curve(s) were byte-swapped for the target");
}

}
