//! Geometry whose compiled buffers did not come across, described as uncompiled.
use crate::convert::report::{ContextView, ConversionContext, ConversionIssueKind, plus, plus_of};
use crate::convert::setting::{
    bit_cleared, clear_bit, cut_to, cut_to_long, int_set, set_int_field, word_of_flags,
};
use crate::fields::{
    FieldValue, OptionsView, TagFieldData, TagFieldType, TagOptions, copy_flag_names, flag_names,
    flag_word, value_option,
};
use crate::file::{FileView, TagFile};
use crate::reads::{elements_named, place_named, place_of_field};
use crate::tag::{
    BlockView, ContentView, FieldView, StructView, TagArray, TagBlock, TagField, TagStruct,
    elements_are_inside, field_is_inside, struct_is_inside,
};
use crate::text::{concat2, decimal, decimal_text, same, texts};
use vstd::prelude::*;

verus! {

// ---------------------------------------------------------------------------
// One mesh
// ---------------------------------------------------------------------------
/// A mesh with every slot of its vertex buffers zero.
pub open spec fn slots_zeroed(m: StructView) -> StructView {
    match place_named(m, "vertex buffer indices"@) {
        Some(k) => match m.fields[k as int].content {
            ContentView::Array(a) => m.with_field_at(
                k as int,
                FieldView {
                    content: ContentView::Array(
                        Seq::new(a.len(), |i: int| int_set(a[i], "vertex buffer index"@, 0)),
                    ),
                    ..m.fields[k as int]
                },
            ),
            _ => m,
        },
        None => m,
    }
}

/// The format that a packed vertex format packs.
pub open spec fn plain_format(name: Seq<char>) -> Option<Seq<char>> {
    if name == "rigid compressed"@ {
        Some("rigid"@)
    } else if name == "skinned compressed"@ {
        Some("skinned"@)
    } else {
        None
    }
}

/// The position of the first of the names, from `i` on, that is `name`.
pub open spec fn name_position(names: Seq<Seq<char>>, name: Seq<char>, i: nat) -> Option<nat>
    decreases names.len() - i,
{
    if i >= names.len() {
        None
    } else if names[i as int] == name {
        Some(i)
    } else {
        name_position(names, name, i + 1)
    }
}

/// The vertex format that a field says, unpacked, where it says a packed one and
/// its options know the other.
pub open spec fn unpacked_format(f: FieldView) -> Option<FieldValue> {
    match f.value() {
        Some(FieldValue::Enum { kind: TagFieldType::CharEnum, name: Some(name), .. }) => match (
            plain_format(name),
            f.options,
        ) {
            (Some(plain), OptionsView::Enum(names)) => match name_position(names, plain, 0) {
                Some(ordinal) => Some(
                    FieldValue::Enum {
                        kind: TagFieldType::CharEnum,
                        value: (ordinal as i8) as int,
                        name: None,
                    },
                ),
                None => None,
            },
            _ => None,
        },
        _ => None,
    }
}

/// A mesh with its vertex format unpacked.
pub open spec fn format_unpacked(m: StructView) -> StructView {
    match place_named(m, "vertex type"@) {
        Some(k) => match unpacked_format(m.fields[k as int]) {
            Some(v) => m.with_field_at(k as int, m.fields[k as int].offered(v)),
            None => m,
        },
        None => m,
    }
}

/// A mesh that names no compiled buffer.
pub open spec fn mesh_settled(m: StructView) -> StructView {
    format_unpacked(
        slots_zeroed(
            int_set(
                int_set(m, "index buffer index"@, -1i64),
                "index buffer tessellation"@,
                -1i64,
            ),
        ),
    )
}

fn zero_slots(slots: &mut TagArray)
    ensures
        final(slots)@ == Seq::new(
            old(slots)@.len(),
            |i: int| int_set(old(slots)@[i], "vertex buffer index"@, 0),
        ),
{
    let ghost start = slots@;
    let n: usize = slots.len();
    let mut i: usize = 0;
    while i < n
        invariant
            i <= n,
            n == start.len(),
            start == old(slots)@,
            slots@.len() == n,
            forall|j: int|
                0 <= j < i ==> slots@[j] == int_set(start[j], "vertex buffer index"@, 0),
            forall|j: int| i <= j < n ==> slots@[j] == start[j],
        decreases n - i,
    {
        set_int_field(slots.at_mut(i), "vertex buffer index", 0);
        i = i + 1;
    }
    assert(slots@ =~= Seq::new(
        start.len(),
        |i: int| int_set(start[i], "vertex buffer index"@, 0),
    ));
}

fn position_of_name(names: &Vec<String>, name: &str) -> (r: Option<usize>)
    ensures
        match r {
            Some(i) => name_position(texts(names@), name@, 0) == Some(i as nat),
            None => name_position(texts(names@), name@, 0) is None,
        },
{
    let mut i: usize = 0;
    while i < names.len()
        invariant
            i <= names.len(),
            name_position(texts(names@), name@, 0) == name_position(texts(names@), name@, i as nat),
        decreases names.len() - i,
    {
        if same(&names[i], name) {
            return Some(i);
        }
        i = i + 1;
    }
    None
}

fn low_char(n: usize) -> (r: i8)
    ensures
        r == n as i8,
{
    #[verifier::truncate]
    (n as i8)
}

fn unpack_format(f: &TagField) -> (r: Option<TagFieldData>)
    ensures
        value_option(r) == unpacked_format(f@),
{
    let plain: &str = match f.value() {
        Some(TagFieldData::CharEnum { name: Some(name), .. }) => if same(name, "rigid compressed") {
            "rigid"
        } else if same(name, "skinned compressed") {
            "skinned"
        } else {
            return None;
        },
        _ => {
            return None;
        },
    };
    match f.options() {
        TagOptions::Enum(names) => match position_of_name(names, plain) {
            Some(ordinal) => Some(
                TagFieldData::CharEnum { value: low_char(ordinal), name: None },
            ),
            None => None,
        },
        _ => None,
    }
}

/// Takes the compiled buffers out of what a mesh says of itself.
///
/// The index buffers are null at -1, the vertex buffers at 0. A packed vertex
/// format is a property of a buffer that is gone.
pub fn settle_mesh(mesh: &mut TagStruct)
    ensures
        final(mesh)@ == mesh_settled(old(mesh)@),
{
    set_int_field(mesh, "index buffer index", -1);
    set_int_field(mesh, "index buffer tessellation", -1);
    settle_slots(mesh);
    let k: usize = match place_of_field(mesh, "vertex type") {
        Some(k) => k,
        None => {
            return;
        },
    };
    let ghost before = mesh@;
    if let Some(v) = unpack_format(mesh.at(k)) {
        let _ = mesh.at_mut(k).set(v);
        assert(mesh@.fields =~= format_unpacked(before).fields);
    }
}

fn settle_slots(mesh: &mut TagStruct)
    ensures
        final(mesh)@ == slots_zeroed(old(mesh)@),
{
    let ghost before = mesh@;
    if let Some(k) = place_of_field(mesh, "vertex buffer indices") {
        if let Some(slots) = mesh.at_mut(k).as_array_mut() {
            zero_slots(slots);
        }
        assert(mesh@.fields =~= slots_zeroed(before).fields);
    }
}

// ---------------------------------------------------------------------------
// One geometry
// ---------------------------------------------------------------------------
/// The first of the flags, from `i` on, with the name `name`.
pub open spec fn flag_position(names: Seq<(u32, Seq<char>)>, name: Seq<char>, i: nat) -> Option<nat>
    decreases names.len() - i,
{
    if i >= names.len() {
        None
    } else if names[i as int].1 == name {
        Some(i)
    } else {
        flag_position(names, name, i + 1)
    }
}

/// A set of flags without the one that says that buffers were compiled.
pub open spec fn unprocessed(v: FieldValue) -> Option<FieldValue> {
    match v {
        FieldValue::Flags { kind: TagFieldType::LongFlags, value, names } => match flag_position(
            names,
            "processed"@,
            0,
        ) {
            Some(p) => Some(
                FieldValue::Flags {
                    kind: TagFieldType::LongFlags,
                    value: cut_to(
                        TagFieldType::LongFlags,
                        bit_cleared(flag_word(value), names[p as int].0) as i64,
                    ),
                    names,
                },
            ),
            None => None,
        },
        _ => None,
    }
}

/// A geometry that does not claim that its buffers were compiled.
pub open spec fn processed_cleared(s: StructView) -> StructView {
    match place_named(s, "runtime flags"@) {
        Some(k) => match s.fields[k as int].value() {
            Some(v) => match unprocessed(v) {
                Some(w) => s.with_field_at(k as int, s.fields[k as int].offered(w)),
                None => s,
            },
            None => s,
        },
        None => s,
    }
}

fn position_of_flag(names: &Vec<(u32, String)>, name: &str) -> (r: Option<usize>)
    ensures
        match r {
            Some(i) => i < names@.len() && flag_position(flag_names(names@), name@, 0) == Some(
                i as nat,
            ),
            None => flag_position(flag_names(names@), name@, 0) is None,
        },
{
    let mut i: usize = 0;
    while i < names.len()
        invariant
            i <= names.len(),
            flag_position(flag_names(names@), name@, 0) == flag_position(
                flag_names(names@),
                name@,
                i as nat,
            ),
        decreases names.len() - i,
    {
        if same(&names[i].1, name) {
            return Some(i);
        }
        i = i + 1;
    }
    None
}

fn drop_processed(v: &TagFieldData) -> (r: Option<TagFieldData>)
    ensures
        value_option(r) == unprocessed(v@),
{
    match v {
        TagFieldData::LongFlags { value, names } => match position_of_flag(names, "processed") {
            Some(p) => {
                let word: u32 = clear_bit(word_of_flags(*value), names[p].0);
                Some(
                    TagFieldData::LongFlags {
                        value: cut_to_long(word as i64),
                        names: copy_flag_names(names),
                    },
                )
            },
            None => None,
        },
        _ => None,
    }
}

/// Clears the flag that says that buffers were compiled, and no other.
pub fn clear_processed_flag(geometry: &mut TagStruct)
    ensures
        final(geometry)@ == processed_cleared(old(geometry)@),
{
    let k: usize = match place_of_field(geometry, "runtime flags") {
        Some(k) => k,
        None => {
            return;
        },
    };
    let cleared: TagFieldData = match geometry.at(k).value() {
        Some(v) => match drop_processed(v) {
            Some(w) => w,
            None => {
                return;
            },
        },
        None => {
            return;
        },
    };
    let _ = geometry.at_mut(k).set(cleared);
    assert(geometry@.fields =~= processed_cleared(old(geometry)@).fields);
}

/// Whether a struct is a geometry: it has meshes, and flags for the run time.
pub open spec fn is_geometry(s: StructView) -> bool {
    &&& place_named(s, "meshes"@) matches Some(k) && s.fields[k as int].content is Block
    &&& place_named(s, "runtime flags"@) is Some
}

/// The meshes of a geometry.
pub open spec fn meshes_in(s: StructView) -> Seq<StructView> {
    elements_named(s, "meshes"@)
}

/// A struct with its meshes settled.
pub open spec fn meshes_settled(s: StructView) -> StructView {
    match place_named(s, "meshes"@) {
        Some(k) => match s.fields[k as int].content {
            ContentView::Block(b) => s.with_block(
                k as int,
                BlockView {
                    elements: Seq::new(b.elements.len(), |i: int| mesh_settled(b.elements[i])),
                    ..b
                },
            ),
            _ => s,
        },
        None => s,
    }
}

/// A struct, settled itself where it is a geometry.
pub open spec fn own_settled(s: StructView) -> StructView {
    if is_geometry(s) {
        meshes_settled(processed_cleared(s))
    } else {
        s
    }
}

/// How many meshes a struct has of its own.
pub open spec fn own_meshes(s: StructView) -> nat {
    if is_geometry(s) {
        meshes_in(processed_cleared(s)).len()
    } else {
        0
    }
}

fn settle_meshes(block: &mut TagBlock, counted: &mut usize)
    ensures
        final(block)@ == (BlockView {
            elements: Seq::new(
                old(block)@.elements.len(),
                |i: int| mesh_settled(old(block)@.elements[i]),
            ),
            ..old(block)@
        }),
        *final(counted) == plus(*old(counted), old(block)@.elements.len() as int),
{
    let ghost start = block@;
    let n: usize = block.len();
    let mut i: usize = 0;
    while i < n
        invariant
            i <= n,
            n == start.elements.len(),
            start == old(block)@,
            block@ == (BlockView { elements: block@.elements, ..start }),
            block@.elements.len() == n,
            forall|j: int| 0 <= j < i ==> block@.elements[j] == mesh_settled(start.elements[j]),
            forall|j: int| i <= j < n ==> block@.elements[j] == start.elements[j],
            *counted == plus(*old(counted), i as int),
        decreases n - i,
    {
        settle_mesh(block.at_mut(i));
        *counted = plus_of(*counted, 1);
        i = i + 1;
    }
    assert(block@.elements =~= Seq::new(
        start.elements.len(),
        |i: int| mesh_settled(start.elements[i]),
    ));
}

fn settle_own(value: &mut TagStruct, counted: &mut usize)
    ensures
        final(value)@ == own_settled(old(value)@),
        *final(counted) == plus(*old(counted), own_meshes(old(value)@) as int),
{
    let has_meshes: bool = match place_of_field(value, "meshes") {
        Some(k) => value.at(k).holds_block(),
        None => false,
    };
    let has_flags: bool = place_of_field(value, "runtime flags").is_some();
    if !has_meshes || !has_flags {
        return;
    }
    clear_processed_flag(value);
    let ghost before = value@;
    if let Some(k) = place_of_field(value, "meshes") {
        if value.at(k).holds_block() {
            if let Some(block) = value.at_mut(k).as_block_mut() {
                settle_meshes(block, counted);
            }
            assert(value@.fields =~= meshes_settled(before).fields);
        }
    }
}

// ---------------------------------------------------------------------------
// A whole tag
// ---------------------------------------------------------------------------
/// What becomes of a field.
pub open spec fn field_settled(f: FieldView) -> FieldView
    decreases f, 0nat,
{
    match f.content {
        ContentView::Struct(s) => FieldView {
            content: ContentView::Struct(struct_settled(s)),
            ..f
        },
        ContentView::Block(b) => FieldView {
            content: ContentView::Block(
                BlockView {
                    elements: Seq::new(
                        b.elements.len(),
                        |i: int|
                            if 0 <= i < b.elements.len() {
                                struct_settled(b.elements[i])
                            } else {
                                arbitrary()
                            },
                    ),
                    ..b
                },
            ),
            ..f
        },
        _ => f,
    }
}

/// A struct with the geometries inside it settled.
pub open spec fn all_settled(s: StructView) -> StructView
    decreases s, 0nat,
{
    StructView {
        fields: Seq::new(
            s.fields.len(),
            |i: int|
                if 0 <= i < s.fields.len() {
                    field_settled(s.fields[i])
                } else {
                    arbitrary()
                },
        ),
        ..s
    }
}

/// A struct with every geometry in it settled, itself among them.
pub open spec fn struct_settled(s: StructView) -> StructView
    decreases s, 1nat,
{
    own_settled(all_settled(s))
}

/// How many are counted in the first `n` fields.
pub open spec fn settled_in_fields(fields: Seq<FieldView>, n: nat) -> nat
    decreases fields, n,
{
    if n == 0 || n > fields.len() {
        0
    } else {
        settled_in_fields(fields, (n - 1) as nat) + settled_in_field(fields[n - 1])
    }
}

/// How many are counted in a field.
pub open spec fn settled_in_field(f: FieldView) -> nat
    decreases f, 0nat,
{
    match f.content {
        ContentView::Struct(s) => settled_in_struct(s),
        ContentView::Block(b) => settled_in_list(b.elements, b.elements.len()),
        _ => 0,
    }
}

/// How many are counted in the first `n` structs.
pub open spec fn settled_in_list(list: Seq<StructView>, n: nat) -> nat
    decreases list, n,
{
    if n == 0 || n > list.len() {
        0
    } else {
        settled_in_list(list, (n - 1) as nat) + settled_in_struct(list[n - 1])
    }
}

/// How many are counted in a struct.
pub open spec fn settled_in_struct(s: StructView) -> nat
    decreases s, 0nat,
{
    settled_in_fields(s.fields, s.fields.len()) + own_meshes(all_settled(s))
}

/// Settles every geometry in a struct. A geometry is told by its shape, for it stands
/// under many names.
pub fn settle_geometry_in(value: &mut TagStruct, counted: &mut usize)
    ensures
        final(value)@ == struct_settled(old(value)@),
        *final(counted) == plus(*old(counted), settled_in_struct(old(value)@) as int),
    decreases old(value)@,
{
    let ghost start = value@;
    let n: usize = value.len();
    let mut i: usize = 0;
    while i < n
        invariant
            i <= n,
            n == start.fields.len(),
            start == old(value)@,
            value@ == (StructView { fields: value@.fields, ..start }),
            value@.fields.len() == n,
            forall|j: int| 0 <= j < i ==> value@.fields[j] == field_settled(start.fields[j]),
            forall|j: int| i <= j < n ==> value@.fields[j] == start.fields[j],
            *counted == plus(*old(counted), settled_in_fields(start.fields, i as nat) as int),
        decreases n - i,
    {
        proof {
            field_is_inside(start, i as int);
        }
        settle_geometry_in_field(value.at_mut(i), counted);
        i = i + 1;
    }
    assert(value@.fields =~= all_settled(start).fields);
    settle_own(value, counted);
}

fn settle_geometry_in_block(block: &mut TagBlock, counted: &mut usize)
    ensures
        final(block)@ == (BlockView { elements: final(block)@.elements, ..old(block)@ }),
        final(block)@.elements.len() == old(block)@.elements.len(),
        forall|j: int|
            0 <= j < old(block)@.elements.len() ==> final(block)@.elements[j] == struct_settled(
                old(block)@.elements[j],
            ),
        *final(counted) == plus(
            *old(counted),
            settled_in_list(old(block)@.elements, old(block)@.elements.len()) as int,
        ),
    decreases old(block)@.elements,
{
    let ghost start = block@;
    let n: usize = block.len();
    let mut i: usize = 0;
    while i < n
        invariant
            i <= n,
            n == start.elements.len(),
            start == old(block)@,
            block@ == (BlockView { elements: block@.elements, ..start }),
            block@.elements.len() == n,
            forall|j: int| 0 <= j < i ==> block@.elements[j] == struct_settled(start.elements[j]),
            forall|j: int| i <= j < n ==> block@.elements[j] == start.elements[j],
            *counted == plus(*old(counted), settled_in_list(start.elements, i as nat) as int),
        decreases n - i,
    {
        assert(decreases_to!(start.elements => start.elements[i as int]));
        settle_geometry_in(block.at_mut(i), counted);
        i = i + 1;
    }
}

fn settle_geometry_in_field(field: &mut TagField, counted: &mut usize)
    ensures
        final(field)@ == field_settled(old(field)@),
        *final(counted) == plus(*old(counted), settled_in_field(old(field)@) as int),
    decreases old(field)@,
{
    let ghost start = field@;
    if field.holds_struct() {
        if let Some(nested) = field.as_struct_mut() {
            proof {
                struct_is_inside(start, nested@);
            }
            settle_geometry_in(nested, counted);
        }
        return;
    }
    if field.holds_block() {
        if let Some(block) = field.as_block_mut() {
            proof {
                elements_are_inside(start, block@);
            }
            settle_geometry_in_block(block, counted);
            assert(block@.elements =~= field_settled(start).content->Block_0.elements);
        }
        return;
    }
}

/// Describes the geometry of a tag that only changed its byte order as
/// uncompiled, where the tag holds the geometry itself: `populated` says whether
/// it does.
pub fn settle_uncompiled_geometry(
    byte_order_upgrade: bool,
    populated: Option<bool>,
    target: &mut TagFile,
    context: &mut ConversionContext,
)
    ensures
        byte_order_upgrade && populated == Some(true) ==> {
            &&& final(target)@ == (FileView {
                root: struct_settled(old(target)@.root),
                ..old(target)@
            })
            &&& final(context)@ == counted_warning(
                old(context)@,
                settled_in_struct(old(target)@.root),
                " mesh(es) were re-described as uncompiled, because the compiled geometry buffers they named did not come across"@,
            )
        },
        !(byte_order_upgrade && populated == Some(true)) ==> final(target)@ == old(target)@
            && final(context)@ == old(context)@,
{
    let held: bool = match populated {
        Some(held) => held,
        None => false,
    };
    if !byte_order_upgrade || !held {
        return;
    }
    let mut counted: usize = 0;
    settle_geometry_in(&mut target.root, &mut counted);
    warn_of_count(
        context,
        counted,
        " mesh(es) were re-described as uncompiled, because the compiled geometry buffers they named did not come across",
    );
}

/// The context with a warning that begins with a count, where that is not zero.
pub open spec fn counted_warning(c: ContextView, count: nat, text: Seq<char>) -> ContextView {
    if count == 0 {
        c
    } else {
        c.issue(
            ConversionIssueKind::Warning,
            Seq::empty(),
            decimal(plus(0, count as int) as nat) + text,
        )
    }
}

/// Warns of what was counted.
pub fn warn_of_count(context: &mut ConversionContext, counted: usize, text: &str)
    ensures
        forall|count: nat|
            counted == plus(0, count as int) ==> final(context)@ == #[trigger] counted_warning(
                old(context)@,
                count,
                text@,
            ),
{
    if counted > 0 {
        let path: String = String::new();
        assert(path@ =~= Seq::<char>::empty());
        let number: String = decimal_text(counted as u128);
        context.record(ConversionIssueKind::Warning, &path, concat2(&number, text));
    }
}

}
