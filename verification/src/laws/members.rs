//! The animations of a graph: what is read of each stands in the place where it is
//! looked for.
use crate::convert::animation::{
    AnimationView, body_with_members, console_group, element_numbered, element_of_member,
    element_sized, element_with_data, faulty_member, graph_carried, group_with_members,
    groups_with_members, list_with_members, members_gathered, sizes_set,
};
use crate::convert::carrying::{control_root, resource_named};
use crate::convert::report::ContextView;
use crate::convert::setting::int_set;
use crate::fields::{FieldValue, TagFieldType};
use crate::laws::lookup::{
    a_number_that_fits_is_kept, has_room_for, holds_integer, is_called, lemma_field_replaced,
    setting_one_number_keeps_the_others, the_first_field_of_a_name_is_found,
};
use crate::layout::LayoutView;
use crate::reads::{
    elements_named, field_answering, int_named, place_named, struct_named, value_named,
};
use crate::tag::{
    BlockView, ContentView, FieldView, ResourceContentView, ResourceView, StructView,
    fresh_struct,
};
use vstd::prelude::*;

verus! {

// ---------------------------------------------------------------------------
// One member
// ---------------------------------------------------------------------------
proof fn lemma_names_differ()
    ensures
        "animation_index"@ != "animation_checksum"@,
        "animation_index"@ != "frame count"@,
        "animation_index"@ != "node count"@,
        "animation_index"@ != "movement_data_type"@,
        "animation_index"@ != "data sizes"@,
        "animation_index"@ != "animation_data"@,
        "animation_checksum"@ != "frame count"@,
        "animation_checksum"@ != "node count"@,
        "animation_checksum"@ != "movement_data_type"@,
        "animation_checksum"@ != "data sizes"@,
        "animation_checksum"@ != "animation_data"@,
        "frame count"@ != "node count"@,
        "frame count"@ != "movement_data_type"@,
        "frame count"@ != "data sizes"@,
        "frame count"@ != "animation_data"@,
        "node count"@ != "movement_data_type"@,
        "node count"@ != "data sizes"@,
        "node count"@ != "animation_data"@,
        "movement_data_type"@ != "data sizes"@,
        "movement_data_type"@ != "animation_data"@,
        "data sizes"@ != "animation_data"@,
{
    reveal_strlit("animation_index");
    reveal_strlit("animation_checksum");
    reveal_strlit("frame count");
    reveal_strlit("node count");
    reveal_strlit("movement_data_type");
    reveal_strlit("data sizes");
    reveal_strlit("animation_data");
    assert("animation_index"@.len() == 15);
    assert("animation_checksum"@.len() == 18);
    assert("frame count"@.len() == 11);
    assert("node count"@.len() == 10);
    assert("movement_data_type"@.len() == 18);
    assert("data sizes"@.len() == 10);
    assert("animation_data"@.len() == 14);
    assert("animation_checksum"@[0] != "movement_data_type"@[0]);
    assert("node count"@[0] != "data sizes"@[0]);
}

proof fn lemma_sized(e: StructView, sizes: Seq<i64>, other: Seq<char>)
    requires
        other != "data sizes"@,
    ensures
        field_answering(element_sized(e, sizes), other) == field_answering(e, other),
        struct_named(e, "data sizes"@) matches Some(s) ==> struct_named(
            element_sized(e, sizes),
            "data sizes"@,
        ) == Some(sizes_set(s, sizes, s.fields.len()).0),
{
    match place_named(e, "data sizes"@) {
        Some(k) => {
            match e.fields[k as int].content {
                ContentView::Struct(s) => {
                    let g = FieldView {
                        content: ContentView::Struct(sizes_set(s, sizes, s.fields.len()).0),
                        ..e.fields[k as int]
                    };
                    lemma_field_replaced(e, "data sizes"@, k, g, other);
                },
                _ => {},
            }
        },
        None => {},
    }
}

proof fn lemma_with_data(e: StructView, data: Seq<u8>, other: Seq<char>)
    requires
        other != "animation_data"@,
    ensures
        field_answering(element_with_data(e, data), other) == field_answering(e, other),
        field_answering(e, "animation_data"@) matches Some(f) && f.field_type == TagFieldType::Data
            ==> value_named(element_with_data(e, data), "animation_data"@) == Some(
            FieldValue::Bytes { kind: TagFieldType::Data, bytes: data },
        ),
{
    match place_named(e, "animation_data"@) {
        Some(k) => {
            lemma_field_replaced(
                e,
                "animation_data"@,
                k,
                e.fields[k as int].offered(
                    FieldValue::Bytes { kind: TagFieldType::Data, bytes: data },
                ),
                other,
            );
        },
        None => {},
    }
}

proof fn lemma_numbers(e: StructView, m: AnimationView, other: Seq<char>)
    requires
        other != "animation_index"@,
        other != "animation_checksum"@,
        other != "frame count"@,
        other != "node count"@,
        other != "movement_data_type"@,
    ensures
        field_answering(element_numbered(e, m), other) == field_answering(e, other),
        has_room_for(e, "animation_index"@, m.animation_index) ==> int_named(
            element_numbered(e, m),
            "animation_index"@,
        ) == Some(m.animation_index as int),
        has_room_for(e, "animation_checksum"@, m.animation_checksum) ==> int_named(
            element_numbered(e, m),
            "animation_checksum"@,
        ) == Some(m.animation_checksum as int),
        has_room_for(e, "frame count"@, m.frame_count) ==> int_named(
            element_numbered(e, m),
            "frame count"@,
        ) == Some(m.frame_count as int),
        has_room_for(e, "node count"@, m.node_count) ==> int_named(
            element_numbered(e, m),
            "node count"@,
        ) == Some(m.node_count as int),
        has_room_for(e, "movement_data_type"@, m.movement_data_type) ==> int_named(
            element_numbered(e, m),
            "movement_data_type"@,
        ) == Some(m.movement_data_type as int),
{
    lemma_names_differ();
    let n0 = "animation_index"@;
    let n1 = "animation_checksum"@;
    let n2 = "frame count"@;
    let n3 = "node count"@;
    let n4 = "movement_data_type"@;
    let e1 = int_set(e, n0, m.animation_index);
    let e2 = int_set(e1, n1, m.animation_checksum);
    let e3 = int_set(e2, n2, m.frame_count);
    let e4 = int_set(e3, n3, m.node_count);
    setting_one_number_keeps_the_others(e, n0, m.animation_index, n1);
    setting_one_number_keeps_the_others(e, n0, m.animation_index, n2);
    setting_one_number_keeps_the_others(e, n0, m.animation_index, n3);
    setting_one_number_keeps_the_others(e, n0, m.animation_index, n4);
    setting_one_number_keeps_the_others(e, n0, m.animation_index, other);
    setting_one_number_keeps_the_others(e1, n1, m.animation_checksum, n0);
    setting_one_number_keeps_the_others(e1, n1, m.animation_checksum, n2);
    setting_one_number_keeps_the_others(e1, n1, m.animation_checksum, n3);
    setting_one_number_keeps_the_others(e1, n1, m.animation_checksum, n4);
    setting_one_number_keeps_the_others(e1, n1, m.animation_checksum, other);
    setting_one_number_keeps_the_others(e2, n2, m.frame_count, n0);
    setting_one_number_keeps_the_others(e2, n2, m.frame_count, n1);
    setting_one_number_keeps_the_others(e2, n2, m.frame_count, n3);
    setting_one_number_keeps_the_others(e2, n2, m.frame_count, n4);
    setting_one_number_keeps_the_others(e2, n2, m.frame_count, other);
    setting_one_number_keeps_the_others(e3, n3, m.node_count, n0);
    setting_one_number_keeps_the_others(e3, n3, m.node_count, n1);
    setting_one_number_keeps_the_others(e3, n3, m.node_count, n2);
    setting_one_number_keeps_the_others(e3, n3, m.node_count, n4);
    setting_one_number_keeps_the_others(e3, n3, m.node_count, other);
    setting_one_number_keeps_the_others(e4, n4, m.movement_data_type, n0);
    setting_one_number_keeps_the_others(e4, n4, m.movement_data_type, n1);
    setting_one_number_keeps_the_others(e4, n4, m.movement_data_type, n2);
    setting_one_number_keeps_the_others(e4, n4, m.movement_data_type, n3);
    setting_one_number_keeps_the_others(e4, n4, m.movement_data_type, other);
}

/// Whether the element `e` reads as the member `m`, in the fields that `fresh`, the
/// element as it was allocated, has room for it in.
pub open spec fn reads_as(e: StructView, fresh: StructView, m: AnimationView) -> bool {
    &&& has_room_for(fresh, "animation_index"@, m.animation_index) ==> int_named(
        e,
        "animation_index"@,
    ) == Some(m.animation_index as int)
    &&& has_room_for(fresh, "animation_checksum"@, m.animation_checksum) ==> int_named(
        e,
        "animation_checksum"@,
    ) == Some(m.animation_checksum as int)
    &&& has_room_for(fresh, "frame count"@, m.frame_count) ==> int_named(e, "frame count"@) == Some(
        m.frame_count as int,
    )
    &&& has_room_for(fresh, "node count"@, m.node_count) ==> int_named(e, "node count"@) == Some(
        m.node_count as int,
    )
    &&& has_room_for(fresh, "movement_data_type"@, m.movement_data_type) ==> int_named(
        e,
        "movement_data_type"@,
    ) == Some(m.movement_data_type as int)
    &&& (field_answering(fresh, "animation_data"@) matches Some(f) && f.field_type
        == TagFieldType::Data) ==> value_named(e, "animation_data"@) == Some(
        FieldValue::Bytes { kind: TagFieldType::Data, bytes: m.animation_data },
    )
    &&& (struct_named(fresh, "data sizes"@) matches Some(s) && holds_longs(s)) ==> (struct_named(
        e,
        "data sizes"@,
    ) matches Some(s) && reads_as_sizes(s, m.data_sizes))
}

/// Whether every field of a struct is a four-byte integer with a plain name of its own.
pub open spec fn holds_longs(s: StructView) -> bool {
    &&& forall|k: int|
        0 <= k < s.fields.len() ==> {
            &&& (#[trigger] s.fields[k]).field_type == TagFieldType::LongInteger
            &&& s.fields[k].name.len() > 0
            &&& !s.fields[k].name.contains('|')
            &&& holds_integer(s.fields[k])
        }
    &&& forall|j: int, k: int|
        0 <= j < k < s.fields.len() ==> (#[trigger] s.fields[j]).name != (#[trigger] s.fields[k]).name
}

/// Whether the fields of a struct hold the sizes in their order.
pub open spec fn reads_as_sizes(s: StructView, sizes: Seq<i64>) -> bool {
    forall|k: int|
        #![trigger s.fields[k]]
        0 <= k < s.fields.len() && k < sizes.len() && i32::MIN <= sizes[k] <= i32::MAX
            ==> s.fields[k].content == ContentView::Value(
            FieldValue::Number { kind: TagFieldType::LongInteger, value: sizes[k] as int },
        )
}

/// The sizes of a member stand in the fields of their struct one by one, in order.
pub proof fn sizes_stand_in_their_order(s: StructView, sizes: Seq<i64>, n: nat)
    requires
        holds_longs(s),
        n <= s.fields.len(),
    ensures
        sizes_set(s, sizes, n).1 == if n <= sizes.len() {
            n
        } else {
            sizes.len()
        },
        sizes_set(s, sizes, n).0.fields.len() == s.fields.len(),
        forall|k: int|
            0 <= k < s.fields.len() ==> (#[trigger] sizes_set(s, sizes, n).0.fields[k]).name
                == s.fields[k].name && sizes_set(s, sizes, n).0.fields[k].field_type
                == s.fields[k].field_type,
        forall|k: int|
            n <= k < s.fields.len() ==> #[trigger] sizes_set(s, sizes, n).0.fields[k]
                == s.fields[k],
        forall|k: int|
            #![trigger sizes_set(s, sizes, n).0.fields[k]]
            0 <= k < n && k < sizes.len() && i32::MIN <= sizes[k] <= i32::MAX ==> sizes_set(
                s,
                sizes,
                n,
            ).0.fields[k].content == ContentView::Value(
                FieldValue::Number { kind: TagFieldType::LongInteger, value: sizes[k] as int },
            ),
        n == s.fields.len() ==> reads_as_sizes(sizes_set(s, sizes, n).0, sizes),
    decreases n,
{
    if n > 0 {
        let m = (n - 1) as nat;
        sizes_stand_in_their_order(s, sizes, m);
        let (sofar, used) = sizes_set(s, sizes, m);
        let f = s.fields[n - 1];
        if used < sizes.len() {
            assert(sofar.fields[n - 1] == f);
            the_first_field_of_a_name_is_found(sofar, f.name);
            assert(is_called(f.name, f.name)) by {
                assert(f.name.take(f.name.len() as int) =~= f.name);
            }
            assert forall|j: int| 0 <= j < n - 1 implies !is_called(
                #[trigger] sofar.fields[j].name,
                f.name,
            ) by {
                let g = s.fields[j].name;
                assert(sofar.fields[j].name == g);
                assert(g != f.name);
                if is_called(g, f.name) {
                    if f.name.len() == g.len() {
                        assert(g.take(f.name.len() as int) =~= g);
                    } else {
                        assert(g.contains('|'));
                    }
                }
            }
            assert(place_named(sofar, f.name) == Some((n - 1) as nat));
            setting_one_number_keeps_the_others(sofar, f.name, sizes[used as int], f.name);
            if i32::MIN <= sizes[used as int] <= i32::MAX {
                a_number_that_fits_is_kept(TagFieldType::LongInteger, sizes[used as int]);
            }
        }
    }
}

/// An element that a member was written into reads as that member: its index, its
/// checksum, its counts, its kind of movement, its sizes and its stream.
pub proof fn a_written_member_reads_back(e: StructView, m: AnimationView)
    ensures
        reads_as(element_of_member(e, m), e, m),
{
    lemma_names_differ();
    let numbered = element_numbered(e, m);
    let sized = element_sized(numbered, m.data_sizes);
    lemma_numbers(e, m, "data sizes"@);
    lemma_numbers(e, m, "animation_data"@);
    lemma_sized(numbered, m.data_sizes, "animation_index"@);
    lemma_sized(numbered, m.data_sizes, "animation_checksum"@);
    lemma_sized(numbered, m.data_sizes, "frame count"@);
    lemma_sized(numbered, m.data_sizes, "node count"@);
    lemma_sized(numbered, m.data_sizes, "movement_data_type"@);
    lemma_sized(numbered, m.data_sizes, "animation_data"@);
    lemma_with_data(sized, m.animation_data, "animation_index"@);
    lemma_with_data(sized, m.animation_data, "animation_checksum"@);
    lemma_with_data(sized, m.animation_data, "frame count"@);
    lemma_with_data(sized, m.animation_data, "node count"@);
    lemma_with_data(sized, m.animation_data, "movement_data_type"@);
    lemma_with_data(sized, m.animation_data, "data sizes"@);
    if let Some(s) = struct_named(e, "data sizes"@) {
        if holds_longs(s) {
            sizes_stand_in_their_order(s, m.data_sizes, s.fields.len());
        }
    }
}

// ---------------------------------------------------------------------------
// A list of members
// ---------------------------------------------------------------------------
/// The members stand behind what the list held, one element for each and in their
/// order: element `i` of those added reads as member `i`. None is missing and none
/// stands in the list twice.
pub proof fn every_member_stands_in_its_place(
    layout: LayoutView,
    list: BlockView,
    members: Seq<AnimationView>,
    n: nat,
)
    requires
        n <= members.len(),
        list.struct_index < layout.structs.len(),
    ensures
        list_with_members(layout, list, members, n) == (BlockView {
            elements: list_with_members(layout, list, members, n).elements,
            ..list
        }),
        list_with_members(layout, list, members, n).elements.len() == list.elements.len() + n,
        forall|i: int|
            0 <= i < list.elements.len() ==> #[trigger] list_with_members(
                layout,
                list,
                members,
                n,
            ).elements[i] == list.elements[i],
        forall|i: int|
            #![trigger members[i]]
            0 <= i < n ==> reads_as(
                list_with_members(layout, list, members, n).elements[list.elements.len() + i],
                fresh_struct(layout, list.struct_index),
                members[i],
            ),
    decreases n,
{
    if n > 0 {
        let m = (n - 1) as nat;
        every_member_stands_in_its_place(layout, list, members, m);
        let before = list_with_members(layout, list, members, m);
        let after = list_with_members(layout, list, members, n);
        let fresh = fresh_struct(layout, list.struct_index);
        a_written_member_reads_back(fresh, members[n - 1]);
        assert(before.grown(layout).elements =~= before.elements.push(fresh));
        assert(after.elements[list.elements.len() + (n - 1)] == element_of_member(fresh, members[n - 1]));
        assert forall|i: int| #![trigger members[i]] 0 <= i < n implies reads_as(
            after.elements[list.elements.len() + i],
            fresh,
            members[i],
        ) by {
            if i < n - 1 {
                assert(after.elements[list.elements.len() + i] == before.elements[list.elements.len()
                    + i]);
            }
        }
    }
}

/// Whether the resource of a group lists exactly the members, in their order.
pub open spec fn lists_members(
    layout: LayoutView,
    group: StructView,
    members: Seq<AnimationView>,
    list: BlockView,
) -> bool {
    &&& resource_named(group, "tag_resource"@) matches Some(r)
    &&& r.content matches ResourceContentView::Exploded { body, .. }
    &&& elements_named(body, "group_members"@).len() == list.elements.len() + members.len()
    &&& forall|i: int|
        #![trigger members[i]]
        0 <= i < members.len() ==> reads_as(
            elements_named(body, "group_members"@)[list.elements.len() + i],
            fresh_struct(layout, list.struct_index),
            members[i],
        )
}

/// A group that members were written into lists each of them once, in the order in
/// which they were read, in a resource that only this side's shape has; and as many
/// are counted.
pub proof fn a_group_lists_its_members(
    layout: LayoutView,
    group: StructView,
    members: Seq<AnimationView>,
    r: ResourceView,
    list: BlockView,
)
    requires
        members.len() > 0,
        resource_named(group, "tag_resource"@) == Some(r),
        field_answering(fresh_struct(layout, r.struct_index), "group_members"@) matches Some(f)
            && f.content == ContentView::Block(list),
        list.struct_index < layout.structs.len(),
    ensures
        lists_members(layout, group_with_members(layout, group, members).0, members, list),
        group_with_members(layout, group, members).1 == members.len(),
        resource_named(group_with_members(layout, group, members).0, "tag_resource"@) matches Some(
            written,
        ) && control_root(written) is None,
{
    let body = fresh_struct(layout, r.struct_index);
    let k = place_named(body, "group_members"@).unwrap();
    let filled = list_with_members(layout, list, members, members.len());
    every_member_stands_in_its_place(layout, list, members, members.len());
    lemma_field_replaced(
        body,
        "group_members"@,
        k,
        FieldView { content: ContentView::Block(filled), ..body.fields[k as int] },
        "group_members"@,
    );
    let after = body_with_members(layout, body, members).0;
    assert(after == body.with_block(k as int, filled));
    let g = place_named(group, "tag_resource"@).unwrap();
    the_first_field_of_a_name_is_found(group, "tag_resource"@);
    lemma_field_replaced(
        group,
        "tag_resource"@,
        g,
        group_with_members(layout, group, members).0.fields[g as int],
        "tag_resource"@,
    );
}

// ---------------------------------------------------------------------------
// A whole graph
// ---------------------------------------------------------------------------
/// Whether the streams of all members could be put into the target's byte order.
pub open spec fn without_faults(members: Seq<AnimationView>) -> bool {
    forall|m: int| 0 <= m < members.len() ==> (#[trigger] members[m]).fault is None
}

/// A graph that is carried holds in each of its groups what was read for that very
/// group: the group at `i` of the target lists the members read for the group at `i`
/// of the source, and a group for which there was nothing to read stays as it was.
pub proof fn every_group_gets_its_own_members(
    layout: LayoutView,
    root: StructView,
    c: ContextView,
    source: StructView,
    reads: Seq<Option<Seq<AnimationView>>>,
    own: BlockView,
    theirs: BlockView,
    i: int,
)
    requires
        field_answering(source, "tag resource groups"@) matches Some(f) && f.content
            == ContentView::Block(own),
        field_answering(root, "tag resource groups"@) matches Some(f) && f.content
            == ContentView::Block(theirs),
        own.elements.len() == theirs.elements.len(),
        0 <= i < own.elements.len(),
        own.elements.len() <= reads.len(),
        forall|j: int|
            0 <= j < own.elements.len() ==> (#[trigger] reads[j]) is Some && without_faults(
                reads[j]->0,
            ),
    ensures
        elements_named(graph_carried(layout, root, c, source, reads).0, "tag resource groups"@).len()
            == theirs.elements.len(),
        !console_group(own.elements[i]) ==> elements_named(
            graph_carried(layout, root, c, source, reads).0,
            "tag resource groups"@,
        )[i] == theirs.elements[i],
        console_group(own.elements[i]) ==> elements_named(
            graph_carried(layout, root, c, source, reads).0,
            "tag resource groups"@,
        )[i] == group_with_members(layout, theirs.elements[i], reads[i]->0).0,
{
    let n = own.elements.len();
    lemma_all_gathered(own.elements, reads, n);
    let members = members_gathered(own.elements, reads, n)->Ok_0;
    let k = place_named(root, "tag resource groups"@).unwrap();
    let filled = BlockView {
        elements: groups_with_members(layout, theirs.elements, members, n),
        ..theirs
    };
    lemma_field_replaced(
        root,
        "tag resource groups"@,
        k,
        FieldView { content: ContentView::Block(filled), ..root.fields[k as int] },
        "tag resource groups"@,
    );
    assert(graph_carried(layout, root, c, source, reads).0 == root.with_block(k as int, filled));
}

proof fn lemma_all_gathered(
    groups: Seq<StructView>,
    reads: Seq<Option<Seq<AnimationView>>>,
    n: nat,
)
    requires
        n <= groups.len(),
        n <= reads.len(),
        forall|j: int|
            0 <= j < n ==> (#[trigger] reads[j]) is Some && without_faults(reads[j]->0),
    ensures
        members_gathered(groups, reads, n) matches Ok(members) && members.len() == n && forall|j: int|
            0 <= j < n ==> #[trigger] members[j] == if console_group(groups[j]) {
                reads[j]->0
            } else {
                Seq::empty()
            },
    decreases n,
{
    if n > 0 {
        lemma_all_gathered(groups, reads, (n - 1) as nat);
        assert(reads[n - 1] is Some);
        lemma_no_fault(reads[n - 1]->0, 0);
    }
}

proof fn lemma_no_fault(members: Seq<AnimationView>, from: nat)
    requires
        without_faults(members),
    ensures
        faulty_member(members, from) is None,
    decreases members.len() - from,
{
    if from < members.len() {
        assert(members[from as int].fault is None);
        lemma_no_fault(members, from + 1);
    }
}

}
