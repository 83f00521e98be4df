//! Animation graphs of the older console: their members, written into the shape in
//! which a loose tag keeps them.
use crate::convert::carrying::{ANIMATION_GROUP, control_root, find_resource, resource_named};
use crate::convert::forgiving::{
    ForgivenMessage, MessageView, ResourceScope, ScopeView, forgive_resources, forgiven,
};
use crate::convert::report::{ContextView, ConversionContext, plus, plus_of, record_unsupported};
use crate::convert::setting::{addressable_field, int_set, is_padding_type, set_int_field};
use crate::data::no_bytes;
use crate::fields::{FieldValue, TagFieldData, TagFieldType, copy_bytes, text_option};
use crate::file::{FileView, TagFile};
use crate::keys::{element_path, path_of_element};
use crate::layout::{LayoutView, TagLayout};
use crate::reads::{field_answering, find_field, place_named, place_of_field};
use crate::tag::{
    BlockView, ContentView, FieldView, ResourceContentView, ResourceView, StructView, TagBlock,
    TagField, TagResourceContent, TagStruct, fresh_struct, fresh_struct_of,
};
use crate::text::{concat2, concat3, concat4, copy, decimal, decimal_text};
use vstd::prelude::*;

verus! {

/// An animation as the console's control data holds it, its stream already in the
/// target's byte order where that could be done.
#[derive(Debug, PartialEq, Eq)]
pub struct AnimationResourceMember {
    pub animation_index: i64,
    pub animation_checksum: i64,
    pub frame_count: i64,
    pub node_count: i64,
    pub movement_data_type: i64,
    pub data_sizes: Vec<i64>,
    pub animation_data: Vec<u8>,
    /// Why the stream could not be put into the target's byte order.
    pub fault: Option<String>,
}

pub ghost struct AnimationView {
    pub animation_index: i64,
    pub animation_checksum: i64,
    pub frame_count: i64,
    pub node_count: i64,
    pub movement_data_type: i64,
    pub data_sizes: Seq<i64>,
    pub animation_data: Seq<u8>,
    pub fault: Option<Seq<char>>,
}

impl AnimationResourceMember {
    pub open spec fn view(&self) -> AnimationView {
        AnimationView {
            animation_index: self.animation_index,
            animation_checksum: self.animation_checksum,
            frame_count: self.frame_count,
            node_count: self.node_count,
            movement_data_type: self.movement_data_type,
            data_sizes: self.data_sizes@,
            animation_data: self.animation_data@,
            fault: text_option(self.fault),
        }
    }
}

pub open spec fn animation_views(v: Seq<AnimationResourceMember>) -> Seq<AnimationView> {
    Seq::new(v.len(), |i: int| v[i]@)
}

/// What was read for each group: its members, or nothing where its control data
/// could not be walked.
pub open spec fn group_views(v: Seq<Option<Vec<AnimationResourceMember>>>) -> Seq<
    Option<Seq<AnimationView>>,
> {
    Seq::new(
        v.len(),
        |i: int|
            match v[i] {
                Some(members) => Some(animation_views(members@)),
                None => None,
            },
    )
}

// ---------------------------------------------------------------------------
// What there is to carry
// ---------------------------------------------------------------------------
/// The path of a group's resource.
pub open spec fn group_path(index: nat) -> Seq<char> {
    element_path("tag resource groups"@, index) + "/tag_resource"@
}

/// The first member from `i` on whose stream could not be turned round.
pub open spec fn faulty_member(members: Seq<AnimationView>, i: nat) -> Option<nat>
    decreases members.len() - i,
{
    if i >= members.len() {
        None
    } else if members[i as int].fault is Some {
        Some(i)
    } else {
        faulty_member(members, i + 1)
    }
}

/// Whether a group holds a resource in the console's shape.
pub open spec fn console_group(group: StructView) -> bool {
    match resource_named(group, "tag_resource"@) {
        Some(r) => control_root(r) is Some,
        None => false,
    }
}

/// The members of the group `index`, or why they cannot be carried.
pub open spec fn members_of_group(
    group: StructView,
    reads: Seq<Option<Seq<AnimationView>>>,
    index: nat,
) -> Result<Seq<AnimationView>, Seq<char>> {
    if !console_group(group) {
        Ok(Seq::empty())
    } else if index < reads.len() && reads[index as int] is Some {
        let members = reads[index as int]->0;
        match faulty_member(members, 0) {
            Some(m) => Err(
                "Animation "@ + decimal(m)
                    + " could not be put into this side's byte order: "@ + (
                members[m as int].fault->0),
            ),
            None => Ok(members),
        }
    } else {
        Err("The Xbox 360 animation resource's control data could not be walked"@)
    }
}

/// The members of the first `n` groups, or the first group that cannot be carried
/// and why.
pub open spec fn members_gathered(
    groups: Seq<StructView>,
    reads: Seq<Option<Seq<AnimationView>>>,
    n: nat,
) -> Result<Seq<Seq<AnimationView>>, (nat, Seq<char>)>
    decreases n,
{
    if n == 0 || n > groups.len() {
        Ok(Seq::empty())
    } else {
        match members_gathered(groups, reads, (n - 1) as nat) {
            Err(e) => Err(e),
            Ok(sofar) => match members_of_group(groups[n - 1], reads, (n - 1) as nat) {
                Err(why) => Err(((n - 1) as nat, why)),
                Ok(members) => Ok(sofar.push(members)),
            },
        }
    }
}

// ---------------------------------------------------------------------------
// Writing members
// ---------------------------------------------------------------------------
/// A struct whose first addressable fields, of the first `n`, hold the sizes, and
/// how many sizes that were.
pub open spec fn sizes_set(s: StructView, sizes: Seq<i64>, n: nat) -> (StructView, nat)
    decreases n,
{
    if n == 0 || n > s.fields.len() {
        (s, 0)
    } else {
        let (sofar, used) = sizes_set(s, sizes, (n - 1) as nat);
        if addressable_field(s.fields[n - 1]) && used < sizes.len() {
            (int_set(sofar, s.fields[n - 1].name, sizes[used as int]), used + 1)
        } else {
            (sofar, used)
        }
    }
}

/// An element with the sizes of a member.
pub open spec fn element_sized(e: StructView, sizes: Seq<i64>) -> StructView {
    match place_named(e, "data sizes"@) {
        Some(k) => match e.fields[k as int].content {
            ContentView::Struct(s) => e.with_nested(
                k as int,
                sizes_set(s, sizes, s.fields.len()).0,
            ),
            _ => e,
        },
        None => e,
    }
}

/// An element with the stream of a member.
pub open spec fn element_with_data(e: StructView, data: Seq<u8>) -> StructView {
    match place_named(e, "animation_data"@) {
        Some(k) => e.with_field_at(
            k as int,
            e.fields[k as int].offered(FieldValue::Bytes { kind: TagFieldType::Data, bytes: data }),
        ),
        None => e,
    }
}

/// An element with the numbers of a member.
pub open spec fn element_numbered(e: StructView, m: AnimationView) -> StructView {
    int_set(
        int_set(
            int_set(
                int_set(
                    int_set(e, "animation_index"@, m.animation_index),
                    "animation_checksum"@,
                    m.animation_checksum,
                ),
                "frame count"@,
                m.frame_count,
            ),
            "node count"@,
            m.node_count,
        ),
        "movement_data_type"@,
        m.movement_data_type,
    )
}

/// An element that holds a member.
pub open spec fn element_of_member(e: StructView, m: AnimationView) -> StructView {
    element_with_data(element_sized(element_numbered(e, m), m.data_sizes), m.animation_data)
}

/// A list with a member behind its last, where the layout knows its elements.
pub open spec fn list_with_member(layout: LayoutView, list: BlockView, m: AnimationView) -> BlockView {
    let more = list.grown(layout);
    if more.elements.len() > list.elements.len() {
        BlockView {
            elements: more.elements.update(
                list.elements.len() as int,
                element_of_member(more.elements[list.elements.len() as int], m),
            ),
            ..more
        }
    } else {
        more
    }
}

/// A list with the first `n` members behind its last.
pub open spec fn list_with_members(
    layout: LayoutView,
    list: BlockView,
    members: Seq<AnimationView>,
    n: nat,
) -> BlockView
    decreases n,
{
    if n == 0 || n > members.len() {
        list
    } else {
        list_with_member(
            layout,
            list_with_members(layout, list, members, (n - 1) as nat),
            members[n - 1],
        )
    }
}

/// A resource's own struct with the members in it, and how many they were.
pub open spec fn body_with_members(
    layout: LayoutView,
    body: StructView,
    members: Seq<AnimationView>,
) -> (StructView, nat) {
    match place_named(body, "group_members"@) {
        Some(k) => match body.fields[k as int].content {
            ContentView::Block(list) => {
                let filled = list_with_members(layout, list, members, members.len());
                (
                    body.with_block(k as int, filled),
                    (filled.elements.len() - list.elements.len()) as nat,
                )
            },
            _ => (body, 0),
        },
        None => (body, 0),
    }
}

/// A group with the members in its resource, and how many they were. A group
/// without members is left alone.
pub open spec fn group_with_members(
    layout: LayoutView,
    group: StructView,
    members: Seq<AnimationView>,
) -> (StructView, nat) {
    if members.len() == 0 {
        (group, 0)
    } else {
        match place_named(group, "tag_resource"@) {
            Some(k) => match group.fields[k as int].content {
                ContentView::Resource(r) => {
                    let (body, written) = body_with_members(
                        layout,
                        fresh_struct(layout, r.struct_index),
                        members,
                    );
                    (
                        group.with_field_at(
                            k as int,
                            FieldView {
                                content: ContentView::Resource(
                                    ResourceView {
                                        content: ResourceContentView::Exploded {
                                            payload: Seq::empty(),
                                            body,
                                            state: None,
                                        },
                                        ..r
                                    },
                                ),
                                ..group.fields[k as int]
                            },
                        ),
                        written,
                    )
                },
                _ => (group, 0),
            },
            None => (group, 0),
        }
    }
}

/// The groups with the members in the first `n` of them.
pub open spec fn groups_with_members(
    layout: LayoutView,
    groups: Seq<StructView>,
    members: Seq<Seq<AnimationView>>,
    n: nat,
) -> Seq<StructView> {
    Seq::new(
        groups.len(),
        |i: int|
            if i < n {
                group_with_members(layout, groups[i], members[i]).0
            } else {
                groups[i]
            },
    )
}

/// How many members were written into the first `n` groups.
pub open spec fn members_written(
    layout: LayoutView,
    groups: Seq<StructView>,
    members: Seq<Seq<AnimationView>>,
    n: nat,
) -> nat
    decreases n,
{
    if n == 0 || n > groups.len() {
        0
    } else {
        members_written(layout, groups, members, (n - 1) as nat) + group_with_members(
            layout,
            groups[n - 1],
            members[n - 1],
        ).1
    }
}

fn set_sizes(s: &mut TagStruct, sizes: &Vec<i64>)
    ensures
        final(s)@ == sizes_set(old(s)@, sizes@, old(s)@.fields.len()).0,
{
    let original: TagStruct = s.duplicate();
    let n: usize = original.len();
    let mut used: usize = 0;
    let mut i: usize = 0;
    while i < n
        invariant
            i <= n,
            original@ == old(s)@,
            n == old(s)@.fields.len(),
            used <= sizes.len(),
            (s@, used as nat) == sizes_set(old(s)@, sizes@, i as nat),
        decreases n - i,
    {
        let f: &TagField = original.at(i);
        if !is_padding_type(f.field_type()) && !f.name().is_empty() && used < sizes.len() {
            set_int_field(s, f.name(), sizes[used]);
            used = used + 1;
        }
        i = i + 1;
    }
}

fn write_sizes(element: &mut TagStruct, sizes: &Vec<i64>)
    ensures
        final(element)@ == element_sized(old(element)@, sizes@),
{
    let ghost before = element@;
    if let Some(k) = place_of_field(element, "data sizes") {
        if element.at(k).holds_struct() {
            match element.at_mut(k).as_struct_mut() {
                Some(s) => set_sizes(s, sizes),
                None => {},
            }
            assert(element@.fields =~= element_sized(before, sizes@).fields);
        }
    }
}

fn write_data(element: &mut TagStruct, data: &Vec<u8>)
    ensures
        final(element)@ == element_with_data(old(element)@, data@),
{
    let ghost before = element@;
    if let Some(k) = place_of_field(element, "animation_data") {
        let _ = element.at_mut(k).set(TagFieldData::Data(copy_bytes(data)));
        assert(element@.fields =~= element_with_data(before, data@).fields);
    }
}

fn write_member(element: &mut TagStruct, m: &AnimationResourceMember)
    ensures
        final(element)@ == element_of_member(old(element)@, m@),
{
    set_int_field(element, "animation_index", m.animation_index);
    set_int_field(element, "animation_checksum", m.animation_checksum);
    set_int_field(element, "frame count", m.frame_count);
    set_int_field(element, "node count", m.node_count);
    set_int_field(element, "movement_data_type", m.movement_data_type);
    write_sizes(element, &m.data_sizes);
    write_data(element, &m.animation_data);
}

fn write_members(layout: &TagLayout, list: &mut TagBlock, members: &Vec<AnimationResourceMember>) -> (r:
    usize)
    ensures
        final(list)@ == list_with_members(
            layout@,
            old(list)@,
            animation_views(members@),
            members@.len(),
        ),
        r == final(list)@.elements.len() - old(list)@.elements.len(),
{
    let ghost all = animation_views(members@);
    let mut written: usize = 0;
    let mut i: usize = 0;
    while i < members.len()
        invariant
            i <= members.len(),
            all == animation_views(members@),
            written <= i,
            list@ == list_with_members(layout@, old(list)@, all, i as nat),
            written == list@.elements.len() - old(list)@.elements.len(),
        decreases members.len() - i,
    {
        let ghost before = list@;
        assert(all[i as int] == members@[i as int]@);
        let at: usize = list.add_element(layout);
        if at < list.len() {
            write_member(list.at_mut(at), &members[i]);
            assert(list@.elements =~= list_with_member(layout@, before, all[i as int]).elements);
            written = written + 1;
        }
        i = i + 1;
    }
    written
}

fn write_body(layout: &TagLayout, body: &mut TagStruct, members: &Vec<AnimationResourceMember>) -> (r:
    usize)
    ensures
        (final(body)@, r as nat) == body_with_members(layout@, old(body)@, animation_views(members@)),
{
    let k: usize = match place_of_field(body, "group_members") {
        Some(k) => k,
        None => {
            return 0;
        },
    };
    if !body.at(k).holds_block() {
        return 0;
    }
    let ghost before = body@;
    let mut written: usize = 0;
    match body.at_mut(k).as_block_mut() {
        Some(list) => {
            written = write_members(layout, list, members);
        },
        None => {},
    }
    assert(body@.fields =~= body_with_members(layout@, before, animation_views(members@)).0.fields);
    written
}

fn write_group(layout: &TagLayout, group: &mut TagStruct, members: &Vec<AnimationResourceMember>) -> (r:
    usize)
    ensures
        (final(group)@, r as nat) == group_with_members(
            layout@,
            old(group)@,
            animation_views(members@),
        ),
{
    if members.len() == 0 {
        return 0;
    }
    let k: usize = match place_of_field(group, "tag_resource") {
        Some(k) => k,
        None => {
            return 0;
        },
    };
    if group.at(k).as_resource().is_none() {
        return 0;
    }
    let ghost before = group@;
    let mut written: usize = 0;
    match group.at_mut(k).as_resource_mut() {
        Some(resource) => {
            let mut body: TagStruct = fresh_struct_of(layout, resource.struct_index());
            written = write_body(layout, &mut body, members);
            resource.set_content(TagResourceContent::exploded(no_bytes(), body, None));
        },
        None => {},
    }
    assert(group@.fields =~= group_with_members(
        layout@,
        before,
        animation_views(members@),
    ).0.fields);
    written
}

// ---------------------------------------------------------------------------
// A whole graph
// ---------------------------------------------------------------------------
fn find_fault(members: &Vec<AnimationResourceMember>) -> (r: Option<usize>)
    ensures
        match r {
            Some(i) => i < members@.len() && faulty_member(animation_views(members@), 0) == Some(
                i as nat,
            ) && members@[i as int].fault is Some,
            None => faulty_member(animation_views(members@), 0) is None,
        },
{
    let mut i: usize = 0;
    while i < members.len()
        invariant
            i <= members.len(),
            faulty_member(animation_views(members@), 0) == faulty_member(
                animation_views(members@),
                i as nat,
            ),
        decreases members.len() - i,
    {
        if members[i].fault.is_some() {
            return Some(i);
        }
        i = i + 1;
    }
    None
}

/// Why the group `index` cannot be carried, where it cannot.
fn fault_of_group(
    group: &TagStruct,
    reads: &Vec<Option<Vec<AnimationResourceMember>>>,
    index: usize,
) -> (r: Option<String>)
    ensures
        match r {
            Some(why) => members_of_group(group@, group_views(reads@), index as nat) == Err::<
                Seq<AnimationView>,
                Seq<char>,
            >(why@),
            None => members_of_group(group@, group_views(reads@), index as nat) is Ok,
        },
{
    let console: bool = match find_resource(group, "tag_resource") {
        Some(resource) => resource.xsync_state().is_some(),
        None => false,
    };
    if !console {
        return None;
    }
    if index < reads.len() {
        if let Some(members) = &reads[index] {
            assert(group_views(reads@)[index as int] == Some(animation_views(members@)));
            match find_fault(members) {
                Some(m) => {
                    if let Some(why) = &members[m].fault {
                        let number: String = decimal_text(m as u128);
                        return Some(
                            concat4(
                                "Animation ",
                                &number,
                                " could not be put into this side's byte order: ",
                                why,
                            ),
                        );
                    }
                },
                None => {},
            }
            return None;
        }
    }
    Some(copy("The Xbox 360 animation resource's control data could not be walked"))
}

proof fn lemma_gathered(groups: Seq<StructView>, reads: Seq<Option<Seq<AnimationView>>>, n: nat)
    requires
        n <= groups.len(),
        members_gathered(groups, reads, n) is Ok,
    ensures
        members_gathered(groups, reads, n)->Ok_0.len() == n,
        forall|i: int|
            0 <= i < n ==> members_of_group(groups[i], reads, i as nat) == Ok::<
                Seq<AnimationView>,
                Seq<char>,
            >(#[trigger] members_gathered(groups, reads, n)->Ok_0[i]),
    decreases n,
{
    if n > 0 {
        lemma_gathered(groups, reads, (n - 1) as nat);
    }
}

proof fn lemma_fault_stays(
    groups: Seq<StructView>,
    reads: Seq<Option<Seq<AnimationView>>>,
    n: nat,
    m: nat,
)
    requires
        n <= m <= groups.len(),
        members_gathered(groups, reads, n) is Err,
    ensures
        members_gathered(groups, reads, m) == members_gathered(groups, reads, n),
    decreases m,
{
    if n < m {
        lemma_fault_stays(groups, reads, n, (m - 1) as nat);
    }
}

/// The first group that cannot be carried, and why.
fn find_faulty_group(
    groups: &TagBlock,
    reads: &Vec<Option<Vec<AnimationResourceMember>>>,
) -> (r: Option<(usize, String)>)
    ensures
        match r {
            Some((index, why)) => members_gathered(
                groups@.elements,
                group_views(reads@),
                groups@.elements.len(),
            ) == Err::<Seq<Seq<AnimationView>>, (nat, Seq<char>)>((index as nat, why@)),
            None => members_gathered(
                groups@.elements,
                group_views(reads@),
                groups@.elements.len(),
            ) is Ok,
        },
{
    let n: usize = groups.len();
    let mut i: usize = 0;
    while i < n
        invariant
            i <= n,
            n == groups@.elements.len(),
            members_gathered(groups@.elements, group_views(reads@), i as nat) is Ok,
        decreases n - i,
    {
        if let Some(why) = fault_of_group(groups.at(i), reads, i) {
            proof {
                lemma_fault_stays(
                    groups@.elements,
                    group_views(reads@),
                    i as nat + 1,
                    n as nat,
                );
            }
            return Some((i, why));
        }
        i = i + 1;
    }
    None
}

/// A target's groups and the context after the graph's members were written.
pub open spec fn graph_written(
    layout: LayoutView,
    root: StructView,
    c: ContextView,
    members: Seq<Seq<AnimationView>>,
) -> (StructView, ContextView) {
    match place_named(root, "tag resource groups"@) {
        Some(k) => match root.fields[k as int].content {
            ContentView::Block(groups) => if groups.elements.len() != members.len() {
                (
                    root,
                    c.unsupported(
                        "tag resource groups"@,
                        "The target carries "@ + decimal(groups.elements.len())
                            + " resource group(s) but the source has "@ + decimal(members.len()),
                    ),
                )
            } else {
                let n = members.len();
                (
                    root.with_block(
                        k as int,
                        BlockView {
                            elements: groups_with_members(layout, groups.elements, members, n),
                            ..groups
                        },
                    ),
                    forgiven(
                        c,
                        ScopeView::Under("tag resource groups"@),
                        MessageView::Plain(
                            graph_text(members_written(layout, groups.elements, members, n)),
                        ),
                    ),
                )
            },
            _ => (root, c),
        },
        None => (root, c),
    }
}

/// What is said of a graph's resource that was carried.
pub open spec fn graph_text(written: nat) -> Seq<char> {
    "The Xbox 360 animation resource was read out of the build's control data and written back as the inline members a loose tag carries ("@
        + decimal(plus(0, written as int) as nat) + " animation(s), codec streams turned round)"@
}

/// A target's root and the context after a graph was carried: all of it, or none.
pub open spec fn graph_carried(
    layout: LayoutView,
    root: StructView,
    c: ContextView,
    source: StructView,
    reads: Seq<Option<Seq<AnimationView>>>,
) -> (StructView, ContextView) {
    match field_answering(source, "tag resource groups"@) {
        Some(f) => match f.content {
            ContentView::Block(b) => match members_gathered(b.elements, reads, b.elements.len()) {
                Err((index, why)) => (root, c.unsupported(group_path(index), why)),
                Ok(members) => graph_written(layout, root, c, members),
            },
            _ => (root, c),
        },
        None => (root, c),
    }
}

fn write_groups(
    layout: &TagLayout,
    groups: &mut TagBlock,
    source: &TagBlock,
    reads: &Vec<Option<Vec<AnimationResourceMember>>>,
) -> (r: usize)
    requires
        old(groups)@.elements.len() == source@.elements.len(),
        members_gathered(source@.elements, group_views(reads@), source@.elements.len()) is Ok,
    ensures
        ({
            let members = members_gathered(
                source@.elements,
                group_views(reads@),
                source@.elements.len(),
            )->Ok_0;
            &&& final(groups)@ == (BlockView {
                elements: groups_with_members(
                    layout@,
                    old(groups)@.elements,
                    members,
                    members.len(),
                ),
                ..old(groups)@
            })
            &&& r == plus(
                0,
                members_written(layout@, old(groups)@.elements, members, members.len()) as int,
            )
        }),
{
    let ghost members = members_gathered(
        source@.elements,
        group_views(reads@),
        source@.elements.len(),
    )->Ok_0;
    let ghost start = groups@;
    let n: usize = groups.len();
    proof {
        lemma_gathered(source@.elements, group_views(reads@), source@.elements.len());
    }
    let mut written: usize = 0;
    let mut i: usize = 0;
    while i < n
        invariant
            i <= n,
            n == start.elements.len(),
            n == source@.elements.len(),
            n == members.len(),
            start == old(groups)@,
            groups@ == (BlockView { elements: groups@.elements, ..start }),
            groups@.elements.len() == n,
            forall|j: int|
                0 <= j < i ==> groups@.elements[j] == group_with_members(
                    layout@,
                    start.elements[j],
                    members[j],
                ).0,
            forall|j: int| i <= j < n ==> groups@.elements[j] == start.elements[j],
            forall|j: int|
                0 <= j < n ==> members_of_group(
                    source@.elements[j],
                    group_views(reads@),
                    j as nat,
                ) == Ok::<Seq<AnimationView>, Seq<char>>(#[trigger] members[j]),
            written == plus(
                0,
                members_written(layout@, start.elements, members, i as nat) as int,
            ),
        decreases n - i,
    {
        assert(members_of_group(source@.elements[i as int], group_views(reads@), i as nat) == Ok::<
            Seq<AnimationView>,
            Seq<char>,
        >(members[i as int]));
        let console: bool = match find_resource(source.at(i), "tag_resource") {
            Some(resource) => resource.xsync_state().is_some(),
            None => false,
        };
        if console && i < reads.len() {
            if let Some(own) = &reads[i] {
                assert(group_views(reads@)[i as int] == Some(animation_views(own@)));
                let more: usize = write_group(layout, groups.at_mut(i), own);
                written = plus_of(written, more);
            }
        }
        i = i + 1;
    }
    assert(groups@.elements =~= groups_with_members(
        layout@,
        start.elements,
        members,
        members.len(),
    ));
    written
}

fn carry_graph(
    source: &TagStruct,
    target: &mut TagFile,
    context: &mut ConversionContext,
    reads: &Vec<Option<Vec<AnimationResourceMember>>>,
)
    ensures
        (final(target)@.root, final(context)@) == graph_carried(
            old(target)@.layout,
            old(target)@.root,
            old(context)@,
            source@,
            group_views(reads@),
        ),
        final(target)@ == (FileView { root: final(target)@.root, ..old(target)@ }),
{
    let own: &TagBlock = match find_field(source, "tag resource groups") {
        Some(f) => match f.as_block() {
            Some(b) => b,
            None => {
                return;
            },
        },
        None => {
            return;
        },
    };
    if let Some((index, why)) = find_faulty_group(own, reads) {
        let group: String = path_of_element("tag resource groups", index);
        record_unsupported(context, &concat2(&group, "/tag_resource"), why);
        return;
    }
    let ghost members = members_gathered(
        own@.elements,
        group_views(reads@),
        own@.elements.len(),
    )->Ok_0;
    proof {
        lemma_gathered(own@.elements, group_views(reads@), own@.elements.len());
    }
    let k: usize = match place_of_field(&target.root, "tag resource groups") {
        Some(k) => k,
        None => {
            return;
        },
    };
    let theirs: usize = match target.root.at(k).as_block() {
        Some(b) => b.len(),
        None => {
            return;
        },
    };
    if theirs != own.len() {
        let first: String = decimal_text(theirs as u128);
        let second: String = decimal_text(own.len() as u128);
        record_unsupported(
            context,
            "tag resource groups",
            concat4(
                "The target carries ",
                &first,
                " resource group(s) but the source has ",
                &second,
            ),
        );
        return;
    }
    let ghost root = target@.root;
    let ghost before = context@;
    let mut written: usize = 0;
    match target.root.at_mut(k).as_block_mut() {
        Some(groups) => {
            written = write_groups(&target.layout, groups, own, reads);
        },
        None => {},
    }
    assert(target@.root.fields =~= graph_written(
        target@.layout,
        root,
        before,
        members,
    ).0.fields);
    let number: String = decimal_text(written as u128);
    let text: String = concat3(
        "The Xbox 360 animation resource was read out of the build's control data and written back as the inline members a loose tag carries (",
        &number,
        " animation(s), codec streams turned round)",
    );
    forgive_resources(
        context,
        &ResourceScope::Under(copy("tag resource groups")),
        &ForgivenMessage::Plain(text),
    );
}

/// The number of frames that a stream is turned round with: at least one, and of a
/// greater number the low two bytes.
pub fn stream_frames(frame_count: i64) -> (r: u16)
    ensures
        r == (if frame_count > 1 {
            frame_count as int
        } else {
            1
        }) % 0x10000,
{
    let frames: i64 = if frame_count > 1 {
        frame_count
    } else {
        1
    };
    (frames % 0x10000) as u16
}

/// Whether a graph's resources are to be carried.
pub open spec fn graph_is_carried(upgrade: bool, source: FileView, c: ContextView) -> bool {
    upgrade && source.header.group_tag == ANIMATION_GROUP && c.resources_left.len() > 0
}

/// Carries the animations of a graph that only changes its byte order. `reads`
/// holds, for each of its groups, what the console's control data says. All of
/// them are carried, or none: half a graph is worse than a refusal.
pub fn carry_animation_resources(
    byte_order_upgrade: bool,
    source: &TagFile,
    target: &mut TagFile,
    context: &mut ConversionContext,
    reads: &Vec<Option<Vec<AnimationResourceMember>>>,
)
    ensures
        graph_is_carried(byte_order_upgrade, source@, old(context)@) ==> {
            &&& (final(target)@.root, final(context)@) == graph_carried(
                old(target)@.layout,
                old(target)@.root,
                old(context)@,
                source@.root,
                group_views(reads@),
            )
            &&& final(target)@ == (FileView { root: final(target)@.root, ..old(target)@ })
        },
        !graph_is_carried(byte_order_upgrade, source@, old(context)@) ==> {
            &&& final(target)@ == old(target)@
            &&& final(context)@ == old(context)@
        },
{
    if !byte_order_upgrade || source.header.group_tag != ANIMATION_GROUP {
        return;
    }
    if context.resources_left_behind.len() == 0 {
        return;
    }
    carry_graph(&source.root, target, context, reads);
}

/// A graph is carried whole or not at all: where one group cannot be carried, the
/// target stays as it was.
pub proof fn no_graph_is_carried_in_part(
    layout: LayoutView,
    root: StructView,
    c: ContextView,
    source: StructView,
    reads: Seq<Option<Seq<AnimationView>>>,
    groups: BlockView,
    index: int,
)
    requires
        field_answering(source, "tag resource groups"@) matches Some(f) && f.content
            == ContentView::Block(groups),
        0 <= index < groups.elements.len(),
        members_of_group(groups.elements[index], reads, index as nat) is Err,
    ensures
        graph_carried(layout, root, c, source, reads).0 == root,
        graph_carried(layout, root, c, source, reads).1.report.unsupported_source == plus(
            c.report.unsupported_source,
            1,
        ),
{
    let n = groups.elements.len();
    if members_gathered(groups.elements, reads, n) is Ok {
        lemma_gathered(groups.elements, reads, n);
        let got = members_gathered(groups.elements, reads, n)->Ok_0;
        assert(members_of_group(groups.elements[index], reads, index as nat) == Ok::<
            Seq<AnimationView>,
            Seq<char>,
        >(got[index]));
    }
}

}
