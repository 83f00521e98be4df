//! Resources of the older console, read out of its control data and written where
//! a loose tag keeps them.
use crate::convert::forgiving::{
    ForgivenMessage, MessageView, ResourceScope, ScopeView, forgive_resources, forgiven,
};
use crate::convert::report::{ContextView, ConversionContext, record_unsupported};
use crate::convert::setting::{int_set, set_int_field};
use crate::convert::shapes::{clear_resource, without_resource};
use crate::file::{FileView, TagFile};
use crate::layout::{LayoutView, TagLayout};
use crate::reads::{descend, field_answering, find_field, place_named, place_of_field, struct_named};
use crate::tag::{
    BlockView, ContentView, ResourceContentView, ResourceView, StructView, TagBlock, TagResource,
    TagStruct,
};
use crate::text::{concat2, concat4, copy, decimal, decimal_text};
use vstd::prelude::*;

verus! {

/// The group of structure tags, `sbsp`.
pub const STRUCTURE_GROUP: u32 = 0x7362_7370;

/// The group of animation graphs, `jmad`.
pub const ANIMATION_GROUP: u32 = 0x6a6d_6164;

/// The struct with the resource in its field `name` nulled.
pub open spec fn resource_dropped(s: StructView, name: Seq<char>) -> StructView {
    match place_named(s, name) {
        Some(k) => s.with_field_at(k as int, without_resource(s.fields[k as int])),
        None => s,
    }
}

fn drop_resource(s: &mut TagStruct, name: &str)
    ensures
        final(s)@ == resource_dropped(old(s)@, name@),
{
    let ghost before = s@;
    if let Some(k) = place_of_field(s, name) {
        clear_resource(s.at_mut(k));
        assert(s@.fields =~= resource_dropped(before, name@).fields);
    }
}

/// The resource that a field of the struct holds.
pub open spec fn resource_named(s: StructView, name: Seq<char>) -> Option<ResourceView> {
    match field_answering(s, name) {
        Some(f) => match f.content {
            ContentView::Resource(r) => Some(r),
            _ => None,
        },
        None => None,
    }
}

/// The address at which the console's control data of a resource begins; none for
/// one that is already in the target's shape, or empty.
pub open spec fn control_root(r: ResourceView) -> Option<u32> {
    match r.content {
        ResourceContentView::Exploded { state, .. } => state,
        _ => None,
    }
}

pub fn find_resource<'a>(s: &'a TagStruct, name: &str) -> (r: Option<&'a TagResource>)
    ensures
        match r {
            Some(x) => resource_named(s@, name@) == Some(x@),
            None => resource_named(s@, name@) is None,
        },
{
    match find_field(s, name) {
        Some(f) => f.as_resource(),
        None => None,
    }
}

// ---------------------------------------------------------------------------
// Structures
// ---------------------------------------------------------------------------
/// What was read out of the control data of a structure's resource.
#[derive(Debug, PartialEq, Eq)]
pub struct ControlRead {
    /// Whether the root points into the control data at all.
    pub in_control: bool,
    /// The struct as far as it was filled.
    pub items: TagStruct,
    pub structs: usize,
    pub block_elements: usize,
    pub data_bytes: usize,
    /// Why it could not be filled.
    pub fault: Option<String>,
}

/// The control root of a structure's own resource.
pub open spec fn structure_control(root: StructView) -> Option<u32> {
    match struct_named(root, "resource interface"@) {
        Some(interface) => match resource_named(interface, "tag_resources"@) {
            Some(r) => control_root(r),
            None => None,
        },
        None => None,
    }
}

/// A block of one element with `items` in it, and whether there was a place for
/// them.
pub open spec fn one_with_items(
    layout: LayoutView,
    raw: BlockView,
    items: StructView,
) -> (BlockView, bool) {
    let one = raw.cleared().grown(layout);
    if one.elements.len() == 0 {
        (one, false)
    } else {
        let element = one.elements[0];
        match place_named(element, "raw_items"@) {
            Some(k) => if element.fields[k as int].content is Struct {
                (
                    BlockView {
                        elements: one.elements.update(0, element.with_nested(k as int, items)),
                        ..one
                    },
                    true,
                )
            } else {
                (one, false)
            },
            None => (one, false),
        }
    }
}

/// An interface with `items` where a loose tag keeps them, and whether it has such
/// a place.
pub open spec fn interface_with_items(
    layout: LayoutView,
    interface: StructView,
    items: StructView,
) -> (StructView, bool) {
    match place_named(interface, "raw_resources"@) {
        Some(k) => match interface.fields[k as int].content {
            ContentView::Block(raw) => {
                let (one, placed) = one_with_items(layout, raw, items);
                (interface.with_block(k as int, one), placed)
            },
            _ => (interface, false),
        },
        None => (interface, false),
    }
}

/// An interface that says that its items are not in a resource.
pub open spec fn interface_said(interface: StructView) -> StructView {
    resource_dropped(
        resource_dropped(int_set(interface, "use resource items"@, 0), "tag_resources"@),
        "cache_file_resources"@,
    )
}

/// What is said of a structure's resource that was carried.
pub open spec fn structure_text(structs: usize, elements: usize, bytes: usize) -> Seq<char> {
    "The Xbox 360 structure resource was read out of the build's control data and written where a loose tag keeps it ("@
        + decimal(structs as nat) + " struct(s), "@ + decimal(elements as nat)
        + " block element(s), "@ + decimal(bytes as nat) + " byte(s) of payload)"@
}

/// Where the resource of a structure is.
pub open spec fn structure_path() -> Seq<char> {
    "resource interface/tag_resources"@
}

/// A target's root and the context after the structure's resource was carried.
pub open spec fn structure_carried(
    layout: LayoutView,
    root: StructView,
    c: ContextView,
    read: ControlRead,
) -> (StructView, ContextView) {
    if !read.in_control {
        (
            root,
            c.unsupported(
                structure_path(),
                "The Xbox 360 structure resource's root does not point into its control data"@,
            ),
        )
    } else {
        match place_named(root, "resource interface"@) {
            Some(k) => match root.fields[k as int].content {
                ContentView::Struct(interface) => {
                    let (filled, placed) = interface_with_items(layout, interface, read.items@);
                    if !placed {
                        (root.with_nested(k as int, filled), c)
                    } else {
                        match read.fault {
                            Some(why) => (
                                root.with_nested(k as int, filled),
                                c.unsupported(
                                    structure_path(),
                                    "The Xbox 360 structure resource could not be read: "@ + why@,
                                ),
                            ),
                            None => (
                                root.with_nested(k as int, interface_said(filled)),
                                forgiven(
                                    c,
                                    ScopeView::Under("resource interface"@),
                                    MessageView::Plain(
                                        structure_text(
                                            read.structs,
                                            read.block_elements,
                                            read.data_bytes,
                                        ),
                                    ),
                                ),
                            ),
                        }
                    }
                },
                _ => (root, c),
            },
            None => (root, c),
        }
    }
}

fn place_items(layout: &TagLayout, raw: &mut TagBlock, items: &TagStruct) -> (r: bool)
    ensures
        (final(raw)@, r) == one_with_items(layout@, old(raw)@, items@),
{
    let ghost start = raw@;
    raw.clear();
    let index: usize = raw.add_element(layout);
    if raw.len() == 0 {
        return false;
    }
    let ghost one = raw@;
    let k: usize = match place_of_field(raw.at(0), "raw_items") {
        Some(k) => k,
        None => {
            return false;
        },
    };
    if !raw.at(0).at(k).holds_struct() {
        return false;
    }
    let element: &mut TagStruct = raw.at_mut(0);
    let ghost before = element@;
    match element.at_mut(k).as_struct_mut() {
        Some(own) => {
            *own = items.duplicate();
        },
        None => {},
    }
    assert(element@.fields =~= before.with_nested(k as int, items@).fields);
    assert(raw@.elements =~= one_with_items(layout@, start, items@).0.elements);
    true
}

fn place_in_interface(layout: &TagLayout, interface: &mut TagStruct, items: &TagStruct) -> (r: bool)
    ensures
        (final(interface)@, r) == interface_with_items(layout@, old(interface)@, items@),
{
    let k: usize = match place_of_field(interface, "raw_resources") {
        Some(k) => k,
        None => {
            return false;
        },
    };
    if !interface.at(k).holds_block() {
        return false;
    }
    let ghost before = interface@;
    let mut placed: bool = false;
    match interface.at_mut(k).as_block_mut() {
        Some(raw) => {
            placed = place_items(layout, raw, items);
        },
        None => {},
    }
    assert(interface@.fields =~= interface_with_items(layout@, before, items@).0.fields);
    placed
}

fn say_items_are_here(interface: &mut TagStruct)
    ensures
        final(interface)@ == interface_said(old(interface)@),
{
    set_int_field(interface, "use resource items", 0);
    drop_resource(interface, "tag_resources");
    drop_resource(interface, "cache_file_resources");
}

fn text_of_structure(structs: usize, elements: usize, bytes: usize) -> (r: String)
    ensures
        r@ == structure_text(structs, elements, bytes),
{
    let first: String = decimal_text(structs as u128);
    let second: String = decimal_text(elements as u128);
    let third: String = decimal_text(bytes as u128);
    let start: String = concat4(
        "The Xbox 360 structure resource was read out of the build's control data and written where a loose tag keeps it (",
        &first,
        " struct(s), ",
        &second,
    );
    concat4(&start, " block element(s), ", &third, " byte(s) of payload)")
}

fn carry_structure(
    target: &mut TagFile,
    context: &mut ConversionContext,
    read: &ControlRead,
)
    ensures
        (final(target)@.root, final(context)@) == structure_carried(
            old(target)@.layout,
            old(target)@.root,
            old(context)@,
            *read,
        ),
        final(target)@ == (FileView { root: final(target)@.root, ..old(target)@ }),
{
    let ghost root = target@.root;
    if !read.in_control {
        record_unsupported(
            context,
            "resource interface/tag_resources",
            copy("The Xbox 360 structure resource's root does not point into its control data"),
        );
        return;
    }
    let k: usize = match place_of_field(&target.root, "resource interface") {
        Some(k) => k,
        None => {
            return;
        },
    };
    if !target.root.at(k).holds_struct() {
        return;
    }
    let mut placed: bool = false;
    match target.root.at_mut(k).as_struct_mut() {
        Some(interface) => {
            placed = place_in_interface(&target.layout, interface, &read.items);
            if placed && read.fault.is_none() {
                say_items_are_here(interface);
            }
        },
        None => {},
    }
    assert(target@.root.fields =~= structure_carried(
        target@.layout,
        root,
        context@,
        *read,
    ).0.fields);
    if !placed {
        return;
    }
    if let Some(why) = &read.fault {
        record_unsupported(
            context,
            "resource interface/tag_resources",
            concat2("The Xbox 360 structure resource could not be read: ", why),
        );
        return;
    }
    forgive_resources(
        context,
        &ResourceScope::Under(copy("resource interface")),
        &ForgivenMessage::Plain(
            text_of_structure(read.structs, read.block_elements, read.data_bytes),
        ),
    );
}

/// Whether a structure's resource is the console's, and its tag only changes its
/// byte order.
pub open spec fn structure_is_carried(upgrade: bool, source: FileView) -> bool {
    upgrade && source.header.group_tag == STRUCTURE_GROUP && structure_control(source.root) is Some
}

/// Brings the resource of a structure tag into the tag itself: `read` is what the
/// console's control data holds.
pub fn carry_structure_resources(
    byte_order_upgrade: bool,
    source: &TagFile,
    target: &mut TagFile,
    context: &mut ConversionContext,
    read: &ControlRead,
)
    ensures
        structure_is_carried(byte_order_upgrade, source@) ==> {
            &&& (final(target)@.root, final(context)@) == structure_carried(
                old(target)@.layout,
                old(target)@.root,
                old(context)@,
                *read,
            )
            &&& final(target)@ == (FileView { root: final(target)@.root, ..old(target)@ })
        },
        !structure_is_carried(byte_order_upgrade, source@) ==> final(target)@ == old(target)@
            && final(context)@ == old(context)@,
{
    if !byte_order_upgrade || source.header.group_tag != STRUCTURE_GROUP {
        return;
    }
    let control: Option<u32> = match descend(&source.root, "resource interface") {
        Some(interface) => match find_resource(interface, "tag_resources") {
            Some(resource) => resource.xsync_state(),
            None => None,
        },
        None => None,
    };
    if control.is_none() {
        return;
    }
    carry_structure(target, context, read);
}

}
