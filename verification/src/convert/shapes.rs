//! Whether two structs of different layouts describe the same bytes, and
//! carrying a pageable resource across where they do.
use crate::convert::environment::{ConversionEnvironment, EnvironmentView};
use crate::convert::report::{ContextView, ConversionContext, record_unsupported};
use crate::fields::TagFieldType;
use crate::layout::{LayoutView, TagFieldLayout, TagLayout, TagStructLayout};
use crate::tag::{
    ContentView, FieldView, ResourceContentView, ResourceView, TagField, TagResource,
    TagResourceContent,
};
use crate::text::{concat2, copy};
use vstd::prelude::*;

verus! {

/// Whether two structs describe the same bytes: the same size, and field by field
/// the same types at the same places, all the way down. `depth` bounds how far
/// structs are followed.
pub open spec fn wire_identical(
    a: LayoutView,
    a_index: u32,
    b: LayoutView,
    b_index: u32,
    depth: nat,
) -> bool
    decreases depth, 2nat, 0nat,
{
    if a_index >= a.structs.len() || b_index >= b.structs.len() {
        false
    } else {
        let x = a.structs[a_index as int];
        let y = b.structs[b_index as int];
        let x0 = x.first_field_index as int;
        let y0 = y.first_field_index as int;
        x.size == y.size && a.run_end(x0) - x0 == b.run_end(y0) - y0 && wire_identical_fields(
            a,
            x0,
            b,
            y0,
            (a.run_end(x0) - x0) as nat,
            depth,
        )
    }
}

/// Whether the first `n` fields of two structs describe the same bytes.
pub open spec fn wire_identical_fields(
    a: LayoutView,
    a_first: int,
    b: LayoutView,
    b_first: int,
    n: nat,
    depth: nat,
) -> bool
    decreases depth, 1nat, n,
{
    if n == 0 {
        true
    } else {
        wire_identical_fields(a, a_first, b, b_first, (n - 1) as nat, depth)
            && wire_identical_field(a, a.fields[a_first + n - 1], b, b.fields[b_first + n - 1], depth)
    }
}

/// Whether two fields describe the same bytes.
pub open spec fn wire_identical_field(
    a: LayoutView,
    x: TagFieldLayout,
    b: LayoutView,
    y: TagFieldLayout,
    depth: nat,
) -> bool
    decreases depth, 0nat, 0nat,
{
    if x.field_type != y.field_type || x.offset != y.offset {
        false
    } else if depth == 0 {
        true
    } else {
        match x.field_type {
            TagFieldType::Struct => wire_identical(
                a,
                x.definition,
                b,
                y.definition,
                (depth - 1) as nat,
            ),
            TagFieldType::Block => x.definition < a.blocks.len() && y.definition < b.blocks.len()
                && wire_identical(
                a,
                a.blocks[x.definition as int].struct_index,
                b,
                b.blocks[y.definition as int].struct_index,
                (depth - 1) as nat,
            ),
            TagFieldType::Array => x.definition < a.arrays.len() && y.definition < b.arrays.len()
                && a.arrays[x.definition as int].count == b.arrays[y.definition as int].count
                && wire_identical(
                a,
                a.arrays[x.definition as int].struct_index,
                b,
                b.arrays[y.definition as int].struct_index,
                (depth - 1) as nat,
            ),
            _ => true,
        }
    }
}

/// How deep the comparison of two structs follows what they nest.
pub const WIRE_DEPTH: usize = 32;

/// Whether two structs describe the same bytes.
pub fn struct_trees_are_wire_identical(
    a: &TagLayout,
    a_index: u32,
    b: &TagLayout,
    b_index: u32,
    depth: usize,
) -> (r: bool)
    ensures
        r == wire_identical(a@, a_index, b@, b_index, depth as nat),
    decreases depth, 2nat,
{
    if a_index as usize >= a.struct_layouts.len() || b_index as usize >= b.struct_layouts.len() {
        return false;
    }
    let x: TagStructLayout = a.struct_layouts[a_index as usize];
    let y: TagStructLayout = b.struct_layouts[b_index as usize];
    let x0: usize = x.first_field_index as usize;
    let y0: usize = y.first_field_index as usize;
    let x1: usize = a.end_of_run(x0);
    let y1: usize = b.end_of_run(y0);
    if x.size != y.size || x1 - x0 != y1 - y0 {
        return false;
    }
    let n: usize = x1 - x0;
    let mut i: usize = 0;
    while i < n
        invariant
            i <= n,
            n > 0 ==> x0 + n <= a.fields.len(),
            n > 0 ==> y0 + n <= b.fields.len(),
            n == a@.run_end(x0 as int) - x0,
            n == b@.run_end(y0 as int) - y0,
            a_index < a@.structs.len(),
            b_index < b@.structs.len(),
            x == a@.structs[a_index as int],
            y == b@.structs[b_index as int],
            x0 == x.first_field_index,
            y0 == y.first_field_index,
            x.size == y.size,
            wire_identical_fields(a@, x0 as int, b@, y0 as int, i as nat, depth as nat),
        decreases n - i,
    {
        if !fields_are_wire_identical(a, &a.fields[x0 + i], b, &b.fields[y0 + i], depth) {
            proof {
                lemma_wire_difference(
                    a@,
                    x0 as int,
                    b@,
                    y0 as int,
                    (i + 1) as nat,
                    n as nat,
                    depth as nat,
                );
            }
            return false;
        }
        i = i + 1;
    }
    true
}

proof fn lemma_wire_difference(
    a: LayoutView,
    a_first: int,
    b: LayoutView,
    b_first: int,
    i: nat,
    n: nat,
    depth: nat,
)
    requires
        i <= n,
        !wire_identical_fields(a, a_first, b, b_first, i, depth),
    ensures
        !wire_identical_fields(a, a_first, b, b_first, n, depth),
    decreases n,
{
    if i < n {
        lemma_wire_difference(a, a_first, b, b_first, i, (n - 1) as nat, depth);
    }
}

fn fields_are_wire_identical(
    a: &TagLayout,
    x: &TagFieldLayout,
    b: &TagLayout,
    y: &TagFieldLayout,
    depth: usize,
) -> (r: bool)
    ensures
        r == wire_identical_field(a@, *x, b@, *y, depth as nat),
    decreases depth, 0nat,
{
    if x.field_type != y.field_type || x.offset != y.offset {
        return false;
    }
    if depth == 0 {
        return true;
    }
    let p: usize = x.definition as usize;
    let q: usize = y.definition as usize;
    match x.field_type {
        TagFieldType::Struct => struct_trees_are_wire_identical(
            a,
            x.definition,
            b,
            y.definition,
            depth - 1,
        ),
        TagFieldType::Block => p < a.block_layouts.len() && q < b.block_layouts.len()
            && struct_trees_are_wire_identical(
            a,
            a.block_layouts[p].struct_index,
            b,
            b.block_layouts[q].struct_index,
            depth - 1,
        ),
        TagFieldType::Array => p < a.array_layouts.len() && q < b.array_layouts.len()
            && a.array_layouts[p].count == b.array_layouts[q].count
            && struct_trees_are_wire_identical(
            a,
            a.array_layouts[p].struct_index,
            b,
            b.array_layouts[q].struct_index,
            depth - 1,
        ),
        _ => true,
    }
}

/// A struct that is in its layout describes the same bytes as itself, and which
/// of two structs stands left is immaterial.
pub proof fn wire_identity_is_reflexive_and_symmetric(
    a: LayoutView,
    a_index: u32,
    b: LayoutView,
    b_index: u32,
    depth: nat,
)
    requires
        a.wf(),
    ensures
        a_index < a.structs.len() ==> wire_identical(a, a_index, a, a_index, depth),
        wire_identical(a, a_index, b, b_index, depth) == wire_identical(
            b,
            b_index,
            a,
            a_index,
            depth,
        ),
    decreases depth, 2nat, 0nat,
{
    if a_index < a.structs.len() {
        let x0 = a.structs[a_index as int].first_field_index as int;
        lemma_run_inside(a, x0);
        lemma_wire_reflexive_fields(a, x0, (a.run_end(x0) - x0) as nat, depth);
        if b_index < b.structs.len() {
            let y0 = b.structs[b_index as int].first_field_index as int;
            if a.run_end(x0) - x0 == b.run_end(y0) - y0 {
                lemma_wire_symmetric_fields(a, x0, b, y0, (a.run_end(x0) - x0) as nat, depth);
            }
        }
    }
}

proof fn lemma_run_inside(a: LayoutView, from: int)
    requires
        0 <= from,
    ensures
        from <= a.run_end(from),
        from < a.run_end(from) ==> a.run_end(from) <= a.fields.len(),
        forall|i: int|
            from <= i < a.run_end(from) ==> (#[trigger] a.fields[i]).field_type
                != TagFieldType::Terminator,
    decreases a.fields.len() - from,
{
    if from < a.fields.len() && a.fields[from].field_type != TagFieldType::Terminator {
        lemma_run_inside(a, from + 1);
    }
}

proof fn lemma_wire_reflexive_fields(a: LayoutView, first: int, n: nat, depth: nat)
    requires
        a.wf(),
        0 <= first,
        n > 0 ==> first + n <= a.fields.len(),
    ensures
        wire_identical_fields(a, first, a, first, n, depth),
    decreases depth, 1nat, n,
{
    if n > 0 {
        lemma_wire_reflexive_fields(a, first, (n - 1) as nat, depth);
        let x = a.fields[first + n - 1];
        assert(a.definition_in_range(x));
        if depth > 0 {
            let d = (depth - 1) as nat;
            match x.field_type {
                TagFieldType::Struct => {
                    wire_identity_is_reflexive_and_symmetric(a, x.definition, a, x.definition, d);
                },
                TagFieldType::Block => {
                    let s = a.blocks[x.definition as int].struct_index;
                    wire_identity_is_reflexive_and_symmetric(a, s, a, s, d);
                },
                TagFieldType::Array => {
                    let s = a.arrays[x.definition as int].struct_index;
                    wire_identity_is_reflexive_and_symmetric(a, s, a, s, d);
                },
                _ => {},
            }
        }
        assert(wire_identical_field(a, x, a, x, depth));
    }
}

proof fn lemma_wire_symmetric_fields(
    a: LayoutView,
    a_first: int,
    b: LayoutView,
    b_first: int,
    n: nat,
    depth: nat,
)
    requires
        a.wf(),
    ensures
        wire_identical_fields(a, a_first, b, b_first, n, depth) == wire_identical_fields(
            b,
            b_first,
            a,
            a_first,
            n,
            depth,
        ),
    decreases depth, 1nat, n,
{
    if n > 0 {
        lemma_wire_symmetric_fields(a, a_first, b, b_first, (n - 1) as nat, depth);
        let x = a.fields[a_first + n - 1];
        let y = b.fields[b_first + n - 1];
        if depth > 0 && x.field_type == y.field_type {
            let d = (depth - 1) as nat;
            match x.field_type {
                TagFieldType::Struct => {
                    wire_identity_is_reflexive_and_symmetric(a, x.definition, b, y.definition, d);
                },
                TagFieldType::Block => {
                    if x.definition < a.blocks.len() && y.definition < b.blocks.len() {
                        wire_identity_is_reflexive_and_symmetric(
                            a,
                            a.blocks[x.definition as int].struct_index,
                            b,
                            b.blocks[y.definition as int].struct_index,
                            d,
                        );
                    }
                },
                TagFieldType::Array => {
                    if x.definition < a.arrays.len() && y.definition < b.arrays.len() {
                        wire_identity_is_reflexive_and_symmetric(
                            a,
                            a.arrays[x.definition as int].struct_index,
                            b,
                            b.arrays[y.definition as int].struct_index,
                            d,
                        );
                    }
                },
                _ => {},
            }
        }
        assert(wire_identical_field(a, x, b, y, depth) == wire_identical_field(
            b,
            y,
            a,
            x,
            depth,
        ));
    }
}

// ---------------------------------------------------------------------------
// Resources
// ---------------------------------------------------------------------------
/// A field without the resource it held.
pub open spec fn without_resource(t: FieldView) -> FieldView {
    match t.content {
        ContentView::Resource(r) => FieldView {
            content: ContentView::Resource(
                ResourceView { content: ResourceContentView::Null, ..r },
            ),
            ..t
        },
        _ => t,
    }
}

pub fn clear_resource(field: &mut TagField)
    ensures
        final(field)@ == without_resource(old(field)@),
{
    if let Some(resource) = field.as_resource_mut() {
        resource.set_content(TagResourceContent::null());
    }
}

/// What copying a resource onto the target field gives: it crosses whole where the
/// two definitions describe the same shape, and else the engine says why not.
pub open spec fn resource_copied(
    env: EnvironmentView,
    layout: LayoutView,
    f: FieldView,
    t: FieldView,
) -> Result<(), Seq<char>> {
    match (f.content, t.content) {
        (ContentView::Resource(r), ContentView::Resource(q)) => if wire_identical(
            env.source_layout,
            r.struct_index,
            layout,
            q.struct_index,
            WIRE_DEPTH as nat,
        ) {
            Ok(())
        } else {
            Err(env.answers.resource_differs)
        },
        _ => Err(env.answers.resource_missing),
    }
}

/// The view of what copying a resource has given.
pub open spec fn copied_view(r: Result<(), String>) -> Result<(), Seq<char>> {
    match r {
        Ok(_) => Ok(()),
        Err(why) => Err(why@),
    }
}

pub fn copy_resource_outcome(
    source: &TagField,
    target: &TagField,
    layout: &TagLayout,
    env: &ConversionEnvironment,
) -> (r: Result<(), String>)
    ensures
        copied_view(r) == resource_copied(env@, layout@, source@, target@),
{
    match (source.as_resource(), target.as_resource()) {
        (Some(resource), Some(own)) => {
            if struct_trees_are_wire_identical(
                env.source_layout,
                resource.struct_index(),
                layout,
                own.struct_index(),
                WIRE_DEPTH,
            ) {
                Ok(())
            } else {
                Err(copy(&env.answers.resource_differs))
            }
        },
        _ => Err(copy(&env.answers.resource_missing)),
    }
}

/// A field with the content of another's resource; one that holds no resource is
/// left as it is.
pub open spec fn with_resource(t: FieldView, content: ResourceContentView) -> FieldView {
    match t.content {
        ContentView::Resource(q) => FieldView {
            content: ContentView::Resource(ResourceView { content, ..q }),
            ..t
        },
        _ => t,
    }
}

/// A resource carried across, given what copying it gives: a null one empties the
/// target, and one that cannot be copied is left behind.
pub open spec fn moved_resource(
    f: FieldView,
    t: FieldView,
    copied: Result<(), Seq<char>>,
    path: Seq<char>,
    c: ContextView,
) -> (FieldView, ContextView, bool) {
    match f.content {
        ContentView::Resource(r) => if r.content is Null {
            (without_resource(t), c, false)
        } else {
            match copied {
                Ok(_) => (with_resource(t, r.content), c.resource_carried(), true),
                Err(why) => (
                    t,
                    c.resource_left(path).unsupported(
                        path,
                        "The pageable resource could not be carried across: "@ + why,
                    ),
                    false,
                ),
            }
        },
        _ => (t, c, false),
    }
}

/// Moves `source`'s pageable resource onto `target`, returning whether anything
/// was carried. `copied` is what copying it gives.
///
/// A null resource is nothing to carry and no loss. Any other either crosses
/// whole or is recorded as left behind, which makes the tag refuse to be written.
pub fn transfer_resource(
    source: &TagField,
    target: &mut TagField,
    copied: Result<(), String>,
    path: &str,
    context: &mut ConversionContext,
) -> (r: bool)
    ensures
        (final(target)@, final(context)@, r) == moved_resource(
            source@,
            old(target)@,
            copied_view(copied),
            path@,
            old(context)@,
        ),
{
    let resource: &TagResource = match source.as_resource() {
        Some(resource) => resource,
        None => {
            return false;
        },
    };
    if resource.is_null() {
        clear_resource(target);
        return false;
    }
    match copied {
        Ok(_) => {
            if let Some(own) = target.as_resource_mut() {
                own.set_content(resource.content().duplicate());
            }
            context.count_resource();
            true
        },
        Err(why) => {
            context.leave_resource(path);
            record_unsupported(
                context,
                path,
                concat2("The pageable resource could not be carried across: ", &why),
            );
            false
        },
    }
}

/// A resource that holds anything is either carried whole or on the list of what
/// was left behind.
pub proof fn no_resource_is_lost_silently(
    env: EnvironmentView,
    layout: LayoutView,
    f: FieldView,
    t: FieldView,
    path: Seq<char>,
    c: ContextView,
)
    requires
        f.content matches ContentView::Resource(r) && !(r.content is Null),
    ensures
        ({
            let copied = resource_copied(env, layout, f, t);
            let (t1, c1, carried) = moved_resource(f, t, copied, path, c);
            if carried {
                t1.content is Resource && t1.content->Resource_0.content
                    == f.content->Resource_0.content
            } else {
                c1.resources_left.contains(path) && t1 == t
            }
        }),
{
    let copied = resource_copied(env, layout, f, t);
    let (t1, c1, carried) = moved_resource(f, t, copied, path, c);
    if !carried {
        assert(c1.resources_left[c.resources_left.len() as int] == path);
    }
}

}
