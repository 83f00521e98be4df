//! The images of a bitmap: each points at its own pixels.
use crate::convert::pixels::{
    BlobView, ImageView, blob_of, block_emptied, data_set, described_image, image_pointed,
    images_described, images_pointed,
};
use crate::convert::setting::{addressable_field, field_taken, fields_taken, int_set, renumbered};
use crate::fields::{FieldValue, TagFieldType};
use crate::laws::lookup::{
    every_number_set_reads_back, has_room_for, holds_ints, ints_set, lemma_field_replaced,
    setting_one_number_keeps_the_others,
};
use crate::layout::LayoutView;
use crate::reads::{
    elements_named, field_answering, int_named, place_named, shaped_number, value_named,
};
use crate::tag::{BlockView, ContentView, FieldView, StructView, fresh_struct};
use vstd::prelude::*;

verus! {

/// What an image says of its pixels: where they begin, how many bytes they are, and how
/// many levels lie below the first; and nothing of the console's own storage.
pub open spec fn pointers(offset: i64, size: i64, levels: i64) -> Seq<(Seq<char>, i64)> {
    seq![
        ("pixels offset"@, offset),
        ("pixels size"@, size),
        ("mipmap count"@, levels),
        ("high res pixels offset offset"@, 0i64),
        ("high res pixels size"@, 0i64),
        ("hardware format"@, 0i64),
        ("runtime tag base address"@, 0i64),
    ]
}

proof fn lemma_pointer_names(offset: i64, size: i64, levels: i64)
    ensures
        forall|p: int, q: int|
            0 <= p < q < pointers(offset, size, levels).len() ==> (#[trigger] pointers(
                offset,
                size,
                levels,
            )[p]).0 != (#[trigger] pointers(offset, size, levels)[q]).0,
{
    reveal_strlit("pixels offset");
    reveal_strlit("pixels size");
    reveal_strlit("mipmap count");
    reveal_strlit("high res pixels offset offset");
    reveal_strlit("high res pixels size");
    reveal_strlit("hardware format");
    reveal_strlit("runtime tag base address");
    assert("pixels offset"@.len() == 13);
    assert("pixels size"@.len() == 11);
    assert("mipmap count"@.len() == 12);
    assert("high res pixels offset offset"@.len() == 29);
    assert("high res pixels size"@.len() == 20);
    assert("hardware format"@.len() == 15);
    assert("runtime tag base address"@.len() == 24);
}

/// An image that was pointed at its pixels says where they are, and is otherwise as it
/// was.
pub proof fn an_image_says_where_its_pixels_are(e: StructView, offset: int, size: int, levels: int)
    requires
        0 <= offset <= i32::MAX,
        0 <= size <= i32::MAX,
        0 <= levels <= i32::MAX,
    ensures
        holds_ints(
            e,
            pointers(offset as i64, size as i64, levels as i64),
            7,
            image_pointed(e, offset, size, levels),
        ),
{
    let sets = pointers(offset as i64, size as i64, levels as i64);
    lemma_pointer_names(offset as i64, size as i64, levels as i64);
    every_number_set_reads_back(e, sets, 7);
    reveal_with_fuel(ints_set, 8);
    assert((offset as i32) as i64 == offset as i64);
    assert((size as i32) as i64 == size as i64);
    assert(ints_set(e, sets, 7) == image_pointed(e, offset, size, levels));
}

/// Each image of a bitmap points at its own slice of the pixels: image `i` begins where
/// slice `i` begins, is as long as slice `i`, and has the levels of image `i`.
pub proof fn every_image_points_at_its_own_pixels(images: Seq<StructView>, blob: BlobView, i: int)
    requires
        0 <= i < images.len(),
        images.len() == blob.slices.len(),
        images.len() == blob.levels.len(),
        0 <= blob.slices[i].0 <= i32::MAX,
        0 <= blob.slices[i].1 <= i32::MAX,
        0 <= blob.levels[i] <= i32::MAX,
    ensures
        images_pointed(images, blob).len() == images.len(),
        has_room_for(images[i], "pixels offset"@, blob.slices[i].0 as i64) ==> int_named(
            images_pointed(images, blob)[i],
            "pixels offset"@,
        ) == Some(blob.slices[i].0),
        has_room_for(images[i], "pixels size"@, blob.slices[i].1 as i64) ==> int_named(
            images_pointed(images, blob)[i],
            "pixels size"@,
        ) == Some(blob.slices[i].1),
        has_room_for(images[i], "mipmap count"@, blob.levels[i] as i64) ==> int_named(
            images_pointed(images, blob)[i],
            "mipmap count"@,
        ) == Some(blob.levels[i]),
        holds_ints(
            images[i],
            pointers(blob.slices[i].0 as i64, blob.slices[i].1 as i64, blob.levels[i] as i64),
            7,
            images_pointed(images, blob)[i],
        ),
{
    let sets = pointers(blob.slices[i].0 as i64, blob.slices[i].1 as i64, blob.levels[i] as i64);
    an_image_says_where_its_pixels_are(
        images[i],
        blob.slices[i].0,
        blob.slices[i].1,
        blob.levels[i],
    );
    assert(sets[0].0 == "pixels offset"@);
    assert(sets[1].0 == "pixels size"@);
    assert(sets[2].0 == "mipmap count"@);
}

/// The levels of an image that are kept behind the first are one less than it has.
pub proof fn every_image_keeps_its_levels(
    images: Seq<Option<ImageView>>,
    root: StructView,
    formats: Seq<(Seq<char>, Seq<char>)>,
    n: nat,
    i: int,
)
    requires
        n <= images.len(),
        0 <= i < n,
        blob_of(images, root, formats, n) is Ok,
    ensures
        blob_of(images, root, formats, n)->Ok_0.slices.len() == n,
        blob_of(images, root, formats, n)->Ok_0.levels.len() == n,
        images[i] matches Some(image) && blob_of(images, root, formats, n)->Ok_0.levels[i] == if image.mipmap_levels
            == 0 {
            0
        } else {
            image.mipmap_levels - 1
        },
    decreases n,
{
    if i < n - 1 {
        every_image_keeps_its_levels(images, root, formats, (n - 1) as nat, i);
    } else if n > 1 {
        every_image_keeps_its_levels(images, root, formats, (n - 1) as nat, 0);
    }
}

/// The slices of a bitmap lie one behind the other: each begins where the one before it
/// ends, the first at nothing, and the last ends with the pixels.
pub proof fn slices_lie_one_behind_the_other(
    images: Seq<Option<ImageView>>,
    root: StructView,
    formats: Seq<(Seq<char>, Seq<char>)>,
    n: nat,
)
    requires
        n <= images.len(),
        blob_of(images, root, formats, n) is Ok,
    ensures
        ({
            let blob = blob_of(images, root, formats, n)->Ok_0;
            &&& blob.slices.len() == n
            &&& n > 0 ==> blob.slices[0].0 == 0
            &&& n > 0 ==> blob.slices[n - 1].0 + blob.slices[n - 1].1 == blob.bytes.len()
            &&& n == 0 ==> blob.bytes.len() == 0
            &&& forall|i: int, j: int|
                0 <= i && j == i + 1 && j < n ==> (#[trigger] blob.slices[j]).0 == (
                #[trigger] blob.slices[i]).0 + blob.slices[i].1
        }),
    decreases n,
{
    if n > 0 {
        slices_lie_one_behind_the_other(images, root, formats, (n - 1) as nat);
    }
}

/// Each image that the target had no description of is described from the mirror's image
/// of the same place.
pub proof fn every_image_is_described_from_its_own_mirror(
    layout: LayoutView,
    images: BlockView,
    mirror: Seq<StructView>,
    n: nat,
)
    requires
        n <= mirror.len(),
        images.struct_index < layout.structs.len(),
    ensures
        ({
            let r = images_described(layout, images, mirror, n);
            &&& r == (BlockView { elements: r.elements, ..images })
            &&& r.elements.len() == images.elements.len() + n
            &&& forall|i: int|
                0 <= i < images.elements.len() ==> #[trigger] r.elements[i] == images.elements[i]
            &&& forall|i: int|
                #![trigger mirror[i]]
                0 <= i < n ==> r.elements[images.elements.len() + i] == described_image(
                    mirror[i],
                    fresh_struct(layout, images.struct_index),
                )
        }),
    decreases n,
{
    if n > 0 {
        every_image_is_described_from_its_own_mirror(
            layout,
            images,
            mirror,
            (n - 1) as nat,
        );
        let sofar = images_described(layout, images, mirror, (n - 1) as nat);
        let r = images_described(layout, images, mirror, n);
        let fresh = fresh_struct(layout, images.struct_index);
        assert(sofar.grown(layout).elements =~= sofar.elements.push(fresh));
        assert forall|i: int| #![trigger mirror[i]] 0 <= i < n implies r.elements[images.elements.len()
            + i] == described_image(mirror[i], fresh) by {
            if i < n - 1 {
                assert(r.elements[images.elements.len() + i] == sofar.elements[images.elements.len()
                    + i]);
            }
        }
    }
}

/// A number of an image that is described from its mirror is the mirror's number of the
/// same name.
pub proof fn a_taken_number_is_the_source_s_own(
    source: StructView,
    target: StructView,
    name: Seq<char>,
    n: i64,
)
    requires
        int_named(source, name) == Some(n as int),
        has_room_for(target, name, n),
    ensures
        int_named(field_taken(source, target, name), name) == Some(n as int),
{
    setting_one_number_keeps_the_others(target, name, n, name);
}

proof fn lemma_taken_alone(
    source: StructView,
    target: StructView,
    name: Seq<char>,
    other: Seq<char>,
)
    requires
        other != name,
    ensures
        field_answering(field_taken(source, target, name), other) == field_answering(
            target,
            other,
        ),
{
    if let Some(v) = value_named(source, name) {
        if let Some(n) = shaped_number(v) {
            setting_one_number_keeps_the_others(target, name, n as i64, other);
        } else if let Some(k) = place_named(target, name) {
            let f = target.fields[k as int].offered(v);
            lemma_field_replaced(target, name, k, f, other);
        }
    }
}

proof fn lemma_room_stays(s: StructView, name: Seq<char>, n: i64)
    requires
        has_room_for(s, name, n),
    ensures
        has_room_for(int_set(s, name, n), name, n),
{
    let k = place_named(s, name)->0;
    let v = s.fields[k as int].value()->0;
    let f = s.fields[k as int].offered(renumbered(v, n)->0);
    lemma_field_replaced(s, name, k, f, name);
}

proof fn lemma_taken_so_far(
    source: StructView,
    target: StructView,
    m: nat,
    name: Seq<char>,
    n: i64,
)
    requires
        m <= source.fields.len(),
        int_named(source, name) == Some(n as int),
        has_room_for(target, name, n),
    ensures
        has_room_for(fields_taken(source, target, m), name, n),
        (exists|i: int|
            0 <= i < m && (#[trigger] source.fields[i]).name == name && addressable_field(
                source.fields[i],
            )) ==> int_named(fields_taken(source, target, m), name) == Some(n as int),
    decreases m,
{
    if m > 0 {
        let before = (m - 1) as nat;
        lemma_taken_so_far(source, target, before, name, n);
        let sofar = fields_taken(source, target, before);
        let f = source.fields[m - 1];
        if addressable_field(f) {
            if f.name == name {
                a_taken_number_is_the_source_s_own(source, sofar, name, n);
                lemma_room_stays(sofar, name, n);
            } else {
                lemma_taken_alone(source, sofar, f.name, name);
            }
        }
        if exists|i: int|
            0 <= i < m && (#[trigger] source.fields[i]).name == name && addressable_field(
                source.fields[i],
            ) {
            let i = choose|i: int|
                0 <= i < m && (#[trigger] source.fields[i]).name == name && addressable_field(
                    source.fields[i],
                );
            if i < before {
                assert(0 <= i < before && source.fields[i].name == name);
            }
        }
    }
}

/// Each number that a source has under a name arrives under that name where the target has
/// room for it.
pub proof fn every_number_of_the_source_is_taken(
    source: StructView,
    target: StructView,
    i: int,
    n: i64,
)
    requires
        0 <= i < source.fields.len(),
        addressable_field(source.fields[i]),
        int_named(source, source.fields[i].name) == Some(n as int),
        has_room_for(target, source.fields[i].name, n),
    ensures
        int_named(
            fields_taken(source, target, source.fields.len()),
            source.fields[i].name,
        ) == Some(n as int),
{
    let name = source.fields[i].name;
    assert(source.fields[i].name == name && addressable_field(source.fields[i]));
    lemma_taken_so_far(source, target, source.fields.len(), name, n);
}

/// What no field of the source is called stays as it was.
pub proof fn what_the_source_does_not_name_stays(
    source: StructView,
    target: StructView,
    m: nat,
    other: Seq<char>,
)
    requires
        m <= source.fields.len(),
        forall|i: int| 0 <= i < m ==> (#[trigger] source.fields[i]).name != other,
    ensures
        field_answering(fields_taken(source, target, m), other) == field_answering(target, other),
    decreases m,
{
    if m > 0 {
        what_the_source_does_not_name_stays(source, target, (m - 1) as nat, other);
        assert(source.fields[m - 1].name != other);
        if addressable_field(source.fields[m - 1]) {
            lemma_taken_alone(
                source,
                fields_taken(source, target, (m - 1) as nat),
                source.fields[m - 1].name,
                other,
            );
        }
    }
}

/// The pixels of a bitmap stand in `processed pixel data`.
pub proof fn data_that_was_set_reads_back(s: StructView, name: Seq<char>, data: Seq<u8>)
    requires
        field_answering(s, name) matches Some(f) && f.field_type == TagFieldType::Data,
    ensures
        value_named(data_set(s, name, data), name) == Some(
            FieldValue::Bytes { kind: TagFieldType::Data, bytes: data },
        ),
        forall|other: Seq<char>|
            other != name ==> #[trigger] field_answering(data_set(s, name, data), other)
                == field_answering(s, other),
{
    let k = place_named(s, name)->0;
    let f = s.fields[k as int].offered(FieldValue::Bytes { kind: TagFieldType::Data, bytes: data });
    lemma_field_replaced(s, name, k, f, name);
    assert forall|other: Seq<char>| other != name implies #[trigger] field_answering(
        data_set(s, name, data),
        other,
    ) == field_answering(s, other) by {
        lemma_field_replaced(s, name, k, f, other);
    }
}

/// A block that was emptied has no elements, and nothing else changes.
pub proof fn an_emptied_block_has_no_elements(s: StructView, name: Seq<char>)
    ensures
        elements_named(block_emptied(s, name), name).len() == 0,
        forall|other: Seq<char>|
            other != name ==> #[trigger] field_answering(block_emptied(s, name), other)
                == field_answering(s, other),
{
    if let Some(k) = place_named(s, name) {
        if let ContentView::Block(b) = s.fields[k as int].content {
            let f = FieldView { content: ContentView::Block(b.cleared()), ..s.fields[k as int] };
            lemma_field_replaced(s, name, k, f, name);
            assert forall|other: Seq<char>| other != name implies #[trigger] field_answering(
                block_emptied(s, name),
                other,
            ) == field_answering(s, other) by {
                lemma_field_replaced(s, name, k, f, other);
            }
        }
    }
}

}
