//! What is taken out of a target: flags, blocks and bytes of the other side.
use crate::convert::carrying::resource_named;
use crate::convert::pixels::{
    ImageView, block_emptied, console_flags, console_storage_dropped, data_set, format_from,
    image_pixels, in_console_shape, payloads_unhydrated, unfilled,
};
use crate::convert::setting::{
    bit_cleared, clearing_a_bit_leaves_the_others, cut_to, flags_cleared, flags_dropped,
    without_flags,
};
use crate::convert::settling::{flag_position, unprocessed};
use crate::convert::turning::{own_turned, words_turned};
use crate::fields::{FieldValue, TagFieldType, bit_set, flag_word};
use crate::laws::images::{an_emptied_block_has_no_elements, data_that_was_set_reads_back};
use crate::laws::lookup::lemma_field_replaced;
use crate::reads::{
    elements_named, field_answering, option_named, place_named, struct_named, value_named,
};
use crate::tag::{ContentView, StructView};
use vstd::prelude::*;

verus! {

// ---------------------------------------------------------------------------
// Flags
// ---------------------------------------------------------------------------
/// Clearing unwanted flags clears the bits of those names, and no others.
pub proof fn unwanted_flags_are_cleared_and_no_others(
    word: u32,
    names: Seq<(u32, Seq<char>)>,
    unwanted: Seq<Seq<char>>,
    n: nat,
    bit: u32,
)
    requires
        n <= names.len(),
    ensures
        bit_set(flags_cleared(word, names, unwanted, n), bit) <==> bit_set(word, bit) && !exists|
            i: int,
        |
            0 <= i < n && (#[trigger] names[i]).0 == bit && unwanted.contains(names[i].1),
    decreases n,
{
    if n > 0 {
        let m = (n - 1) as nat;
        unwanted_flags_are_cleared_and_no_others(word, names, unwanted, m, bit);
        let rest = flags_cleared(word, names, unwanted, m);
        if unwanted.contains(names[n - 1].1) {
            clearing_a_bit_leaves_the_others(rest, names[n - 1].0, bit);
        }
        if exists|i: int|
            0 <= i < m && (#[trigger] names[i]).0 == bit && unwanted.contains(names[i].1) {
            let i = choose|i: int|
                0 <= i < m && (#[trigger] names[i]).0 == bit && unwanted.contains(names[i].1);
            assert(0 <= i < n && names[i].0 == bit);
        }
        if names[n - 1].0 == bit && unwanted.contains(names[n - 1].1) {
            assert(0 <= n - 1 < n);
        }
    }
}

proof fn lemma_long_word(w: u32)
    ensures
        flag_word(cut_to(TagFieldType::LongFlags, w as i64)) == w,
{
    assert(((w as i64) as i32) < 0 ==> ((w as i64) as i32) + 0x1_0000_0000 == w) by (bit_vector);
    assert(((w as i64) as i32) >= 0 ==> ((w as i64) as i32) == w) by (bit_vector);
}

/// A flag of thirty-two reads as clear after it was dropped, and every other reads as it
/// did.
pub proof fn a_dropped_flag_reads_as_clear(
    value: int,
    names: Seq<(u32, Seq<char>)>,
    unwanted: Seq<Seq<char>>,
    bit: u32,
)
    ensures
        ({
            let v = FieldValue::Flags { kind: TagFieldType::LongFlags, value, names };
            let dropped = exists|i: int|
                0 <= i < names.len() && (#[trigger] names[i]).0 == bit && unwanted.contains(
                    names[i].1,
                );
            &&& without_flags(v, unwanted) matches Some(w)
            &&& w matches FieldValue::Flags { kind, value: x, names: same }
            &&& kind == TagFieldType::LongFlags
            &&& same == names
            &&& bit_set(flag_word(x), bit) == (bit_set(flag_word(value), bit) && !dropped)
        }),
{
    unwanted_flags_are_cleared_and_no_others(
        flag_word(value),
        names,
        unwanted,
        names.len(),
        bit,
    );
    lemma_long_word(flags_cleared(flag_word(value), names, unwanted, names.len()));
}

proof fn lemma_flag_position(names: Seq<(u32, Seq<char>)>, name: Seq<char>, from: nat, p: nat)
    requires
        from <= p < names.len(),
        names[p as int].1 == name,
        forall|j: int| from <= j < p ==> (#[trigger] names[j]).1 != name,
    ensures
        flag_position(names, name, from) == Some(p),
    decreases p - from,
{
    if from < p {
        assert(names[from as int].1 != name);
        lemma_flag_position(names, name, from + 1, p);
    }
}

/// A geometry that was settled no longer says that it is processed; its other flags say
/// what they said.
pub proof fn a_settled_geometry_is_not_processed(
    value: int,
    names: Seq<(u32, Seq<char>)>,
    p: nat,
    bit: u32,
)
    requires
        p < names.len(),
        names[p as int].1 == "processed"@,
        forall|j: int| 0 <= j < p ==> (#[trigger] names[j]).1 != "processed"@,
    ensures
        ({
            let v = FieldValue::Flags { kind: TagFieldType::LongFlags, value, names };
            &&& unprocessed(v) matches Some(w)
            &&& w matches FieldValue::Flags { kind, value: x, names: same }
            &&& kind == TagFieldType::LongFlags
            &&& same == names
            &&& bit_set(flag_word(x), bit) == (bit_set(flag_word(value), bit) && bit
                != names[p as int].0)
        }),
{
    lemma_flag_position(names, "processed"@, 0, p);
    clearing_a_bit_leaves_the_others(flag_word(value), names[p as int].0, bit);
    lemma_long_word(bit_cleared(flag_word(value), names[p as int].0));
}

/// The flags that an image loses are those by which the console laid it out.
pub proof fn an_image_is_no_longer_laid_out_for_the_console(
    value: int,
    names: Seq<(u32, Seq<char>)>,
    i: int,
)
    requires
        0 <= i < names.len(),
        forall|j: int| 0 <= j < names.len() && j != i ==> (#[trigger] names[j]).0 != names[i].0,
    ensures
        ({
            let v = FieldValue::Flags { kind: TagFieldType::LongFlags, value, names };
            let laid_out = names[i].1 == "xbox360 tiled texture"@ || names[i].1
                == "xbox360 pitch (memory spacing)"@;
            &&& without_flags(v, console_flags()) matches Some(w)
            &&& w matches FieldValue::Flags { value: x, .. }
            &&& bit_set(flag_word(x), names[i].0) == (bit_set(flag_word(value), names[i].0)
                && !laid_out)
        }),
{
    a_dropped_flag_reads_as_clear(value, names, console_flags(), names[i].0);
    let all = console_flags();
    assert(all[0] == "xbox360 tiled texture"@ && all[1] == "xbox360 pitch (memory spacing)"@);
    assert(all.contains(all[0]) && all.contains(all[1]));
    assert(all.contains(names[i].1) ==> names[i].1 == all[0] || names[i].1 == all[1]);
    if exists|j: int|
        0 <= j < names.len() && (#[trigger] names[j]).0 == names[i].0 && all.contains(
            names[j].1,
        ) {
        let j = choose|j: int|
            0 <= j < names.len() && (#[trigger] names[j]).0 == names[i].0 && all.contains(
                names[j].1,
            );
        assert(j == i);
    }
    if all.contains(names[i].1) {
        assert(0 <= i < names.len() && names[i].0 == names[i].0);
    }
}

/// Dropping flags touches the field they stand in alone.
pub proof fn dropping_flags_touches_their_field_alone(
    s: StructView,
    name: Seq<char>,
    unwanted: Seq<Seq<char>>,
    other: Seq<char>,
)
    requires
        other != name,
    ensures
        field_answering(flags_dropped(s, name, unwanted), other) == field_answering(s, other),
{
    if let Some(k) = place_named(s, name) {
        if let Some(v) = s.fields[k as int].value() {
            if let Some(w) = without_flags(v, unwanted) {
                lemma_field_replaced(s, name, k, s.fields[k as int].offered(w), other);
            }
        }
    }
}

// ---------------------------------------------------------------------------
// Pixels of the console
// ---------------------------------------------------------------------------
proof fn lemma_storage_names()
    ensures
        "hardware textures"@ != "xenon bitmaps"@,
        "hardware textures"@ != "interleaved hardware textures"@,
        "hardware textures"@ != "xenon processed pixel data"@,
        "hardware textures"@ != "Flags"@,
        "xenon bitmaps"@ != "interleaved hardware textures"@,
        "xenon bitmaps"@ != "xenon processed pixel data"@,
        "xenon bitmaps"@ != "Flags"@,
        "interleaved hardware textures"@ != "xenon processed pixel data"@,
        "interleaved hardware textures"@ != "Flags"@,
        "xenon processed pixel data"@ != "Flags"@,
{
    reveal_strlit("hardware textures");
    reveal_strlit("xenon bitmaps");
    reveal_strlit("interleaved hardware textures");
    reveal_strlit("xenon processed pixel data");
    reveal_strlit("Flags");
    assert("hardware textures"@.len() == 17);
    assert("xenon bitmaps"@.len() == 13);
    assert("interleaved hardware textures"@.len() == 29);
    assert("xenon processed pixel data"@.len() == 26);
    assert("Flags"@.len() == 5);
}

proof fn lemma_data_set_alone(s: StructView, name: Seq<char>, data: Seq<u8>, other: Seq<char>)
    requires
        other != name,
    ensures
        field_answering(data_set(s, name, data), other) == field_answering(s, other),
{
    if let Some(k) = place_named(s, name) {
        let f = s.fields[k as int].offered(
            FieldValue::Bytes { kind: TagFieldType::Data, bytes: data },
        );
        lemma_field_replaced(s, name, k, f, other);
    }
}

/// A bitmap whose pixels were moved keeps none of what the console read them from: its
/// textures, its mirror and its interleaved textures are empty. What has another name is
/// as it was.
pub proof fn nothing_of_the_console_storage_is_left(s: StructView, other: Seq<char>)
    ensures
        ({
            let after = console_storage_dropped(s);
            &&& elements_named(after, "hardware textures"@).len() == 0
            &&& elements_named(after, "xenon bitmaps"@).len() == 0
            &&& elements_named(after, "interleaved hardware textures"@).len() == 0
            &&& field_answering(s, "xenon processed pixel data"@) matches Some(f) ==> (f.field_type
                == TagFieldType::Data ==> value_named(after, "xenon processed pixel data"@) == Some(
                FieldValue::Bytes { kind: TagFieldType::Data, bytes: Seq::empty() },
            ))
            &&& other != "hardware textures"@ && other != "xenon bitmaps"@ && other
                != "interleaved hardware textures"@ && other != "xenon processed pixel data"@
                && other != "Flags"@ ==> field_answering(after, other) == field_answering(s, other)
        }),
{
    lemma_storage_names();
    let textures = "hardware textures"@;
    let mirror = "xenon bitmaps"@;
    let interleaved = "interleaved hardware textures"@;
    let data = "xenon processed pixel data"@;
    let unwanted = seq!["using tag_interop and tag_resource"@];
    let s1 = block_emptied(s, textures);
    let s2 = block_emptied(s1, mirror);
    let s3 = block_emptied(s2, interleaved);
    let s4 = data_set(s3, data, Seq::empty());
    an_emptied_block_has_no_elements(s, textures);
    an_emptied_block_has_no_elements(s1, mirror);
    an_emptied_block_has_no_elements(s2, interleaved);
    assert(field_answering(s3, textures) == field_answering(s1, textures));
    assert(field_answering(s3, mirror) == field_answering(s2, mirror));
    assert(field_answering(s3, data) == field_answering(s, data));
    lemma_data_set_alone(s3, data, Seq::empty(), textures);
    lemma_data_set_alone(s3, data, Seq::empty(), mirror);
    lemma_data_set_alone(s3, data, Seq::empty(), interleaved);
    dropping_flags_touches_their_field_alone(s4, "Flags"@, unwanted, textures);
    dropping_flags_touches_their_field_alone(s4, "Flags"@, unwanted, mirror);
    dropping_flags_touches_their_field_alone(s4, "Flags"@, unwanted, interleaved);
    dropping_flags_touches_their_field_alone(s4, "Flags"@, unwanted, data);
    assert(console_storage_dropped(s) == flags_dropped(s4, "Flags"@, unwanted));
    if let Some(f) = field_answering(s, data) {
        if f.field_type == TagFieldType::Data {
            data_that_was_set_reads_back(s3, data, Seq::empty());
        }
    }
    if other != textures && other != mirror && other != interleaved && other != data && other
        != "Flags"@ {
        lemma_data_set_alone(s3, data, Seq::empty(), other);
        dropping_flags_touches_their_field_alone(s4, "Flags"@, unwanted, other);
        assert(field_answering(s3, other) == field_answering(s, other));
    }
}

/// A bitmap whose pixels wait in its textures alone is one of the console, and one texture
/// that is filled is enough for its pixels to be there.
pub proof fn pixels_wait_in_the_textures(root: StructView, i: int)
    ensures
        in_console_shape(root) ==> elements_named(root, "hardware textures"@).len() > 0,
        value_named(root, "processed pixel data"@) matches Some(
            FieldValue::Bytes { kind: TagFieldType::Data, bytes },
        ) ==> (bytes.len() > 0 ==> !in_console_shape(root)),
        0 <= i < elements_named(root, "hardware textures"@).len() ==> (resource_named(
            elements_named(root, "hardware textures"@)[i],
            "texture resource"@,
        ) matches Some(r) ==> (!(r.content is Xsync) ==> !payloads_unhydrated(root))),
{
    if 0 <= i < elements_named(root, "hardware textures"@).len() {
        let texture = elements_named(root, "hardware textures"@)[i];
        if payloads_unhydrated(root) {
            assert(unfilled(texture));
        }
    }
}

/// The pixels of an image are taken as they are where they have the wanted format or none
/// is asked for, and else as they were packed anew.
pub proof fn pixels_come_in_the_wanted_format(image: ImageView, wanted: Option<Seq<char>>)
    ensures
        image.pixels is Err ==> image_pixels(image, wanted) is Err,
        image.pixels matches Ok(pixels) ==> (wanted is None || wanted == image.format
            ==> image_pixels(image, wanted) == Ok::<Seq<u8>, Seq<char>>(pixels)),
        image.pixels is Ok && wanted is Some && image.format is Some && wanted != image.format
            && image.transcoded is Ok ==> image_pixels(image, wanted) == Ok::<Seq<u8>, Seq<char>>(
            image.transcoded->Ok_0,
        ),
        image.pixels is Ok && wanted is Some && wanted != image.format && (image.format is None
            || image.transcoded is Err) ==> image_pixels(image, wanted) is Err,
{
}

/// The format that a name stands for is the first that is given for it.
pub proof fn the_first_format_of_a_name_counts(
    table: Seq<(Seq<char>, Seq<char>)>,
    name: Seq<char>,
    from: nat,
    k: nat,
)
    requires
        from <= k <= table.len(),
        forall|j: int| from <= j < k ==> (#[trigger] table[j]).0 != name,
    ensures
        k < table.len() && table[k as int].0 == name ==> format_from(table, name, from) == Some(
            table[k as int].1,
        ),
        k == table.len() ==> format_from(table, name, from) is None,
    decreases k - from,
{
    if from < k {
        assert(table[from as int].0 != name);
        the_first_format_of_a_name_counts(table, name, from + 1, k);
    }
}

// ---------------------------------------------------------------------------
// Words in a blob
// ---------------------------------------------------------------------------
/// The words of a blob are turned where its header says that it holds such words, and
/// nothing is turned elsewhere.
pub proof fn words_are_turned_where_the_header_says_so(
    s: StructView,
    header: StructView,
    bytes: Seq<u8>,
)
    requires
        struct_named(s, "user data header"@) == Some(header),
        field_answering(s, "user data"@) matches Some(f) && f.field_type == TagFieldType::Data
            && f.content == ContentView::Value(
            FieldValue::Bytes { kind: TagFieldType::Data, bytes },
        ),
    ensures
        option_named(header, "data type"@) == Some("PRT Info"@) && bytes.len() % 4 == 0
            ==> value_named(own_turned(s), "user data"@) == Some(
            FieldValue::Bytes { kind: TagFieldType::Data, bytes: words_turned(bytes) },
        ),
        option_named(header, "data type"@) != Some("PRT Info"@) || bytes.len() % 4 != 0
            ==> own_turned(s) == s,
{
    let k = place_named(s, "user data"@)->0;
    let f = s.fields[k as int].offered(
        FieldValue::Bytes { kind: TagFieldType::Data, bytes: words_turned(bytes) },
    );
    lemma_field_replaced(s, "user data"@, k, f, "user data"@);
}

}
