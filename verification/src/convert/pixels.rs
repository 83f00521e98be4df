//! Bitmaps of the older console: their pixels, moved into the one blob in which
//! the target keeps them.
use crate::bytes::push_range;
use crate::convert::carrying::{find_resource, resource_named};
use crate::convert::forgiving::{
    ForgivenMessage, MessageView, ResourceScope, ScopeView, forgive_resources, forgiven,
};
use crate::convert::report::{ContextView, ConversionContext, record_unsupported};
use crate::convert::schema::pair_views;
use crate::convert::setting::{
    clear_flags_by_name, copy_fields_by_name, fields_taken, flags_dropped, int_set,
    lemma_place_kept, set_int_field,
};
use crate::data::no_bytes;
use crate::fields::{FieldValue, TagFieldData, TagFieldType, copy_bytes, text_option};
use crate::file::{FileView, TagFile};
use crate::keys::{element_path, path_of_element};
use crate::layout::{LayoutView, TagLayout};
use crate::reads::{
    block_of, elements_named, field_answering, find_field, option_named, place_named,
    place_of_field, read_enum_name,
};
use crate::tag::{BlockView, ContentView, StructView, TagBlock, TagStruct};
use crate::text::{
    concat2, concat3, concat4, concat5, copy, decimal, decimal_text, lemma_texts_push, no_texts,
    same, texts,
};
use vstd::prelude::*;

verus! {

/// The group of bitmaps, `bitm`.
pub const BITMAP_GROUP: u32 = 0x6269_746d;

/// An image as it was read out of the console's texture.
#[derive(Debug, PartialEq, Eq)]
pub struct DetiledImage {
    /// Every level and layer, or why they could not be detiled.
    pub pixels: Result<Vec<u8>, String>,
    pub layer_count: usize,
    /// The name of the image's type.
    pub kind: Option<String>,
    /// The name of the format in which the console stored it.
    pub format: Option<String>,
    pub mipmap_levels: u32,
    /// The pixels in the format that the target asks for, or why they could not be
    /// produced. Only looked at where that is another.
    pub transcoded: Result<Vec<u8>, String>,
}

pub ghost struct ImageView {
    pub pixels: Result<Seq<u8>, Seq<char>>,
    pub layer_count: usize,
    pub kind: Option<Seq<char>>,
    pub format: Option<Seq<char>>,
    pub mipmap_levels: u32,
    pub transcoded: Result<Seq<u8>, Seq<char>>,
}

pub open spec fn outcome_view(r: Result<Vec<u8>, String>) -> Result<Seq<u8>, Seq<char>> {
    match r {
        Ok(bytes) => Ok(bytes@),
        Err(why) => Err(why@),
    }
}

impl DetiledImage {
    pub open spec fn view(&self) -> ImageView {
        ImageView {
            pixels: outcome_view(self.pixels),
            layer_count: self.layer_count,
            kind: text_option(self.kind),
            format: text_option(self.format),
            mipmap_levels: self.mipmap_levels,
            transcoded: outcome_view(self.transcoded),
        }
    }
}

/// The images of a bitmap; one can be missing.
pub open spec fn image_views(v: Seq<Option<DetiledImage>>) -> Seq<Option<ImageView>> {
    Seq::new(
        v.len(),
        |i: int|
            match v[i] {
                Some(image) => Some(image@),
                None => None,
            },
    )
}

// ---------------------------------------------------------------------------
// What there is to move
// ---------------------------------------------------------------------------
/// Whether a bitmap keeps its pixels in the one blob.
pub open spec fn has_pc_pixels(root: StructView) -> bool {
    match field_answering(root, "processed pixel data"@) {
        Some(f) => f.content matches ContentView::Value(
            FieldValue::Bytes { kind: TagFieldType::Data, bytes },
        ) && bytes.len() > 0,
        None => false,
    }
}

/// Whether a bitmap keeps its pixels in textures of the console.
pub open spec fn in_console_shape(root: StructView) -> bool {
    !has_pc_pixels(root) && elements_named(root, "hardware textures"@).len() > 0
}

/// Whether a texture's resource, where it has one, was never filled.
pub open spec fn unfilled(texture: StructView) -> bool {
    match resource_named(texture, "texture resource"@) {
        Some(r) => r.content is Xsync,
        None => true,
    }
}

/// Whether none of a bitmap's textures was ever filled: the console's cache holds
/// only what was paged in.
pub open spec fn payloads_unhydrated(root: StructView) -> bool {
    let textures = elements_named(root, "hardware textures"@);
    textures.len() > 0 && forall|i: int| 0 <= i < textures.len() ==> unfilled(#[trigger] textures[i])
}

/// Whether none of a bitmap's textures was ever filled.
pub fn x360_payloads_are_unhydrated(root: &TagStruct) -> (r: bool)
    ensures
        r == payloads_unhydrated(root@),
{
    let textures: &TagBlock = match block_of(root, "hardware textures") {
        Some(textures) => textures,
        None => {
            return false;
        },
    };
    let n: usize = textures.len();
    if n == 0 {
        return false;
    }
    let mut i: usize = 0;
    while i < n
        invariant
            i <= n,
            n == textures@.elements.len(),
            n > 0,
            textures@.elements == elements_named(root@, "hardware textures"@),
            forall|j: int| 0 <= j < i ==> unfilled(#[trigger] textures@.elements[j]),
        decreases n - i,
    {
        let filled: bool = match find_resource(textures.at(i), "texture resource") {
            Some(resource) => !resource.is_xsync(),
            None => false,
        };
        if filled {
            assert(!unfilled(textures@.elements[i as int]));
            return false;
        }
        i = i + 1;
    }
    true
}

// ---------------------------------------------------------------------------
// Images described only for the console
// ---------------------------------------------------------------------------
/// The flags that say how the console stored an image.
pub open spec fn console_flags() -> Seq<Seq<char>> {
    seq!["xbox360 tiled texture"@, "xbox360 pitch (memory spacing)"@]
}

/// An image described as the mirror describes it, without what is true of the
/// console alone.
pub open spec fn described_image(mirror: StructView, image: StructView) -> StructView {
    int_set(
        int_set(
            flags_dropped(
                fields_taken(mirror, image, mirror.fields.len()),
                "more flags"@,
                console_flags(),
            ),
            "four times log2 size"@,
            0,
        ),
        "hardware format"@,
        0,
    )
}

/// The images with the first `n` of the mirror's behind them.
pub open spec fn images_described(
    layout: LayoutView,
    images: BlockView,
    mirror: Seq<StructView>,
    n: nat,
) -> BlockView
    decreases n,
{
    if n == 0 || n > mirror.len() {
        images
    } else {
        let sofar = images_described(layout, images, mirror, (n - 1) as nat);
        let more = sofar.grown(layout);
        if more.elements.len() > sofar.elements.len() {
            BlockView {
                elements: more.elements.update(
                    sofar.elements.len() as int,
                    described_image(mirror[n - 1], more.elements[sofar.elements.len() as int]),
                ),
                ..more
            }
        } else {
            more
        }
    }
}

/// A bitmap's root with the images that only the mirror describes.
pub open spec fn described_from_mirror(
    layout: LayoutView,
    source: StructView,
    root: StructView,
) -> StructView {
    let mirror = elements_named(source, "xenon bitmaps"@);
    match place_named(root, "bitmaps"@) {
        Some(k) => match root.fields[k as int].content {
            ContentView::Block(images) => if mirror.len() > 0 && images.elements.len() == 0 {
                root.with_block(k as int, images_described(layout, images, mirror, mirror.len()))
            } else {
                root
            },
            _ => root,
        },
        None => root,
    }
}

fn console_flag_names() -> (r: Vec<String>)
    ensures
        texts(r@) == console_flags(),
{
    let mut r: Vec<String> = no_texts();
    let first: String = copy("xbox360 tiled texture");
    proof {
        lemma_texts_push(r@, first);
    }
    r.push(first);
    let second: String = copy("xbox360 pitch (memory spacing)");
    proof {
        lemma_texts_push(r@, second);
    }
    r.push(second);
    assert(texts(r@) =~= console_flags());
    r
}

fn describe_image(mirror: &TagStruct, image: &mut TagStruct)
    ensures
        final(image)@ == described_image(mirror@, old(image)@),
{
    copy_fields_by_name(mirror, image);
    clear_flags_by_name(image, "more flags", &console_flag_names());
    set_int_field(image, "four times log2 size", 0);
    set_int_field(image, "hardware format", 0);
}

fn describe_images(layout: &TagLayout, mirror: &TagBlock, images: &mut TagBlock) -> (r: usize)
    ensures
        final(images)@ == images_described(
            layout@,
            old(images)@,
            mirror@.elements,
            mirror@.elements.len(),
        ),
        r == final(images)@.elements.len() - old(images)@.elements.len(),
{
    let n: usize = mirror.len();
    let mut written: usize = 0;
    let mut i: usize = 0;
    while i < n
        invariant
            i <= n,
            n == mirror@.elements.len(),
            written <= i,
            images@ == images_described(layout@, old(images)@, mirror@.elements, i as nat),
            written == images@.elements.len() - old(images)@.elements.len(),
        decreases n - i,
    {
        let ghost before = images@;
        let at: usize = images.add_element(layout);
        if at < images.len() {
            describe_image(mirror.at(i), images.at_mut(at));
            assert(images@.elements =~= images_described(
                layout@,
                old(images)@,
                mirror@.elements,
                i as nat + 1,
            ).elements);
            written = written + 1;
        }
        i = i + 1;
    }
    written
}

/// Gives a bitmap that is described only for the console the images that the
/// target needs; how many they are.
pub fn describe_images_from_mirror(layout: &TagLayout, source: &TagStruct, target: &mut TagStruct) -> (r:
    usize)
    ensures
        final(target)@ == described_from_mirror(layout@, source@, old(target)@),
        r == elements_named(final(target)@, "bitmaps"@).len() - elements_named(
            old(target)@,
            "bitmaps"@,
        ).len(),
{
    let mirror: &TagBlock = match block_of(source, "xenon bitmaps") {
        Some(mirror) => mirror,
        None => {
            return 0;
        },
    };
    if mirror.len() == 0 {
        return 0;
    }
    let k: usize = match place_of_field(target, "bitmaps") {
        Some(k) => k,
        None => {
            return 0;
        },
    };
    match target.at(k).as_block() {
        Some(images) => {
            if images.len() > 0 {
                return 0;
            }
        },
        None => {
            return 0;
        },
    }
    let ghost before = target@;
    let mut written: usize = 0;
    match target.at_mut(k).as_block_mut() {
        Some(images) => {
            written = describe_images(layout, mirror, images);
        },
        None => {},
    }
    assert(target@.fields =~= described_from_mirror(layout@, source@, before).fields);
    proof {
        lemma_place_kept(before.fields, target@.fields, "bitmaps"@, 0);
    }
    written
}

// ---------------------------------------------------------------------------
// The blob
// ---------------------------------------------------------------------------
/// The format with the name `name`, from `i` on in a table of names.
pub open spec fn format_from(table: Seq<(Seq<char>, Seq<char>)>, name: Seq<char>, i: nat) -> Option<
    Seq<char>,
>
    decreases table.len() - i,
{
    if i >= table.len() {
        None
    } else if table[i as int].0 == name {
        Some(table[i as int].1)
    } else {
        format_from(table, name, i + 1)
    }
}

/// The format that the target says the image `index` has.
pub open spec fn target_format(
    root: StructView,
    formats: Seq<(Seq<char>, Seq<char>)>,
    index: nat,
) -> Option<Seq<char>> {
    let images = elements_named(root, "bitmaps"@);
    if index < images.len() {
        match option_named(images[index as int], "format"@) {
            Some(name) => format_from(formats, name, 0),
            None => None,
        }
    } else {
        None
    }
}

/// What is said of an image that could not be detiled.
pub open spec fn detiling_text(image: ImageView, why: Seq<char>) -> Seq<char> {
    if image.layer_count > 1 {
        "The "@ + decimal(image.layer_count as nat) + "-layer Xbox 360 "@ + (match image.kind {
            Some(kind) => kind,
            None => "image"@,
        }) + " could not be detiled: "@ + why
    } else {
        "The Xbox 360 image could not be detiled: "@ + why
    }
}

/// The pixels of an image as the target wants them, or why they are not to be had.
pub open spec fn image_pixels(image: ImageView, wanted: Option<Seq<char>>) -> Result<
    Seq<u8>,
    Seq<char>,
> {
    match image.pixels {
        Err(why) => Err(detiling_text(image, why)),
        Ok(pixels) => if wanted is None || wanted == image.format {
            Ok(pixels)
        } else {
            match image.format {
                None => Err("The Xbox 360 image's format could not be resolved"@),
                Some(format) => match image.transcoded {
                    Ok(packed) => Ok(packed),
                    Err(why) => Err(
                        "The Xbox 360 image is "@ + format + " and the target asks for "@ + wanted->0
                            + ", which could not be produced: "@ + why,
                    ),
                },
            }
        },
    }
}

/// The images in one blob: where each begins, how long it is, and how many levels
/// it has beyond the first.
pub ghost struct BlobView {
    pub bytes: Seq<u8>,
    pub slices: Seq<(int, int)>,
    pub levels: Seq<int>,
}

/// The first `n` images in one blob, or the first that cannot be had and why.
pub open spec fn blob_of(
    images: Seq<Option<ImageView>>,
    root: StructView,
    formats: Seq<(Seq<char>, Seq<char>)>,
    n: nat,
) -> Result<BlobView, (nat, Seq<char>)>
    decreases n,
{
    if n == 0 || n > images.len() {
        Ok(BlobView { bytes: Seq::empty(), slices: Seq::empty(), levels: Seq::empty() })
    } else {
        match blob_of(images, root, formats, (n - 1) as nat) {
            Err(e) => Err(e),
            Ok(sofar) => match images[n - 1] {
                None => Err(((n - 1) as nat, "The Xbox 360 image is missing from the tag"@)),
                Some(image) => match image_pixels(
                    image,
                    target_format(root, formats, (n - 1) as nat),
                ) {
                    Err(why) => Err(((n - 1) as nat, why)),
                    Ok(pixels) => Ok(
                        BlobView {
                            bytes: sofar.bytes + pixels,
                            slices: sofar.slices.push(
                                (sofar.bytes.len() as int, pixels.len() as int),
                            ),
                            levels: sofar.levels.push(
                                if image.mipmap_levels > 0 {
                                    image.mipmap_levels - 1
                                } else {
                                    0
                                },
                            ),
                        },
                    ),
                },
            },
        }
    }
}

proof fn lemma_blob_lengths(
    images: Seq<Option<ImageView>>,
    root: StructView,
    formats: Seq<(Seq<char>, Seq<char>)>,
    n: nat,
)
    requires
        n <= images.len(),
    ensures
        blob_of(images, root, formats, n) matches Ok(b) ==> b.slices.len() == n && b.levels.len()
            == n,
    decreases n,
{
    if n > 0 {
        lemma_blob_lengths(images, root, formats, (n - 1) as nat);
    }
}

proof fn lemma_blob_fault_stays(
    images: Seq<Option<ImageView>>,
    root: StructView,
    formats: Seq<(Seq<char>, Seq<char>)>,
    n: nat,
    m: nat,
)
    requires
        n <= m <= images.len(),
        blob_of(images, root, formats, n) is Err,
    ensures
        blob_of(images, root, formats, m) == blob_of(images, root, formats, n),
    decreases m,
{
    if n < m {
        lemma_blob_fault_stays(images, root, formats, n, (m - 1) as nat);
    }
}

/// The images in one blob.
#[derive(Debug, PartialEq, Eq)]
pub struct PixelBlob {
    pub bytes: Vec<u8>,
    pub slices: Vec<(usize, usize)>,
    pub levels: Vec<u32>,
}

impl PixelBlob {
    pub open spec fn view(&self) -> BlobView {
        BlobView {
            bytes: self.bytes@,
            slices: Seq::new(
                self.slices@.len(),
                |i: int| (self.slices@[i].0 as int, self.slices@[i].1 as int),
            ),
            levels: Seq::new(self.levels@.len(), |i: int| self.levels@[i] as int),
        }
    }
}

fn format_of(table: &Vec<(String, String)>, name: &str) -> (r: Option<String>)
    ensures
        text_option(r) == format_from(pair_views(table@), name@, 0),
{
    let mut i: usize = 0;
    while i < table.len()
        invariant
            i <= table.len(),
            format_from(pair_views(table@), name@, 0) == format_from(
                pair_views(table@),
                name@,
                i as nat,
            ),
        decreases table.len() - i,
    {
        if same(&table[i].0, name) {
            return Some(copy(&table[i].1));
        }
        i = i + 1;
    }
    None
}

fn format_at_target(root: &TagStruct, formats: &Vec<(String, String)>, index: usize) -> (r: Option<
    String,
>)
    ensures
        text_option(r) == target_format(root@, pair_views(formats@), index as nat),
{
    match block_of(root, "bitmaps") {
        Some(images) => if index < images.len() {
            match read_enum_name(images.at(index), "format") {
                Some(name) => format_of(formats, name),
                None => None,
            }
        } else {
            None
        },
        None => None,
    }
}

fn text_of_detiling(image: &DetiledImage, why: &str) -> (r: String)
    ensures
        r@ == detiling_text(image@, why@),
{
    if image.layer_count > 1 {
        let number: String = decimal_text(image.layer_count as u128);
        let kind: &str = match &image.kind {
            Some(kind) => kind.as_str(),
            None => "image",
        };
        let start: String = concat4("The ", &number, "-layer Xbox 360 ", kind);
        concat3(&start, " could not be detiled: ", why)
    } else {
        concat2("The Xbox 360 image could not be detiled: ", why)
    }
}

fn same_format(a: &Option<String>, b: &Option<String>) -> (r: bool)
    ensures
        r == (text_option(*a) == text_option(*b)),
{
    match (a, b) {
        (Some(x), Some(y)) => same(x, y),
        (None, None) => true,
        _ => false,
    }
}

fn pixels_of_image(image: &DetiledImage, wanted: &Option<String>) -> (r: Result<Vec<u8>, String>)
    ensures
        outcome_view(r) == image_pixels(image@, text_option(*wanted)),
{
    let pixels: &Vec<u8> = match &image.pixels {
        Ok(pixels) => pixels,
        Err(why) => {
            return Err(text_of_detiling(image, why));
        },
    };
    if wanted.is_none() || same_format(wanted, &image.format) {
        return Ok(copy_bytes(pixels));
    }
    match (wanted, &image.format) {
        (Some(target), Some(format)) => match &image.transcoded {
            Ok(packed) => Ok(copy_bytes(packed)),
            Err(why) => {
                let start: String = concat4(
                    "The Xbox 360 image is ",
                    format,
                    " and the target asks for ",
                    target,
                );
                Err(concat3(&start, ", which could not be produced: ", why))
            },
        },
        _ => Err(copy("The Xbox 360 image's format could not be resolved")),
    }
}

fn assemble(images: &Vec<Option<DetiledImage>>, root: &TagStruct, formats: &Vec<(String, String)>) -> (r:
    Result<PixelBlob, (usize, String)>)
    ensures
        match r {
            Ok(blob) => blob_of(
                image_views(images@),
                root@,
                pair_views(formats@),
                images@.len(),
            ) == Ok::<BlobView, (nat, Seq<char>)>(blob@),
            Err((index, why)) => blob_of(
                image_views(images@),
                root@,
                pair_views(formats@),
                images@.len(),
            ) == Err::<BlobView, (nat, Seq<char>)>((index as nat, why@)),
        },
{
    let ghost all = image_views(images@);
    let ghost names = pair_views(formats@);
    let mut blob: PixelBlob = PixelBlob {
        bytes: no_bytes(),
        slices: Vec::new(),
        levels: Vec::new(),
    };
    assert(blob@.slices =~= Seq::<(int, int)>::empty());
    assert(blob@.levels =~= Seq::<int>::empty());
    let mut i: usize = 0;
    while i < images.len()
        invariant
            i <= images.len(),
            all == image_views(images@),
            names == pair_views(formats@),
            blob_of(all, root@, names, i as nat) == Ok::<BlobView, (nat, Seq<char>)>(blob@),
        decreases images.len() - i,
    {
        let ghost sofar = blob@;
        let outcome: Result<Vec<u8>, String> = match &images[i] {
            None => Err(copy("The Xbox 360 image is missing from the tag")),
            Some(image) => {
                let wanted: Option<String> = format_at_target(root, formats, i);
                pixels_of_image(image, &wanted)
            },
        };
        match outcome {
            Err(why) => {
                proof {
                    lemma_blob_fault_stays(all, root@, names, i as nat + 1, images@.len());
                }
                return Err((i, why));
            },
            Ok(pixels) => {
                if let Some(image) = &images[i] {
                    let levels: u32 = if image.mipmap_levels > 0 {
                        image.mipmap_levels - 1
                    } else {
                        0
                    };
                    let at: usize = blob.bytes.len();
                    blob.levels.push(levels);
                    blob.slices.push((at, pixels.len()));
                    push_range(&mut blob.bytes, &pixels, 0, pixels.len());
                    assert(blob@.bytes =~= sofar.bytes + pixels@);
                    assert(blob@.slices =~= sofar.slices.push((at as int, pixels@.len() as int)));
                    assert(blob@.levels =~= sofar.levels.push(levels as int));
                }
            },
        }
        i = i + 1;
    }
    Ok(blob)
}

// ---------------------------------------------------------------------------
// Writing the blob
// ---------------------------------------------------------------------------
/// An image that finds its pixels in the blob, without what is true of the
/// console alone.
pub open spec fn image_pointed(e: StructView, offset: int, size: int, levels: int) -> StructView {
    let placed = int_set(
        int_set(
            int_set(e, "pixels offset"@, (offset as i32) as i64),
            "pixels size"@,
            (size as i32) as i64,
        ),
        "mipmap count"@,
        levels as i64,
    );
    int_set(
        int_set(
            int_set(
                int_set(placed, "high res pixels offset offset"@, 0),
                "high res pixels size"@,
                0,
            ),
            "hardware format"@,
            0,
        ),
        "runtime tag base address"@,
        0,
    )
}

/// The images, each pointed at its slice of the blob.
pub open spec fn images_pointed(images: Seq<StructView>, blob: BlobView) -> Seq<StructView> {
    Seq::new(
        images.len(),
        |i: int|
            image_pointed(images[i], blob.slices[i].0, blob.slices[i].1, blob.levels[i]),
    )
}

/// A struct with `data` in its field `name`.
pub open spec fn data_set(s: StructView, name: Seq<char>, data: Seq<u8>) -> StructView {
    match place_named(s, name) {
        Some(k) => s.with_field_at(
            k as int,
            s.fields[k as int].offered(FieldValue::Bytes { kind: TagFieldType::Data, bytes: data }),
        ),
        None => s,
    }
}

/// A struct with the block in its field `name` emptied.
pub open spec fn block_emptied(s: StructView, name: Seq<char>) -> StructView {
    match place_named(s, name) {
        Some(k) => match s.fields[k as int].content {
            ContentView::Block(b) => s.with_block(k as int, b.cleared()),
            _ => s,
        },
        None => s,
    }
}

/// A bitmap's root without what described the console's storage.
pub open spec fn console_storage_dropped(s: StructView) -> StructView {
    flags_dropped(
        data_set(
            block_emptied(
                block_emptied(block_emptied(s, "hardware textures"@), "xenon bitmaps"@),
                "interleaved hardware textures"@,
            ),
            "xenon processed pixel data"@,
            Seq::empty(),
        ),
        "Flags"@,
        seq!["using tag_interop and tag_resource"@],
    )
}

/// A bitmap's root and the context after the blob was written.
pub open spec fn blob_written(
    layout: LayoutView,
    source: StructView,
    root: StructView,
    c: ContextView,
    blob: BlobView,
) -> (StructView, ContextView) {
    let described = described_from_mirror(layout, source, root);
    match place_named(described, "bitmaps"@) {
        None => (
            described,
            c.unsupported(
                "bitmaps"@,
                "The target has no bitmaps block to put the pixels behind"@,
            ),
        ),
        Some(k) => match described.fields[k as int].content {
            ContentView::Block(images) => if images.elements.len() != blob.slices.len() {
                (
                    described,
                    c.unsupported(
                        "bitmaps"@,
                        "The target carries "@ + decimal(images.elements.len())
                            + " image(s) but the source has "@ + decimal(blob.slices.len())
                            + "; the pixels were not written"@,
                    ),
                )
            } else {
                let pointed = described.with_block(
                    k as int,
                    BlockView { elements: images_pointed(images.elements, blob), ..images },
                );
                (
                    console_storage_dropped(
                        data_set(pointed, "processed pixel data"@, blob.bytes),
                    ),
                    forgiven(
                        c,
                        ScopeView::Under("hardware textures"@),
                        MessageView::Around(
                            "The Xbox 360 texture resource was dropped; its pixels were detiled into processed pixel data instead ("@,
                            ")"@,
                        ),
                    ),
                )
            },
            _ => (described, c),
        },
    }
}

/// A bitmap's root and the context after its pixels were moved: all of them, or
/// none.
pub open spec fn pixels_moved(
    layout: LayoutView,
    source: StructView,
    root: StructView,
    c: ContextView,
    images: Result<Seq<Option<ImageView>>, Seq<char>>,
    formats: Seq<(Seq<char>, Seq<char>)>,
) -> (StructView, ContextView) {
    if !in_console_shape(source) {
        (root, c)
    } else if payloads_unhydrated(source) {
        (
            root,
            c.unsupported(
                "hardware textures"@,
                "The Xbox 360 build has no resident pixel data for this bitmap: its texture              resources were never paged into the cache, so there is nothing to carry"@,
            ),
        )
    } else {
        match images {
            Err(why) => (
                root,
                c.unsupported(
                    "processed pixel data"@,
                    "The Xbox 360 pixel data could not be read: "@ + why,
                ),
            ),
            Ok(images) => match blob_of(images, root, formats, images.len()) {
                Err((index, why)) => (
                    root,
                    c.unsupported(element_path("bitmaps"@, index), why),
                ),
                Ok(blob) => if blob.bytes.len() == 0 {
                    (root, c)
                } else {
                    blob_written(layout, source, root, c, blob)
                },
            },
        }
    }
}

fn low_int(n: usize) -> (r: i32)
    ensures
        r == n as i32,
{
    #[verifier::truncate]
    (n as i32)
}

fn point_image(e: &mut TagStruct, offset: usize, size: usize, levels: u32)
    ensures
        final(e)@ == image_pointed(old(e)@, offset as int, size as int, levels as int),
{
    set_int_field(e, "pixels offset", low_int(offset) as i64);
    set_int_field(e, "pixels size", low_int(size) as i64);
    set_int_field(e, "mipmap count", levels as i64);
    set_int_field(e, "high res pixels offset offset", 0);
    set_int_field(e, "high res pixels size", 0);
    set_int_field(e, "hardware format", 0);
    set_int_field(e, "runtime tag base address", 0);
}

fn point_images(images: &mut TagBlock, blob: &PixelBlob)
    requires
        old(images)@.elements.len() == blob@.slices.len(),
        blob@.levels.len() == blob@.slices.len(),
    ensures
        final(images)@ == (BlockView {
            elements: images_pointed(old(images)@.elements, blob@),
            ..old(images)@
        }),
{
    let ghost start = images@;
    let n: usize = images.len();
    let mut i: usize = 0;
    while i < n
        invariant
            i <= n,
            n == start.elements.len(),
            n == blob@.slices.len(),
            n == blob@.levels.len(),
            start == old(images)@,
            images@ == (BlockView { elements: images@.elements, ..start }),
            images@.elements.len() == n,
            forall|j: int|
                0 <= j < i ==> images@.elements[j] == images_pointed(start.elements, blob@)[j],
            forall|j: int| i <= j < n ==> images@.elements[j] == start.elements[j],
        decreases n - i,
    {
        let slice: (usize, usize) = blob.slices[i];
        point_image(images.at_mut(i), slice.0, slice.1, blob.levels[i]);
        i = i + 1;
    }
    assert(images@.elements =~= images_pointed(start.elements, blob@));
}

fn set_data(s: &mut TagStruct, name: &str, data: Vec<u8>)
    ensures
        final(s)@ == data_set(old(s)@, name@, data@),
{
    let ghost before = s@;
    let ghost bytes = data@;
    if let Some(k) = place_of_field(s, name) {
        let _ = s.at_mut(k).set(TagFieldData::Data(data));
        assert(s@.fields =~= data_set(before, name@, bytes).fields);
    }
}

fn empty_block_field(s: &mut TagStruct, name: &str)
    ensures
        final(s)@ == block_emptied(old(s)@, name@),
{
    let ghost before = s@;
    if let Some(k) = place_of_field(s, name) {
        if s.at(k).holds_block() {
            match s.at_mut(k).as_block_mut() {
                Some(b) => b.clear(),
                None => {},
            }
            assert(s@.fields =~= block_emptied(before, name@).fields);
        }
    }
}

fn drop_console_storage(s: &mut TagStruct)
    ensures
        final(s)@ == console_storage_dropped(old(s)@),
{
    empty_block_field(s, "hardware textures");
    empty_block_field(s, "xenon bitmaps");
    empty_block_field(s, "interleaved hardware textures");
    set_data(s, "xenon processed pixel data", no_bytes());
    let mut unwanted: Vec<String> = no_texts();
    let name: String = copy("using tag_interop and tag_resource");
    proof {
        lemma_texts_push(unwanted@, name);
    }
    unwanted.push(name);
    assert(texts(unwanted@) =~= seq!["using tag_interop and tag_resource"@]);
    clear_flags_by_name(s, "Flags", &unwanted);
}

fn write_blob(
    layout: &TagLayout,
    source: &TagStruct,
    root: &mut TagStruct,
    context: &mut ConversionContext,
    blob: PixelBlob,
)
    requires
        blob@.levels.len() == blob@.slices.len(),
    ensures
        (final(root)@, final(context)@) == blob_written(
            layout@,
            source@,
            old(root)@,
            old(context)@,
            blob@,
        ),
{
    let ghost whole = blob@;
    let _ = describe_images_from_mirror(layout, source, root);
    let ghost described = root@;
    let k: usize = match place_of_field(root, "bitmaps") {
        Some(k) => k,
        None => {
            record_unsupported(
                context,
                "bitmaps",
                copy("The target has no bitmaps block to put the pixels behind"),
            );
            return;
        },
    };
    let carried: usize = match root.at(k).as_block() {
        Some(images) => images.len(),
        None => {
            return;
        },
    };
    if carried != blob.slices.len() {
        let first: String = decimal_text(carried as u128);
        let second: String = decimal_text(blob.slices.len() as u128);
        record_unsupported(
            context,
            "bitmaps",
            concat5(
                "The target carries ",
                &first,
                " image(s) but the source has ",
                &second,
                "; the pixels were not written",
            ),
        );
        return;
    }
    match root.at_mut(k).as_block_mut() {
        Some(images) => point_images(images, &blob),
        None => {},
    }
    let ghost images = described.fields[k as int].content->Block_0;
    assert(root@.fields =~= described.with_block(
        k as int,
        BlockView { elements: images_pointed(images.elements, whole), ..images },
    ).fields);
    set_data(root, "processed pixel data", blob.bytes);
    drop_console_storage(root);
    forgive_resources(
        context,
        &ResourceScope::Under(copy("hardware textures")),
        &ForgivenMessage::Around(
            copy(
                "The Xbox 360 texture resource was dropped; its pixels were detiled into processed pixel data instead (",
            ),
            copy(")"),
        ),
    );
}

/// The images of a bitmap, or why they could not be read.
pub open spec fn images_outcome(r: Result<Vec<Option<DetiledImage>>, String>) -> Result<
    Seq<Option<ImageView>>,
    Seq<char>,
> {
    match r {
        Ok(images) => Ok(image_views(images@)),
        Err(why) => Err(why@),
    }
}

/// Moves the pixels of a bitmap of the console into the one blob of the target.
/// `images` is what was read out of its textures; `formats` names the formats that
/// images can have, each by what a tag calls it and by its own name. An image that
/// cannot be had leaves the whole tag as it was.
pub fn convert_x360_bitmap_pixels(
    source: &TagFile,
    target: &mut TagFile,
    context: &mut ConversionContext,
    images: &Result<Vec<Option<DetiledImage>>, String>,
    formats: &Vec<(String, String)>,
)
    ensures
        source.header.group_tag == BITMAP_GROUP ==> {
            &&& (final(target)@.root, final(context)@) == pixels_moved(
                old(target)@.layout,
                source@.root,
                old(target)@.root,
                old(context)@,
                images_outcome(*images),
                pair_views(formats@),
            )
            &&& final(target)@ == (FileView { root: final(target)@.root, ..old(target)@ })
        },
        source.header.group_tag != BITMAP_GROUP ==> {
            &&& final(target)@ == old(target)@
            &&& final(context)@ == old(context)@
        },
{
    if source.header.group_tag != BITMAP_GROUP {
        return;
    }
    let root: &TagStruct = &source.root;
    let has_pixels: bool = match find_field(root, "processed pixel data") {
        Some(f) => match f.as_data() {
            Some(data) => data.len() > 0,
            None => false,
        },
        None => false,
    };
    let has_textures: bool = match block_of(root, "hardware textures") {
        Some(textures) => textures.len() > 0,
        None => false,
    };
    if has_pixels || !has_textures {
        return;
    }
    if x360_payloads_are_unhydrated(root) {
        record_unsupported(
            context,
            "hardware textures",
            copy(
                "The Xbox 360 build has no resident pixel data for this bitmap: its texture              resources were never paged into the cache, so there is nothing to carry",
            ),
        );
        return;
    }
    let images: &Vec<Option<DetiledImage>> = match images {
        Ok(images) => images,
        Err(why) => {
            record_unsupported(
                context,
                "processed pixel data",
                concat2("The Xbox 360 pixel data could not be read: ", why),
            );
            return;
        },
    };
    match assemble(images, &target.root, formats) {
        Err((index, why)) => {
            record_unsupported(context, &path_of_element("bitmaps", index), why);
        },
        Ok(blob) => {
            if blob.bytes.len() == 0 {
                return;
            }
            proof {
                lemma_blob_lengths(
                    image_views(images@),
                    target@.root,
                    pair_views(formats@),
                    images@.len(),
                );
            }
            write_blob(&target.layout, root, &mut target.root, context, blob);
        },
    }
}

// ---------------------------------------------------------------------------
// Laws
// ---------------------------------------------------------------------------
/// Every image finds its own pixels in the blob, where its slice says.
pub proof fn a_slice_holds_its_image(
    images: Seq<Option<ImageView>>,
    root: StructView,
    formats: Seq<(Seq<char>, Seq<char>)>,
    n: nat,
    i: int,
)
    requires
        n <= images.len(),
        0 <= i < n,
        blob_of(images, root, formats, n) is Ok,
    ensures
        ({
            let blob = blob_of(images, root, formats, n)->Ok_0;
            &&& images[i] is Some
            &&& 0 <= blob.slices[i].0
            &&& 0 <= blob.slices[i].1
            &&& blob.slices[i].0 + blob.slices[i].1 <= blob.bytes.len()
            &&& image_pixels(images[i]->0, target_format(root, formats, i as nat)) == Ok::<
                Seq<u8>,
                Seq<char>,
            >(blob.bytes.subrange(blob.slices[i].0, blob.slices[i].0 + blob.slices[i].1))
        }),
    decreases n,
{
    let blob = blob_of(images, root, formats, n)->Ok_0;
    let sofar = blob_of(images, root, formats, (n - 1) as nat)->Ok_0;
    lemma_blob_lengths(images, root, formats, n);
    lemma_blob_lengths(images, root, formats, (n - 1) as nat);
    if i == n - 1 {
        let pixels = image_pixels(images[i]->0, target_format(root, formats, i as nat))->Ok_0;
        assert(blob.bytes.subrange(
            blob.slices[i].0,
            blob.slices[i].0 + blob.slices[i].1,
        ) =~= pixels);
    } else {
        a_slice_holds_its_image(images, root, formats, (n - 1) as nat, i);
        assert(blob.slices[i] == sofar.slices[i]);
        assert(blob.bytes.subrange(blob.slices[i].0, blob.slices[i].0 + blob.slices[i].1)
            =~= sofar.bytes.subrange(sofar.slices[i].0, sofar.slices[i].0 + sofar.slices[i].1));
    }
}

/// Where one image cannot be had, the bitmap stays as it was, and the report says
/// which.
pub proof fn no_bitmap_is_moved_in_part(
    layout: LayoutView,
    source: StructView,
    root: StructView,
    c: ContextView,
    images: Seq<Option<ImageView>>,
    formats: Seq<(Seq<char>, Seq<char>)>,
)
    requires
        in_console_shape(source),
        !payloads_unhydrated(source),
        blob_of(images, root, formats, images.len()) is Err,
    ensures
        ({
            let (after, context) = pixels_moved(
                layout,
                source,
                root,
                c,
                Ok(images),
                formats,
            );
            let (index, why) = blob_of(images, root, formats, images.len())->Err_0;
            &&& after == root
            &&& context == c.unsupported(element_path("bitmaps"@, index), why)
        }),
{
}

}
