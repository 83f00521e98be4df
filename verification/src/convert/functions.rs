//! Function curves: the bytes of a serialized function definition, and the two
//! containers that the generations keep them in.
use crate::bytes::{le_bytes, le_bytes_read_back, le_value, push_le, push_range};
use crate::convert::environment::{ConversionEnvironment, EnvironmentView};
use crate::convert::report::{ContextView, ConversionContext, record_unsupported};
use crate::convert::values::{assigned, set_converted};
use crate::fields::{
    FieldValue, TagFieldData, TagFieldType, copy_bytes, integer_field_value, integer_fits,
    integer_of, integer_value,
};
use crate::json::bytes_option;
use crate::layout::{LayoutView, TagLayout};
use crate::tag::{BlockView, ContentView, FieldView, StructView, TagBlock, TagField, TagStruct};
use crate::text::{concat2, copy, decimal, decimal_text};
use vstd::prelude::*;

verus! {

/// Where the later header layout holds the length of the compact block.
///
/// An early header is 28 bytes; a later one holds the same bytes and then the
/// length of what follows.
pub const FUNCTION_COMPACT_SIZE_OFFSET: usize = 28;

/// The bytes of a curve in the other header layout.
pub open spec fn retargeted(
    bytes: Seq<u8>,
    source_is_modern: bool,
    target_is_modern: bool,
) -> Option<Seq<u8>> {
    if source_is_modern == target_is_modern {
        Some(bytes)
    } else if target_is_modern {
        if bytes.len() < 28 || bytes.len() - 28 > u32::MAX {
            None
        } else {
            Some(bytes.take(28) + le_bytes((bytes.len() - 28) as u32) + bytes.skip(28))
        }
    } else {
        if bytes.len() < 32 {
            None
        } else {
            Some(bytes.take(28) + bytes.skip(32))
        }
    }
}

/// Moves a serialized function definition between the two header layouts.
///
/// The later layout has a word with the length of the compact block behind the
/// header; the bytes on either side of it are the same in both.
pub fn retarget_function_bytes(
    bytes: &Vec<u8>,
    source_is_modern: bool,
    target_is_modern: bool,
) -> (r: Option<Vec<u8>>)
    ensures
        bytes_option(r) == retargeted(bytes@, source_is_modern, target_is_modern),
{
    if source_is_modern == target_is_modern {
        return Some(copy_bytes(bytes));
    }
    let n: usize = bytes.len();
    let mut out: Vec<u8> = Vec::new();
    if target_is_modern {
        if n < FUNCTION_COMPACT_SIZE_OFFSET || n - FUNCTION_COMPACT_SIZE_OFFSET
            > u32::MAX as usize {
            return None;
        }
        push_range(&mut out, bytes, 0, FUNCTION_COMPACT_SIZE_OFFSET);
        push_le(&mut out, (n - FUNCTION_COMPACT_SIZE_OFFSET) as u32);
        push_range(&mut out, bytes, FUNCTION_COMPACT_SIZE_OFFSET, n);
        assert(out@ =~= bytes@.take(28) + le_bytes((n - 28) as u32) + bytes@.skip(28));
        Some(out)
    } else {
        if n < FUNCTION_COMPACT_SIZE_OFFSET + 4 {
            return None;
        }
        push_range(&mut out, bytes, 0, FUNCTION_COMPACT_SIZE_OFFSET);
        push_range(&mut out, bytes, FUNCTION_COMPACT_SIZE_OFFSET + 4, n);
        assert(out@ =~= bytes@.take(28) + bytes@.skip(32));
        Some(out)
    }
}

/// A curve that is promoted to the later layout and demoted again is the curve
/// it was, and what it gained in between is the length of its compact block.
pub proof fn promoting_a_curve_is_reversible(bytes: Seq<u8>)
    requires
        28 <= bytes.len() <= u32::MAX + 28,
    ensures
        retargeted(bytes, false, true) matches Some(modern) && modern.len() == bytes.len() + 4
            && modern.take(28) == bytes.take(28) && modern.skip(32) == bytes.skip(28) && le_value(
            modern.subrange(28, 32),
        ) == bytes.len() - 28 && retargeted(modern, true, false) == Some(bytes),
{
    let word = le_bytes((bytes.len() - 28) as u32);
    le_bytes_read_back((bytes.len() - 28) as u32);
    let modern = bytes.take(28) + word + bytes.skip(28);
    assert(modern.take(28) =~= bytes.take(28));
    assert(modern.skip(32) =~= bytes.skip(28));
    assert(modern.subrange(28, 32) =~= word);
    assert(modern.take(28) + modern.skip(32) =~= bytes);
}

/// The values among the first `n` fields.
pub open spec fn values_among(fields: Seq<FieldView>, n: nat) -> Seq<FieldValue>
    decreases n,
{
    if n == 0 || n > fields.len() {
        Seq::empty()
    } else {
        let rest = values_among(fields, (n - 1) as nat);
        match fields[n - 1].content {
            ContentView::Value(v) => rest.push(v),
            _ => rest,
        }
    }
}

/// The byte that an element of a byte block holds: its one value, an integer.
pub open spec fn element_byte(e: StructView) -> Option<u8> {
    let values = values_among(e.fields, e.fields.len());
    if values.len() == 1 {
        match integer_of(values[0]) {
            Some(n) => Some((n % 256) as u8),
            None => None,
        }
    } else {
        None
    }
}

/// The bytes that the first `n` elements of a byte block hold.
pub open spec fn bytes_of_elements(elements: Seq<StructView>, n: nat) -> Option<Seq<u8>>
    decreases n,
{
    if n == 0 || n > elements.len() {
        Some(Seq::empty())
    } else {
        match (bytes_of_elements(elements, (n - 1) as nat), element_byte(elements[n - 1])) {
            (Some(bytes), Some(b)) => Some(bytes.push(b)),
            _ => None,
        }
    }
}

fn byte_of_element(element: &TagStruct) -> (r: Option<u8>)
    ensures
        r == element_byte(element@),
{
    let n: usize = element.len();
    let mut found: Option<&TagFieldData> = None;
    let mut i: usize = 0;
    while i < n
        invariant
            i <= n,
            n == element@.fields.len(),
            match found {
                Some(v) => values_among(element@.fields, i as nat) == seq![v@],
                None => values_among(element@.fields, i as nat).len() == 0,
            },
        decreases n - i,
    {
        if let Some(value) = element.at(i).value() {
            if found.is_some() {
                proof {
                    lemma_values_grow(element@.fields, (i + 1) as nat, n as nat);
                }
                return None;
            }
            found = Some(value);
            assert(values_among(element@.fields, (i + 1) as nat) =~= seq![value@]);
        }
        i = i + 1;
    }
    match found {
        Some(value) => match integer_value(value) {
            Some(n) => Some(low_byte(n)),
            None => None,
        },
        None => None,
    }
}

proof fn lemma_values_grow(fields: Seq<FieldView>, i: nat, n: nat)
    requires
        i <= n <= fields.len(),
    ensures
        values_among(fields, i).len() <= values_among(fields, n).len(),
    decreases n,
{
    if i < n {
        lemma_values_grow(fields, i, (n - 1) as nat);
    }
}

/// The low byte of a number.
fn low_byte(n: i128) -> (r: u8)
    ensures
        r == (n as int % 256) as u8,
{
    if n >= 0 {
        (n % 256) as u8
    } else {
        let mirrored: i128 = -(n + 1);
        proof {
            let q = mirrored as int / 256;
            let rest = mirrored as int % 256;
            vstd::arithmetic::div_mod::lemma_fundamental_div_mod_converse(
                n as int,
                256,
                -q - 1,
                255 - rest,
            );
        }
        (255 - mirrored % 256) as u8
    }
}

/// The bytes of a curve held as a block of one-byte elements.
pub fn function_bytes_from_block(block: &TagBlock) -> (r: Option<Vec<u8>>)
    ensures
        bytes_option(r) == bytes_of_elements(block@.elements, block@.elements.len()),
{
    let n: usize = block.len();
    let mut bytes: Vec<u8> = Vec::new();
    let mut i: usize = 0;
    assert(bytes@ =~= Seq::<u8>::empty());
    while i < n
        invariant
            i <= n,
            n == block@.elements.len(),
            bytes_of_elements(block@.elements, i as nat) == Some(bytes@),
        decreases n - i,
    {
        match byte_of_element(block.at(i)) {
            Some(b) => bytes.push(b),
            None => {
                proof {
                    lemma_no_bytes(block@.elements, (i + 1) as nat, n as nat);
                }
                return None;
            },
        }
        i = i + 1;
    }
    Some(bytes)
}

proof fn lemma_no_bytes(elements: Seq<StructView>, i: nat, n: nat)
    requires
        i <= n <= elements.len(),
        bytes_of_elements(elements, i) is None,
    ensures
        bytes_of_elements(elements, n) is None,
    decreases n,
{
    if i < n {
        lemma_no_bytes(elements, i, (n - 1) as nat);
    }
}

/// How far the writing of a byte block got.
pub ghost enum Filling {
    /// Every byte so far is written.
    Going(BlockView),
    /// The block would not grow.
    NotGrown(BlockView),
    /// An element has no field to hold a byte.
    NoField(BlockView),
}

/// An element of a byte block with `b` in its first field, as far as that field
/// is an integer.
pub open spec fn with_byte(e: StructView, b: u8) -> StructView {
    let f = e.fields[0];
    if integer_fits(f.field_type, b as int) {
        StructView {
            fields: e.fields.update(
                0,
                f.with_value(FieldValue::Number { kind: f.field_type, value: b as int }),
            ),
            ..e
        }
    } else {
        e
    }
}

/// An empty byte block with the first `n` of `bytes` written into it.
pub open spec fn filled_with(layout: LayoutView, b: BlockView, bytes: Seq<u8>, n: nat) -> Filling
    decreases n,
{
    if n == 0 || n > bytes.len() {
        Filling::Going(b)
    } else {
        match filled_with(layout, b, bytes, (n - 1) as nat) {
            Filling::Going(b) => {
                let at = b.elements.len() as int;
                let g = b.grown(layout);
                if at >= g.elements.len() {
                    Filling::NotGrown(g)
                } else if g.elements[at].fields.len() == 0 {
                    Filling::NoField(g)
                } else {
                    Filling::Going(
                        BlockView {
                            elements: g.elements.update(at, with_byte(g.elements[at], bytes[n - 1])),
                            ..g
                        },
                    )
                }
            },
            stopped => stopped,
        }
    }
}

/// The bytes of a curve, where the two fields hold it in the two containers.
pub open spec fn curve_bytes(f: FieldView, t: FieldView) -> Option<Seq<u8>> {
    match (f.field_type, t.field_type) {
        (TagFieldType::Block, TagFieldType::Data) => match f.content {
            ContentView::Block(b) => if t.is_function_data() {
                bytes_of_elements(b.elements, b.elements.len())
            } else {
                None
            },
            _ => None,
        },
        (TagFieldType::Data, TagFieldType::Block) => match t.content {
            ContentView::Block(b) => if f.is_function_data() && b.element_size == 1 {
                match f.content {
                    ContentView::Value(
                        FieldValue::Bytes { kind: TagFieldType::Data, bytes },
                    ) => Some(bytes),
                    _ => Some(Seq::empty()),
                }
            } else {
                None
            },
            _ => None,
        },
        _ => None,
    }
}

/// A curve carried between its two containers; `None` where the two fields do
/// not hold a curve that way. The engine's own decoder is the arbiter: a curve that
/// does not decode is reported and not written.
pub open spec fn converted_curve(
    env: EnvironmentView,
    layout: LayoutView,
    f: FieldView,
    t: FieldView,
    path: Seq<char>,
    c: ContextView,
) -> Option<(FieldView, ContextView)> {
    match curve_bytes(f, t) {
        None => None,
        Some(bytes) => if bytes.len() == 0 {
            Some((t, c))
        } else {
            match retargeted(
                bytes,
                f.field_type == TagFieldType::Data,
                t.field_type == TagFieldType::Data,
            ) {
                None => Some(
                    (
                        t,
                        c.unsupported(
                            path,
                            decimal(bytes.len())
                                + " bytes is too short to be a function definition"@,
                        ),
                    ),
                ),
                Some(moved) => if !env.answers.decodes(moved) {
                    Some(
                        (
                            t,
                            c.unsupported(
                                path,
                                decimal(bytes.len())
                                    + " bytes of function curve did not parse as a function definition, so they were not carried across"@,
                            ),
                        ),
                    )
                } else if t.field_type == TagFieldType::Data {
                    Some(
                        assigned(
                            t,
                            FieldValue::Bytes { kind: TagFieldType::Data, bytes: moved },
                            path,
                            false,
                            c,
                        ),
                    )
                } else {
                    let b = t.content->Block_0;
                    Some(
                        match filled_with(layout, b.cleared(), moved, moved.len()) {
                            Filling::Going(b) => (
                                FieldView { content: ContentView::Block(b), ..t },
                                c.carried(true),
                            ),
                            Filling::NotGrown(b) => (
                                FieldView { content: ContentView::Block(b), ..t },
                                c.unsupported(
                                    path,
                                    "Could not grow the target function block"@,
                                ),
                            ),
                            Filling::NoField(b) => (
                                FieldView { content: ContentView::Block(b), ..t },
                                c,
                            ),
                        },
                    )
                },
            }
        },
    }
}

fn curve_bytes_of(source: &TagField, target: &TagField) -> (r: Option<Vec<u8>>)
    ensures
        bytes_option(r) == curve_bytes(source@, target@),
{
    match (source.field_type(), target.field_type()) {
        (TagFieldType::Block, TagFieldType::Data) => match source.as_block() {
            Some(block) => if target.is_function_data() {
                function_bytes_from_block(block)
            } else {
                None
            },
            None => None,
        },
        (TagFieldType::Data, TagFieldType::Block) => match target.as_block() {
            Some(block) => if source.is_function_data() && block.element_size() == 1 {
                match source.as_data() {
                    Some(bytes) => Some(copy_bytes(bytes)),
                    None => {
                        let none: Vec<u8> = Vec::new();
                        assert(none@ =~= Seq::<u8>::empty());
                        Some(none)
                    },
                }
            } else {
                None
            },
            None => None,
        },
        _ => None,
    }
}

/// How the writing of a byte block ended.
#[derive(Clone, Copy, PartialEq, Eq, Structural)]
enum Filled {
    Whole,
    NotGrown,
    NoField,
}

#[verifier::loop_isolation(false)]
fn fill_block(block: &mut TagBlock, layout: &TagLayout, bytes: &Vec<u8>) -> (r: Filled)
    ensures
        filled_with(layout@, old(block)@, bytes@, bytes@.len()) == match r {
            Filled::Whole => Filling::Going(final(block)@),
            Filled::NotGrown => Filling::NotGrown(final(block)@),
            Filled::NoField => Filling::NoField(final(block)@),
        },
{
    let ghost start = block@;
    let mut i: usize = 0;
    while i < bytes.len()
        invariant
            i <= bytes.len(),
            filled_with(layout@, start, bytes@, i as nat) == Filling::Going(block@),
        decreases bytes.len() - i,
    {
        let at: usize = block.add_element(layout);
        if at >= block.len() {
            proof {
                lemma_stopped(layout@, start, bytes@, (i + 1) as nat, bytes@.len());
            }
            return Filled::NotGrown;
        }
        if block.at(at).len() == 0 {
            proof {
                lemma_stopped(layout@, start, bytes@, (i + 1) as nat, bytes@.len());
            }
            return Filled::NoField;
        }
        let field_type: TagFieldType = block.at(at).at(0).field_type();
        if let Some(value) = integer_field_value(field_type, bytes[i] as i128) {
            let field = block.at_mut(at).at_mut(0);
            let _ = field.set(value);
        }
        assert(block@.elements =~= block@.elements.update(at as int, block@.elements[at as int]));
        i = i + 1;
    }
    Filled::Whole
}

proof fn lemma_stopped(layout: LayoutView, b: BlockView, bytes: Seq<u8>, i: nat, n: nat)
    requires
        i <= n <= bytes.len(),
        !(filled_with(layout, b, bytes, i) is Going),
    ensures
        filled_with(layout, b, bytes, n) == filled_with(layout, b, bytes, i),
    decreases n,
{
    if i < n {
        lemma_stopped(layout, b, bytes, i, (n - 1) as nat);
    }
}

/// Carries a function curve between the block-of-bytes and the data-blob
/// container. Returns whether the pair was recognised and handled.
pub fn convert_function_mapping(
    source: &TagField,
    target: &mut TagField,
    layout: &TagLayout,
    path: &str,
    env: &ConversionEnvironment,
    context: &mut ConversionContext,
) -> (r: bool)
    ensures
        match converted_curve(env@, layout@, source@, old(target)@, path@, old(context)@) {
            Some((t, c)) => r && final(target)@ == t && final(context)@ == c,
            None => !r && final(target)@ == old(target)@ && final(context)@ == old(context)@,
        },
{
    let bytes: Vec<u8> = match curve_bytes_of(source, target) {
        Some(bytes) => bytes,
        None => {
            return false;
        },
    };
    if bytes.len() == 0 {
        return true;
    }
    let length: String = decimal_text(bytes.len() as u128);
    let target_type: TagFieldType = target.field_type();
    let moved: Vec<u8> = match retarget_function_bytes(
        &bytes,
        source.field_type() == TagFieldType::Data,
        target_type == TagFieldType::Data,
    ) {
        Some(moved) => moved,
        None => {
            record_unsupported(
                context,
                path,
                concat2(&length, " bytes is too short to be a function definition"),
            );
            return true;
        },
    };
    if !env.answers.curve_decodes(&moved) {
        record_unsupported(
            context,
            path,
            concat2(
                &length,
                " bytes of function curve did not parse as a function definition, so they were not carried across",
            ),
        );
        return true;
    }
    if target_type == TagFieldType::Data {
        set_converted(target, TagFieldData::Data(moved), path, false, context);
        return true;
    }
    if let Some(block) = target.as_block_mut() {
        block.clear();
        match fill_block(block, layout, &moved) {
            Filled::Whole => context.count_carried(true),
            Filled::NotGrown => record_unsupported(
                context,
                path,
                copy("Could not grow the target function block"),
            ),
            Filled::NoField => {},
        }
    }
    true
}

}
