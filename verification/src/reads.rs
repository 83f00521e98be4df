//! Reading the values of a struct by the names of its fields.
use crate::convert::catalog::str_option;
use crate::data::{field_name_matches, name_answers};
use crate::fields::{
    FieldValue, TagFieldData, TagFieldType, number_in, number_value, real_of, real_value,
    string_id_type, text_option, wide_option,
};
use crate::tag::{ContentView, FieldView, StructView, TagBlock, TagField, TagStruct};
use crate::text::copy;
use vstd::prelude::*;

verus! {

/// The first field at or behind `from` that answers to `name`.
pub open spec fn named_from(fields: Seq<FieldView>, name: Seq<char>, from: nat) -> Option<nat>
    decreases fields.len() - from,
{
    if from >= fields.len() {
        None
    } else if name_answers(Some(fields[from as int].name), name) {
        Some(from)
    } else {
        named_from(fields, name, from + 1)
    }
}

/// The position of the first field that answers to `name`.
pub open spec fn place_named(s: StructView, name: Seq<char>) -> Option<nat> {
    named_from(s.fields, name, 0)
}

/// The first field that answers to `name`.
pub open spec fn field_answering(s: StructView, name: Seq<char>) -> Option<FieldView> {
    match place_named(s, name) {
        Some(i) => Some(s.fields[i as int]),
        None => None,
    }
}

/// The value of the field `name`.
pub open spec fn value_named(s: StructView, name: Seq<char>) -> Option<FieldValue> {
    match field_answering(s, name) {
        Some(f) => f.value(),
        None => None,
    }
}

/// Whether values of a type are written as a number that counts something or
/// chooses among options: no group tag and no colour.
pub open spec fn integer_shaped(t: TagFieldType) -> bool {
    t != TagFieldType::Tag && t != TagFieldType::RgbColor && t != TagFieldType::ArgbColor
}

/// The number that an integer, a block index, an option or a set of flags is.
pub open spec fn shaped_number(v: FieldValue) -> Option<int> {
    if integer_shaped(v.kind()) {
        number_in(v)
    } else {
        None
    }
}

/// The number that the field `name` holds.
pub open spec fn int_named(s: StructView, name: Seq<char>) -> Option<int> {
    match value_named(s, name) {
        Some(v) => shaped_number(v),
        None => None,
    }
}

/// The same, or `fallback`.
pub open spec fn int_or(s: StructView, name: Seq<char>, fallback: int) -> int {
    match int_named(s, name) {
        Some(n) => n,
        None => fallback,
    }
}

/// The bit pattern of the real that the field `name` holds.
pub open spec fn real_named(s: StructView, name: Seq<char>) -> Option<u32> {
    match value_named(s, name) {
        Some(v) => real_of(v),
        None => None,
    }
}

/// The same, or `fallback`.
pub open spec fn real_or(s: StructView, name: Seq<char>, fallback: u32) -> u32 {
    match real_named(s, name) {
        Some(bits) => bits,
        None => fallback,
    }
}

/// The same of the first of two names that holds one.
pub open spec fn either_real_or(
    s: StructView,
    name: Seq<char>,
    other: Seq<char>,
    fallback: u32,
) -> u32 {
    match real_named(s, name) {
        Some(bits) => bits,
        None => real_or(s, other, fallback),
    }
}

/// The string id that the field `name` holds.
pub open spec fn string_id_named(s: StructView, name: Seq<char>) -> Option<Seq<char>> {
    match value_named(s, name) {
        Some(FieldValue::Text { kind, text }) => if string_id_type(kind) {
            Some(text)
        } else {
            None
        },
        _ => None,
    }
}

/// The same, or no text.
pub open spec fn string_id_or_empty(s: StructView, name: Seq<char>) -> Seq<char> {
    match string_id_named(s, name) {
        Some(text) => text,
        None => Seq::empty(),
    }
}

/// The path of the tag that the field `name` refers to, or no text.
pub open spec fn reference_path_or_empty(s: StructView, name: Seq<char>) -> Seq<char> {
    match value_named(s, name) {
        Some(FieldValue::Reference(Some((_, path)))) => path,
        _ => Seq::empty(),
    }
}

/// The bit patterns of the bounds that the field `name` holds, or zeros.
pub open spec fn bounds_named(s: StructView, name: Seq<char>) -> (u32, u32) {
    match value_named(s, name) {
        Some(FieldValue::Reals { kind, bits }) => if kind == TagFieldType::RealBounds {
            (bits[0], bits[1])
        } else {
            (0, 0)
        },
        _ => (0, 0),
    }
}

/// The bit patterns of the colour that the field `name` holds, or zeros.
pub open spec fn rgb_named(s: StructView, name: Seq<char>) -> (u32, u32, u32) {
    match value_named(s, name) {
        Some(FieldValue::Reals { kind, bits }) => if kind == TagFieldType::RealRgbColor {
            (bits[0], bits[1], bits[2])
        } else {
            (0, 0, 0)
        },
        _ => (0, 0, 0),
    }
}

/// The struct that the field `name` holds.
pub open spec fn struct_named(s: StructView, name: Seq<char>) -> Option<StructView> {
    match field_answering(s, name) {
        Some(f) => match f.content {
            ContentView::Struct(n) => Some(n),
            _ => None,
        },
        None => None,
    }
}

/// The elements of the block that the field `name` holds, or none.
pub open spec fn elements_named(s: StructView, name: Seq<char>) -> Seq<StructView> {
    match field_answering(s, name) {
        Some(f) => match f.content {
            ContentView::Block(b) => b.elements,
            _ => Seq::empty(),
        },
        None => Seq::empty(),
    }
}

/// The position of the first field that answers to `name`.
pub fn place_of_field(s: &TagStruct, name: &str) -> (r: Option<usize>)
    ensures
        match r {
            Some(i) => i < s@.fields.len() && place_named(s@, name@) == Some(i as nat),
            None => place_named(s@, name@) is None,
        },
{
    let n: usize = s.len();
    let mut i: usize = 0;
    while i < n
        invariant
            i <= n,
            n == s@.fields.len(),
            place_named(s@, name@) == named_from(s@.fields, name@, i as nat),
        decreases n - i,
    {
        if field_name_matches(Some(s.at(i).name()), name) {
            return Some(i);
        }
        i = i + 1;
    }
    None
}

/// The first field that answers to `name`.
pub fn find_field<'a>(s: &'a TagStruct, name: &str) -> (r: Option<&'a TagField>)
    ensures
        match r {
            Some(f) => field_answering(s@, name@) == Some(f@),
            None => field_answering(s@, name@) is None,
        },
{
    match place_of_field(s, name) {
        Some(i) => Some(s.at(i)),
        None => None,
    }
}

/// The number that an integer, a block index, an option or a set of flags is.
pub fn shaped_number_of(v: &TagFieldData) -> (r: Option<i128>)
    ensures
        wide_option(r) == shaped_number(v@),
{
    match v {
        TagFieldData::Tag(_) | TagFieldData::RgbColor(_) | TagFieldData::ArgbColor(_) => None,
        _ => number_value(v),
    }
}

pub fn read_int_any(s: &TagStruct, name: &str) -> (r: Option<i128>)
    ensures
        wide_option(r) == int_named(s@, name@),
{
    match find_field(s, name) {
        Some(f) => match f.value() {
            Some(v) => shaped_number_of(v),
            None => None,
        },
        None => None,
    }
}

pub fn read_real(s: &TagStruct, name: &str) -> (r: Option<u32>)
    ensures
        r == real_named(s@, name@),
{
    match find_field(s, name) {
        Some(f) => match f.value() {
            Some(v) => real_value(v),
            None => None,
        },
        None => None,
    }
}

pub fn read_real_or(s: &TagStruct, name: &str, fallback: u32) -> (r: u32)
    ensures
        r == real_or(s@, name@, fallback),
{
    match read_real(s, name) {
        Some(bits) => bits,
        None => fallback,
    }
}

pub fn read_either_real_or(s: &TagStruct, name: &str, other: &str, fallback: u32) -> (r: u32)
    ensures
        r == either_real_or(s@, name@, other@, fallback),
{
    match read_real(s, name) {
        Some(bits) => bits,
        None => read_real_or(s, other, fallback),
    }
}

pub fn read_int_or(s: &TagStruct, name: &str, fallback: i128) -> (r: i128)
    ensures
        r == int_or(s@, name@, fallback as int),
{
    match read_int_any(s, name) {
        Some(n) => n,
        None => fallback,
    }
}

pub fn read_string_id(s: &TagStruct, name: &str) -> (r: Option<String>)
    ensures
        text_option(r) == string_id_named(s@, name@),
{
    match find_field(s, name) {
        Some(f) => match f.value() {
            Some(TagFieldData::StringId(text)) => Some(copy(text)),
            Some(TagFieldData::OldStringId(text)) => Some(copy(text)),
            _ => None,
        },
        None => None,
    }
}

pub fn read_string_id_or_empty(s: &TagStruct, name: &str) -> (r: String)
    ensures
        r@ == string_id_or_empty(s@, name@),
{
    match read_string_id(s, name) {
        Some(text) => text,
        None => {
            let none: String = String::new();
            assert(none@ =~= Seq::<char>::empty());
            none
        },
    }
}

pub fn read_tag_ref_path_or_empty(s: &TagStruct, name: &str) -> (r: String)
    ensures
        r@ == reference_path_or_empty(s@, name@),
{
    let none: String = String::new();
    assert(none@ =~= Seq::<char>::empty());
    match find_field(s, name) {
        Some(f) => match f.value() {
            Some(TagFieldData::TagReference(reference)) => match &reference.group_tag_and_name {
                Some((_, path)) => copy(path),
                None => none,
            },
            _ => none,
        },
        None => none,
    }
}

pub fn read_real_bounds(s: &TagStruct, name: &str) -> (r: (u32, u32))
    ensures
        r == bounds_named(s@, name@),
{
    match find_field(s, name) {
        Some(f) => match f.value() {
            Some(TagFieldData::RealBounds(lower, upper)) => (*lower, *upper),
            _ => (0, 0),
        },
        None => (0, 0),
    }
}

pub fn read_rgb(s: &TagStruct, name: &str) -> (r: (u32, u32, u32))
    ensures
        r == rgb_named(s@, name@),
{
    match find_field(s, name) {
        Some(f) => match f.value() {
            Some(TagFieldData::RealRgbColor(red, green, blue)) => (*red, *green, *blue),
            _ => (0, 0, 0),
        },
        None => (0, 0, 0),
    }
}

pub fn descend<'a>(s: &'a TagStruct, name: &str) -> (r: Option<&'a TagStruct>)
    ensures
        match r {
            Some(n) => struct_named(s@, name@) == Some(n@),
            None => struct_named(s@, name@) is None,
        },
{
    match find_field(s, name) {
        Some(f) => f.as_struct(),
        None => None,
    }
}

/// The name of the option that the field `name` holds.
pub open spec fn option_named(s: StructView, name: Seq<char>) -> Option<Seq<char>> {
    match value_named(s, name) {
        Some(FieldValue::Enum { name: chosen, .. }) => chosen,
        _ => None,
    }
}

pub fn read_enum_name<'a>(s: &'a TagStruct, name: &str) -> (r: Option<&'a str>)
    ensures
        str_option(r) == option_named(s@, name@),
{
    match find_field(s, name) {
        Some(f) => match f.value() {
            Some(TagFieldData::CharEnum { name: Some(chosen), .. }) => Some(chosen.as_str()),
            Some(TagFieldData::ShortEnum { name: Some(chosen), .. }) => Some(chosen.as_str()),
            Some(TagFieldData::LongEnum { name: Some(chosen), .. }) => Some(chosen.as_str()),
            _ => None,
        },
        None => None,
    }
}

/// The block that the field `name` holds; without one there are no elements.
pub fn block_of<'a>(s: &'a TagStruct, name: &str) -> (r: Option<&'a TagBlock>)
    ensures
        match r {
            Some(b) => elements_named(s@, name@) == b@.elements,
            None => elements_named(s@, name@) == Seq::<StructView>::empty(),
        },
{
    match find_field(s, name) {
        Some(f) => f.as_block(),
        None => None,
    }
}

/// The low bytes of a number.
pub fn low_word(n: i128) -> (r: u32)
    ensures
        r == n as u32,
{
    #[verifier::truncate]
    (n as u32)
}

/// The low bytes of a number, as a signed one.
pub fn low_signed_word(n: i128) -> (r: i32)
    ensures
        r == n as i32,
{
    #[verifier::truncate]
    (n as i32)
}

/// The low bytes of a number, as a long one.
pub fn low_long(n: i128) -> (r: i64)
    ensures
        r == n as i64,
{
    #[verifier::truncate]
    (n as i64)
}

/// The lowest byte of a number.
pub fn low_byte(n: i128) -> (r: u8)
    ensures
        r == n as u8,
{
    #[verifier::truncate]
    (n as u8)
}

}
