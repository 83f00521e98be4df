//! Field types, and the values that fields hold.
//!
//! A real number is held by its IEEE single-precision bit pattern.
use crate::text::{copy, copy_texts, texts};
use vstd::prelude::*;

verus! {

/// What a field is.
#[derive(Clone, Copy, Debug, PartialEq, Eq, Structural)]
pub enum TagFieldType {
    Unknown,
    Terminator,
    Pad,
    UselessPad,
    Skip,
    Explanation,
    Struct,
    Block,
    Array,
    TagReference,
    PageableResource,
    String,
    LongString,
    StringId,
    OldStringId,
    Data,
    Custom,
    ApiInterop,
    CharInteger,
    ShortInteger,
    LongInteger,
    Int64Integer,
    ByteInteger,
    WordInteger,
    DwordInteger,
    QwordInteger,
    CharBlockIndex,
    CustomCharBlockIndex,
    ShortBlockIndex,
    CustomShortBlockIndex,
    LongBlockIndex,
    CustomLongBlockIndex,
    Tag,
    ByteBlockFlags,
    WordBlockFlags,
    LongBlockFlags,
    RgbColor,
    ArgbColor,
    CharEnum,
    ShortEnum,
    LongEnum,
    ByteFlags,
    WordFlags,
    LongFlags,
    Point2d,
    Rectangle2d,
    ShortIntegerBounds,
    Angle,
    Real,
    RealSlider,
    RealFraction,
    RealPoint2d,
    RealPoint3d,
    RealVector2d,
    RealVector3d,
    RealQuaternion,
    RealEulerAngles2d,
    RealEulerAngles3d,
    RealPlane2d,
    RealPlane3d,
    RealRgbColor,
    RealArgbColor,
    RealHsvColor,
    RealAhsvColor,
    AngleBounds,
    RealBounds,
    FractionBounds,
}

/// A field type by its name.
pub open spec fn type_label(t: TagFieldType) -> Seq<char> {
    match t {
        TagFieldType::Unknown => "Unknown"@,
        TagFieldType::Terminator => "Terminator"@,
        TagFieldType::Pad => "Pad"@,
        TagFieldType::UselessPad => "UselessPad"@,
        TagFieldType::Skip => "Skip"@,
        TagFieldType::Explanation => "Explanation"@,
        TagFieldType::Struct => "Struct"@,
        TagFieldType::Block => "Block"@,
        TagFieldType::Array => "Array"@,
        TagFieldType::TagReference => "TagReference"@,
        TagFieldType::PageableResource => "PageableResource"@,
        TagFieldType::String => "String"@,
        TagFieldType::LongString => "LongString"@,
        TagFieldType::StringId => "StringId"@,
        TagFieldType::OldStringId => "OldStringId"@,
        TagFieldType::Data => "Data"@,
        TagFieldType::Custom => "Custom"@,
        TagFieldType::ApiInterop => "ApiInterop"@,
        TagFieldType::CharInteger => "CharInteger"@,
        TagFieldType::ShortInteger => "ShortInteger"@,
        TagFieldType::LongInteger => "LongInteger"@,
        TagFieldType::Int64Integer => "Int64Integer"@,
        TagFieldType::ByteInteger => "ByteInteger"@,
        TagFieldType::WordInteger => "WordInteger"@,
        TagFieldType::DwordInteger => "DwordInteger"@,
        TagFieldType::QwordInteger => "QwordInteger"@,
        TagFieldType::CharBlockIndex => "CharBlockIndex"@,
        TagFieldType::CustomCharBlockIndex => "CustomCharBlockIndex"@,
        TagFieldType::ShortBlockIndex => "ShortBlockIndex"@,
        TagFieldType::CustomShortBlockIndex => "CustomShortBlockIndex"@,
        TagFieldType::LongBlockIndex => "LongBlockIndex"@,
        TagFieldType::CustomLongBlockIndex => "CustomLongBlockIndex"@,
        TagFieldType::Tag => "Tag"@,
        TagFieldType::ByteBlockFlags => "ByteBlockFlags"@,
        TagFieldType::WordBlockFlags => "WordBlockFlags"@,
        TagFieldType::LongBlockFlags => "LongBlockFlags"@,
        TagFieldType::RgbColor => "RgbColor"@,
        TagFieldType::ArgbColor => "ArgbColor"@,
        TagFieldType::CharEnum => "CharEnum"@,
        TagFieldType::ShortEnum => "ShortEnum"@,
        TagFieldType::LongEnum => "LongEnum"@,
        TagFieldType::ByteFlags => "ByteFlags"@,
        TagFieldType::WordFlags => "WordFlags"@,
        TagFieldType::LongFlags => "LongFlags"@,
        TagFieldType::Point2d => "Point2d"@,
        TagFieldType::Rectangle2d => "Rectangle2d"@,
        TagFieldType::ShortIntegerBounds => "ShortIntegerBounds"@,
        TagFieldType::Angle => "Angle"@,
        TagFieldType::Real => "Real"@,
        TagFieldType::RealSlider => "RealSlider"@,
        TagFieldType::RealFraction => "RealFraction"@,
        TagFieldType::RealPoint2d => "RealPoint2d"@,
        TagFieldType::RealPoint3d => "RealPoint3d"@,
        TagFieldType::RealVector2d => "RealVector2d"@,
        TagFieldType::RealVector3d => "RealVector3d"@,
        TagFieldType::RealQuaternion => "RealQuaternion"@,
        TagFieldType::RealEulerAngles2d => "RealEulerAngles2d"@,
        TagFieldType::RealEulerAngles3d => "RealEulerAngles3d"@,
        TagFieldType::RealPlane2d => "RealPlane2d"@,
        TagFieldType::RealPlane3d => "RealPlane3d"@,
        TagFieldType::RealRgbColor => "RealRgbColor"@,
        TagFieldType::RealArgbColor => "RealArgbColor"@,
        TagFieldType::RealHsvColor => "RealHsvColor"@,
        TagFieldType::RealAhsvColor => "RealAhsvColor"@,
        TagFieldType::AngleBounds => "AngleBounds"@,
        TagFieldType::RealBounds => "RealBounds"@,
        TagFieldType::FractionBounds => "FractionBounds"@,
    }
}

/// The name of a field type.
pub fn label_of_type(t: TagFieldType) -> (r: &'static str)
    ensures
        r@ == type_label(t),
{
    match t {
        TagFieldType::Unknown => "Unknown",
        TagFieldType::Terminator => "Terminator",
        TagFieldType::Pad => "Pad",
        TagFieldType::UselessPad => "UselessPad",
        TagFieldType::Skip => "Skip",
        TagFieldType::Explanation => "Explanation",
        TagFieldType::Struct => "Struct",
        TagFieldType::Block => "Block",
        TagFieldType::Array => "Array",
        TagFieldType::TagReference => "TagReference",
        TagFieldType::PageableResource => "PageableResource",
        TagFieldType::String => "String",
        TagFieldType::LongString => "LongString",
        TagFieldType::StringId => "StringId",
        TagFieldType::OldStringId => "OldStringId",
        TagFieldType::Data => "Data",
        TagFieldType::Custom => "Custom",
        TagFieldType::ApiInterop => "ApiInterop",
        TagFieldType::CharInteger => "CharInteger",
        TagFieldType::ShortInteger => "ShortInteger",
        TagFieldType::LongInteger => "LongInteger",
        TagFieldType::Int64Integer => "Int64Integer",
        TagFieldType::ByteInteger => "ByteInteger",
        TagFieldType::WordInteger => "WordInteger",
        TagFieldType::DwordInteger => "DwordInteger",
        TagFieldType::QwordInteger => "QwordInteger",
        TagFieldType::CharBlockIndex => "CharBlockIndex",
        TagFieldType::CustomCharBlockIndex => "CustomCharBlockIndex",
        TagFieldType::ShortBlockIndex => "ShortBlockIndex",
        TagFieldType::CustomShortBlockIndex => "CustomShortBlockIndex",
        TagFieldType::LongBlockIndex => "LongBlockIndex",
        TagFieldType::CustomLongBlockIndex => "CustomLongBlockIndex",
        TagFieldType::Tag => "Tag",
        TagFieldType::ByteBlockFlags => "ByteBlockFlags",
        TagFieldType::WordBlockFlags => "WordBlockFlags",
        TagFieldType::LongBlockFlags => "LongBlockFlags",
        TagFieldType::RgbColor => "RgbColor",
        TagFieldType::ArgbColor => "ArgbColor",
        TagFieldType::CharEnum => "CharEnum",
        TagFieldType::ShortEnum => "ShortEnum",
        TagFieldType::LongEnum => "LongEnum",
        TagFieldType::ByteFlags => "ByteFlags",
        TagFieldType::WordFlags => "WordFlags",
        TagFieldType::LongFlags => "LongFlags",
        TagFieldType::Point2d => "Point2d",
        TagFieldType::Rectangle2d => "Rectangle2d",
        TagFieldType::ShortIntegerBounds => "ShortIntegerBounds",
        TagFieldType::Angle => "Angle",
        TagFieldType::Real => "Real",
        TagFieldType::RealSlider => "RealSlider",
        TagFieldType::RealFraction => "RealFraction",
        TagFieldType::RealPoint2d => "RealPoint2d",
        TagFieldType::RealPoint3d => "RealPoint3d",
        TagFieldType::RealVector2d => "RealVector2d",
        TagFieldType::RealVector3d => "RealVector3d",
        TagFieldType::RealQuaternion => "RealQuaternion",
        TagFieldType::RealEulerAngles2d => "RealEulerAngles2d",
        TagFieldType::RealEulerAngles3d => "RealEulerAngles3d",
        TagFieldType::RealPlane2d => "RealPlane2d",
        TagFieldType::RealPlane3d => "RealPlane3d",
        TagFieldType::RealRgbColor => "RealRgbColor",
        TagFieldType::RealArgbColor => "RealArgbColor",
        TagFieldType::RealHsvColor => "RealHsvColor",
        TagFieldType::RealAhsvColor => "RealAhsvColor",
        TagFieldType::AngleBounds => "AngleBounds",
        TagFieldType::RealBounds => "RealBounds",
        TagFieldType::FractionBounds => "FractionBounds",
    }
}

/// The value of a tag reference: the group of the tag and its path.
#[derive(Debug, PartialEq, Eq)]
pub struct TagReferenceData {
    pub group_tag_and_name: Option<(u32, String)>,
}

/// The view of a reference's value.
pub open spec fn reference_view(r: Option<(u32, String)>) -> Option<(u32, Seq<char>)> {
    match r {
        Some((group, name)) => Some((group, name@)),
        None => None,
    }
}

/// What a field that is neither container nor padding holds.
#[allow(inconsistent_fields)]
#[derive(Debug, PartialEq, Eq)]
pub enum TagFieldData {
    String(String),
    LongString(String),
    StringId(String),
    OldStringId(String),
    TagReference(TagReferenceData),
    Data(Vec<u8>),
    Custom(Vec<u8>),
    ApiInterop(Vec<u8>),
    CharInteger(i8),
    ShortInteger(i16),
    LongInteger(i32),
    Int64Integer(i64),
    ByteInteger(u8),
    WordInteger(u16),
    DwordInteger(u32),
    QwordInteger(u64),
    CharBlockIndex(i8),
    CustomCharBlockIndex(i8),
    ShortBlockIndex(i16),
    CustomShortBlockIndex(i16),
    LongBlockIndex(i32),
    CustomLongBlockIndex(i32),
    Tag(u32),
    ByteBlockFlags(u8),
    WordBlockFlags(u16),
    LongBlockFlags(i32),
    RgbColor(u32),
    ArgbColor(u32),
    CharEnum { value: i8, name: Option<String> },
    ShortEnum { value: i16, name: Option<String> },
    LongEnum { value: i32, name: Option<String> },
    ByteFlags { value: u8, names: Vec<(u32, String)> },
    WordFlags { value: u16, names: Vec<(u32, String)> },
    LongFlags { value: i32, names: Vec<(u32, String)> },
    Point2d(i16, i16),
    Rectangle2d(i16, i16, i16, i16),
    ShortIntegerBounds(i16, i16),
    Angle(u32),
    Real(u32),
    RealSlider(u32),
    RealFraction(u32),
    RealPoint2d(u32, u32),
    RealPoint3d(u32, u32, u32),
    RealVector2d(u32, u32),
    RealVector3d(u32, u32, u32),
    RealQuaternion(u32, u32, u32, u32),
    RealEulerAngles2d(u32, u32),
    RealEulerAngles3d(u32, u32, u32),
    RealPlane2d(u32, u32, u32),
    RealPlane3d(u32, u32, u32, u32),
    RealRgbColor(u32, u32, u32),
    RealArgbColor(u32, u32, u32, u32),
    RealHsvColor(u32, u32, u32),
    RealAhsvColor(u32, u32, u32, u32),
    AngleBounds(u32, u32),
    RealBounds(u32, u32),
    FractionBounds(u32, u32),
}

/// A field's value as contracts speak of it: its type, and what it holds.
pub ghost enum FieldValue {
    /// Text of any of the text types.
    Text { kind: TagFieldType, text: Seq<char> },
    /// A tag reference.
    Reference(Option<(u32, Seq<char>)>),
    /// Raw bytes.
    Bytes { kind: TagFieldType, bytes: Seq<u8> },
    /// A number.
    Number { kind: TagFieldType, value: int },
    /// One of several options.
    Enum { kind: TagFieldType, value: int, name: Option<Seq<char>> },
    /// Several of several options.
    Flags { kind: TagFieldType, value: int, names: Seq<(u32, Seq<char>)> },
    /// Short integers that belong together.
    Shorts { kind: TagFieldType, values: Seq<i16> },
    /// The bit patterns of one or more real numbers.
    Reals { kind: TagFieldType, bits: Seq<u32> },
}

impl FieldValue {
    /// The type of field that holds such a value.
    pub open spec fn kind(self) -> TagFieldType {
        match self {
            FieldValue::Text { kind, .. } => kind,
            FieldValue::Reference(_) => TagFieldType::TagReference,
            FieldValue::Bytes { kind, .. } => kind,
            FieldValue::Number { kind, .. } => kind,
            FieldValue::Enum { kind, .. } => kind,
            FieldValue::Flags { kind, .. } => kind,
            FieldValue::Shorts { kind, .. } => kind,
            FieldValue::Reals { kind, .. } => kind,
        }
    }
}

/// The views of the names of set flags.
pub open spec fn flag_names(v: Seq<(u32, String)>) -> Seq<(u32, Seq<char>)> {
    Seq::new(v.len(), |i: int| (v[i].0, v[i].1@))
}

/// The view of an optional text.
pub open spec fn text_option(v: Option<String>) -> Option<Seq<char>> {
    match v {
        Some(s) => Some(s@),
        None => None,
    }
}

/// Copies of the names of set flags.
pub fn copy_flag_names(list: &Vec<(u32, String)>) -> (r: Vec<(u32, String)>)
    ensures
        flag_names(r@) == flag_names(list@),
{
    let mut r: Vec<(u32, String)> = Vec::new();
    let mut i: usize = 0;
    while i < list.len()
        invariant
            i <= list.len(),
            flag_names(r@) == flag_names(list@).take(i as int),
        decreases list.len() - i,
    {
        let item: (u32, String) = (list[i].0, copy(&list[i].1));
        let ghost before = r@;
        r.push(item);
        assert(flag_names(r@) =~= flag_names(before).push((item.0, item.1@)));
        i = i + 1;
        assert(flag_names(r@) =~= flag_names(list@).take(i as int));
    }
    assert(flag_names(r@) =~= flag_names(list@));
    r
}

/// A copy of an optional text.
pub fn copy_text_option(v: &Option<String>) -> (r: Option<String>)
    ensures
        text_option(r) == text_option(*v),
{
    match v {
        Some(s) => Some(copy(s)),
        None => None,
    }
}

/// A copy of some bytes.
pub fn copy_bytes(v: &Vec<u8>) -> (r: Vec<u8>)
    ensures
        r@ == v@,
{
    let mut r: Vec<u8> = Vec::new();
    let mut i: usize = 0;
    while i < v.len()
        invariant
            i <= v.len(),
            r@ == v@.take(i as int),
        decreases v.len() - i,
    {
        r.push(v[i]);
        i = i + 1;
        assert(r@ =~= v@.take(i as int));
    }
    assert(r@ =~= v@);
    r
}

/// A copy of a reference's value.
pub fn copy_reference(v: &Option<(u32, String)>) -> (r: Option<(u32, String)>)
    ensures
        reference_view(r) == reference_view(*v),
{
    match v {
        Some((group, name)) => Some((*group, copy(name))),
        None => None,
    }
}

impl TagFieldData {
    /// The value as contracts speak of it.
    pub open spec fn view(&self) -> FieldValue {
        match self {
            TagFieldData::String(s) => FieldValue::Text { kind: TagFieldType::String, text: s@ },
            TagFieldData::LongString(s) => FieldValue::Text { kind: TagFieldType::LongString, text: s@ },
            TagFieldData::StringId(s) => FieldValue::Text { kind: TagFieldType::StringId, text: s@ },
            TagFieldData::OldStringId(s) => FieldValue::Text { kind: TagFieldType::OldStringId, text: s@ },
            TagFieldData::TagReference(r) => FieldValue::Reference(reference_view(r.group_tag_and_name)),
            TagFieldData::Data(b) => FieldValue::Bytes { kind: TagFieldType::Data, bytes: b@ },
            TagFieldData::Custom(b) => FieldValue::Bytes { kind: TagFieldType::Custom, bytes: b@ },
            TagFieldData::ApiInterop(b) => FieldValue::Bytes { kind: TagFieldType::ApiInterop, bytes: b@ },
            TagFieldData::CharInteger(n) => FieldValue::Number { kind: TagFieldType::CharInteger, value: *n as int },
            TagFieldData::ShortInteger(n) => FieldValue::Number { kind: TagFieldType::ShortInteger, value: *n as int },
            TagFieldData::LongInteger(n) => FieldValue::Number { kind: TagFieldType::LongInteger, value: *n as int },
            TagFieldData::Int64Integer(n) => FieldValue::Number { kind: TagFieldType::Int64Integer, value: *n as int },
            TagFieldData::ByteInteger(n) => FieldValue::Number { kind: TagFieldType::ByteInteger, value: *n as int },
            TagFieldData::WordInteger(n) => FieldValue::Number { kind: TagFieldType::WordInteger, value: *n as int },
            TagFieldData::DwordInteger(n) => FieldValue::Number { kind: TagFieldType::DwordInteger, value: *n as int },
            TagFieldData::QwordInteger(n) => FieldValue::Number { kind: TagFieldType::QwordInteger, value: *n as int },
            TagFieldData::CharBlockIndex(n) => FieldValue::Number { kind: TagFieldType::CharBlockIndex, value: *n as int },
            TagFieldData::CustomCharBlockIndex(n) => FieldValue::Number { kind: TagFieldType::CustomCharBlockIndex, value: *n as int },
            TagFieldData::ShortBlockIndex(n) => FieldValue::Number { kind: TagFieldType::ShortBlockIndex, value: *n as int },
            TagFieldData::CustomShortBlockIndex(n) => FieldValue::Number { kind: TagFieldType::CustomShortBlockIndex, value: *n as int },
            TagFieldData::LongBlockIndex(n) => FieldValue::Number { kind: TagFieldType::LongBlockIndex, value: *n as int },
            TagFieldData::CustomLongBlockIndex(n) => FieldValue::Number { kind: TagFieldType::CustomLongBlockIndex, value: *n as int },
            TagFieldData::Tag(n) => FieldValue::Number { kind: TagFieldType::Tag, value: *n as int },
            TagFieldData::ByteBlockFlags(n) => FieldValue::Number { kind: TagFieldType::ByteBlockFlags, value: *n as int },
            TagFieldData::WordBlockFlags(n) => FieldValue::Number { kind: TagFieldType::WordBlockFlags, value: *n as int },
            TagFieldData::LongBlockFlags(n) => FieldValue::Number { kind: TagFieldType::LongBlockFlags, value: *n as int },
            TagFieldData::RgbColor(n) => FieldValue::Number { kind: TagFieldType::RgbColor, value: *n as int },
            TagFieldData::ArgbColor(n) => FieldValue::Number { kind: TagFieldType::ArgbColor, value: *n as int },
            TagFieldData::CharEnum { value, name } => FieldValue::Enum {
                kind: TagFieldType::CharEnum,
                value: *value as int,
                name: text_option(*name),
            },
            TagFieldData::ShortEnum { value, name } => FieldValue::Enum {
                kind: TagFieldType::ShortEnum,
                value: *value as int,
                name: text_option(*name),
            },
            TagFieldData::LongEnum { value, name } => FieldValue::Enum {
                kind: TagFieldType::LongEnum,
                value: *value as int,
                name: text_option(*name),
            },
            TagFieldData::ByteFlags { value, names } => FieldValue::Flags {
                kind: TagFieldType::ByteFlags,
                value: *value as int,
                names: flag_names(names@),
            },
            TagFieldData::WordFlags { value, names } => FieldValue::Flags {
                kind: TagFieldType::WordFlags,
                value: *value as int,
                names: flag_names(names@),
            },
            TagFieldData::LongFlags { value, names } => FieldValue::Flags {
                kind: TagFieldType::LongFlags,
                value: *value as int,
                names: flag_names(names@),
            },
            TagFieldData::Point2d(a, b) => FieldValue::Shorts { kind: TagFieldType::Point2d, values: seq![*a, *b] },
            TagFieldData::Rectangle2d(a, b, c, d) => FieldValue::Shorts { kind: TagFieldType::Rectangle2d, values: seq![*a, *b, *c, *d] },
            TagFieldData::ShortIntegerBounds(a, b) => FieldValue::Shorts { kind: TagFieldType::ShortIntegerBounds, values: seq![*a, *b] },
            TagFieldData::Angle(a) => FieldValue::Reals { kind: TagFieldType::Angle, bits: seq![*a] },
            TagFieldData::Real(a) => FieldValue::Reals { kind: TagFieldType::Real, bits: seq![*a] },
            TagFieldData::RealSlider(a) => FieldValue::Reals { kind: TagFieldType::RealSlider, bits: seq![*a] },
            TagFieldData::RealFraction(a) => FieldValue::Reals { kind: TagFieldType::RealFraction, bits: seq![*a] },
            TagFieldData::RealPoint2d(a, b) => FieldValue::Reals { kind: TagFieldType::RealPoint2d, bits: seq![*a, *b] },
            TagFieldData::RealPoint3d(a, b, c) => FieldValue::Reals { kind: TagFieldType::RealPoint3d, bits: seq![*a, *b, *c] },
            TagFieldData::RealVector2d(a, b) => FieldValue::Reals { kind: TagFieldType::RealVector2d, bits: seq![*a, *b] },
            TagFieldData::RealVector3d(a, b, c) => FieldValue::Reals { kind: TagFieldType::RealVector3d, bits: seq![*a, *b, *c] },
            TagFieldData::RealQuaternion(a, b, c, d) => FieldValue::Reals { kind: TagFieldType::RealQuaternion, bits: seq![*a, *b, *c, *d] },
            TagFieldData::RealEulerAngles2d(a, b) => FieldValue::Reals { kind: TagFieldType::RealEulerAngles2d, bits: seq![*a, *b] },
            TagFieldData::RealEulerAngles3d(a, b, c) => FieldValue::Reals { kind: TagFieldType::RealEulerAngles3d, bits: seq![*a, *b, *c] },
            TagFieldData::RealPlane2d(a, b, c) => FieldValue::Reals { kind: TagFieldType::RealPlane2d, bits: seq![*a, *b, *c] },
            TagFieldData::RealPlane3d(a, b, c, d) => FieldValue::Reals { kind: TagFieldType::RealPlane3d, bits: seq![*a, *b, *c, *d] },
            TagFieldData::RealRgbColor(a, b, c) => FieldValue::Reals { kind: TagFieldType::RealRgbColor, bits: seq![*a, *b, *c] },
            TagFieldData::RealArgbColor(a, b, c, d) => FieldValue::Reals { kind: TagFieldType::RealArgbColor, bits: seq![*a, *b, *c, *d] },
            TagFieldData::RealHsvColor(a, b, c) => FieldValue::Reals { kind: TagFieldType::RealHsvColor, bits: seq![*a, *b, *c] },
            TagFieldData::RealAhsvColor(a, b, c, d) => FieldValue::Reals { kind: TagFieldType::RealAhsvColor, bits: seq![*a, *b, *c, *d] },
            TagFieldData::AngleBounds(a, b) => FieldValue::Reals { kind: TagFieldType::AngleBounds, bits: seq![*a, *b] },
            TagFieldData::RealBounds(a, b) => FieldValue::Reals { kind: TagFieldType::RealBounds, bits: seq![*a, *b] },
            TagFieldData::FractionBounds(a, b) => FieldValue::Reals { kind: TagFieldType::FractionBounds, bits: seq![*a, *b] },
        }
    }

    /// The type of field that holds such a value.
    pub fn kind(&self) -> (r: TagFieldType)
        ensures
            r == self@.kind(),
    {
        match self {
            TagFieldData::String(_) => TagFieldType::String,
            TagFieldData::LongString(_) => TagFieldType::LongString,
            TagFieldData::StringId(_) => TagFieldType::StringId,
            TagFieldData::OldStringId(_) => TagFieldType::OldStringId,
            TagFieldData::TagReference(_) => TagFieldType::TagReference,
            TagFieldData::Data(_) => TagFieldType::Data,
            TagFieldData::Custom(_) => TagFieldType::Custom,
            TagFieldData::ApiInterop(_) => TagFieldType::ApiInterop,
            TagFieldData::CharInteger(_) => TagFieldType::CharInteger,
            TagFieldData::ShortInteger(_) => TagFieldType::ShortInteger,
            TagFieldData::LongInteger(_) => TagFieldType::LongInteger,
            TagFieldData::Int64Integer(_) => TagFieldType::Int64Integer,
            TagFieldData::ByteInteger(_) => TagFieldType::ByteInteger,
            TagFieldData::WordInteger(_) => TagFieldType::WordInteger,
            TagFieldData::DwordInteger(_) => TagFieldType::DwordInteger,
            TagFieldData::QwordInteger(_) => TagFieldType::QwordInteger,
            TagFieldData::CharBlockIndex(_) => TagFieldType::CharBlockIndex,
            TagFieldData::CustomCharBlockIndex(_) => TagFieldType::CustomCharBlockIndex,
            TagFieldData::ShortBlockIndex(_) => TagFieldType::ShortBlockIndex,
            TagFieldData::CustomShortBlockIndex(_) => TagFieldType::CustomShortBlockIndex,
            TagFieldData::LongBlockIndex(_) => TagFieldType::LongBlockIndex,
            TagFieldData::CustomLongBlockIndex(_) => TagFieldType::CustomLongBlockIndex,
            TagFieldData::Tag(_) => TagFieldType::Tag,
            TagFieldData::ByteBlockFlags(_) => TagFieldType::ByteBlockFlags,
            TagFieldData::WordBlockFlags(_) => TagFieldType::WordBlockFlags,
            TagFieldData::LongBlockFlags(_) => TagFieldType::LongBlockFlags,
            TagFieldData::RgbColor(_) => TagFieldType::RgbColor,
            TagFieldData::ArgbColor(_) => TagFieldType::ArgbColor,
            TagFieldData::CharEnum { .. } => TagFieldType::CharEnum,
            TagFieldData::ShortEnum { .. } => TagFieldType::ShortEnum,
            TagFieldData::LongEnum { .. } => TagFieldType::LongEnum,
            TagFieldData::ByteFlags { .. } => TagFieldType::ByteFlags,
            TagFieldData::WordFlags { .. } => TagFieldType::WordFlags,
            TagFieldData::LongFlags { .. } => TagFieldType::LongFlags,
            TagFieldData::Point2d(..) => TagFieldType::Point2d,
            TagFieldData::Rectangle2d(..) => TagFieldType::Rectangle2d,
            TagFieldData::ShortIntegerBounds(..) => TagFieldType::ShortIntegerBounds,
            TagFieldData::Angle(..) => TagFieldType::Angle,
            TagFieldData::Real(..) => TagFieldType::Real,
            TagFieldData::RealSlider(..) => TagFieldType::RealSlider,
            TagFieldData::RealFraction(..) => TagFieldType::RealFraction,
            TagFieldData::RealPoint2d(..) => TagFieldType::RealPoint2d,
            TagFieldData::RealPoint3d(..) => TagFieldType::RealPoint3d,
            TagFieldData::RealVector2d(..) => TagFieldType::RealVector2d,
            TagFieldData::RealVector3d(..) => TagFieldType::RealVector3d,
            TagFieldData::RealQuaternion(..) => TagFieldType::RealQuaternion,
            TagFieldData::RealEulerAngles2d(..) => TagFieldType::RealEulerAngles2d,
            TagFieldData::RealEulerAngles3d(..) => TagFieldType::RealEulerAngles3d,
            TagFieldData::RealPlane2d(..) => TagFieldType::RealPlane2d,
            TagFieldData::RealPlane3d(..) => TagFieldType::RealPlane3d,
            TagFieldData::RealRgbColor(..) => TagFieldType::RealRgbColor,
            TagFieldData::RealArgbColor(..) => TagFieldType::RealArgbColor,
            TagFieldData::RealHsvColor(..) => TagFieldType::RealHsvColor,
            TagFieldData::RealAhsvColor(..) => TagFieldType::RealAhsvColor,
            TagFieldData::AngleBounds(..) => TagFieldType::AngleBounds,
            TagFieldData::RealBounds(..) => TagFieldType::RealBounds,
            TagFieldData::FractionBounds(..) => TagFieldType::FractionBounds,
        }
    }

    /// A copy of the value.
    pub fn duplicate(&self) -> (r: TagFieldData)
        ensures
            r@ == self@,
    {
        match self {
            TagFieldData::String(s) => TagFieldData::String(copy(s)),
            TagFieldData::LongString(s) => TagFieldData::LongString(copy(s)),
            TagFieldData::StringId(s) => TagFieldData::StringId(copy(s)),
            TagFieldData::OldStringId(s) => TagFieldData::OldStringId(copy(s)),
            TagFieldData::TagReference(r) => TagFieldData::TagReference(
                TagReferenceData { group_tag_and_name: copy_reference(&r.group_tag_and_name) },
            ),
            TagFieldData::Data(b) => TagFieldData::Data(copy_bytes(b)),
            TagFieldData::Custom(b) => TagFieldData::Custom(copy_bytes(b)),
            TagFieldData::ApiInterop(b) => TagFieldData::ApiInterop(copy_bytes(b)),
            TagFieldData::CharInteger(n) => TagFieldData::CharInteger(*n),
            TagFieldData::ShortInteger(n) => TagFieldData::ShortInteger(*n),
            TagFieldData::LongInteger(n) => TagFieldData::LongInteger(*n),
            TagFieldData::Int64Integer(n) => TagFieldData::Int64Integer(*n),
            TagFieldData::ByteInteger(n) => TagFieldData::ByteInteger(*n),
            TagFieldData::WordInteger(n) => TagFieldData::WordInteger(*n),
            TagFieldData::DwordInteger(n) => TagFieldData::DwordInteger(*n),
            TagFieldData::QwordInteger(n) => TagFieldData::QwordInteger(*n),
            TagFieldData::CharBlockIndex(n) => TagFieldData::CharBlockIndex(*n),
            TagFieldData::CustomCharBlockIndex(n) => TagFieldData::CustomCharBlockIndex(*n),
            TagFieldData::ShortBlockIndex(n) => TagFieldData::ShortBlockIndex(*n),
            TagFieldData::CustomShortBlockIndex(n) => TagFieldData::CustomShortBlockIndex(*n),
            TagFieldData::LongBlockIndex(n) => TagFieldData::LongBlockIndex(*n),
            TagFieldData::CustomLongBlockIndex(n) => TagFieldData::CustomLongBlockIndex(*n),
            TagFieldData::Tag(n) => TagFieldData::Tag(*n),
            TagFieldData::ByteBlockFlags(n) => TagFieldData::ByteBlockFlags(*n),
            TagFieldData::WordBlockFlags(n) => TagFieldData::WordBlockFlags(*n),
            TagFieldData::LongBlockFlags(n) => TagFieldData::LongBlockFlags(*n),
            TagFieldData::RgbColor(n) => TagFieldData::RgbColor(*n),
            TagFieldData::ArgbColor(n) => TagFieldData::ArgbColor(*n),
            TagFieldData::CharEnum { value, name } => TagFieldData::CharEnum {
                value: *value,
                name: copy_text_option(name),
            },
            TagFieldData::ShortEnum { value, name } => TagFieldData::ShortEnum {
                value: *value,
                name: copy_text_option(name),
            },
            TagFieldData::LongEnum { value, name } => TagFieldData::LongEnum {
                value: *value,
                name: copy_text_option(name),
            },
            TagFieldData::ByteFlags { value, names } => TagFieldData::ByteFlags {
                value: *value,
                names: copy_flag_names(names),
            },
            TagFieldData::WordFlags { value, names } => TagFieldData::WordFlags {
                value: *value,
                names: copy_flag_names(names),
            },
            TagFieldData::LongFlags { value, names } => TagFieldData::LongFlags {
                value: *value,
                names: copy_flag_names(names),
            },
            TagFieldData::Point2d(a, b) => TagFieldData::Point2d(*a, *b),
            TagFieldData::Rectangle2d(a, b, c, d) => TagFieldData::Rectangle2d(*a, *b, *c, *d),
            TagFieldData::ShortIntegerBounds(a, b) => TagFieldData::ShortIntegerBounds(*a, *b),
            TagFieldData::Angle(a) => TagFieldData::Angle(*a),
            TagFieldData::Real(a) => TagFieldData::Real(*a),
            TagFieldData::RealSlider(a) => TagFieldData::RealSlider(*a),
            TagFieldData::RealFraction(a) => TagFieldData::RealFraction(*a),
            TagFieldData::RealPoint2d(a, b) => TagFieldData::RealPoint2d(*a, *b),
            TagFieldData::RealPoint3d(a, b, c) => TagFieldData::RealPoint3d(*a, *b, *c),
            TagFieldData::RealVector2d(a, b) => TagFieldData::RealVector2d(*a, *b),
            TagFieldData::RealVector3d(a, b, c) => TagFieldData::RealVector3d(*a, *b, *c),
            TagFieldData::RealQuaternion(a, b, c, d) => TagFieldData::RealQuaternion(*a, *b, *c, *d),
            TagFieldData::RealEulerAngles2d(a, b) => TagFieldData::RealEulerAngles2d(*a, *b),
            TagFieldData::RealEulerAngles3d(a, b, c) => TagFieldData::RealEulerAngles3d(*a, *b, *c),
            TagFieldData::RealPlane2d(a, b, c) => TagFieldData::RealPlane2d(*a, *b, *c),
            TagFieldData::RealPlane3d(a, b, c, d) => TagFieldData::RealPlane3d(*a, *b, *c, *d),
            TagFieldData::RealRgbColor(a, b, c) => TagFieldData::RealRgbColor(*a, *b, *c),
            TagFieldData::RealArgbColor(a, b, c, d) => TagFieldData::RealArgbColor(*a, *b, *c, *d),
            TagFieldData::RealHsvColor(a, b, c) => TagFieldData::RealHsvColor(*a, *b, *c),
            TagFieldData::RealAhsvColor(a, b, c, d) => TagFieldData::RealAhsvColor(*a, *b, *c, *d),
            TagFieldData::AngleBounds(a, b) => TagFieldData::AngleBounds(*a, *b),
            TagFieldData::RealBounds(a, b) => TagFieldData::RealBounds(*a, *b),
            TagFieldData::FractionBounds(a, b) => TagFieldData::FractionBounds(*a, *b),
        }
    }
}

/// The number of bytes that a reset interop value holds, its address all ones.
pub open spec fn interop_reset() -> Seq<u8> {
    seq![0u8, 0u8, 0u8, 0u8, 0xffu8, 0xffu8, 0xffu8, 0xffu8, 0u8, 0u8, 0u8, 0u8]
}

/// Whether a type is one of the block indices, whose null value is -1.
pub open spec fn block_index_type(t: TagFieldType) -> bool {
    match t {
        TagFieldType::CharBlockIndex | TagFieldType::CustomCharBlockIndex
        | TagFieldType::ShortBlockIndex | TagFieldType::CustomShortBlockIndex
        | TagFieldType::LongBlockIndex | TagFieldType::CustomLongBlockIndex => true,
        _ => false,
    }
}

/// The default of a field that holds `v`: empty, zero, or -1 for a block index.
pub open spec fn default_of(v: FieldValue) -> FieldValue {
    match v {
        FieldValue::Text { kind, .. } => FieldValue::Text { kind, text: Seq::empty() },
        FieldValue::Reference(_) => FieldValue::Reference(None),
        FieldValue::Bytes { kind, bytes } => FieldValue::Bytes {
            kind,
            bytes: match kind {
                TagFieldType::ApiInterop => interop_reset(),
                TagFieldType::Custom => Seq::new(bytes.len(), |i: int| 0u8),
                _ => Seq::empty(),
            },
        },
        FieldValue::Number { kind, .. } => FieldValue::Number {
            kind,
            value: if block_index_type(kind) {
                -1
            } else {
                0
            },
        },
        FieldValue::Enum { kind, .. } => FieldValue::Enum { kind, value: 0, name: None },
        FieldValue::Flags { kind, .. } => FieldValue::Flags {
            kind,
            value: 0,
            names: Seq::empty(),
        },
        FieldValue::Shorts { kind, values } => FieldValue::Shorts {
            kind,
            values: Seq::new(values.len(), |i: int| 0i16),
        },
        FieldValue::Reals { kind, bits } => FieldValue::Reals {
            kind,
            bits: Seq::new(bits.len(), |i: int| 0u32),
        },
    }
}

/// `n` zero bytes.
pub fn zero_bytes(n: usize) -> (r: Vec<u8>)
    ensures
        r@ == Seq::new(n as nat, |i: int| 0u8),
{
    let mut r: Vec<u8> = Vec::new();
    let mut i: usize = 0;
    while i < n
        invariant
            i <= n,
            r@ == Seq::new(i as nat, |j: int| 0u8),
        decreases n - i,
    {
        r.push(0u8);
        i = i + 1;
        assert(r@ =~= Seq::new(i as nat, |j: int| 0u8));
    }
    r
}

/// The bytes of a reset interop value.
pub fn interop_reset_bytes() -> (r: Vec<u8>)
    ensures
        r@ == interop_reset(),
{
    let r: Vec<u8> = vec![0u8, 0, 0, 0, 0xff, 0xff, 0xff, 0xff, 0, 0, 0, 0];
    assert(r@ =~= interop_reset());
    r
}

/// The default of a field that holds `value`.
pub fn default_field_value(value: &TagFieldData) -> (r: TagFieldData)
    ensures
        r@ == default_of(value@),
{
    let r: TagFieldData = match value {
        TagFieldData::String(_) => TagFieldData::String(String::new()),
        TagFieldData::LongString(_) => TagFieldData::LongString(String::new()),
        TagFieldData::StringId(_) => TagFieldData::StringId(String::new()),
        TagFieldData::OldStringId(_) => TagFieldData::OldStringId(String::new()),
        TagFieldData::TagReference(_) => TagFieldData::TagReference(
            TagReferenceData { group_tag_and_name: None },
        ),
        TagFieldData::Data(_) => TagFieldData::Data(Vec::new()),
        TagFieldData::Custom(bytes) => TagFieldData::Custom(zero_bytes(bytes.len())),
        TagFieldData::ApiInterop(_) => TagFieldData::ApiInterop(interop_reset_bytes()),
        TagFieldData::CharInteger(_) => TagFieldData::CharInteger(0),
        TagFieldData::ShortInteger(_) => TagFieldData::ShortInteger(0),
        TagFieldData::LongInteger(_) => TagFieldData::LongInteger(0),
        TagFieldData::Int64Integer(_) => TagFieldData::Int64Integer(0),
        TagFieldData::ByteInteger(_) => TagFieldData::ByteInteger(0),
        TagFieldData::WordInteger(_) => TagFieldData::WordInteger(0),
        TagFieldData::DwordInteger(_) => TagFieldData::DwordInteger(0),
        TagFieldData::QwordInteger(_) => TagFieldData::QwordInteger(0),
        TagFieldData::CharBlockIndex(_) => TagFieldData::CharBlockIndex(-1),
        TagFieldData::CustomCharBlockIndex(_) => TagFieldData::CustomCharBlockIndex(-1),
        TagFieldData::ShortBlockIndex(_) => TagFieldData::ShortBlockIndex(-1),
        TagFieldData::CustomShortBlockIndex(_) => TagFieldData::CustomShortBlockIndex(-1),
        TagFieldData::LongBlockIndex(_) => TagFieldData::LongBlockIndex(-1),
        TagFieldData::CustomLongBlockIndex(_) => TagFieldData::CustomLongBlockIndex(-1),
        TagFieldData::Tag(_) => TagFieldData::Tag(0),
        TagFieldData::ByteBlockFlags(_) => TagFieldData::ByteBlockFlags(0),
        TagFieldData::WordBlockFlags(_) => TagFieldData::WordBlockFlags(0),
        TagFieldData::LongBlockFlags(_) => TagFieldData::LongBlockFlags(0),
        TagFieldData::RgbColor(_) => TagFieldData::RgbColor(0),
        TagFieldData::ArgbColor(_) => TagFieldData::ArgbColor(0),
        TagFieldData::CharEnum { .. } => TagFieldData::CharEnum { value: 0, name: None },
        TagFieldData::ShortEnum { .. } => TagFieldData::ShortEnum { value: 0, name: None },
        TagFieldData::LongEnum { .. } => TagFieldData::LongEnum { value: 0, name: None },
        TagFieldData::ByteFlags { .. } => TagFieldData::ByteFlags { value: 0, names: Vec::new() },
        TagFieldData::WordFlags { .. } => TagFieldData::WordFlags { value: 0, names: Vec::new() },
        TagFieldData::LongFlags { .. } => TagFieldData::LongFlags { value: 0, names: Vec::new() },
        TagFieldData::Point2d(..) => TagFieldData::Point2d(0, 0),
        TagFieldData::Rectangle2d(..) => TagFieldData::Rectangle2d(0, 0, 0, 0),
        TagFieldData::ShortIntegerBounds(..) => TagFieldData::ShortIntegerBounds(0, 0),
        TagFieldData::Angle(..) => TagFieldData::Angle(0),
        TagFieldData::Real(..) => TagFieldData::Real(0),
        TagFieldData::RealSlider(..) => TagFieldData::RealSlider(0),
        TagFieldData::RealFraction(..) => TagFieldData::RealFraction(0),
        TagFieldData::RealPoint2d(..) => TagFieldData::RealPoint2d(0, 0),
        TagFieldData::RealPoint3d(..) => TagFieldData::RealPoint3d(0, 0, 0),
        TagFieldData::RealVector2d(..) => TagFieldData::RealVector2d(0, 0),
        TagFieldData::RealVector3d(..) => TagFieldData::RealVector3d(0, 0, 0),
        TagFieldData::RealQuaternion(..) => TagFieldData::RealQuaternion(0, 0, 0, 0),
        TagFieldData::RealEulerAngles2d(..) => TagFieldData::RealEulerAngles2d(0, 0),
        TagFieldData::RealEulerAngles3d(..) => TagFieldData::RealEulerAngles3d(0, 0, 0),
        TagFieldData::RealPlane2d(..) => TagFieldData::RealPlane2d(0, 0, 0),
        TagFieldData::RealPlane3d(..) => TagFieldData::RealPlane3d(0, 0, 0, 0),
        TagFieldData::RealRgbColor(..) => TagFieldData::RealRgbColor(0, 0, 0),
        TagFieldData::RealArgbColor(..) => TagFieldData::RealArgbColor(0, 0, 0, 0),
        TagFieldData::RealHsvColor(..) => TagFieldData::RealHsvColor(0, 0, 0),
        TagFieldData::RealAhsvColor(..) => TagFieldData::RealAhsvColor(0, 0, 0, 0),
        TagFieldData::AngleBounds(..) => TagFieldData::AngleBounds(0, 0),
        TagFieldData::RealBounds(..) => TagFieldData::RealBounds(0, 0),
        TagFieldData::FractionBounds(..) => TagFieldData::FractionBounds(0, 0),
    };
    proof {
        match (r@, default_of(value@)) {
            (FieldValue::Text { text: a, .. }, FieldValue::Text { text: b, .. }) => assert(a =~= b),
            (FieldValue::Bytes { bytes: a, .. }, FieldValue::Bytes { bytes: b, .. }) => assert(a
                =~= b),
            (FieldValue::Flags { names: a, .. }, FieldValue::Flags { names: b, .. }) => assert(a
                =~= b),
            (FieldValue::Shorts { values: a, .. }, FieldValue::Shorts { values: b, .. }) => assert(a
                =~= b),
            (FieldValue::Reals { bits: a, .. }, FieldValue::Reals { bits: b, .. }) => assert(a
                =~= b),
            _ => {},
        }
    }
    r
}

/// Whether a bit pattern is that of zero, of either sign.
pub open spec fn is_zero_real(bits: u32) -> bool {
    bits == 0 || bits == 0x8000_0000
}

/// Whether some byte is not zero.
#[verifier::opaque]
pub open spec fn some_nonzero(bytes: Seq<u8>) -> bool {
    exists|i: int| 0 <= i < bytes.len() && (#[trigger] bytes[i]) != 0
}

/// Whether some short integer is not zero.
#[verifier::opaque]
pub open spec fn some_short(values: Seq<i16>) -> bool {
    exists|i: int| 0 <= i < values.len() && (#[trigger] values[i]) != 0
}

/// Whether some real number is not zero.
#[verifier::opaque]
pub open spec fn some_real(bits: Seq<u32>) -> bool {
    exists|i: int| 0 <= i < bits.len() && !is_zero_real(#[trigger] bits[i])
}

/// Whether a value says anything: whether it is not empty and not zero.
pub open spec fn meaningful(v: FieldValue) -> bool {
    match v {
        FieldValue::Text { text, .. } => text.len() > 0,
        FieldValue::Reference(r) => r is Some,
        FieldValue::Bytes { bytes, .. } => some_nonzero(bytes),
        FieldValue::Number { value, .. } => value != 0,
        FieldValue::Enum { value, .. } => value != 0,
        FieldValue::Flags { value, .. } => value != 0,
        FieldValue::Shorts { values, .. } => some_short(values),
        FieldValue::Reals { bits, .. } => some_real(bits),
    }
}

/// Whether some byte is not zero.
fn any_nonzero(v: &Vec<u8>) -> (r: bool)
    ensures
        r == some_nonzero(v@),
{
    proof {
        reveal(some_nonzero);
    }
    let mut i: usize = 0;
    while i < v.len()
        invariant
            i <= v.len(),
            forall|j: int| 0 <= j < i ==> v@[j] == 0,
        decreases v.len() - i,
    {
        if v[i] != 0 {
            assert(some_nonzero(v@)) by {
                reveal(some_nonzero);
                assert(v@[i as int] != 0);
            }
            return true;
        }
        i = i + 1;
    }
    false
}

fn nonzero_real(bits: u32) -> (r: bool)
    ensures
        r == !is_zero_real(bits),
{
    bits != 0 && bits != 0x8000_0000
}


fn any_short2(a: i16, b: i16) -> (r: bool)
    ensures
        r == some_short(seq![a, b]),
{
    proof {
        reveal(some_short);
    }
    let ghost v = seq![a, b];
    assert(v[0] == a);
    assert(v[1] == b);
    a != 0 || b != 0
}

fn any_short4(a: i16, b: i16, c: i16, d: i16) -> (r: bool)
    ensures
        r == some_short(seq![a, b, c, d]),
{
    proof {
        reveal(some_short);
    }
    let ghost v = seq![a, b, c, d];
    assert(v[0] == a);
    assert(v[1] == b);
    assert(v[2] == c);
    assert(v[3] == d);
    a != 0 || b != 0 || c != 0 || d != 0
}

fn any_real1(a: u32) -> (r: bool)
    ensures
        r == some_real(seq![a]),
{
    proof {
        reveal(some_real);
    }
    let ghost v = seq![a];
    assert(v[0] == a);
    nonzero_real(a)
}

fn any_real2(a: u32, b: u32) -> (r: bool)
    ensures
        r == some_real(seq![a, b]),
{
    proof {
        reveal(some_real);
    }
    let ghost v = seq![a, b];
    assert(v[0] == a);
    assert(v[1] == b);
    nonzero_real(a) || nonzero_real(b)
}

fn any_real3(a: u32, b: u32, c: u32) -> (r: bool)
    ensures
        r == some_real(seq![a, b, c]),
{
    proof {
        reveal(some_real);
    }
    let ghost v = seq![a, b, c];
    assert(v[0] == a);
    assert(v[1] == b);
    assert(v[2] == c);
    nonzero_real(a) || nonzero_real(b) || nonzero_real(c)
}

fn any_real4(a: u32, b: u32, c: u32, d: u32) -> (r: bool)
    ensures
        r == some_real(seq![a, b, c, d]),
{
    proof {
        reveal(some_real);
    }
    let ghost v = seq![a, b, c, d];
    assert(v[0] == a);
    assert(v[1] == b);
    assert(v[2] == c);
    assert(v[3] == d);
    nonzero_real(a) || nonzero_real(b) || nonzero_real(c) || nonzero_real(d)
}

/// Whether a value made of several numbers holds one that is not zero.
fn parts_are_meaningful(value: &TagFieldData) -> (r: bool)
    requires
        value@ is Shorts || value@ is Reals,
    ensures
        r == meaningful(value@),
{
    match value {
        TagFieldData::Point2d(a, b) => any_short2(*a, *b),
        TagFieldData::Rectangle2d(a, b, c, d) => any_short4(*a, *b, *c, *d),
        TagFieldData::ShortIntegerBounds(a, b) => any_short2(*a, *b),
        TagFieldData::Angle(a) => any_real1(*a),
        TagFieldData::Real(a) => any_real1(*a),
        TagFieldData::RealSlider(a) => any_real1(*a),
        TagFieldData::RealFraction(a) => any_real1(*a),
        TagFieldData::RealPoint2d(a, b) => any_real2(*a, *b),
        TagFieldData::RealPoint3d(a, b, c) => any_real3(*a, *b, *c),
        TagFieldData::RealVector2d(a, b) => any_real2(*a, *b),
        TagFieldData::RealVector3d(a, b, c) => any_real3(*a, *b, *c),
        TagFieldData::RealQuaternion(a, b, c, d) => any_real4(*a, *b, *c, *d),
        TagFieldData::RealEulerAngles2d(a, b) => any_real2(*a, *b),
        TagFieldData::RealEulerAngles3d(a, b, c) => any_real3(*a, *b, *c),
        TagFieldData::RealPlane2d(a, b, c) => any_real3(*a, *b, *c),
        TagFieldData::RealPlane3d(a, b, c, d) => any_real4(*a, *b, *c, *d),
        TagFieldData::RealRgbColor(a, b, c) => any_real3(*a, *b, *c),
        TagFieldData::RealArgbColor(a, b, c, d) => any_real4(*a, *b, *c, *d),
        TagFieldData::RealHsvColor(a, b, c) => any_real3(*a, *b, *c),
        TagFieldData::RealAhsvColor(a, b, c, d) => any_real4(*a, *b, *c, *d),
        TagFieldData::AngleBounds(a, b) => any_real2(*a, *b),
        TagFieldData::RealBounds(a, b) => any_real2(*a, *b),
        TagFieldData::FractionBounds(a, b) => any_real2(*a, *b),
        _ => false,
    }
}

/// The number that a value is written as: an integer, the position of an option,
/// or the word of a set of flags.
pub open spec fn number_in(v: FieldValue) -> Option<int> {
    match v {
        FieldValue::Number { value, .. } => Some(value),
        FieldValue::Enum { value, .. } => Some(value),
        FieldValue::Flags { value, .. } => Some(value),
        _ => None,
    }
}

/// The number that a value is written as, where it is written as one.
pub fn number_value(value: &TagFieldData) -> (r: Option<i128>)
    ensures
        wide_option(r) == number_in(value@),
        r matches Some(n) ==> -0x8000_0000_0000_0000 <= n <= 0xffff_ffff_ffff_ffff,
{
    match value {
        TagFieldData::CharInteger(n) => Some(*n as i128),
        TagFieldData::ShortInteger(n) => Some(*n as i128),
        TagFieldData::LongInteger(n) => Some(*n as i128),
        TagFieldData::Int64Integer(n) => Some(*n as i128),
        TagFieldData::ByteInteger(n) => Some(*n as i128),
        TagFieldData::WordInteger(n) => Some(*n as i128),
        TagFieldData::DwordInteger(n) => Some(*n as i128),
        TagFieldData::QwordInteger(n) => Some(*n as i128),
        TagFieldData::CharBlockIndex(n) => Some(*n as i128),
        TagFieldData::CustomCharBlockIndex(n) => Some(*n as i128),
        TagFieldData::ShortBlockIndex(n) => Some(*n as i128),
        TagFieldData::CustomShortBlockIndex(n) => Some(*n as i128),
        TagFieldData::LongBlockIndex(n) => Some(*n as i128),
        TagFieldData::CustomLongBlockIndex(n) => Some(*n as i128),
        TagFieldData::Tag(n) => Some(*n as i128),
        TagFieldData::ByteBlockFlags(n) => Some(*n as i128),
        TagFieldData::WordBlockFlags(n) => Some(*n as i128),
        TagFieldData::LongBlockFlags(n) => Some(*n as i128),
        TagFieldData::RgbColor(n) => Some(*n as i128),
        TagFieldData::ArgbColor(n) => Some(*n as i128),
        TagFieldData::CharEnum { value, .. } => Some(*value as i128),
        TagFieldData::ShortEnum { value, .. } => Some(*value as i128),
        TagFieldData::LongEnum { value, .. } => Some(*value as i128),
        TagFieldData::ByteFlags { value, .. } => Some(*value as i128),
        TagFieldData::WordFlags { value, .. } => Some(*value as i128),
        TagFieldData::LongFlags { value, .. } => Some(*value as i128),
        _ => None,
    }
}

pub fn value_is_meaningful(value: &TagFieldData) -> (r: bool)
    ensures
        r == meaningful(value@),
{
    if let Some(n) = number_value(value) {
        return n != 0;
    }
    match value {
        TagFieldData::String(s) => !s.as_str().is_empty(),
        TagFieldData::LongString(s) => !s.as_str().is_empty(),
        TagFieldData::StringId(s) => !s.as_str().is_empty(),
        TagFieldData::OldStringId(s) => !s.as_str().is_empty(),
        TagFieldData::TagReference(r) => r.group_tag_and_name.is_some(),
        TagFieldData::Data(b) => any_nonzero(b),
        TagFieldData::Custom(b) => any_nonzero(b),
        TagFieldData::ApiInterop(b) => any_nonzero(b),
        _ => parts_are_meaningful(value),
    }
}

/// A default says nothing, but for a block index, whose null is -1, and a reset
/// interop value, whose address is all ones.
pub proof fn a_default_is_not_meaningful(v: FieldValue)
    requires
        !block_index_type(v.kind()),
        v.kind() != TagFieldType::ApiInterop,
    ensures
        !meaningful(default_of(v)),
{
    reveal(some_nonzero);
    reveal(some_short);
    reveal(some_real);
}

/// The default of a default is that default.
pub proof fn defaults_are_stable(v: FieldValue)
    ensures
        default_of(default_of(v)) == default_of(v),
        default_of(v).kind() == v.kind(),
{
    match v {
        FieldValue::Bytes { kind, bytes } => {
            let once = default_of(v)->bytes;
            assert(default_of(default_of(v))->bytes =~= once);
        },
        FieldValue::Shorts { values, .. } => {
            assert(default_of(default_of(v))->values =~= default_of(v)->values);
        },
        FieldValue::Reals { bits, .. } => {
            assert(default_of(default_of(v))->bits =~= default_of(v)->bits);
        },
        _ => {},
    }
}

/// Whether a type holds an integer or a block index.
pub open spec fn integer_type(t: TagFieldType) -> bool {
    match t {
        TagFieldType::CharInteger
        | TagFieldType::ShortInteger
        | TagFieldType::LongInteger
        | TagFieldType::Int64Integer
        | TagFieldType::ByteInteger
        | TagFieldType::WordInteger
        | TagFieldType::DwordInteger
        | TagFieldType::QwordInteger
        | TagFieldType::CharBlockIndex
        | TagFieldType::CustomCharBlockIndex
        | TagFieldType::ShortBlockIndex
        | TagFieldType::CustomShortBlockIndex
        | TagFieldType::LongBlockIndex
        | TagFieldType::CustomLongBlockIndex => true,
        _ => false,
    }
}

/// Whether a type holds an integer or a block index.
pub fn is_integer_type(value: TagFieldType) -> (r: bool)
    ensures
        r == integer_type(value),
{
    match value {
        TagFieldType::CharInteger
        | TagFieldType::ShortInteger
        | TagFieldType::LongInteger
        | TagFieldType::Int64Integer
        | TagFieldType::ByteInteger
        | TagFieldType::WordInteger
        | TagFieldType::DwordInteger
        | TagFieldType::QwordInteger
        | TagFieldType::CharBlockIndex
        | TagFieldType::CustomCharBlockIndex
        | TagFieldType::ShortBlockIndex
        | TagFieldType::CustomShortBlockIndex
        | TagFieldType::LongBlockIndex
        | TagFieldType::CustomLongBlockIndex => true,
        _ => false,
    }
}

/// Whether a type holds a single real number.
pub open spec fn real_scalar(t: TagFieldType) -> bool {
    match t {
        TagFieldType::Angle
        | TagFieldType::Real
        | TagFieldType::RealSlider
        | TagFieldType::RealFraction => true,
        _ => false,
    }
}

/// Whether a type holds a single real number.
pub fn is_real_scalar(value: TagFieldType) -> (r: bool)
    ensures
        r == real_scalar(value),
{
    match value {
        TagFieldType::Angle
        | TagFieldType::Real
        | TagFieldType::RealSlider
        | TagFieldType::RealFraction => true,
        _ => false,
    }
}

/// Whether a type holds one of several options.
pub open spec fn enum_type(t: TagFieldType) -> bool {
    match t {
        TagFieldType::CharEnum
        | TagFieldType::ShortEnum
        | TagFieldType::LongEnum => true,
        _ => false,
    }
}

/// Whether a type holds one of several options.
pub fn is_enum_type(value: TagFieldType) -> (r: bool)
    ensures
        r == enum_type(value),
{
    match value {
        TagFieldType::CharEnum
        | TagFieldType::ShortEnum
        | TagFieldType::LongEnum => true,
        _ => false,
    }
}

/// Whether a type holds several of several options.
pub open spec fn flags_type(t: TagFieldType) -> bool {
    match t {
        TagFieldType::ByteFlags
        | TagFieldType::WordFlags
        | TagFieldType::LongFlags => true,
        _ => false,
    }
}

/// Whether a type holds several of several options.
pub fn is_flags_type(value: TagFieldType) -> (r: bool)
    ensures
        r == flags_type(value),
{
    match value {
        TagFieldType::ByteFlags
        | TagFieldType::WordFlags
        | TagFieldType::LongFlags => true,
        _ => false,
    }
}

/// Whether a type holds text inline.
pub open spec fn string_type(t: TagFieldType) -> bool {
    match t {
        TagFieldType::String
        | TagFieldType::LongString => true,
        _ => false,
    }
}

/// Whether a type holds text inline.
pub fn is_string_type(value: TagFieldType) -> (r: bool)
    ensures
        r == string_type(value),
{
    match value {
        TagFieldType::String
        | TagFieldType::LongString => true,
        _ => false,
    }
}

/// Whether a type holds an interned string.
pub open spec fn string_id_type(t: TagFieldType) -> bool {
    match t {
        TagFieldType::StringId
        | TagFieldType::OldStringId => true,
        _ => false,
    }
}

/// Whether a type holds an interned string.
pub fn is_string_id_type(value: TagFieldType) -> (r: bool)
    ensures
        r == string_id_type(value),
{
    match value {
        TagFieldType::StringId
        | TagFieldType::OldStringId => true,
        _ => false,
    }
}

/// Whether a type holds a signed integer.
pub open spec fn signed_integer(t: TagFieldType) -> bool {
    match t {
        TagFieldType::CharInteger
        | TagFieldType::ShortInteger
        | TagFieldType::LongInteger
        | TagFieldType::Int64Integer => true,
        _ => false,
    }
}

/// Whether a type holds a signed integer.
pub fn is_signed_integer(value: TagFieldType) -> (r: bool)
    ensures
        r == signed_integer(value),
{
    match value {
        TagFieldType::CharInteger
        | TagFieldType::ShortInteger
        | TagFieldType::LongInteger
        | TagFieldType::Int64Integer => true,
        _ => false,
    }
}

/// Whether a field of type `source` can be offered to one of type `target`.
pub open spec fn shapes_compatible(source: TagFieldType, target: TagFieldType) -> bool {
    ||| source == target
    ||| integer_type(source) && integer_type(target)
    ||| real_scalar(source) && real_scalar(target)
    ||| enum_type(source) && enum_type(target)
    ||| flags_type(source) && flags_type(target)
    ||| string_type(source) && string_type(target)
    ||| string_id_type(source) && string_id_type(target)
}

pub fn compatible_field_shapes(source: TagFieldType, target: TagFieldType) -> (r: bool)
    ensures
        r == shapes_compatible(source, target),
{
    source == target || (is_integer_type(source) && is_integer_type(target)) || (is_real_scalar(
        source,
    ) && is_real_scalar(target)) || (is_enum_type(source) && is_enum_type(target)) || (
    is_flags_type(source) && is_flags_type(target)) || (is_string_type(source) && is_string_type(
        target,
    )) || (is_string_id_type(source) && is_string_id_type(target))
}

/// Compatibility of shapes is an equivalence.
pub proof fn shape_compatibility_is_an_equivalence(
    a: TagFieldType,
    b: TagFieldType,
    c: TagFieldType,
)
    ensures
        shapes_compatible(a, a),
        shapes_compatible(a, b) == shapes_compatible(b, a),
        shapes_compatible(a, b) && shapes_compatible(b, c) ==> shapes_compatible(a, c),
{
}

/// The least and the greatest value that an integer type holds.
pub open spec fn integer_bounds(t: TagFieldType) -> (int, int) {
    match t {
        TagFieldType::CharInteger => (i8::MIN as int, i8::MAX as int),
        TagFieldType::ShortInteger => (i16::MIN as int, i16::MAX as int),
        TagFieldType::LongInteger => (i32::MIN as int, i32::MAX as int),
        TagFieldType::Int64Integer => (i64::MIN as int, i64::MAX as int),
        TagFieldType::ByteInteger => (u8::MIN as int, u8::MAX as int),
        TagFieldType::WordInteger => (u16::MIN as int, u16::MAX as int),
        TagFieldType::DwordInteger => (u32::MIN as int, u32::MAX as int),
        TagFieldType::QwordInteger => (u64::MIN as int, u64::MAX as int),
        TagFieldType::CharBlockIndex => (i8::MIN as int, i8::MAX as int),
        TagFieldType::CustomCharBlockIndex => (i8::MIN as int, i8::MAX as int),
        TagFieldType::ShortBlockIndex => (i16::MIN as int, i16::MAX as int),
        TagFieldType::CustomShortBlockIndex => (i16::MIN as int, i16::MAX as int),
        TagFieldType::LongBlockIndex => (i32::MIN as int, i32::MAX as int),
        TagFieldType::CustomLongBlockIndex => (i32::MIN as int, i32::MAX as int),
        _ => (0, 0),
    }
}

/// The number that an integer field holds.
pub open spec fn integer_of(v: FieldValue) -> Option<int> {
    match v {
        FieldValue::Number { kind, value } => if integer_type(kind) {
            Some(value)
        } else {
            None
        },
        _ => None,
    }
}

/// Whether an integer field of type `t` can hold `n`.
pub open spec fn integer_fits(t: TagFieldType, n: int) -> bool {
    integer_type(t) && integer_bounds(t).0 <= n <= integer_bounds(t).1
}

/// The view of an optional machine integer.
pub open spec fn wide_option(v: Option<i128>) -> Option<int> {
    match v {
        Some(n) => Some(n as int),
        None => None,
    }
}

/// The number that an integer value holds.
pub fn integer_value(value: &TagFieldData) -> (r: Option<i128>)
    ensures
        wide_option(r) == integer_of(value@),
        r matches Some(n) ==> integer_fits(value@.kind(), n as int),
{
    match value {
        TagFieldData::CharInteger(n) => Some(*n as i128),
        TagFieldData::ShortInteger(n) => Some(*n as i128),
        TagFieldData::LongInteger(n) => Some(*n as i128),
        TagFieldData::Int64Integer(n) => Some(*n as i128),
        TagFieldData::ByteInteger(n) => Some(*n as i128),
        TagFieldData::WordInteger(n) => Some(*n as i128),
        TagFieldData::DwordInteger(n) => Some(*n as i128),
        TagFieldData::QwordInteger(n) => Some(*n as i128),
        TagFieldData::CharBlockIndex(n) => Some(*n as i128),
        TagFieldData::CustomCharBlockIndex(n) => Some(*n as i128),
        TagFieldData::ShortBlockIndex(n) => Some(*n as i128),
        TagFieldData::CustomShortBlockIndex(n) => Some(*n as i128),
        TagFieldData::LongBlockIndex(n) => Some(*n as i128),
        TagFieldData::CustomLongBlockIndex(n) => Some(*n as i128),
        _ => None,
    }
}

/// The value of an integer field of type `field_type` that holds `value`, where
/// the type can hold it.
pub fn integer_field_value(field_type: TagFieldType, value: i128) -> (r: Option<TagFieldData>)
    ensures
        r is Some <==> integer_fits(field_type, value as int),
        r matches Some(v) ==> v@ == (FieldValue::Number { kind: field_type, value: value as int }),
{
    match field_type {
        TagFieldType::CharInteger => if i8::MIN as i128 <= value && value <= i8::MAX as i128 {
            Some(TagFieldData::CharInteger(value as i8))
        } else {
            None
        },
        TagFieldType::ShortInteger => if i16::MIN as i128 <= value && value <= i16::MAX as i128 {
            Some(TagFieldData::ShortInteger(value as i16))
        } else {
            None
        },
        TagFieldType::LongInteger => if i32::MIN as i128 <= value && value <= i32::MAX as i128 {
            Some(TagFieldData::LongInteger(value as i32))
        } else {
            None
        },
        TagFieldType::Int64Integer => if i64::MIN as i128 <= value && value <= i64::MAX as i128 {
            Some(TagFieldData::Int64Integer(value as i64))
        } else {
            None
        },
        TagFieldType::ByteInteger => if u8::MIN as i128 <= value && value <= u8::MAX as i128 {
            Some(TagFieldData::ByteInteger(value as u8))
        } else {
            None
        },
        TagFieldType::WordInteger => if u16::MIN as i128 <= value && value <= u16::MAX as i128 {
            Some(TagFieldData::WordInteger(value as u16))
        } else {
            None
        },
        TagFieldType::DwordInteger => if u32::MIN as i128 <= value && value <= u32::MAX as i128 {
            Some(TagFieldData::DwordInteger(value as u32))
        } else {
            None
        },
        TagFieldType::QwordInteger => if u64::MIN as i128 <= value && value <= u64::MAX as i128 {
            Some(TagFieldData::QwordInteger(value as u64))
        } else {
            None
        },
        TagFieldType::CharBlockIndex => if i8::MIN as i128 <= value && value <= i8::MAX as i128 {
            Some(TagFieldData::CharBlockIndex(value as i8))
        } else {
            None
        },
        TagFieldType::CustomCharBlockIndex => if i8::MIN as i128 <= value && value <= i8::MAX as i128 {
            Some(TagFieldData::CustomCharBlockIndex(value as i8))
        } else {
            None
        },
        TagFieldType::ShortBlockIndex => if i16::MIN as i128 <= value && value <= i16::MAX as i128 {
            Some(TagFieldData::ShortBlockIndex(value as i16))
        } else {
            None
        },
        TagFieldType::CustomShortBlockIndex => if i16::MIN as i128 <= value && value <= i16::MAX as i128 {
            Some(TagFieldData::CustomShortBlockIndex(value as i16))
        } else {
            None
        },
        TagFieldType::LongBlockIndex => if i32::MIN as i128 <= value && value <= i32::MAX as i128 {
            Some(TagFieldData::LongBlockIndex(value as i32))
        } else {
            None
        },
        TagFieldType::CustomLongBlockIndex => if i32::MIN as i128 <= value && value <= i32::MAX as i128 {
            Some(TagFieldData::CustomLongBlockIndex(value as i32))
        } else {
            None
        },
        _ => None,
    }
}

/// Writing a number into an integer field and reading it back gives the number;
/// reading an integer field and writing the number back gives the value.
pub proof fn integers_read_back(t: TagFieldType, n: int, v: FieldValue)
    ensures
        integer_fits(t, n) ==> integer_of(FieldValue::Number { kind: t, value: n }) == Some(n),
        integer_of(v) matches Some(m) ==> v == (FieldValue::Number { kind: v.kind(), value: m }),
{
}

/// The width in bytes of an integer field, where the type is an integer.
pub open spec fn width_of_integer(t: TagFieldType) -> Option<u32> {
    match t {
        TagFieldType::CharInteger | TagFieldType::ByteInteger => Some(1u32),
        TagFieldType::ShortInteger | TagFieldType::WordInteger => Some(2u32),
        TagFieldType::LongInteger | TagFieldType::DwordInteger => Some(4u32),
        TagFieldType::Int64Integer | TagFieldType::QwordInteger => Some(8u32),
        _ => None,
    }
}

/// Byte width of an integer field type, or `None` if it is not one.
pub fn integer_width(field_type: TagFieldType) -> (r: Option<u32>)
    ensures
        r == width_of_integer(field_type),
{
    match field_type {
        TagFieldType::CharInteger | TagFieldType::ByteInteger => Some(1),
        TagFieldType::ShortInteger | TagFieldType::WordInteger => Some(2),
        TagFieldType::LongInteger | TagFieldType::DwordInteger => Some(4),
        TagFieldType::Int64Integer | TagFieldType::QwordInteger => Some(8),
        _ => None,
    }
}

/// How many values a field of `width` bytes tells apart.
pub open spec fn value_count(width: u32) -> int {
    match width {
        1 => 0x100,
        2 => 0x1_0000,
        4 => 0x1_0000_0000,
        _ => 0x1_0000_0000_0000_0000,
    }
}

/// `value` as the bytes of a field of type `source` read under type `target`,
/// where the two differ in signedness alone; `value` itself otherwise.
pub open spec fn reinterpreted(source: TagFieldType, target: TagFieldType, value: int) -> int {
    match (width_of_integer(source), width_of_integer(target)) {
        (Some(a), Some(b)) => if a == b && signed_integer(source) != signed_integer(target) {
            let stored = value % value_count(a);
            if signed_integer(target) && stored >= value_count(a) / 2 {
                stored - value_count(a)
            } else {
                stored
            }
        } else {
            value
        },
        _ => value,
    }
}

/// Reinterpret `value` between two same-width integer types of different
/// signedness, leaving every other pair alone.
///
/// The two declare the same bytes. A signed -1 and an unsigned 255 in a one-byte
/// field are the same byte, and the engine reads the byte.
pub fn reinterpret_same_width_integer(
    source_type: TagFieldType,
    target_type: TagFieldType,
    value: i128,
) -> (r: i128)
    ensures
        r as int == reinterpreted(source_type, target_type, value as int),
        r == value || -0x1_0000_0000_0000_0000 < r < 0x1_0000_0000_0000_0000,
{
    let (source_width, target_width): (u32, u32) = match (
        integer_width(source_type),
        integer_width(target_type),
    ) {
        (Some(a), Some(b)) => (a, b),
        _ => {
            return value;
        },
    };
    if source_width != target_width || is_signed_integer(source_type) == is_signed_integer(
        target_type,
    ) {
        return value;
    }
    let count: i128 = match source_width {
        1 => 0x100,
        2 => 0x1_0000,
        4 => 0x1_0000_0000,
        _ => 0x1_0000_0000_0000_0000,
    };
    let stored: i128 = if value >= 0 {
        value % count
    } else {
        let mirrored: i128 = -(value + 1);
        proof {
            lemma_mirrored_remainder(value as int, count as int);
        }
        (count - 1) - mirrored % count
    };
    if is_signed_integer(target_type) && stored >= count / 2 {
        stored - count
    } else {
        stored
    }
}

/// The remainder of a negative number, by that of the number it mirrors.
proof fn lemma_mirrored_remainder(value: int, count: int)
    requires
        value < 0,
        count > 0,
    ensures
        value % count == count - 1 - (-(value + 1)) % count,
{
    let mirrored = -(value + 1);
    let q = mirrored / count;
    let r = mirrored % count;
    assert(mirrored == q * count + r && 0 <= r < count) by (nonlinear_arith)
        requires
            count > 0,
            q == mirrored / count,
            r == mirrored % count,
    ;
    assert(value == (-q - 1) * count + (count - 1 - r)) by (nonlinear_arith)
        requires
            mirrored == q * count + r,
            mirrored == -(value + 1),
    ;
    assert(value % count == count - 1 - r) by {
        vstd::arithmetic::div_mod::lemma_fundamental_div_mod_converse(
            value,
            count,
            -q - 1,
            count - 1 - r,
        );
    }
}

/// Reinterpreting a value that its type holds gives one that the other type
/// holds, and reinterpreting it back gives the value: the bytes are carried.
pub proof fn reinterpreting_loses_nothing(
    source: TagFieldType,
    target: TagFieldType,
    value: int,
)
    requires
        width_of_integer(source) is Some,
        width_of_integer(source) == width_of_integer(target),
        integer_fits(source, value),
    ensures
        integer_fits(target, reinterpreted(source, target, value)),
        reinterpreted(target, source, reinterpreted(source, target, value)) == value,
{
    if signed_integer(source) != signed_integer(target) {
        let count = value_count(width_of_integer(source)->0);
        if value < 0 {
            vstd::arithmetic::div_mod::lemma_fundamental_div_mod_converse(
                value,
                count,
                -1,
                value + count,
            );
        } else {
            vstd::arithmetic::div_mod::lemma_small_mod(value as nat, count as nat);
        }
        let there = reinterpreted(source, target, value);
        if there < 0 {
            vstd::arithmetic::div_mod::lemma_fundamental_div_mod_converse(
                there,
                count,
                -1,
                there + count,
            );
        } else {
            vstd::arithmetic::div_mod::lemma_small_mod(there as nat, count as nat);
        }
    }
}

/// The bit pattern that a single real number holds.
pub open spec fn real_of(v: FieldValue) -> Option<u32> {
    match v {
        FieldValue::Reals { kind, bits } => if real_scalar(kind) {
            Some(bits[0])
        } else {
            None
        },
        _ => None,
    }
}

/// The bit pattern of a single real number.
pub fn real_value(value: &TagFieldData) -> (r: Option<u32>)
    ensures
        r == real_of(value@),
{
    match value {
        TagFieldData::Angle(bits)
        | TagFieldData::Real(bits)
        | TagFieldData::RealSlider(bits)
        | TagFieldData::RealFraction(bits) => Some(*bits),
        _ => None,
    }
}

/// The type that a single real number is written under in a field of type `t`.
pub open spec fn real_kind(t: TagFieldType) -> TagFieldType {
    if real_scalar(t) {
        t
    } else {
        TagFieldType::Real
    }
}

/// The value of a real field of type `field_type` with the bit pattern `value`.
pub fn real_field_value(field_type: TagFieldType, value: u32) -> (r: TagFieldData)
    ensures
        r@ == (FieldValue::Reals { kind: real_kind(field_type), bits: seq![value] }),
{
    match field_type {
        TagFieldType::Angle => TagFieldData::Angle(value),
        TagFieldType::RealSlider => TagFieldData::RealSlider(value),
        TagFieldType::RealFraction => TagFieldData::RealFraction(value),
        _ => TagFieldData::Real(value),
    }
}

/// The options that an enum or flags field is declared with; a flag's bit and
/// its name.
#[derive(Debug, PartialEq, Eq)]
pub enum TagOptions {
    Absent,
    Enum(Vec<String>),
    Flags(Vec<(u32, String)>),
}

/// The options of a field as contracts speak of them.
pub ghost enum OptionsView {
    Absent,
    Enum(Seq<Seq<char>>),
    Flags(Seq<(u32, Seq<char>)>),
}

impl TagOptions {
    pub open spec fn view(&self) -> OptionsView {
        match self {
            TagOptions::Absent => OptionsView::Absent,
            TagOptions::Enum(names) => OptionsView::Enum(texts(names@)),
            TagOptions::Flags(flags) => OptionsView::Flags(flag_names(flags@)),
        }
    }

    pub fn duplicate(&self) -> (r: TagOptions)
        ensures
            r@ == self@,
    {
        match self {
            TagOptions::Absent => TagOptions::Absent,
            TagOptions::Enum(names) => TagOptions::Enum(copy_texts(names)),
            TagOptions::Flags(flags) => TagOptions::Flags(copy_flag_names(flags)),
        }
    }
}

/// Whether bit `bit` of `word` is set.
pub open spec fn bit_set(word: u32, bit: u32) -> bool {
    bit < 32 && (word >> bit) & 1 == 1
}

pub fn is_bit_set(word: u32, bit: u32) -> (r: bool)
    ensures
        r == bit_set(word, bit),
{
    bit < 32 && (word >> bit) & 1 == 1
}

/// The word that a set of flags is written as.
pub open spec fn flag_word(value: int) -> u32 {
    (if value < 0 {
        value + 0x1_0000_0000
    } else {
        value
    }) as u32
}

/// The declared flags whose bits are set in `word`, in declared order.
pub open spec fn set_flags(word: u32, flags: Seq<(u32, Seq<char>)>) -> Seq<(u32, Seq<char>)>
    decreases flags.len(),
{
    if flags.len() == 0 {
        Seq::empty()
    } else {
        let rest = set_flags(word, flags.drop_last());
        if bit_set(word, flags.last().0) {
            rest.push(flags.last())
        } else {
            rest
        }
    }
}

fn set_flags_of(word: u32, flags: &Vec<(u32, String)>) -> (r: Vec<(u32, String)>)
    ensures
        flag_names(r@) == set_flags(word, flag_names(flags@)),
{
    let mut r: Vec<(u32, String)> = Vec::new();
    let ghost all = flag_names(flags@);
    let mut i: usize = 0;
    assert(flag_names(r@) =~= set_flags(word, all.take(0)));
    while i < flags.len()
        invariant
            i <= flags.len(),
            all == flag_names(flags@),
            flag_names(r@) == set_flags(word, all.take(i as int)),
        decreases flags.len() - i,
    {
        assert(all.take(i + 1).drop_last() =~= all.take(i as int));
        if is_bit_set(word, flags[i].0) {
            let item: (u32, String) = (flags[i].0, copy(&flags[i].1));
            let ghost before = r@;
            r.push(item);
            assert(flag_names(r@) =~= flag_names(before).push((item.0, item.1@)));
        }
        i = i + 1;
    }
    assert(all.take(i as int) =~= all);
    r
}

/// A value as a field with `options` reads it back: the names of an option and of
/// set flags come from the field's own options.
pub open spec fn resolved(v: FieldValue, options: OptionsView) -> FieldValue {
    match v {
        FieldValue::Enum { kind, value, .. } => FieldValue::Enum {
            kind,
            value,
            name: match options {
                OptionsView::Enum(names) => if 0 <= value < names.len() {
                    Some(names[value])
                } else {
                    None
                },
                _ => None,
            },
        },
        FieldValue::Flags { kind, value, .. } => FieldValue::Flags {
            kind,
            value,
            names: match options {
                OptionsView::Flags(flags) => set_flags(flag_word(value), flags),
                _ => Seq::empty(),
            },
        },
        other => other,
    }
}

fn option_name_at(options: &TagOptions, value: i32) -> (r: Option<String>)
    ensures
        text_option(r) == match options@ {
            OptionsView::Enum(names) => if 0 <= value < names.len() {
                Some(names[value as int])
            } else {
                None
            },
            _ => None,
        },
{
    match options {
        TagOptions::Enum(names) => if 0 <= value && (value as usize) < names.len() {
            Some(copy(&names[value as usize]))
        } else {
            None
        },
        _ => None,
    }
}

fn flag_names_at(options: &TagOptions, word: u32) -> (r: Vec<(u32, String)>)
    ensures
        flag_names(r@) == match options@ {
            OptionsView::Flags(flags) => set_flags(word, flags),
            _ => Seq::empty(),
        },
{
    match options {
        TagOptions::Flags(flags) => set_flags_of(word, flags),
        _ => {
            let r: Vec<(u32, String)> = Vec::new();
            assert(flag_names(r@) =~= Seq::empty());
            r
        },
    }
}

/// `value` as a field with `options` reads it back.
pub fn resolve_value(value: TagFieldData, options: &TagOptions) -> (r: TagFieldData)
    ensures
        r@ == resolved(value@, options@),
{
    match value {
        TagFieldData::CharEnum { value, .. } => TagFieldData::CharEnum {
            value,
            name: option_name_at(options, value as i32),
        },
        TagFieldData::ShortEnum { value, .. } => TagFieldData::ShortEnum {
            value,
            name: option_name_at(options, value as i32),
        },
        TagFieldData::LongEnum { value, .. } => TagFieldData::LongEnum {
            value,
            name: option_name_at(options, value),
        },
        TagFieldData::ByteFlags { value, .. } => TagFieldData::ByteFlags {
            value,
            names: flag_names_at(options, value as u32),
        },
        TagFieldData::WordFlags { value, .. } => TagFieldData::WordFlags {
            value,
            names: flag_names_at(options, value as u32),
        },
        TagFieldData::LongFlags { value, .. } => {
            let word: u32 = if value < 0 {
                ((value as i64) + 0x1_0000_0000) as u32
            } else {
                value as u32
            };
            TagFieldData::LongFlags { value, names: flag_names_at(options, word) }
        },
        other => other,
    }
}

/// Resolving a value against a field's options keeps its type, its number and
/// whether it says anything, and resolving it again changes nothing.
pub proof fn resolving_keeps_the_value(v: FieldValue, options: OptionsView)
    ensures
        resolved(v, options).kind() == v.kind(),
        number_in(resolved(v, options)) == number_in(v),
        meaningful(resolved(v, options)) == meaningful(v),
        resolved(resolved(v, options), options) == resolved(v, options),
{
}

/// How many short integers a value of type `t` is made of.
pub open spec fn shorts_in(t: TagFieldType) -> Option<nat> {
    match t {

        TagFieldType::Point2d => Some(2),
        TagFieldType::Rectangle2d => Some(4),
        TagFieldType::ShortIntegerBounds => Some(2),
        _ => None,
    }
}

/// How many real numbers a value of type `t` is made of.
pub open spec fn reals_in(t: TagFieldType) -> Option<nat> {
    match t {
        TagFieldType::Angle => Some(1),
        TagFieldType::Real => Some(1),
        TagFieldType::RealSlider => Some(1),
        TagFieldType::RealFraction => Some(1),
        TagFieldType::RealPoint2d => Some(2),
        TagFieldType::RealPoint3d => Some(3),
        TagFieldType::RealVector2d => Some(2),
        TagFieldType::RealVector3d => Some(3),
        TagFieldType::RealQuaternion => Some(4),
        TagFieldType::RealEulerAngles2d => Some(2),
        TagFieldType::RealEulerAngles3d => Some(3),
        TagFieldType::RealPlane2d => Some(3),
        TagFieldType::RealPlane3d => Some(4),
        TagFieldType::RealRgbColor => Some(3),
        TagFieldType::RealArgbColor => Some(4),
        TagFieldType::RealHsvColor => Some(3),
        TagFieldType::RealAhsvColor => Some(4),
        TagFieldType::AngleBounds => Some(2),
        TagFieldType::RealBounds => Some(2),
        TagFieldType::FractionBounds => Some(2),
        _ => None,
    }
}

/// Whether a value of type `t` is a plain number.
pub open spec fn number_type(t: TagFieldType) -> bool {
    match t {
        TagFieldType::CharInteger
        | TagFieldType::ShortInteger
        | TagFieldType::LongInteger
        | TagFieldType::Int64Integer
        | TagFieldType::ByteInteger
        | TagFieldType::WordInteger
        | TagFieldType::DwordInteger
        | TagFieldType::QwordInteger
        | TagFieldType::CharBlockIndex
        | TagFieldType::CustomCharBlockIndex
        | TagFieldType::ShortBlockIndex
        | TagFieldType::CustomShortBlockIndex
        | TagFieldType::LongBlockIndex
        | TagFieldType::CustomLongBlockIndex
        | TagFieldType::Tag
        | TagFieldType::ByteBlockFlags
        | TagFieldType::WordBlockFlags
        | TagFieldType::LongBlockFlags
        | TagFieldType::RgbColor
        | TagFieldType::ArgbColor => true,
        _ => false,
    }
}

/// The value of a field of type `t` whose bytes are all zero, for the types that
/// hold a value.
pub open spec fn zero_of(t: TagFieldType) -> Option<FieldValue> {
    if string_type(t) || string_id_type(t) {
        Some(FieldValue::Text { kind: t, text: Seq::empty() })
    } else if t == TagFieldType::TagReference {
        Some(FieldValue::Reference(None))
    } else if t == TagFieldType::ApiInterop {
        Some(FieldValue::Bytes { kind: t, bytes: Seq::new(12, |i: int| 0u8) })
    } else if t == TagFieldType::Data || t == TagFieldType::Custom {
        Some(FieldValue::Bytes { kind: t, bytes: Seq::empty() })
    } else if number_type(t) {
        Some(FieldValue::Number { kind: t, value: 0 })
    } else if enum_type(t) {
        Some(FieldValue::Enum { kind: t, value: 0, name: None })
    } else if flags_type(t) {
        Some(FieldValue::Flags { kind: t, value: 0, names: Seq::empty() })
    } else {
        match (shorts_in(t), reals_in(t)) {
            (Some(n), _) => Some(FieldValue::Shorts { kind: t, values: Seq::new(n, |i: int| 0i16) }),
            (_, Some(n)) => Some(FieldValue::Reals { kind: t, bits: Seq::new(n, |i: int| 0u32) }),
            _ => None,
        }
    }
}

/// The view of an optional value.
pub open spec fn value_option(v: Option<TagFieldData>) -> Option<FieldValue> {
    match v {
        Some(v) => Some(v@),
        None => None,
    }
}

/// A zero number of type `t`.
fn zero_number(t: TagFieldType) -> (r: Option<TagFieldData>)
    ensures
        r is Some <==> number_type(t),
        r matches Some(v) ==> v@ == (FieldValue::Number { kind: t, value: 0 }),
{
    match t {

        TagFieldType::CharInteger => Some(TagFieldData::CharInteger(0)),
        TagFieldType::ShortInteger => Some(TagFieldData::ShortInteger(0)),
        TagFieldType::LongInteger => Some(TagFieldData::LongInteger(0)),
        TagFieldType::Int64Integer => Some(TagFieldData::Int64Integer(0)),
        TagFieldType::ByteInteger => Some(TagFieldData::ByteInteger(0)),
        TagFieldType::WordInteger => Some(TagFieldData::WordInteger(0)),
        TagFieldType::DwordInteger => Some(TagFieldData::DwordInteger(0)),
        TagFieldType::QwordInteger => Some(TagFieldData::QwordInteger(0)),
        TagFieldType::CharBlockIndex => Some(TagFieldData::CharBlockIndex(0)),
        TagFieldType::CustomCharBlockIndex => Some(TagFieldData::CustomCharBlockIndex(0)),
        TagFieldType::ShortBlockIndex => Some(TagFieldData::ShortBlockIndex(0)),
        TagFieldType::CustomShortBlockIndex => Some(TagFieldData::CustomShortBlockIndex(0)),
        TagFieldType::LongBlockIndex => Some(TagFieldData::LongBlockIndex(0)),
        TagFieldType::CustomLongBlockIndex => Some(TagFieldData::CustomLongBlockIndex(0)),
        TagFieldType::Tag => Some(TagFieldData::Tag(0)),
        TagFieldType::ByteBlockFlags => Some(TagFieldData::ByteBlockFlags(0)),
        TagFieldType::WordBlockFlags => Some(TagFieldData::WordBlockFlags(0)),
        TagFieldType::LongBlockFlags => Some(TagFieldData::LongBlockFlags(0)),
        TagFieldType::RgbColor => Some(TagFieldData::RgbColor(0)),
        TagFieldType::ArgbColor => Some(TagFieldData::ArgbColor(0)),
        _ => None,
    }
}

/// Zero short integers of type `t`.
fn zero_shorts(t: TagFieldType) -> (r: Option<TagFieldData>)
    ensures
        r is Some <==> shorts_in(t) is Some,
        r matches Some(v) ==> v@ == (FieldValue::Shorts {
            kind: t,
            values: Seq::new(shorts_in(t)->0, |i: int| 0i16),
        }),
{
    let r: Option<TagFieldData> = match t {

        TagFieldType::Point2d => Some(TagFieldData::Point2d(0, 0)),
        TagFieldType::Rectangle2d => Some(TagFieldData::Rectangle2d(0, 0, 0, 0)),
        TagFieldType::ShortIntegerBounds => Some(TagFieldData::ShortIntegerBounds(0, 0)),
        _ => None,
    };
    if let Some(v) = &r {
        assert(v@->values =~= Seq::new(shorts_in(t)->0, |i: int| 0i16));
    }
    r
}

/// Zero real numbers of type `t`.
fn zero_reals(t: TagFieldType) -> (r: Option<TagFieldData>)
    ensures
        r is Some <==> reals_in(t) is Some,
        r matches Some(v) ==> v@ == (FieldValue::Reals {
            kind: t,
            bits: Seq::new(reals_in(t)->0, |i: int| 0u32),
        }),
{
    let r: Option<TagFieldData> = match t {

        TagFieldType::Angle => Some(TagFieldData::Angle(0)),
        TagFieldType::Real => Some(TagFieldData::Real(0)),
        TagFieldType::RealSlider => Some(TagFieldData::RealSlider(0)),
        TagFieldType::RealFraction => Some(TagFieldData::RealFraction(0)),
        TagFieldType::RealPoint2d => Some(TagFieldData::RealPoint2d(0, 0)),
        TagFieldType::RealPoint3d => Some(TagFieldData::RealPoint3d(0, 0, 0)),
        TagFieldType::RealVector2d => Some(TagFieldData::RealVector2d(0, 0)),
        TagFieldType::RealVector3d => Some(TagFieldData::RealVector3d(0, 0, 0)),
        TagFieldType::RealQuaternion => Some(TagFieldData::RealQuaternion(0, 0, 0, 0)),
        TagFieldType::RealEulerAngles2d => Some(TagFieldData::RealEulerAngles2d(0, 0)),
        TagFieldType::RealEulerAngles3d => Some(TagFieldData::RealEulerAngles3d(0, 0, 0)),
        TagFieldType::RealPlane2d => Some(TagFieldData::RealPlane2d(0, 0, 0)),
        TagFieldType::RealPlane3d => Some(TagFieldData::RealPlane3d(0, 0, 0, 0)),
        TagFieldType::RealRgbColor => Some(TagFieldData::RealRgbColor(0, 0, 0)),
        TagFieldType::RealArgbColor => Some(TagFieldData::RealArgbColor(0, 0, 0, 0)),
        TagFieldType::RealHsvColor => Some(TagFieldData::RealHsvColor(0, 0, 0)),
        TagFieldType::RealAhsvColor => Some(TagFieldData::RealAhsvColor(0, 0, 0, 0)),
        TagFieldType::AngleBounds => Some(TagFieldData::AngleBounds(0, 0)),
        TagFieldType::RealBounds => Some(TagFieldData::RealBounds(0, 0)),
        TagFieldType::FractionBounds => Some(TagFieldData::FractionBounds(0, 0)),
        _ => None,
    };
    if let Some(v) = &r {
        assert(v@->bits =~= Seq::new(reals_in(t)->0, |i: int| 0u32));
    }
    r
}

/// Empty or zero text, bytes, reference or option of type `t`.
fn zero_other(t: TagFieldType) -> (r: Option<TagFieldData>)
    requires
        !number_type(t),
        shorts_in(t) is None,
        reals_in(t) is None,
    ensures
        value_option(r) == zero_of(t),
{
    let r: Option<TagFieldData> = match t {

        TagFieldType::String => Some(TagFieldData::String(String::new())),
        TagFieldType::LongString => Some(TagFieldData::LongString(String::new())),
        TagFieldType::StringId => Some(TagFieldData::StringId(String::new())),
        TagFieldType::OldStringId => Some(TagFieldData::OldStringId(String::new())),
        TagFieldType::TagReference => Some(
            TagFieldData::TagReference(TagReferenceData { group_tag_and_name: None }),
        ),
        TagFieldType::Data => Some(TagFieldData::Data(Vec::new())),
        TagFieldType::Custom => Some(TagFieldData::Custom(Vec::new())),
        TagFieldType::ApiInterop => Some(TagFieldData::ApiInterop(zero_bytes(12))),
        TagFieldType::CharEnum => Some(TagFieldData::CharEnum { value: 0, name: None }),
        TagFieldType::ShortEnum => Some(TagFieldData::ShortEnum { value: 0, name: None }),
        TagFieldType::LongEnum => Some(TagFieldData::LongEnum { value: 0, name: None }),
        TagFieldType::ByteFlags => Some(TagFieldData::ByteFlags { value: 0, names: Vec::new() }),
        TagFieldType::WordFlags => Some(TagFieldData::WordFlags { value: 0, names: Vec::new() }),
        TagFieldType::LongFlags => Some(TagFieldData::LongFlags { value: 0, names: Vec::new() }),
        _ => None,
    };
    proof {
        if let Some(v) = &r {
            match v@ {
                FieldValue::Text { text, .. } => assert(text =~= Seq::empty()),
                FieldValue::Bytes { bytes, .. } => assert(bytes =~= zero_of(t)->0->bytes),
                FieldValue::Flags { names, .. } => assert(names =~= Seq::empty()),
                _ => {},
            }
        }
    }
    r
}

/// The value of a field of type `t` whose bytes are all zero.
pub fn zero_value(t: TagFieldType) -> (r: Option<TagFieldData>)
    ensures
        value_option(r) == zero_of(t),
{
    if let Some(v) = zero_number(t) {
        return Some(v);
    }
    if let Some(v) = zero_shorts(t) {
        return Some(v);
    }
    if let Some(v) = zero_reals(t) {
        return Some(v);
    }
    zero_other(t)
}

}
