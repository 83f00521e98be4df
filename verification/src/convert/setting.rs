//! Writing fields of a struct by their names.
use crate::definition::padding;
use crate::fields::{
    FieldValue, TagFieldData, TagFieldType, bit_set, copy_flag_names, flag_names, flag_word,
    value_option,
};
use crate::reads::{
    find_field, int_named, integer_shaped, low_long, named_from, place_named, place_of_field,
    shaped_number, shaped_number_of, value_named,
};
use crate::tag::{FieldView, StructView, TagField, TagStruct};
use crate::text::{contains_text, texts};
use vstd::prelude::*;

verus! {

impl FieldView {
    /// The field with `v`, where that is a value of its type.
    pub open spec fn offered(self, v: FieldValue) -> FieldView {
        if v.kind() == self.field_type {
            self.with_value(v)
        } else {
            self
        }
    }
}

impl StructView {
    /// The struct with `f` for its field at `k`.
    pub open spec fn with_field_at(self, k: int, f: FieldView) -> StructView {
        StructView { fields: self.fields.update(k, f), ..self }
    }
}

// ---------------------------------------------------------------------------
// Numbers
// ---------------------------------------------------------------------------
/// The number `n` in as many bits as a value of type `t` has.
pub open spec fn cut_to(t: TagFieldType, n: i64) -> int {
    match t {
        TagFieldType::CharInteger
        | TagFieldType::CharBlockIndex
        | TagFieldType::CustomCharBlockIndex
        | TagFieldType::CharEnum => (n as i8) as int,
        TagFieldType::ByteInteger
        | TagFieldType::ByteBlockFlags
        | TagFieldType::ByteFlags => (n as u8) as int,
        TagFieldType::ShortInteger
        | TagFieldType::ShortBlockIndex
        | TagFieldType::CustomShortBlockIndex
        | TagFieldType::ShortEnum => (n as i16) as int,
        TagFieldType::WordInteger
        | TagFieldType::WordBlockFlags
        | TagFieldType::WordFlags => (n as u16) as int,
        TagFieldType::LongInteger
        | TagFieldType::LongBlockIndex
        | TagFieldType::CustomLongBlockIndex
        | TagFieldType::LongBlockFlags
        | TagFieldType::LongEnum
        | TagFieldType::LongFlags => (n as i32) as int,
        TagFieldType::DwordInteger => (n as u32) as int,
        TagFieldType::Int64Integer => (n as i64) as int,
        TagFieldType::QwordInteger => (n as u64) as int,
        _ => n as int,
    }
}

/// The value `v` with the number `n`, at its own width and in its own shape.
pub open spec fn renumbered(v: FieldValue, n: i64) -> Option<FieldValue> {
    match v {
        FieldValue::Number { kind, .. } => if integer_shaped(kind) {
            Some(FieldValue::Number { kind, value: cut_to(kind, n) })
        } else {
            None
        },
        FieldValue::Enum { kind, .. } => Some(
            FieldValue::Enum { kind, value: cut_to(kind, n), name: None },
        ),
        FieldValue::Flags { kind, names, .. } => Some(
            FieldValue::Flags { kind, value: cut_to(kind, n), names },
        ),
        _ => None,
    }
}

fn cut_to_char(n: i64) -> (r: i8)
    ensures
        r == n as i8,
{
    #[verifier::truncate]
    (n as i8)
}

fn cut_to_byte(n: i64) -> (r: u8)
    ensures
        r == n as u8,
{
    #[verifier::truncate]
    (n as u8)
}

fn cut_to_short(n: i64) -> (r: i16)
    ensures
        r == n as i16,
{
    #[verifier::truncate]
    (n as i16)
}

fn cut_to_word(n: i64) -> (r: u16)
    ensures
        r == n as u16,
{
    #[verifier::truncate]
    (n as u16)
}

pub fn cut_to_long(n: i64) -> (r: i32)
    ensures
        r == n as i32,
{
    #[verifier::truncate]
    (n as i32)
}

fn cut_to_dword(n: i64) -> (r: u32)
    ensures
        r == n as u32,
{
    #[verifier::truncate]
    (n as u32)
}

fn cut_to_qword(n: i64) -> (r: u64)
    ensures
        r == n as u64,
{
    #[verifier::truncate]
    (n as u64)
}

fn renumber_plain(v: &TagFieldData, n: i64) -> (r: Option<TagFieldData>)
    requires
        !(v@ is Enum),
        !(v@ is Flags),
    ensures
        value_option(r) == renumbered(v@, n),
{
    match v {
        TagFieldData::CharInteger(_) => Some(TagFieldData::CharInteger(cut_to_char(n))),
        TagFieldData::ByteInteger(_) => Some(TagFieldData::ByteInteger(cut_to_byte(n))),
        TagFieldData::ShortInteger(_) => Some(TagFieldData::ShortInteger(cut_to_short(n))),
        TagFieldData::WordInteger(_) => Some(TagFieldData::WordInteger(cut_to_word(n))),
        TagFieldData::LongInteger(_) => Some(TagFieldData::LongInteger(cut_to_long(n))),
        TagFieldData::DwordInteger(_) => Some(TagFieldData::DwordInteger(cut_to_dword(n))),
        TagFieldData::Int64Integer(_) => Some(TagFieldData::Int64Integer(n)),
        TagFieldData::QwordInteger(_) => Some(TagFieldData::QwordInteger(cut_to_qword(n))),
        TagFieldData::CharBlockIndex(_) => Some(TagFieldData::CharBlockIndex(cut_to_char(n))),
        TagFieldData::ShortBlockIndex(_) => Some(TagFieldData::ShortBlockIndex(cut_to_short(n))),
        TagFieldData::LongBlockIndex(_) => Some(TagFieldData::LongBlockIndex(cut_to_long(n))),
        TagFieldData::CustomCharBlockIndex(_) => Some(TagFieldData::CustomCharBlockIndex(cut_to_char(n))),
        TagFieldData::CustomShortBlockIndex(_) => Some(TagFieldData::CustomShortBlockIndex(cut_to_short(n))),
        TagFieldData::CustomLongBlockIndex(_) => Some(TagFieldData::CustomLongBlockIndex(cut_to_long(n))),
        TagFieldData::ByteBlockFlags(_) => Some(TagFieldData::ByteBlockFlags(cut_to_byte(n))),
        TagFieldData::WordBlockFlags(_) => Some(TagFieldData::WordBlockFlags(cut_to_word(n))),
        TagFieldData::LongBlockFlags(_) => Some(TagFieldData::LongBlockFlags(cut_to_long(n))),
        _ => None,
    }
}

/// The value `v` with the number `n`.
pub fn renumber(v: &TagFieldData, n: i64) -> (r: Option<TagFieldData>)
    ensures
        value_option(r) == renumbered(v@, n),
{
    match v {
        TagFieldData::CharEnum { .. } => Some(TagFieldData::CharEnum { value: cut_to_char(n), name: None }),
        TagFieldData::ShortEnum { .. } => Some(TagFieldData::ShortEnum { value: cut_to_short(n), name: None }),
        TagFieldData::LongEnum { .. } => Some(TagFieldData::LongEnum { value: cut_to_long(n), name: None }),
        TagFieldData::ByteFlags { names, .. } => Some(
            TagFieldData::ByteFlags { value: cut_to_byte(n), names: copy_flag_names(names) },
        ),
        TagFieldData::WordFlags { names, .. } => Some(
            TagFieldData::WordFlags { value: cut_to_word(n), names: copy_flag_names(names) },
        ),
        TagFieldData::LongFlags { names, .. } => Some(
            TagFieldData::LongFlags { value: cut_to_long(n), names: copy_flag_names(names) },
        ),
        _ => renumber_plain(v, n),
    }
}

/// The struct with the number `n` in its field `name`, where that field holds
/// anything integer-shaped.
pub open spec fn int_set(s: StructView, name: Seq<char>, n: i64) -> StructView {
    match place_named(s, name) {
        Some(k) => match s.fields[k as int].value() {
            Some(v) => match renumbered(v, n) {
                Some(w) => s.with_field_at(k as int, s.fields[k as int].offered(w)),
                None => s,
            },
            None => s,
        },
        None => s,
    }
}

/// Writes a number at whatever width and in whatever shape the field has. Options
/// and flags are integer-shaped too.
pub fn set_int_field(elem: &mut TagStruct, name: &str, value: i64)
    ensures
        final(elem)@ == int_set(old(elem)@, name@, value),
{
    let k: usize = match place_of_field(elem, name) {
        Some(k) => k,
        None => {
            return;
        },
    };
    let replacement: TagFieldData = match elem.at(k).value() {
        Some(v) => match renumber(v, value) {
            Some(w) => w,
            None => {
                return;
            },
        },
        None => {
            return;
        },
    };
    let _ = elem.at_mut(k).set(replacement);
    assert(elem@.fields =~= int_set(old(elem)@, name@, value).fields);
}

// ---------------------------------------------------------------------------
// Flags
// ---------------------------------------------------------------------------
/// `word` with bit `bit` cleared.
pub open spec fn bit_cleared(word: u32, bit: u32) -> u32 {
    if bit < 32 {
        word & !(1u32 << bit)
    } else {
        word
    }
}

pub fn clear_bit(word: u32, bit: u32) -> (r: u32)
    ensures
        r == bit_cleared(word, bit),
{
    if bit < 32 {
        word & !(1u32 << bit)
    } else {
        word
    }
}

/// `word` with the bits of those of the first `n` flags cleared whose names are
/// among `unwanted`.
pub open spec fn flags_cleared(
    word: u32,
    names: Seq<(u32, Seq<char>)>,
    unwanted: Seq<Seq<char>>,
    n: nat,
) -> u32
    decreases n,
{
    if n == 0 || n > names.len() {
        word
    } else {
        let rest = flags_cleared(word, names, unwanted, (n - 1) as nat);
        if unwanted.contains(names[n - 1].1) {
            bit_cleared(rest, names[n - 1].0)
        } else {
            rest
        }
    }
}

fn clear_flags(word: u32, names: &Vec<(u32, String)>, unwanted: &Vec<String>) -> (r: u32)
    ensures
        r == flags_cleared(word, flag_names(names@), texts(unwanted@), names@.len()),
{
    let ghost all = flag_names(names@);
    let mut r: u32 = word;
    let mut i: usize = 0;
    while i < names.len()
        invariant
            i <= names.len(),
            all == flag_names(names@),
            r == flags_cleared(word, all, texts(unwanted@), i as nat),
        decreases names.len() - i,
    {
        if contains_text(unwanted, &names[i].1) {
            r = clear_bit(r, names[i].0);
        }
        i = i + 1;
    }
    r
}

/// The set of flags `v` without those named in `unwanted`.
pub open spec fn without_flags(v: FieldValue, unwanted: Seq<Seq<char>>) -> Option<FieldValue> {
    match v {
        FieldValue::Flags { kind, value, names } => {
            let word = flags_cleared(flag_word(value), names, unwanted, names.len());
            Some(FieldValue::Flags { kind, value: cut_to(kind, word as i64), names })
        },
        _ => None,
    }
}

/// The set of flags `v` without those named in `unwanted`.
pub fn drop_flags(v: &TagFieldData, unwanted: &Vec<String>) -> (r: Option<TagFieldData>)
    ensures
        value_option(r) == without_flags(v@, texts(unwanted@)),
{
    match v {
        TagFieldData::ByteFlags { value, names } => {
            let word: u32 = clear_flags(*value as u32, names, unwanted);
            Some(
                TagFieldData::ByteFlags {
                    value: cut_to_byte(word as i64),
                    names: copy_flag_names(names),
                },
            )
        },
        TagFieldData::WordFlags { value, names } => {
            let word: u32 = clear_flags(*value as u32, names, unwanted);
            Some(
                TagFieldData::WordFlags {
                    value: cut_to_word(word as i64),
                    names: copy_flag_names(names),
                },
            )
        },
        TagFieldData::LongFlags { value, names } => {
            let word: u32 = clear_flags(word_of_flags(*value), names, unwanted);
            Some(
                TagFieldData::LongFlags {
                    value: cut_to_long(word as i64),
                    names: copy_flag_names(names),
                },
            )
        },
        _ => None,
    }
}

pub fn word_of_flags(value: i32) -> (r: u32)
    ensures
        r == flag_word(value as int),
{
    if value < 0 {
        (value as i64 + 0x1_0000_0000) as u32
    } else {
        value as u32
    }
}

/// The struct without the flags named in `unwanted` in its field `name`.
pub open spec fn flags_dropped(
    s: StructView,
    name: Seq<char>,
    unwanted: Seq<Seq<char>>,
) -> StructView {
    match place_named(s, name) {
        Some(k) => match s.fields[k as int].value() {
            Some(v) => match without_flags(v, unwanted) {
                Some(w) => s.with_field_at(k as int, s.fields[k as int].offered(w)),
                None => s,
            },
            None => s,
        },
        None => s,
    }
}

/// Clears named flags of a field, leaving every other one as it was.
pub fn clear_flags_by_name(elem: &mut TagStruct, field_name: &str, unwanted: &Vec<String>)
    ensures
        final(elem)@ == flags_dropped(old(elem)@, field_name@, texts(unwanted@)),
{
    let k: usize = match place_of_field(elem, field_name) {
        Some(k) => k,
        None => {
            return;
        },
    };
    let cleared: TagFieldData = match elem.at(k).value() {
        Some(v) => match drop_flags(v, unwanted) {
            Some(w) => w,
            None => {
                return;
            },
        },
        None => {
            return;
        },
    };
    let _ = elem.at_mut(k).set(cleared);
    assert(elem@.fields =~= flags_dropped(old(elem)@, field_name@, texts(unwanted@)).fields);
}

// ---------------------------------------------------------------------------
// Whole structs
// ---------------------------------------------------------------------------
/// The target with the value of the source's field `name`, where both have one of
/// the same type, or the source's is a number that the target's can hold.
pub open spec fn field_taken(source: StructView, target: StructView, name: Seq<char>) -> StructView {
    match value_named(source, name) {
        None => target,
        Some(v) => match shaped_number(v) {
            Some(n) => int_set(target, name, n as i64),
            None => match place_named(target, name) {
                Some(k) => {
                    let f = target.fields[k as int];
                    if f.value() matches Some(w) && w.kind() != v.kind() {
                        target
                    } else {
                        target.with_field_at(k as int, f.offered(v))
                    }
                },
                None => target,
            },
        },
    }
}

/// Whether a field has a name and a value to show.
pub open spec fn addressable_field(f: FieldView) -> bool {
    !padding(f.field_type) && f.name.len() > 0
}

/// The target with the values of the first `n` fields of the source.
pub open spec fn fields_taken(source: StructView, target: StructView, n: nat) -> StructView
    decreases n,
{
    if n == 0 || n > source.fields.len() {
        target
    } else {
        let sofar = fields_taken(source, target, (n - 1) as nat);
        if addressable_field(source.fields[n - 1]) {
            field_taken(source, sofar, source.fields[n - 1].name)
        } else {
            sofar
        }
    }
}

fn take_field(source: &TagStruct, target: &mut TagStruct, name: &str)
    ensures
        final(target)@ == field_taken(source@, old(target)@, name@),
{
    let value: &TagFieldData = match find_field(source, name) {
        Some(f) => match f.value() {
            Some(v) => v,
            None => {
                return;
            },
        },
        None => {
            return;
        },
    };
    if let Some(number) = shaped_number_of(value) {
        set_int_field(target, name, low_long(number));
        return;
    }
    let k: usize = match place_of_field(target, name) {
        Some(k) => k,
        None => {
            return;
        },
    };
    if let Some(own) = target.at(k).value() {
        if own.kind() != value.kind() {
            return;
        }
    }
    let _ = target.at_mut(k).set(value.duplicate());
    assert(target@.fields =~= field_taken(source@, old(target)@, name@).fields);
}

/// Copies every field that two structs share by name.
pub fn copy_fields_by_name(source: &TagStruct, target: &mut TagStruct)
    ensures
        final(target)@ == fields_taken(source@, old(target)@, source@.fields.len()),
{
    let n: usize = source.len();
    let mut i: usize = 0;
    while i < n
        invariant
            i <= n,
            n == source@.fields.len(),
            target@ == fields_taken(source@, old(target)@, i as nat),
        decreases n - i,
    {
        let f: &TagField = source.at(i);
        if !is_padding_type(f.field_type()) && !f.name().is_empty() {
            take_field(source, target, f.name());
        }
        i = i + 1;
    }
}

pub fn is_padding_type(t: TagFieldType) -> (r: bool)
    ensures
        r == padding(t),
{
    match t {
        TagFieldType::Pad
        | TagFieldType::UselessPad
        | TagFieldType::Skip
        | TagFieldType::Explanation
        | TagFieldType::Unknown
        | TagFieldType::Terminator => true,
        _ => false,
    }
}

// ---------------------------------------------------------------------------
// Laws
// ---------------------------------------------------------------------------
/// Fields with the same names answer to the same names.
pub proof fn lemma_place_kept(a: Seq<FieldView>, b: Seq<FieldView>, name: Seq<char>, from: nat)
    requires
        a.len() == b.len(),
        forall|i: int| 0 <= i < a.len() ==> (#[trigger] a[i]).name == b[i].name,
    ensures
        named_from(a, name, from) == named_from(b, name, from),
        named_from(a, name, from) matches Some(k) ==> from <= k < a.len(),
    decreases a.len() - from,
{
    if from < a.len() {
        assert(a[from as int].name == b[from as int].name);
        lemma_place_kept(a, b, name, from + 1);
    }
}

/// A number that was set reads back, cut to the width of its field, and every
/// other field keeps its value.
pub proof fn a_set_number_reads_back(s: StructView, name: Seq<char>, n: i64, k: nat)
    requires
        place_named(s, name) == Some(k),
        s.fields[k as int].value() matches Some(v) && v.kind() == s.fields[k as int].field_type
            && shaped_number(v) is Some,
    ensures
        int_named(int_set(s, name, n), name) == Some(cut_to(s.fields[k as int].field_type, n)),
        forall|j: int|
            0 <= j < s.fields.len() && j != k ==> #[trigger] int_set(s, name, n).fields[j]
                == s.fields[j],
{
    let after = int_set(s, name, n);
    lemma_place_kept(s.fields, s.fields, name, 0);
    assert(forall|i: int| 0 <= i < s.fields.len() ==> (#[trigger] s.fields[i]).name
        == after.fields[i].name);
    lemma_place_kept(s.fields, after.fields, name, 0);
}

/// Clearing a bit clears that bit and no other.
pub proof fn clearing_a_bit_leaves_the_others(word: u32, bit: u32, other: u32)
    ensures
        bit_set(bit_cleared(word, bit), other) == (bit_set(word, other) && other != bit),
{
    if bit < 32 && other < 32 {
        if bit == other {
            assert(((word & !(1u32 << bit)) >> bit) & 1 == 0) by (bit_vector)
                requires
                    bit < 32,
            ;
        } else {
            assert(((word & !(1u32 << bit)) >> other) & 1 == (word >> other) & 1) by (bit_vector)
                requires
                    bit < 32,
                    other < 32,
                    bit != other,
            ;
        }
    }
}

}
