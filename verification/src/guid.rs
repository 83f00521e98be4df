//! The sixteen-byte identifiers of structs, and the keys that stand for structs.
use crate::text::{chars_of, concat2, lower, lowered};
use vstd::prelude::*;

verus! {

/// The value of a hexadecimal digit.
pub open spec fn hex_digit(c: char) -> Option<u8> {
    if '0' <= c <= '9' {
        Some(((c as u8) - 48) as u8)
    } else if 'a' <= c <= 'f' {
        Some(((c as u8) - 87) as u8)
    } else if 'A' <= c <= 'F' {
        Some(((c as u8) - 55) as u8)
    } else {
        None
    }
}

pub fn hex_digit_of(c: char) -> (r: Option<u8>)
    ensures
        r == hex_digit(c),
        r matches Some(d) ==> d < 16,
{
    if '0' <= c && c <= '9' {
        Some((c as u8) - 48)
    } else if 'a' <= c && c <= 'f' {
        Some((c as u8) - 87)
    } else if 'A' <= c && c <= 'F' {
        Some((c as u8) - 55)
    } else {
        None
    }
}

/// The byte that two characters write; a plus sign may stand for the first
/// digit.
pub open spec fn hex_byte(a: char, b: char) -> Option<u8> {
    match (hex_digit(a), hex_digit(b)) {
        (Some(x), Some(y)) => Some((x * 16 + y) as u8),
        (None, Some(y)) => if a == '+' {
            Some(y)
        } else {
            None
        },
        _ => None,
    }
}

/// The identifier that thirty-two characters write.
pub open spec fn guid_in(text: Seq<char>) -> Option<Seq<u8>> {
    if text.len() == 32 && forall|i: int|
        0 <= i < 16 ==> #[trigger] hex_byte(text[2 * i], text[2 * i + 1]) is Some {
        Some(Seq::new(16, |i: int| hex_byte(text[2 * i], text[2 * i + 1])->0))
    } else {
        None
    }
}

/// The view of an optional identifier.
pub open spec fn guid_option(v: Option<[u8; 16]>) -> Option<Seq<u8>> {
    match v {
        Some(g) => Some(g@),
        None => None,
    }
}

/// The identifier that `value` writes as thirty-two hexadecimal digits.
#[verifier::loop_isolation(false)]
pub fn parse_schema_guid(value: &str) -> (r: Option<[u8; 16]>)
    ensures
        guid_option(r) == guid_in(value@),
{
    let chars: Vec<char> = chars_of(value);
    if chars.len() != 32 {
        return None;
    }
    let mut result: [u8; 16] = [0u8; 16];
    let mut i: usize = 0;
    while i < 16
        invariant
            i <= 16,
            forall|j: int|
                0 <= j < i ==> #[trigger] hex_byte(value@[2 * j], value@[2 * j + 1]) == Some(
                    result@[j],
                ),
        decreases 16 - i,
    {
        let a: char = chars[2 * i];
        let b: char = chars[2 * i + 1];
        let byte: u8 = match (hex_digit_of(a), hex_digit_of(b)) {
            (Some(x), Some(y)) => x * 16 + y,
            (None, Some(y)) => {
                if a != '+' {
                    assert(hex_byte(value@[2 * i as int], value@[2 * i as int + 1]) is None);
                    return None;
                }
                y
            },
            _ => {
                assert(hex_byte(value@[2 * i as int], value@[2 * i as int + 1]) is None);
                return None;
            },
        };
        result[i] = byte;
        i = i + 1;
    }
    assert(result@ =~= guid_in(value@)->0);
    Some(result)
}

/// Whether two identifiers are the same.
pub fn same_guids(a: &[u8; 16], b: &[u8; 16]) -> (r: bool)
    ensures
        r == (a@ == b@),
{
    let mut i: usize = 0;
    while i < 16
        invariant
            i <= 16,
            forall|j: int| 0 <= j < i ==> a@[j] == b@[j],
        decreases 16 - i,
    {
        if a[i] != b[i] {
            assert(a@[i as int] != b@[i as int]);
            return false;
        }
        i = i + 1;
    }
    assert(a@ =~= b@);
    true
}

/// The identifier of a struct that has none.
pub open spec fn zero_guid() -> Seq<u8> {
    Seq::new(16, |i: int| 0u8)
}

pub fn is_zero_guid(guid: &[u8; 16]) -> (r: bool)
    ensures
        r == (guid@ == zero_guid()),
{
    let zero: [u8; 16] = [0u8; 16];
    assert(zero@ =~= zero_guid());
    same_guids(guid, &zero)
}

/// The lower-case hexadecimal digit for a number under sixteen.
pub open spec fn hex_char(n: int) -> char {
    (if n < 10 {
        (48 + n) as u8
    } else {
        (87 + n) as u8
    }) as char
}

/// The lower-case hexadecimal notation of some bytes.
pub open spec fn hex_text(bytes: Seq<u8>) -> Seq<char>
    decreases bytes.len(),
{
    if bytes.len() == 0 {
        Seq::empty()
    } else {
        let b = bytes.last() as int;
        hex_text(bytes.drop_last()).push(hex_char(b / 16)).push(hex_char(b % 16))
    }
}

fn hex_char_of(n: u8) -> (r: char)
    requires
        n < 16,
    ensures
        r == hex_char(n as int),
{
    if n < 10 {
        (48 + n) as char
    } else {
        (87 + n) as char
    }
}

/// How a struct is addressed in an alias table: by its identifier where it has
/// one, and by its lower-case name where it has none.
pub open spec fn struct_key(guid: Seq<u8>, name: Seq<char>) -> Seq<char> {
    if guid == zero_guid() {
        "name:"@ + lowered(name)
    } else {
        hex_text(guid)
    }
}

pub fn schema_struct_key(guid: &[u8; 16], struct_name: &str) -> (r: String)
    ensures
        r@ == struct_key(guid@, struct_name@),
{
    if is_zero_guid(guid) {
        let name: String = lower(struct_name);
        return concat2("name:", &name);
    }
    let mut r: String = String::new();
    let mut i: usize = 0;
    assert(guid@.take(0) =~= Seq::<u8>::empty());
    while i < 16
        invariant
            i <= 16,
            r@ == hex_text(guid@.take(i as int)),
        decreases 16 - i,
    {
        assert(guid@.take(i + 1).drop_last() =~= guid@.take(i as int));
        r.push(hex_char_of(guid[i] / 16));
        r.push(hex_char_of(guid[i] % 16));
        i = i + 1;
    }
    assert(guid@.take(16) =~= guid@);
    r
}

proof fn lemma_hex_text_len(bytes: Seq<u8>)
    ensures
        hex_text(bytes).len() == 2 * bytes.len(),
    decreases bytes.len(),
{
    if bytes.len() > 0 {
        lemma_hex_text_len(bytes.drop_last());
    }
}

proof fn lemma_hex_char_injective(a: int, b: int)
    requires
        0 <= a < 16,
        0 <= b < 16,
        hex_char(a) == hex_char(b),
    ensures
        a == b,
{
    let x: u8 = if a < 10 {
        (48 + a) as u8
    } else {
        (87 + a) as u8
    };
    let y: u8 = if b < 10 {
        (48 + b) as u8
    } else {
        (87 + b) as u8
    };
    assert(x as char as u8 == x);
    assert(y as char as u8 == y);
}

/// The hexadecimal notation tells bytes apart.
pub proof fn hex_notation_is_injective(a: Seq<u8>, b: Seq<u8>)
    requires
        hex_text(a) == hex_text(b),
    ensures
        a == b,
    decreases a.len(),
{
    lemma_hex_text_len(a);
    lemma_hex_text_len(b);
    if a.len() > 0 {
        let x = a.last() as int;
        let y = b.last() as int;
        let ta = hex_text(a.drop_last());
        let tb = hex_text(b.drop_last());
        let all = hex_text(a);
        lemma_hex_text_len(a.drop_last());
        lemma_hex_text_len(b.drop_last());
        assert(all[all.len() - 1] == hex_char(x % 16));
        assert(all[all.len() - 1] == hex_char(y % 16));
        assert(all[all.len() - 2] == hex_char(x / 16));
        assert(all[all.len() - 2] == hex_char(y / 16));
        lemma_hex_char_injective(x % 16, y % 16);
        lemma_hex_char_injective(x / 16, y / 16);
        assert(ta =~= all.take(all.len() - 2));
        assert(tb =~= all.take(all.len() - 2));
        hex_notation_is_injective(a.drop_last(), b.drop_last());
        assert(a =~= a.drop_last().push(a.last()));
        assert(b =~= b.drop_last().push(b.last()));
    } else {
        assert(a =~= b);
    }
}

/// Structs with identifiers share a key exactly where they share the
/// identifier; a struct with an identifier never shares one with a struct that
/// has none; and structs without identifiers share a key exactly where their
/// names agree up to case.
pub proof fn struct_keys_do_not_collide(a: Seq<u8>, an: Seq<char>, b: Seq<u8>, bn: Seq<char>)
    requires
        a.len() == 16,
        b.len() == 16,
    ensures
        a != zero_guid() && b != zero_guid() ==> (struct_key(a, an) == struct_key(b, bn) <==> a
            == b),
        a != zero_guid() && b == zero_guid() ==> struct_key(a, an) != struct_key(b, bn),
        a == zero_guid() && b == zero_guid() ==> (struct_key(a, an) == struct_key(b, bn)
            <==> lowered(an) == lowered(bn)),
{
    reveal_strlit("name:");
    if a != zero_guid() && b != zero_guid() && struct_key(a, an) == struct_key(b, bn) {
        hex_notation_is_injective(a, b);
    }
    if a != zero_guid() && b == zero_guid() {
        lemma_first_hex_char(a);
        assert(struct_key(b, bn)[0] == 'n');
    }
    if a == zero_guid() && b == zero_guid() && struct_key(a, an) == struct_key(b, bn) {
        assert(lowered(an) =~= struct_key(a, an).skip(5));
        assert(lowered(bn) =~= struct_key(b, bn).skip(5));
    }
}

proof fn lemma_first_hex_char(bytes: Seq<u8>)
    requires
        bytes.len() > 0,
    ensures
        hex_text(bytes).len() > 0,
        hex_text(bytes)[0] != 'n',
    decreases bytes.len(),
{
    lemma_hex_text_len(bytes);
    if bytes.len() == 1 {
        let x = bytes.last() as int;
        let d: u8 = if x / 16 < 10 {
            (48 + x / 16) as u8
        } else {
            (87 + x / 16) as u8
        };
        assert(hex_text(bytes.drop_last()) =~= Seq::<char>::empty());
        assert(hex_text(bytes)[0] == d as char);
        assert(d as char as u8 == d);
    } else {
        lemma_first_hex_char(bytes.drop_last());
        assert(hex_text(bytes)[0] == hex_text(bytes.drop_last())[0]);
    }
}

// ---------------------------------------------------------------------------
// Group tags
// ---------------------------------------------------------------------------
/// The group tag that four characters write, the first in the highest byte.
pub open spec fn group_tag_in(text: Seq<char>) -> Option<u32> {
    if text.len() == 4 && text[0] as u32 <= 0x7f && text[1] as u32 <= 0x7f && text[2] as u32
        <= 0x7f && text[3] as u32 <= 0x7f {
        Some(
            (((text[0] as u32 * 256 + text[1] as u32) * 256 + text[2] as u32) * 256
                + text[3] as u32) as u32,
        )
    } else {
        None
    }
}

/// The group tag that `text` writes.
pub fn parse_group_tag(text: &str) -> (r: Option<u32>)
    ensures
        r == group_tag_in(text@),
{
    let chars: Vec<char> = chars_of(text);
    if chars.len() != 4 {
        return None;
    }
    let a: u32 = chars[0] as u32;
    let b: u32 = chars[1] as u32;
    let c: u32 = chars[2] as u32;
    let d: u32 = chars[3] as u32;
    if a <= 0x7f && b <= 0x7f && c <= 0x7f && d <= 0x7f {
        Some(((a * 256 + b) * 256 + c) * 256 + d)
    } else {
        None
    }
}

/// The four characters of a group tag.
pub open spec fn group_tag_text(tag: u32) -> Seq<char> {
    seq![
        ((tag / 0x100_0000) % 256) as u8 as char,
        ((tag / 0x1_0000) % 256) as u8 as char,
        ((tag / 0x100) % 256) as u8 as char,
        (tag % 256) as u8 as char,
    ]
}

/// The four characters of `tag`.
pub fn format_group_tag(tag: u32) -> (r: String)
    ensures
        r@ == group_tag_text(tag),
{
    let mut r: String = String::new();
    r.push(((tag / 0x100_0000) % 256) as u8 as char);
    r.push(((tag / 0x1_0000) % 256) as u8 as char);
    r.push(((tag / 0x100) % 256) as u8 as char);
    r.push((tag % 256) as u8 as char);
    assert(r@ =~= group_tag_text(tag));
    r
}

proof fn lemma_plain_char(c: char)
    requires
        c as u32 <= 0x7f,
    ensures
        (c as u32) as u8 as char == c,
{
}

/// A group tag of plain characters reads back as written.
pub proof fn group_tags_read_back(text: Seq<char>)
    requires
        group_tag_in(text) is Some,
    ensures
        group_tag_text(group_tag_in(text)->0) == text,
{
    let a = text[0] as u32 as int;
    let b = text[1] as u32 as int;
    let c = text[2] as u32 as int;
    let d = text[3] as u32 as int;
    let tag = group_tag_in(text)->0;
    assert(tag == a * 0x100_0000 + b * 0x1_0000 + c * 0x100 + d);
    assert((tag / 0x100_0000) % 256 == a);
    assert((tag / 0x1_0000) % 256 == b);
    assert((tag / 0x100) % 256 == c);
    assert(tag % 256 == d);
    lemma_plain_char(text[0]);
    lemma_plain_char(text[1]);
    lemma_plain_char(text[2]);
    lemma_plain_char(text[3]);
    assert(group_tag_text(tag) =~= text);
}

}
