//! Reading JSON one level at a time.
//!
//! A value is held as its own text. What a text means is `serde_json`'s to say;
//! the names below stand for its answers.
use crate::fields::{copy_bytes, text_option};
use crate::text::same;
use vstd::prelude::*;

verus! {

/// Why some bytes are no JSON document; `None` where they are one.
pub uninterp spec fn json_fault(bytes: Seq<u8>) -> Option<Seq<char>>;

/// The members of the JSON object that some bytes are, by key.
pub uninterp spec fn json_members(bytes: Seq<u8>) -> Option<Seq<(Seq<char>, Seq<u8>)>>;

/// The items of the JSON array that some bytes are.
pub uninterp spec fn json_items(bytes: Seq<u8>) -> Option<Seq<Seq<u8>>>;

/// The characters of the JSON string that some bytes are.
pub uninterp spec fn json_text(bytes: Seq<u8>) -> Option<Seq<char>>;

/// The views of the members of an object.
pub open spec fn member_views(v: Seq<(String, Vec<u8>)>) -> Seq<(Seq<char>, Seq<u8>)> {
    Seq::new(v.len(), |i: int| (v[i].0@, v[i].1@))
}

/// The views of the items of an array.
pub open spec fn item_views(v: Seq<Vec<u8>>) -> Seq<Seq<u8>> {
    Seq::new(v.len(), |i: int| v[i]@)
}

/// `serde_json::from_slice` into a `serde_json::Value`: whether the bytes are a
/// JSON document, and the error's message where they are not. Both depend on the
/// bytes alone.
#[verifier::external_body]
pub(crate) fn fault_in_json(bytes: &Vec<u8>) -> (r: Option<String>)
    ensures
        text_option(r) == json_fault(bytes@),
{
    match serde_json::from_slice::<serde_json::Value>(bytes) {
        Ok(_) => None,
        Err(error) => Some(error.to_string()),
    }
}

/// `serde_json::from_slice` into a map of raw values: the members of the object
/// that the bytes are, each with its own text, or nothing where the bytes are
/// not an object.
#[verifier::external_body]
pub(crate) fn members_of_json(bytes: &Vec<u8>) -> (r: Option<Vec<(String, Vec<u8>)>>)
    ensures
        match r {
            Some(v) => json_members(bytes@) == Some(member_views(v@)),
            None => json_members(bytes@) is None,
        },
{
    match serde_json::from_slice::<
        std::collections::BTreeMap<String, Box<serde_json::value::RawValue>>,
    >(bytes) {
        Ok(map) => Some(
            map.into_iter().map(|(key, value)| (key, value.get().as_bytes().to_vec())).collect(),
        ),
        Err(_) => None,
    }
}

/// `serde_json::from_slice` into a list of raw values: the items of the array
/// that the bytes are, each as its own text, or nothing where the bytes are not
/// an array.
#[verifier::external_body]
pub(crate) fn items_of_json(bytes: &Vec<u8>) -> (r: Option<Vec<Vec<u8>>>)
    ensures
        match r {
            Some(v) => json_items(bytes@) == Some(item_views(v@)),
            None => json_items(bytes@) is None,
        },
{
    match serde_json::from_slice::<Vec<Box<serde_json::value::RawValue>>>(bytes) {
        Ok(list) => Some(list.into_iter().map(|value| value.get().as_bytes().to_vec()).collect()),
        Err(_) => None,
    }
}

/// `serde_json::from_slice` into a `String`: the characters of the string that
/// the bytes are, or nothing where the bytes are not a string.
#[verifier::external_body]
pub(crate) fn text_of_json(bytes: &Vec<u8>) -> (r: Option<String>)
    ensures
        text_option(r) == json_text(bytes@),
{
    match serde_json::from_slice::<String>(bytes) {
        Ok(text) => Some(text),
        Err(_) => None,
    }
}

/// The value of the first member with the key `key`.
pub open spec fn member_in(
    members: Seq<(Seq<char>, Seq<u8>)>,
    key: Seq<char>,
) -> Option<Seq<u8>>
    decreases members.len(),
{
    if members.len() == 0 {
        None
    } else if members[0].0 == key {
        Some(members[0].1)
    } else {
        member_in(members.skip(1), key)
    }
}

/// The member `key` of the object that some bytes are.
pub open spec fn json_member(bytes: Seq<u8>, key: Seq<char>) -> Option<Seq<u8>> {
    match json_members(bytes) {
        Some(members) => member_in(members, key),
        None => None,
    }
}

/// The characters of the string that the member `key` is.
pub open spec fn json_member_text(bytes: Seq<u8>, key: Seq<char>) -> Option<Seq<char>> {
    match json_member(bytes, key) {
        Some(value) => json_text(value),
        None => None,
    }
}

/// The view of optional bytes.
pub open spec fn bytes_option(v: Option<Vec<u8>>) -> Option<Seq<u8>> {
    match v {
        Some(b) => Some(b@),
        None => None,
    }
}

/// The member `key` of an object.
pub fn member_of(bytes: &Vec<u8>, key: &str) -> (r: Option<Vec<u8>>)
    ensures
        bytes_option(r) == json_member(bytes@, key@),
{
    let members: Vec<(String, Vec<u8>)> = match members_of_json(bytes) {
        Some(members) => members,
        None => {
            return None;
        },
    };
    let ghost all = member_views(members@);
    let mut i: usize = 0;
    assert(all.skip(0) =~= all);
    while i < members.len()
        invariant
            i <= members.len(),
            all == member_views(members@),
            json_members(bytes@) == Some(all),
            member_in(all, key@) == member_in(all.skip(i as int), key@),
        decreases members.len() - i,
    {
        assert(all.skip(i as int).skip(1) =~= all.skip(i + 1));
        assert(all.skip(i as int)[0] == all[i as int]);
        if same(&members[i].0, key) {
            return Some(copy_bytes(&members[i].1));
        }
        i = i + 1;
    }
    None
}

/// The characters of the string that the member `key` is.
pub fn member_text_of(bytes: &Vec<u8>, key: &str) -> (r: Option<String>)
    ensures
        text_option(r) == json_member_text(bytes@, key@),
{
    match member_of(bytes, key) {
        Some(value) => text_of_json(&value),
        None => None,
    }
}

}
