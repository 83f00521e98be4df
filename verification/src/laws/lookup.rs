//! Finding fields by their names, and setting the numbers that they hold.
use crate::convert::setting::{cut_to, int_set, lemma_place_kept};
use crate::data::name_answers;
use crate::fields::{FieldValue, TagFieldType, integer_fits, integer_type};
use crate::reads::{field_answering, int_named, named_from, place_named};
use crate::tag::{ContentView, FieldView, StructView};
use crate::text::{before, lemma_before};
use vstd::prelude::*;

verus! {

/// Whether the stored name `stored` is `query`, with or without a name code behind a
/// `|`.
pub open spec fn is_called(stored: Seq<char>, query: Seq<char>) -> bool {
    &&& query.len() <= stored.len()
    &&& stored.take(query.len() as int) == query
    &&& !query.contains('|')
    &&& query.len() < stored.len() ==> stored[query.len() as int] == '|'
}

proof fn lemma_bar()
    ensures
        forall|c: char| "|"@.contains(c) <==> c == '|',
{
    reveal_strlit("|");
    assert forall|c: char| "|"@.contains(c) <==> c == '|' by {
        assert("|"@[0] == '|');
        if "|"@.contains(c) {
            let i = choose|i: int| 0 <= i < "|"@.len() && "|"@[i] == c;
            assert(i == 0);
        }
    }
}

proof fn lemma_before_is_a_prefix(s: Seq<char>)
    ensures
        is_called(s, before(s, "|"@)),
    decreases s.len(),
{
    lemma_bar();
    let b = before(s, "|"@);
    if s.len() == 0 || s[0] == '|' {
        assert(s.take(0) =~= b);
    } else {
        lemma_before_is_a_prefix(s.skip(1));
        let rest = before(s.skip(1), "|"@);
        assert(b == seq![s[0]] + rest);
        assert(s.take(b.len() as int) =~= b) by {
            assert(s.skip(1).take(rest.len() as int) == rest);
            assert forall|i: int| 0 <= i < b.len() implies s[i] == b[i] by {
                if i > 0 {
                    assert(s.skip(1).take(rest.len() as int)[i - 1] == rest[i - 1]);
                }
            }
        }
        assert(!b.contains('|')) by {
            if b.contains('|') {
                let i = choose|i: int| 0 <= i < b.len() && b[i] == '|';
                assert(i > 0);
                assert(rest[i - 1] == '|');
            }
        }
        if b.len() < s.len() {
            assert(s.skip(1)[rest.len() as int] == '|');
        }
    }
}

/// A stored name answers to a query exactly where it is the query, or the query with a
/// name code behind a `|`.
pub proof fn a_name_answers_to_what_it_is_called(stored: Seq<char>, query: Seq<char>)
    ensures
        name_answers(Some(stored), query) <==> is_called(stored, query),
{
    lemma_bar();
    lemma_before_is_a_prefix(stored);
    if is_called(stored, query) {
        assert forall|j: int| 0 <= j < query.len() implies !"|"@.contains(#[trigger] stored[j]) by {
            assert(stored.take(query.len() as int)[j] == query[j]);
            if stored[j] == '|' {
                assert(query.contains('|'));
            }
        }
        lemma_before(stored, "|"@, query.len() as int);
    }
}

/// The place of a name is that of the first field that is called by it.
pub proof fn the_first_field_of_a_name_is_found(s: StructView, name: Seq<char>)
    ensures
        match place_named(s, name) {
            Some(k) => k < s.fields.len() && is_called(s.fields[k as int].name, name) && forall|j: int|
                0 <= j < k ==> !is_called(#[trigger] s.fields[j].name, name),
            None => forall|j: int|
                0 <= j < s.fields.len() ==> !is_called(#[trigger] s.fields[j].name, name),
        },
{
    lemma_named_from(s.fields, name, 0);
}

pub proof fn lemma_named_from(fields: Seq<FieldView>, name: Seq<char>, from: nat)
    requires
        from <= fields.len(),
    ensures
        match named_from(fields, name, from) {
            Some(k) => from <= k < fields.len() && is_called(fields[k as int].name, name) && forall|
                j: int,
            |
                from <= j < k ==> !is_called(#[trigger] fields[j].name, name),
            None => forall|j: int|
                from <= j < fields.len() ==> !is_called(#[trigger] fields[j].name, name),
        },
    decreases fields.len() - from,
{
    if from < fields.len() {
        a_name_answers_to_what_it_is_called(fields[from as int].name, name);
        if !name_answers(Some(fields[from as int].name), name) {
            lemma_named_from(fields, name, from + 1);
        }
    }
}

/// A number that fits a type is kept whole when it is cut to the type's width.
pub proof fn a_number_that_fits_is_kept(t: TagFieldType, n: i64)
    requires
        integer_fits(t, n as int),
    ensures
        cut_to(t, n) == n,
{
}

/// Whether the field `name` holds an integer of a type that has room for `n`.
pub open spec fn has_room_for(s: StructView, name: Seq<char>, n: i64) -> bool {
    field_answering(s, name) matches Some(f) && holds_integer(f) && integer_fits(
        f.field_type,
        n as int,
    )
}

/// Whether a field holds an integer of its own type.
pub open spec fn holds_integer(f: FieldView) -> bool {
    match f.content {
        ContentView::Value(FieldValue::Number { kind, .. }) => kind == f.field_type && integer_type(
            kind,
        ),
        _ => false,
    }
}

/// A number that was set reads back where its field has room for it, and every other
/// field reads as it did.
pub proof fn setting_one_number_keeps_the_others(
    s: StructView,
    name: Seq<char>,
    n: i64,
    other: Seq<char>,
)
    ensures
        has_room_for(s, name, n) ==> int_named(int_set(s, name, n), name) == Some(n as int),
        other != name ==> field_answering(int_set(s, name, n), other) == field_answering(s, other),
        int_set(s, name, n).fields.len() == s.fields.len(),
        forall|j: int|
            0 <= j < s.fields.len() ==> (#[trigger] int_set(s, name, n).fields[j]).name
                == s.fields[j].name,
{
    let after = int_set(s, name, n);
    the_first_field_of_a_name_is_found(s, name);
    the_first_field_of_a_name_is_found(s, other);
    assert(forall|i: int| 0 <= i < s.fields.len() ==> (#[trigger] s.fields[i]).name
        == after.fields[i].name);
    lemma_place_kept(s.fields, after.fields, name, 0);
    lemma_place_kept(s.fields, after.fields, other, 0);
    if other != name {
        match (place_named(s, name), place_named(s, other)) {
            (Some(i), Some(j)) => {
                if i == j {
                    a_name_answers_to_what_it_is_called(s.fields[i as int].name, name);
                    a_name_answers_to_what_it_is_called(s.fields[i as int].name, other);
                }
            },
            _ => {},
        }
    }
    if has_room_for(s, name, n) {
        a_number_that_fits_is_kept(field_answering(s, name)->0.field_type, n);
    }
}

pub proof fn lemma_field_replaced(
    s: StructView,
    name: Seq<char>,
    k: nat,
    f: FieldView,
    other: Seq<char>,
)
    requires
        place_named(s, name) == Some(k),
        f.name == s.fields[k as int].name,
    ensures
        k < s.fields.len(),
        field_answering(s.with_field_at(k as int, f), name) == Some(f),
        other != name ==> field_answering(s.with_field_at(k as int, f), other) == field_answering(
            s,
            other,
        ),
{
    let after = s.with_field_at(k as int, f);
    the_first_field_of_a_name_is_found(s, name);
    the_first_field_of_a_name_is_found(s, other);
    assert(forall|i: int| 0 <= i < s.fields.len() ==> (#[trigger] s.fields[i]).name
        == after.fields[i].name);
    lemma_place_kept(s.fields, after.fields, name, 0);
    lemma_place_kept(s.fields, after.fields, other, 0);
    if other != name && place_named(s, other) == Some(k) {
        a_name_answers_to_what_it_is_called(s.fields[k as int].name, name);
        a_name_answers_to_what_it_is_called(s.fields[k as int].name, other);
    }
}

// ---------------------------------------------------------------------------
// Many numbers
// ---------------------------------------------------------------------------
/// A struct with the first `n` of a list of numbers set, each under its name.
pub open spec fn ints_set(s: StructView, sets: Seq<(Seq<char>, i64)>, n: nat) -> StructView
    decreases n,
{
    if n == 0 || n > sets.len() {
        s
    } else {
        int_set(ints_set(s, sets, (n - 1) as nat), sets[n - 1].0, sets[n - 1].1)
    }
}

/// Whether `r` is `s` with the first `n` of a list of numbers in the fields that have room
/// for them, and with every other field as it was.
pub open spec fn holds_ints(
    s: StructView,
    sets: Seq<(Seq<char>, i64)>,
    n: int,
    r: StructView,
) -> bool {
    &&& r.fields.len() == s.fields.len()
    &&& forall|j: int| 0 <= j < s.fields.len() ==> (#[trigger] r.fields[j]).name == s.fields[j].name
    &&& forall|p: int|
        0 <= p < n && has_room_for(s, (#[trigger] sets[p]).0, sets[p].1) ==> int_named(
            r,
            sets[p].0,
        ) == Some(sets[p].1 as int)
    &&& forall|other: Seq<char>|
        (forall|p: int| 0 <= p < n ==> (#[trigger] sets[p]).0 != other) ==> #[trigger] field_answering(
            r,
            other,
        ) == field_answering(s, other)
}

/// Numbers set under different names all read back, and nothing else changes.
pub proof fn every_number_set_reads_back(s: StructView, sets: Seq<(Seq<char>, i64)>, n: nat)
    requires
        n <= sets.len(),
        forall|p: int, q: int|
            0 <= p < q < sets.len() ==> (#[trigger] sets[p]).0 != (#[trigger] sets[q]).0,
    ensures
        holds_ints(s, sets, n as int, ints_set(s, sets, n)),
    decreases n,
{
    if n > 0 {
        let m = (n - 1) as nat;
        every_number_set_reads_back(s, sets, m);
        let t = ints_set(s, sets, m);
        let r = ints_set(s, sets, n);
        let (name, value) = sets[n - 1];
        setting_one_number_keeps_the_others(t, name, value, name);
        assert(forall|p: int| 0 <= p < m ==> (#[trigger] sets[p]).0 != name);
        assert(field_answering(t, name) == field_answering(s, name));
        assert forall|p: int|
            0 <= p < n && has_room_for(s, (#[trigger] sets[p]).0, sets[p].1) implies int_named(
            r,
            sets[p].0,
        ) == Some(sets[p].1 as int) by {
            if p < n - 1 {
                setting_one_number_keeps_the_others(t, name, value, sets[p].0);
            }
        }
        assert forall|other: Seq<char>|
            (forall|p: int| 0 <= p < n ==> (#[trigger] sets[p]).0 != other) implies #[trigger] field_answering(
            r,
            other,
        ) == field_answering(s, other) by {
            assert(sets[n - 1].0 != other);
            setting_one_number_keeps_the_others(t, name, value, other);
        }
    }
}

}
