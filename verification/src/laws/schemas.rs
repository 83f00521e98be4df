//! What a schema says of its fields and of its groups.
use crate::convert::groups::{GroupsView, an_entered_group_is_found, place_of_name, place_of_tag};
use crate::convert::schema::{AliasesView, first_unreadable, unit_annotation};
use crate::guid::{group_tag_in, guid_in, struct_key};
use crate::json::{json_fault, json_items, json_member, json_member_text, json_members, json_text};
use crate::keys::field_key;
use crate::text::{before, begins, lowered, trim_start};
use vstd::prelude::*;

verus! {

// ---------------------------------------------------------------------------
// Fields
// ---------------------------------------------------------------------------
proof fn lemma_unit_in(known: AliasesView, key: Seq<char>, n: nat)
    requires
        n <= known.units.len(),
    ensures
        match known.unit_in(key, n) {
            Some(unit) => exists|i: int|
                0 <= i < n && #[trigger] known.units[i] == (key, unit) && forall|j: int|
                    i < j < n ==> (#[trigger] known.units[j]).0 != key,
            None => forall|j: int| 0 <= j < n ==> (#[trigger] known.units[j]).0 != key,
        },
    decreases n,
{
    if n > 0 {
        if known.units[n - 1].0 == key {
            assert(known.units[n - 1] == (key, known.units[n - 1].1));
        } else {
            lemma_unit_in(known, key, (n - 1) as nat);
            if let Some(unit) = known.unit_in(key, (n - 1) as nat) {
                let i = choose|i: int|
                    0 <= i < n - 1 && #[trigger] known.units[i] == (key, unit) && forall|j: int|
                        i < j < n - 1 ==> (#[trigger] known.units[j]).0 != key;
                assert(known.units[i] == (key, unit));
            }
        }
    }
}

/// The unit of a field is the last one that was given for it.
pub proof fn the_last_unit_counts(known: AliasesView, key: Seq<char>, i: int)
    requires
        0 <= i < known.units.len(),
        known.units[i].0 == key,
        forall|j: int| i < j < known.units.len() ==> (#[trigger] known.units[j]).0 != key,
    ensures
        known.unit_of(key) == Some(known.units[i].1),
{
    lemma_unit_in(known, key, known.units.len());
    let unit = known.unit_of(key)->0;
    let k = choose|k: int|
        0 <= k < known.units.len() && #[trigger] known.units[k] == (key, unit) && forall|j: int|
            k < j < known.units.len() ==> (#[trigger] known.units[j]).0 != key;
    if k < i {
        assert(known.units[i].0 != key);
    } else if i < k {
        assert(known.units[k].0 != key);
    }
}

/// A name with a unit gives its field that unit, and no other field another; a name
/// without one changes no unit.
pub proof fn a_unit_belongs_to_its_own_field(
    known: AliasesView,
    key: Seq<char>,
    name: Seq<char>,
    other: Seq<char>,
)
    ensures
        unit_annotation(name) matches Some(unit) ==> known.with_name(key, name).unit_of(
            field_key(before(name, "#:"@)),
        ) == Some(unit),
        unit_annotation(name) is None ==> known.with_name(key, name).unit_of(other)
            == known.unit_of(other),
        other != field_key(before(name, "#:"@)) ==> known.with_name(key, name).unit_of(other)
            == known.unit_of(other),
{
    let after = known.with_name(key, name);
    let n = known.units.len();
    lemma_same_units(known, after, other, n);
}

proof fn lemma_same_units(a: AliasesView, b: AliasesView, key: Seq<char>, n: nat)
    requires
        n <= a.units.len(),
        n <= b.units.len(),
        forall|i: int| 0 <= i < n ==> #[trigger] a.units[i] == b.units[i],
    ensures
        a.unit_in(key, n) == b.unit_in(key, n),
    decreases n,
{
    if n > 0 {
        assert(a.units[n - 1] == b.units[n - 1]);
        lemma_same_units(a, b, key, (n - 1) as nat);
    }
}

/// Whether everything that `a` knows `b` knows too.
pub open spec fn knows_as_much(a: AliasesView, b: AliasesView) -> bool {
    &&& forall|i: int| 0 <= i < a.aliases.len() ==> b.aliases.contains(#[trigger] a.aliases[i])
    &&& forall|i: int|
        0 <= i < a.editor_owned.len() ==> b.editor_owned.contains(#[trigger] a.editor_owned[i])
    &&& forall|i: int|
        0 <= i < a.engine_managed.len() ==> b.engine_managed.contains(
            #[trigger] a.engine_managed[i],
        )
}

proof fn lemma_knows_transitive(a: AliasesView, b: AliasesView, c: AliasesView)
    requires
        knows_as_much(a, b),
        knows_as_much(b, c),
    ensures
        knows_as_much(a, c),
{
    assert forall|i: int| 0 <= i < a.aliases.len() implies c.aliases.contains(
        #[trigger] a.aliases[i],
    ) by {
        let x = a.aliases[i];
        assert(b.aliases.contains(x));
        let j = choose|j: int| 0 <= j < b.aliases.len() && b.aliases[j] == x;
        assert(c.aliases.contains(b.aliases[j]));
    }
    assert forall|i: int| 0 <= i < a.editor_owned.len() implies c.editor_owned.contains(
        #[trigger] a.editor_owned[i],
    ) by {
        let x = a.editor_owned[i];
        assert(b.editor_owned.contains(x));
        let j = choose|j: int| 0 <= j < b.editor_owned.len() && b.editor_owned[j] == x;
        assert(c.editor_owned.contains(b.editor_owned[j]));
    }
    assert forall|i: int| 0 <= i < a.engine_managed.len() implies c.engine_managed.contains(
        #[trigger] a.engine_managed[i],
    ) by {
        let x = a.engine_managed[i];
        assert(b.engine_managed.contains(x));
        let j = choose|j: int| 0 <= j < b.engine_managed.len() && b.engine_managed[j] == x;
        assert(c.engine_managed.contains(b.engine_managed[j]));
    }
}

/// A name is remembered with its marks: a `*` says that the editor owns its field, a `!`
/// that the engine manages it; and nothing that was known is forgotten.
pub proof fn a_name_is_remembered_with_its_marks(
    known: AliasesView,
    key: Seq<char>,
    name: Seq<char>,
)
    ensures
        knows_as_much(known, known.with_name(key, name)),
        before(name, "#:"@).contains('*') ==> known.with_name(key, name).editor_owned.contains(
            field_key(before(name, "#:"@)),
        ),
        before(name, "#:"@).contains('!') ==> known.with_name(key, name).engine_managed.contains(
            field_key(before(name, "#:"@)),
        ),
        !before(name, "#:"@).contains('*') ==> known.with_name(key, name).editor_owned
            == known.editor_owned,
        !before(name, "#:"@).contains('!') && !begins(
            trim_start(before(name, "#:"@)),
            "runtime "@,
        ) ==> known.with_name(key, name).engine_managed == known.engine_managed,
{
    let after = known.with_name(key, name);
    let base = before(name, "#:"@);
    assert forall|i: int| 0 <= i < known.aliases.len() implies after.aliases.contains(
        #[trigger] known.aliases[i],
    ) by {
        assert(after.aliases[i] == known.aliases[i]);
    }
    assert forall|i: int| 0 <= i < known.editor_owned.len() implies after.editor_owned.contains(
        #[trigger] known.editor_owned[i],
    ) by {
        assert(after.editor_owned[i] == known.editor_owned[i]);
    }
    assert forall|i: int| 0 <= i < known.engine_managed.len() implies after.engine_managed.contains(
        #[trigger] known.engine_managed[i],
    ) by {
        assert(after.engine_managed[i] == known.engine_managed[i]);
    }
    if base.contains('*') {
        assert(after.editor_owned[known.editor_owned.len() as int] == field_key(base));
    }
    if base.contains('!') {
        assert(after.engine_managed[known.engine_managed.len() as int] == field_key(base));
    }
}

/// Every field of a struct is entered, with the marks of its own name.
pub proof fn every_field_of_a_struct_is_entered(
    known: AliasesView,
    key: Seq<char>,
    fields: Seq<Seq<u8>>,
    n: nat,
    i: int,
)
    requires
        n <= fields.len(),
        0 <= i < n,
    ensures
        knows_as_much(known, known.with_fields(key, fields, n)),
        json_member_text(fields[i], "name"@) matches Some(name) ==> {
            &&& knows_as_much(
                AliasesView::empty().with_name(key, name),
                known.with_fields(key, fields, n),
            )
        },
    decreases n,
{
    let m = (n - 1) as nat;
    let rest = known.with_fields(key, fields, m);
    let after = known.with_fields(key, fields, n);
    lemma_fields_known(known, key, fields, m);
    if let Some(name) = json_member_text(fields[n - 1], "name"@) {
        a_name_is_remembered_with_its_marks(rest, key, name);
        lemma_knows_transitive(known, rest, after);
        lemma_fresh_name_known(rest, key, name);
    }
    if i < n - 1 {
        every_field_of_a_struct_is_entered(known, key, fields, m, i);
        if let Some(name) = json_member_text(fields[i], "name"@) {
            lemma_step_known(rest, after);
            lemma_knows_transitive(AliasesView::empty().with_name(key, name), rest, after);
        }
    }
}

proof fn lemma_step_known(a: AliasesView, b: AliasesView)
    requires
        knows_as_much(a, b) || a == b,
    ensures
        knows_as_much(a, b),
{
    if a == b {
        assert forall|i: int| 0 <= i < a.aliases.len() implies b.aliases.contains(
            #[trigger] a.aliases[i],
        ) by {}
        assert forall|i: int| 0 <= i < a.editor_owned.len() implies b.editor_owned.contains(
            #[trigger] a.editor_owned[i],
        ) by {}
        assert forall|i: int| 0 <= i < a.engine_managed.len() implies b.engine_managed.contains(
            #[trigger] a.engine_managed[i],
        ) by {}
    }
}

proof fn lemma_fresh_name_known(rest: AliasesView, key: Seq<char>, name: Seq<char>)
    ensures
        knows_as_much(AliasesView::empty().with_name(key, name), rest.with_name(key, name)),
{
    let alone = AliasesView::empty().with_name(key, name);
    let after = rest.with_name(key, name);
    assert forall|i: int| 0 <= i < alone.aliases.len() implies after.aliases.contains(
        #[trigger] alone.aliases[i],
    ) by {
        assert(after.aliases[rest.aliases.len() + i] == alone.aliases[i]);
    }
    assert forall|i: int| 0 <= i < alone.editor_owned.len() implies after.editor_owned.contains(
        #[trigger] alone.editor_owned[i],
    ) by {
        assert(after.editor_owned[rest.editor_owned.len() + i] == alone.editor_owned[i]);
    }
    assert forall|i: int| 0 <= i < alone.engine_managed.len() implies after.engine_managed.contains(
        #[trigger] alone.engine_managed[i],
    ) by {
        assert(after.engine_managed[rest.engine_managed.len() + i] == alone.engine_managed[i]);
    }
}

proof fn lemma_fields_known(known: AliasesView, key: Seq<char>, fields: Seq<Seq<u8>>, n: nat)
    ensures
        knows_as_much(known, known.with_fields(key, fields, n)),
    decreases n,
{
    if n == 0 || n > fields.len() {
        lemma_step_known(known, known);
    } else {
        let rest = known.with_fields(key, fields, (n - 1) as nat);
        lemma_fields_known(known, key, fields, (n - 1) as nat);
        if let Some(name) = json_member_text(fields[n - 1], "name"@) {
            a_name_is_remembered_with_its_marks(rest, key, name);
            lemma_knows_transitive(known, rest, known.with_fields(key, fields, n));
        }
    }
}

// ---------------------------------------------------------------------------
// Groups
// ---------------------------------------------------------------------------
proof fn lemma_knows_itself(a: AliasesView)
    ensures
        knows_as_much(a, a),
{
    assert forall|i: int| 0 <= i < a.aliases.len() implies a.aliases.contains(
        #[trigger] a.aliases[i],
    ) by {}
    assert forall|i: int| 0 <= i < a.editor_owned.len() implies a.editor_owned.contains(
        #[trigger] a.editor_owned[i],
    ) by {}
    assert forall|i: int| 0 <= i < a.engine_managed.len() implies a.engine_managed.contains(
        #[trigger] a.engine_managed[i],
    ) by {}
}

proof fn lemma_struct_known(known: AliasesView, name: Seq<char>, structure: Seq<u8>)
    ensures
        knows_as_much(known, known.with_struct(name, structure)),
{
    lemma_knows_itself(known);
    if let (Some(text), Some(list)) = (
        json_member_text(structure, "guid"@),
        json_member(structure, "fields"@),
    ) {
        if let (Some(guid), Some(fields)) = (guid_in(text), json_items(list)) {
            lemma_fields_known(known, struct_key(guid, name), fields, fields.len());
        }
    }
}

proof fn lemma_structs_known(known: AliasesView, structs: Seq<(Seq<char>, Seq<u8>)>, n: nat)
    requires
        n <= structs.len(),
    ensures
        knows_as_much(known, known.with_structs(structs, n)),
    decreases n,
{
    if n == 0 {
        lemma_knows_itself(known);
    } else {
        let m = (n - 1) as nat;
        let rest = known.with_structs(structs, m);
        lemma_structs_known(known, structs, m);
        lemma_struct_known(rest, structs[n - 1].0, structs[n - 1].1);
        lemma_knows_transitive(known, rest, known.with_structs(structs, n));
    }
}

/// What the name of a field says, of any struct of a schema, is known once the structs are
/// entered, under the key of that struct.
pub proof fn every_struct_of_a_schema_is_entered(
    known: AliasesView,
    structs: Seq<(Seq<char>, Seq<u8>)>,
    n: nat,
    i: int,
    guid: Seq<u8>,
    fields: Seq<Seq<u8>>,
    j: int,
    name: Seq<char>,
)
    requires
        0 <= i < n <= structs.len(),
        json_member_text(structs[i].1, "guid"@) matches Some(text) && guid_in(text) == Some(guid),
        json_member(structs[i].1, "fields"@) matches Some(list) && json_items(list) == Some(fields),
        0 <= j < fields.len(),
        json_member_text(fields[j], "name"@) == Some(name),
    ensures
        knows_as_much(
            AliasesView::empty().with_name(struct_key(guid, structs[i].0), name),
            known.with_structs(structs, n),
        ),
    decreases n,
{
    let m = (n - 1) as nat;
    let rest = known.with_structs(structs, m);
    let own = AliasesView::empty().with_name(struct_key(guid, structs[i].0), name);
    if i < n - 1 {
        every_struct_of_a_schema_is_entered(known, structs, m, i, guid, fields, j, name);
        lemma_struct_known(rest, structs[n - 1].0, structs[n - 1].1);
        lemma_knows_transitive(own, rest, known.with_structs(structs, n));
    } else {
        every_field_of_a_struct_is_entered(
            rest,
            struct_key(guid, structs[i].0),
            fields,
            fields.len(),
            j,
        );
    }
}

proof fn lemma_schema_known(known: AliasesView, schema: Seq<u8>)
    ensures
        knows_as_much(known, known.with_schema(schema)),
{
    lemma_knows_itself(known);
    if let Some(value) = json_member(schema, "structs"@) {
        if let Some(structs) = json_members(value) {
            lemma_structs_known(known, structs, structs.len());
        }
    }
}

/// What the name of a field says, of any struct of any schema, is known once the schemas
/// are entered, under the key of that struct.
pub proof fn every_schema_is_entered(
    known: AliasesView,
    schemas: Seq<Seq<u8>>,
    n: nat,
    k: int,
    structs: Seq<(Seq<char>, Seq<u8>)>,
    i: int,
    guid: Seq<u8>,
    fields: Seq<Seq<u8>>,
    j: int,
    name: Seq<char>,
)
    requires
        0 <= k < n <= schemas.len(),
        json_member(schemas[k], "structs"@) matches Some(value) && json_members(value) == Some(
            structs,
        ),
        0 <= i < structs.len(),
        json_member_text(structs[i].1, "guid"@) matches Some(text) && guid_in(text) == Some(guid),
        json_member(structs[i].1, "fields"@) matches Some(list) && json_items(list) == Some(fields),
        0 <= j < fields.len(),
        json_member_text(fields[j], "name"@) == Some(name),
    ensures
        knows_as_much(
            AliasesView::empty().with_name(struct_key(guid, structs[i].0), name),
            known.with_schemas(schemas, n),
        ),
    decreases n,
{
    let m = (n - 1) as nat;
    let rest = known.with_schemas(schemas, m);
    let own = AliasesView::empty().with_name(struct_key(guid, structs[i].0), name);
    if k < n - 1 {
        every_schema_is_entered(known, schemas, m, k, structs, i, guid, fields, j, name);
        lemma_schema_known(rest, schemas[n - 1]);
        lemma_knows_transitive(own, rest, known.with_schemas(schemas, n));
    } else {
        every_struct_of_a_schema_is_entered(
            rest,
            structs,
            structs.len(),
            i,
            guid,
            fields,
            j,
            name,
        );
    }
}

/// The schema that cannot be read is the first that has a fault; where none has, all can be.
pub proof fn the_first_unreadable_schema_is_named(schemas: Seq<Seq<u8>>, from: nat)
    requires
        from <= schemas.len(),
    ensures
        ({
            let k = first_unreadable(schemas, from);
            &&& from <= k <= schemas.len()
            &&& k < schemas.len() ==> json_fault(schemas[k as int]) is Some
            &&& forall|j: int| from <= j < k ==> json_fault(#[trigger] schemas[j]) is None
        }),
    decreases schemas.len() - from,
{
    if from < schemas.len() && json_fault(schemas[from as int]) is None {
        the_first_unreadable_schema_is_named(schemas, from + 1);
    }
}

proof fn lemma_place_of_tag(names: Seq<(u32, Seq<char>)>, tag: u32, from: nat)
    ensures
        match place_of_tag(names, tag, from) {
            Some(p) => from <= p < names.len() && names[p as int].0 == tag && forall|j: int|
                from <= j < p ==> (#[trigger] names[j]).0 != tag,
            None => forall|j: int| from <= j < names.len() ==> (#[trigger] names[j]).0 != tag,
        },
    decreases names.len() - from,
{
    if from < names.len() && names[from as int].0 != tag {
        lemma_place_of_tag(names, tag, from + 1);
    }
}

proof fn lemma_place_of_name(tags: Seq<(Seq<char>, u32)>, name: Seq<char>, from: nat)
    ensures
        match place_of_name(tags, name, from) {
            Some(p) => from <= p < tags.len() && tags[p as int].0 == name && forall|j: int|
                from <= j < p ==> (#[trigger] tags[j]).0 != name,
            None => forall|j: int| from <= j < tags.len() ==> (#[trigger] tags[j]).0 != name,
        },
    decreases tags.len() - from,
{
    if from < tags.len() && tags[from as int].0 != name {
        lemma_place_of_name(tags, name, from + 1);
    }
}

/// A group that is entered is found by its tag under its name and by its name, in lower
/// case, under its tag; every other tag and every other name leads where it led.
pub proof fn entering_a_group_leaves_the_others(
    groups: GroupsView,
    tag: u32,
    name: Seq<char>,
    other_tag: u32,
    other_name: Seq<char>,
)
    ensures
        groups.with_group(tag, name).name_of(tag) == Some(name),
        groups.with_group(tag, name).tag_of(lowered(name)) == Some(tag),
        other_tag != tag ==> groups.with_group(tag, name).name_of(other_tag) == groups.name_of(
            other_tag,
        ),
        other_name != lowered(name) ==> groups.with_group(tag, name).tag_of(other_name)
            == groups.tag_of(other_name),
{
    let after = groups.with_group(tag, name);
    an_entered_group_is_found(groups, tag, name);
    lemma_place_of_tag(groups.names, tag, 0);
    lemma_place_of_tag(groups.names, other_tag, 0);
    lemma_place_of_tag(after.names, other_tag, 0);
    lemma_place_of_name(groups.tags, lowered(name), 0);
    lemma_place_of_name(after.tags, lowered(name), 0);
    lemma_place_of_name(groups.tags, other_name, 0);
    lemma_place_of_name(after.tags, other_name, 0);
    match place_of_name(groups.tags, lowered(name), 0) {
        Some(p) => {
            assert(after.tags[p as int] == (lowered(name), tag));
        },
        None => {
            assert(after.tags[groups.tags.len() as int] == (lowered(name), tag));
        },
    }
    match place_of_name(after.tags, lowered(name), 0) {
        Some(q) => {
            match place_of_name(groups.tags, lowered(name), 0) {
                Some(p) => {
                    if q < p {
                        assert(groups.tags[q as int].0 != lowered(name));
                    }
                },
                None => {
                    if q < groups.tags.len() {
                        assert(groups.tags[q as int].0 != lowered(name));
                    }
                },
            }
        },
        None => {},
    }
    if other_tag != tag {
        match (place_of_tag(groups.names, other_tag, 0), place_of_tag(after.names, other_tag, 0)) {
            (Some(a), Some(b)) => {
                assert(after.names[a as int] == groups.names[a as int]);
                if b < groups.names.len() {
                    assert(after.names[b as int] == groups.names[b as int]);
                }
                if a < b {
                    assert(after.names[a as int].0 != other_tag);
                } else if b < a {
                    assert(groups.names[b as int].0 != other_tag);
                }
            },
            (Some(a), None) => {
                assert(after.names[a as int] == groups.names[a as int]);
            },
            (None, Some(b)) => {
                if b < groups.names.len() {
                    assert(after.names[b as int] == groups.names[b as int]);
                }
            },
            _ => {},
        }
    }
    if other_name != lowered(name) {
        match (
            place_of_name(groups.tags, other_name, 0),
            place_of_name(after.tags, other_name, 0),
        ) {
            (Some(a), Some(b)) => {
                assert(after.tags[a as int] == groups.tags[a as int]);
                if b < groups.tags.len() {
                    assert(after.tags[b as int] == groups.tags[b as int]);
                }
                if a < b {
                    assert(after.tags[a as int].0 != other_name);
                } else if b < a {
                    assert(groups.tags[b as int].0 != other_name);
                }
            },
            (Some(a), None) => {
                assert(after.tags[a as int] == groups.tags[a as int]);
            },
            (None, Some(b)) => {
                if b < groups.tags.len() {
                    assert(after.tags[b as int] == groups.tags[b as int]);
                }
            },
            _ => {},
        }
    }
}

/// Every group of an index is found by its tag under its own name, where no later entry has
/// its tag.
pub proof fn every_entered_group_is_found(
    groups: GroupsView,
    entries: Seq<(Seq<char>, Seq<u8>)>,
    n: nat,
    i: int,
    tag: u32,
    name: Seq<char>,
)
    requires
        n <= entries.len(),
        0 <= i < n,
        group_tag_in(entries[i].0) == Some(tag),
        json_text(entries[i].1) == Some(name),
        forall|j: int| i < j < n ==> group_tag_in((#[trigger] entries[j]).0) != Some(tag),
    ensures
        groups.with_entries(entries, n).name_of(tag) == Some(name),
    decreases n,
{
    let before = groups.with_entries(entries, (n - 1) as nat);
    if i == n - 1 {
        an_entered_group_is_found(before, tag, name);
    } else {
        every_entered_group_is_found(groups, entries, (n - 1) as nat, i, tag, name);
        assert(group_tag_in(entries[n - 1].0) != Some(tag));
        if let (Some(other), Some(own)) = (
            group_tag_in(entries[n - 1].0),
            json_text(entries[n - 1].1),
        ) {
            entering_a_group_leaves_the_others(before, other, own, tag, own);
        }
    }
}

}
