//! The files of a conversion: each companion has its own, and references lead to it.
use crate::convert::analysis::DraftView;
use crate::convert::companions::COMPANION_REFERENCE_PREFIX;
use crate::convert::finishing::lists_taken;
use crate::convert::outputs::{
    companion_key_of, companions_resolved, field_resolved, fields_resolved, list_resolved,
    output_from, outputs_placed, reference_path, settled_references, settled_references_among,
    settled_references_in, struct_resolved,
};
use crate::convert::report::CompanionView;
use crate::fields::{FieldValue, TagFieldType};
use crate::file::FileView;
use crate::keys::PathComponentView;
use crate::tag::{
    ContentView, FieldView, StructView, elements_are_inside, items_are_inside, struct_is_inside,
};
use vstd::prelude::*;

verus! {

// ---------------------------------------------------------------------------
// Where companions go
// ---------------------------------------------------------------------------
proof fn lemma_output_from(table: Seq<(Seq<char>, Seq<char>)>, key: Seq<char>, from: nat)
    ensures
        match output_from(table, key, from) {
            Some(output) => exists|i: int|
                from <= i < table.len() && #[trigger] table[i] == (key, output) && forall|j: int|
                    from <= j < i ==> (#[trigger] table[j]).0 != key,
            None => forall|i: int| from <= i < table.len() ==> (#[trigger] table[i]).0 != key,
        },
    decreases table.len() - from,
{
    if from < table.len() {
        if table[from as int].0 == key {
            assert(table[from as int] == (key, table[from as int].1));
        } else {
            lemma_output_from(table, key, from + 1);
        }
    }
}

/// The output of a key is the one that stands beside it, the first that does.
pub proof fn a_key_leads_to_its_own_output(
    table: Seq<(Seq<char>, Seq<char>)>,
    key: Seq<char>,
    i: int,
)
    requires
        0 <= i < table.len(),
        table[i].0 == key,
        forall|j: int| 0 <= j < i ==> (#[trigger] table[j]).0 != key,
    ensures
        output_from(table, key, 0) == Some(table[i].1),
{
    lemma_output_from(table, key, 0);
    let output = output_from(table, key, 0)->0;
    let k = choose|k: int|
        0 <= k < table.len() && #[trigger] table[k] == (key, output) && forall|j: int|
            0 <= j < k ==> (#[trigger] table[j]).0 != key;
    if k < i {
        assert(table[k].0 != key);
    } else if i < k {
        assert(table[i].0 != key);
    }
}

/// Each companion has a file of its own beside the main one: the main file's name, the
/// companion's suffix and its extension; and its key leads to that very file's reference
/// path. No two companions share a key.
pub proof fn every_companion_has_its_own_output(
    companions: Seq<CompanionView>,
    folder: Seq<PathComponentView>,
    name: Seq<char>,
    root: Seq<PathComponentView>,
    n: nat,
)
    requires
        n <= companions.len(),
        outputs_placed(companions, folder, name, root, n) is Ok,
    ensures
        ({
            let placed = outputs_placed(companions, folder, name, root, n)->Ok_0;
            &&& placed.outputs.len() == n
            &&& placed.references.len() == n
            &&& forall|i: int|
                0 <= i < n ==> #[trigger] placed.outputs[i] == folder.push(
                    PathComponentView::Normal(
                        name + companions[i].file_suffix + "."@ + companions[i].extension,
                    ),
                )
            &&& forall|i: int|
                0 <= i < n ==> (#[trigger] placed.references[i]).0 == companions[i].key
                    && reference_path(placed.outputs[i], root) == Ok::<Seq<char>, Seq<char>>(
                    placed.references[i].1,
                )
            &&& forall|i: int, j: int|
                0 <= i < j < n ==> (#[trigger] companions[i]).key != (#[trigger] companions[j]).key
        }),
    decreases n,
{
    if n > 0 {
        let m = (n - 1) as nat;
        every_companion_has_its_own_output(companions, folder, name, root, m);
        let sofar = outputs_placed(companions, folder, name, root, m)->Ok_0;
        lemma_output_from(sofar.references, companions[n - 1].key, 0);
        assert forall|i: int, j: int| 0 <= i < j < n implies (#[trigger] companions[i]).key != (
        #[trigger] companions[j]).key by {
            if j == n - 1 {
                assert(sofar.references[i].0 == companions[i].key);
            }
        }
    }
}

/// Companions with different keys are all placed where their outputs lie under the root of
/// the tags.
pub proof fn companions_with_different_keys_are_placed(
    companions: Seq<CompanionView>,
    folder: Seq<PathComponentView>,
    name: Seq<char>,
    root: Seq<PathComponentView>,
    n: nat,
)
    requires
        n <= companions.len(),
        forall|i: int, j: int|
            0 <= i < j < n ==> (#[trigger] companions[i]).key != (#[trigger] companions[j]).key,
        forall|i: int|
            0 <= i < n ==> reference_path(
                folder.push(
                    PathComponentView::Normal(
                        name + (#[trigger] companions[i]).file_suffix + "."@
                            + companions[i].extension,
                    ),
                ),
                root,
            ) is Ok,
    ensures
        outputs_placed(companions, folder, name, root, n) is Ok,
    decreases n,
{
    if n > 0 {
        let m = (n - 1) as nat;
        companions_with_different_keys_are_placed(companions, folder, name, root, m);
        every_companion_has_its_own_output(companions, folder, name, root, m);
        let sofar = outputs_placed(companions, folder, name, root, m)->Ok_0;
        let last = companions[n - 1];
        lemma_output_from(sofar.references, last.key, 0);
        assert forall|i: int| 0 <= i < m implies (#[trigger] sofar.references[i]).0 != last.key by {
            assert(sofar.references[i].0 == companions[i].key);
        }
    }
}

/// The companions are resolved each in its place: nothing of a companion changes but the
/// references in its own tag.
pub proof fn every_companion_is_resolved_in_its_place(
    companions: Seq<CompanionView>,
    table: Seq<(Seq<char>, Seq<char>)>,
    n: nat,
)
    requires
        n <= companions.len(),
        companions_resolved(companions, table, n).1 is None,
    ensures
        ({
            let r = companions_resolved(companions, table, n).0;
            &&& r.len() == companions.len()
            &&& forall|i: int|
                0 <= i < n ==> #[trigger] r[i] == (CompanionView {
                    tag: FileView {
                        root: struct_resolved(companions[i].tag.root, table).0,
                        ..companions[i].tag
                    },
                    ..companions[i]
                })
            &&& forall|i: int| n <= i < companions.len() ==> #[trigger] r[i] == companions[i]
        }),
    decreases n,
{
    if n > 0 {
        every_companion_is_resolved_in_its_place(companions, table, (n - 1) as nat);
    }
}

// ---------------------------------------------------------------------------
// References that lead nowhere else
// ---------------------------------------------------------------------------
/// A reference to a companion becomes one to the companion's output, of the same group.
pub proof fn a_companion_reference_leads_to_its_output(
    f: FieldView,
    table: Seq<(Seq<char>, Seq<char>)>,
    group: u32,
    key: Seq<char>,
    i: int,
)
    requires
        f.field_type == TagFieldType::TagReference,
        f.content == ContentView::Value(
            FieldValue::Reference(Some((group, "__baboon_companion__/"@ + key))),
        ),
        0 <= i < table.len(),
        table[i].0 == key,
        forall|j: int| 0 <= j < i ==> (#[trigger] table[j]).0 != key,
    ensures
        field_resolved(f, table) == (
            FieldView {
                content: ContentView::Value(FieldValue::Reference(Some((group, table[i].1)))),
                ..f
            },
            None::<Seq<char>>,
        ),
{
    let path = "__baboon_companion__/"@ + key;
    let prefix = COMPANION_REFERENCE_PREFIX@;
    assert(prefix == "__baboon_companion__/"@);
    assert(path.take(prefix.len() as int) =~= prefix);
    assert(path.skip(prefix.len() as int) =~= key);
    assert(companion_key_of(path) == Some(key));
    a_key_leads_to_its_own_output(table, key, i);
}

proof fn lemma_field_left(f: FieldView, table: Seq<(Seq<char>, Seq<char>)>)
    requires
        settled_references(f),
    ensures
        field_resolved(f, table) == (f, None::<Seq<char>>),
    decreases f, 0nat,
{
    match f.content {
        ContentView::Struct(s) => {
            if f.field_type == TagFieldType::Struct {
                struct_is_inside(f, s);
                assert(decreases_to!(s => s.fields));
                lemma_fields_left(s.fields, table, s.fields.len());
            }
        },
        ContentView::Block(b) => {
            if f.field_type == TagFieldType::Block {
                elements_are_inside(f, b);
                lemma_list_left(b.elements, table, b.elements.len());
            }
        },
        ContentView::Array(a) => {
            if f.field_type == TagFieldType::Array {
                items_are_inside(f, a);
                lemma_list_left(a, table, a.len());
            }
        },
        _ => {},
    }
}

proof fn lemma_fields_left(fields: Seq<FieldView>, table: Seq<(Seq<char>, Seq<char>)>, n: nat)
    requires
        settled_references_in(fields, n),
    ensures
        fields_resolved(fields, table, n) == (fields, None::<Seq<char>>),
    decreases fields, n,
{
    if 0 < n <= fields.len() {
        lemma_fields_left(fields, table, (n - 1) as nat);
        lemma_field_left(fields[n - 1], table);
        assert(fields.update(n - 1, fields[n - 1]) =~= fields);
    }
}

proof fn lemma_list_left(list: Seq<StructView>, table: Seq<(Seq<char>, Seq<char>)>, n: nat)
    requires
        settled_references_among(list, n),
    ensures
        list_resolved(list, table, n) == (list, None::<Seq<char>>),
    decreases list, n,
{
    if 0 < n <= list.len() {
        lemma_list_left(list, table, (n - 1) as nat);
        let s = list[n - 1];
        assert(decreases_to!(list => list[n - 1]));
        assert(decreases_to!(s => s.fields));
        lemma_fields_left(s.fields, table, s.fields.len());
        assert(struct_resolved(s, table) == (s, None::<Seq<char>>));
        assert(list.update(n - 1, s) =~= list);
    }
}

/// A tree that refers to no companion stays as it was, in every depth and every place.
pub proof fn a_tree_without_companions_stays_as_it_was(
    s: StructView,
    table: Seq<(Seq<char>, Seq<char>)>,
)
    requires
        settled_references_in(s.fields, s.fields.len()),
    ensures
        struct_resolved(s, table) == (s, None::<Seq<char>>),
{
    lemma_fields_left(s.fields, table, s.fields.len());
}

// ---------------------------------------------------------------------------
// The lists of dependencies
// ---------------------------------------------------------------------------
/// The lists of dependencies go to the tags in their order: the first to the converted tag,
/// the one behind it to the first companion, and so on.
pub proof fn every_tag_gets_its_own_list(
    d: DraftView,
    lists: Seq<Result<Seq<u8>, Seq<char>>>,
    n: nat,
)
    requires
        n <= lists.len(),
        n <= d.companions.len() + 1,
        lists_taken(d, lists, n).1 is None,
    ensures
        ({
            let after = lists_taken(d, lists, n).0;
            &&& after.companions.len() == d.companions.len()
            &&& n > 0 ==> lists[0] is Ok && after.tag.dependency_list == Some(lists[0]->Ok_0)
            &&& forall|i: int|
                1 <= i < n ==> (#[trigger] lists[i]) is Ok && after.companions[i
                    - 1].tag.dependency_list == Some(lists[i]->Ok_0)
            &&& forall|i: int|
                n <= i <= d.companions.len() && i >= 1 ==> #[trigger] after.companions[i - 1]
                    == d.companions[i - 1]
        }),
    decreases n,
{
    if n > 0 {
        every_tag_gets_its_own_list(d, lists, (n - 1) as nat);
    }
}

}
