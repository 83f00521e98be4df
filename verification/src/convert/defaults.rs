//! Defaults: the null value of block indices, and a kit-authored tag emptied to
//! start a conversion from.
use crate::convert::schema::{AliasesView, SchemaFieldAliases};
use crate::fields::{
    FieldValue, TagFieldData, TagFieldType, block_index_type, default_field_value, default_of,
    defaults_are_stable, interop_reset, interop_reset_bytes,
};
use crate::file::{FileView, TagFile};
use crate::keys::{clean_field_key, element_path, field_key, join_path, joined, path_of_element};
use crate::tag::{
    ContentView, FieldView, StructView, TagArray, TagField, TagStruct, field_is_inside,
    items_are_inside, struct_is_inside,
};
use crate::text::{concat2, concat3, same};
use vstd::prelude::*;

verus! {

// ---------------------------------------------------------------------------
// Block indices
// ---------------------------------------------------------------------------
/// A field of a fresh struct with every block index in it at its null value.
pub open spec fn nulled_field(f: FieldView) -> FieldView
    decreases f,
{
    match f.field_type {
        TagFieldType::Struct => match f.content {
            ContentView::Struct(s) => FieldView {
                content: ContentView::Struct(nulled_struct(s)),
                ..f
            },
            _ => f,
        },
        TagFieldType::Array => match f.content {
            ContentView::Array(a) => FieldView {
                content: ContentView::Array(
                    Seq::new(
                        a.len(),
                        |i: int|
                            if 0 <= i < a.len() {
                                nulled_struct(a[i])
                            } else {
                                arbitrary()
                            },
                    ),
                ),
                ..f
            },
            _ => f,
        },
        t => if block_index_type(t) {
            f.with_value(FieldValue::Number { kind: t, value: -1 })
        } else {
            f
        },
    }
}

/// A fresh struct with every block index in it at its null value.
pub open spec fn nulled_struct(s: StructView) -> StructView
    decreases s,
{
    StructView {
        fields: Seq::new(
            s.fields.len(),
            |i: int|
                if 0 <= i < s.fields.len() {
                    nulled_field(s.fields[i])
                } else {
                    arbitrary()
                },
        ),
        ..s
    }
}

/// Sets every block index of a fresh struct to its null value.
///
/// A newly allocated struct is all zero, but a block index is null at -1: zero
/// is a real index.
pub fn initialize_block_index_defaults(value: &mut TagStruct)
    ensures
        final(value)@ == nulled_struct(old(value)@),
    decreases old(value)@,
{
    let ghost start = value@;
    let n: usize = value.len();
    let mut i: usize = 0;
    while i < n
        invariant
            i <= n,
            n == start.fields.len(),
            start == old(value)@,
            value@ == (StructView { fields: value@.fields, ..start }),
            value@.fields.len() == n,
            forall|j: int| 0 <= j < i ==> value@.fields[j] == nulled_field(start.fields[j]),
            forall|j: int| i <= j < n ==> value@.fields[j] == start.fields[j],
        decreases n - i,
    {
        proof {
            field_is_inside(start, i as int);
        }
        initialize_field(value.at_mut(i));
        i = i + 1;
    }
    assert(value@.fields =~= nulled_struct(start).fields);
}

fn initialize_array(array: &mut TagArray)
    ensures
        final(array)@.len() == old(array)@.len(),
        forall|j: int|
            0 <= j < old(array)@.len() ==> final(array)@[j] == nulled_struct(old(array)@[j]),
    decreases old(array)@,
{
    let ghost before = array@;
    let n: usize = array.len();
    let mut i: usize = 0;
    while i < n
        invariant
            i <= n,
            n == before.len(),
            before == old(array)@,
            array@.len() == n,
            forall|j: int| 0 <= j < i ==> array@[j] == nulled_struct(before[j]),
            forall|j: int| i <= j < n ==> array@[j] == before[j],
        decreases n - i,
    {
        assert(decreases_to!(before => before[i as int]));
        initialize_block_index_defaults(array.at_mut(i));
        i = i + 1;
    }
}

fn initialize_field(field: &mut TagField)
    ensures
        final(field)@ == nulled_field(old(field)@),
    decreases old(field)@,
{
    let ghost start = field@;
    match field.field_type() {
        TagFieldType::Struct => {
            if let Some(nested) = field.as_struct_mut() {
                proof {
                    struct_is_inside(start, nested@);
                }
                initialize_block_index_defaults(nested);
            }
        },
        TagFieldType::Array => {
            if let Some(array) = field.as_array_mut() {
                proof {
                    items_are_inside(start, array@);
                }
                initialize_array(array);
                assert(array@ =~= nulled_field(start).content->Array_0);
            }
        },
        TagFieldType::CharBlockIndex => {
            let _ = field.set(TagFieldData::CharBlockIndex(-1));
        },
        TagFieldType::CustomCharBlockIndex => {
            let _ = field.set(TagFieldData::CustomCharBlockIndex(-1));
        },
        TagFieldType::ShortBlockIndex => {
            let _ = field.set(TagFieldData::ShortBlockIndex(-1));
        },
        TagFieldType::CustomShortBlockIndex => {
            let _ = field.set(TagFieldData::CustomShortBlockIndex(-1));
        },
        TagFieldType::LongBlockIndex => {
            let _ = field.set(TagFieldData::LongBlockIndex(-1));
        },
        TagFieldType::CustomLongBlockIndex => {
            let _ = field.set(TagFieldData::CustomLongBlockIndex(-1));
        },
        _ => {},
    }
}

/// Setting the block indices of a struct to null twice is setting them once.
pub proof fn nulling_is_idempotent(s: StructView)
    ensures
        nulled_struct(nulled_struct(s)) == nulled_struct(s),
    decreases s,
{
    let once = nulled_struct(s);
    assert forall|i: int| 0 <= i < s.fields.len() implies nulled_field(#[trigger] once.fields[i])
        == once.fields[i] by {
        let f = s.fields[i];
        field_is_inside(s, i);
        match f.content {
            ContentView::Struct(n) => {
                struct_is_inside(f, n);
                if f.field_type == TagFieldType::Struct {
                    nulling_is_idempotent(n);
                }
            },
            ContentView::Array(a) => {
                items_are_inside(f, a);
                if f.field_type == TagFieldType::Array {
                    let b = nulled_field(f).content->Array_0;
                    assert forall|k: int| 0 <= k < a.len() implies nulled_struct(#[trigger] b[k])
                        == b[k] by {
                        nulling_is_idempotent(a[k]);
                    }
                    assert(nulled_field(nulled_field(f)).content->Array_0 =~= b);
                }
            },
            _ => {},
        }
    }
    assert(nulled_struct(once).fields =~= once.fields);
}

// ---------------------------------------------------------------------------
// Templates
// ---------------------------------------------------------------------------
/// Whether one of the first `n` fields has the key `key`.
pub open spec fn has_key(fields: Seq<FieldView>, key: Seq<char>, n: nat) -> bool
    decreases n,
{
    if n == 0 || n > fields.len() {
        false
    } else {
        has_key(fields, key, (n - 1) as nat) || field_key(fields[n - 1].name) == key
    }
}

/// Whether a struct is an inlined render method: `options`, `parameters` and
/// `postprocess` together appear nowhere else.
pub open spec fn render_method(s: StructView) -> bool {
    &&& has_key(s.fields, "options"@, s.fields.len())
    &&& has_key(s.fields, "parameters"@, s.fields.len())
    &&& has_key(s.fields, "postprocess"@, s.fields.len()) || has_key(
        s.fields,
        "postprocess definition"@,
        s.fields.len(),
    )
}

fn struct_has_key(value: &TagStruct, key: &str) -> (r: bool)
    ensures
        r == has_key(value@.fields, key@, value@.fields.len()),
{
    let n: usize = value.len();
    let mut found = false;
    let mut i: usize = 0;
    while i < n
        invariant
            i <= n,
            n == value@.fields.len(),
            found == has_key(value@.fields, key@, i as nat),
        decreases n - i,
    {
        if same(&clean_field_key(value.at(i).name()), key) {
            found = true;
        }
        i = i + 1;
    }
    found
}

pub fn is_render_method_struct(value: &TagStruct) -> (r: bool)
    ensures
        r == render_method(value@),
{
    struct_has_key(value, "options") && struct_has_key(value, "parameters") && (struct_has_key(
        value,
        "postprocess",
    ) || struct_has_key(value, "postprocess definition"))
}

/// The name of a field's node in a path: its key, or its type where it has none.
pub open spec fn node_name(f: FieldView) -> Seq<char> {
    if field_key(f.name).len() == 0 {
        f.kind_name
    } else {
        field_key(f.name)
    }
}

/// The path of a field below `path`.
pub open spec fn path_of(path: Seq<char>, f: FieldView) -> Seq<char> {
    joined(path, node_name(f))
}

pub fn path_to_field(path: &str, field: &TagField) -> (r: String)
    ensures
        r@ == path_of(path@, field@),
{
    let key: String = clean_field_key(field.name());
    if key.as_str().is_empty() {
        join_path(path, field.kind_name())
    } else {
        join_path(path, &key)
    }
}

/// Whether a template's field is kept as the kit wrote it: a render method's own
/// definition, and what the schema gives to the engine or the editor.
pub open spec fn kept(f: FieldView, in_render_method: bool, managed: Option<AliasesView>) -> bool {
    ||| in_render_method && f.field_type == TagFieldType::TagReference && field_key(f.name)
        == "definition"@
    ||| managed matches Some(table) && (table.engine_managed.contains(field_key(f.name))
        || table.editor_owned.contains(field_key(f.name)))
}

/// A field of a template emptied, and why it could not be.
pub open spec fn reset_field(
    f: FieldView,
    path: Seq<char>,
    managed: Option<AliasesView>,
) -> (FieldView, Option<Seq<char>>)
    decreases f, 2nat, 0nat,
{
    match f.field_type {
        TagFieldType::Struct => match f.content {
            ContentView::Struct(s) => {
                let (s1, fault) = reset_fields(s, path, managed, s.fields.len());
                (FieldView { content: ContentView::Struct(s1), ..f }, fault)
            },
            _ => (f, None),
        },
        TagFieldType::Block => match f.content {
            ContentView::Block(b) => (
                FieldView { content: ContentView::Block(b.cleared()), ..f },
                None,
            ),
            _ => (f, None),
        },
        TagFieldType::Array => match f.content {
            ContentView::Array(a) => {
                let (a1, fault) = reset_items(a, path, managed, a.len());
                (FieldView { content: ContentView::Array(a1), ..f }, fault)
            },
            _ => (f, None),
        },
        TagFieldType::PageableResource => match f.content {
            ContentView::Resource(r) => if r.content is Null {
                (f, None)
            } else {
                (f, Some("Native template has a non-null pageable resource at "@ + path))
            },
            _ => (f, None),
        },
        TagFieldType::ApiInterop => (
            f.with_value(
                FieldValue::Bytes { kind: TagFieldType::ApiInterop, bytes: interop_reset() },
            ),
            None,
        ),
        t => match f.content {
            ContentView::Value(v) => if v.kind() == t {
                (f.with_value(default_of(v)), None)
            } else {
                (f, Some("Could not reset "@ + path + ": TypeMismatch"@))
            },
            _ => (f, None),
        },
    }
}

/// A struct of a template with its first `n` fields emptied, as far as that went.
pub open spec fn reset_fields(
    s: StructView,
    path: Seq<char>,
    managed: Option<AliasesView>,
    n: nat,
) -> (StructView, Option<Seq<char>>)
    decreases s, 1nat, n,
{
    if n == 0 || n > s.fields.len() {
        (s, None)
    } else {
        let (s1, fault) = reset_fields(s, path, managed, (n - 1) as nat);
        let f = s.fields[n - 1];
        if fault is Some || kept(f, render_method(s), managed) {
            (s1, fault)
        } else {
            let (f1, fault) = reset_field(f, path_of(path, f), managed);
            (StructView { fields: s1.fields.update(n - 1, f1), ..s1 }, fault)
        }
    }
}

/// An array of a template with its first `n` elements emptied, as far as that
/// went.
pub open spec fn reset_items(
    a: Seq<StructView>,
    path: Seq<char>,
    managed: Option<AliasesView>,
    n: nat,
) -> (Seq<StructView>, Option<Seq<char>>)
    decreases a, 1nat, n,
{
    if n == 0 || n > a.len() {
        (a, None)
    } else {
        let (a1, fault) = reset_items(a, path, managed, (n - 1) as nat);
        if fault is Some {
            (a1, fault)
        } else {
            let s = a[n - 1];
            let (s1, fault) = reset_fields(
                s,
                element_path(path, (n - 1) as nat),
                managed,
                s.fields.len(),
            );
            (a1.update(n - 1, s1), fault)
        }
    }
}

/// The view of an optional table of aliases.
pub open spec fn aliases_option(v: Option<&SchemaFieldAliases>) -> Option<AliasesView> {
    match v {
        Some(a) => Some(a@),
        None => None,
    }
}

/// Whether a reset ended as stated.
pub open spec fn ended_with(r: Result<(), String>, fault: Option<Seq<char>>) -> bool {
    match fault {
        Some(message) => r matches Err(m) && m@ == message,
        None => r is Ok,
    }
}

proof fn lemma_reset_stops(
    s: StructView,
    path: Seq<char>,
    managed: Option<AliasesView>,
    i: nat,
    n: nat,
)
    requires
        i <= n <= s.fields.len(),
        reset_fields(s, path, managed, i).1 is Some,
    ensures
        reset_fields(s, path, managed, n) == reset_fields(s, path, managed, i),
    decreases n,
{
    if i < n {
        lemma_reset_stops(s, path, managed, i, (n - 1) as nat);
    }
}

proof fn lemma_reset_items_stop(
    a: Seq<StructView>,
    path: Seq<char>,
    managed: Option<AliasesView>,
    i: nat,
    n: nat,
)
    requires
        i <= n <= a.len(),
        reset_items(a, path, managed, i).1 is Some,
    ensures
        reset_items(a, path, managed, n) == reset_items(a, path, managed, i),
    decreases n,
{
    if i < n {
        lemma_reset_items_stop(a, path, managed, i, (n - 1) as nat);
    }
}

proof fn lemma_reset_keeps_the_rest(
    s: StructView,
    path: Seq<char>,
    managed: Option<AliasesView>,
    n: nat,
)
    requires
        n <= s.fields.len(),
    ensures
        reset_fields(s, path, managed, n).0.fields.len() == s.fields.len(),
        forall|j: int|
            n <= j < s.fields.len() ==> reset_fields(s, path, managed, n).0.fields[j]
                == s.fields[j],
    decreases n,
{
    if n > 0 {
        lemma_reset_keeps_the_rest(s, path, managed, (n - 1) as nat);
    }
}

proof fn lemma_reset_items_keep_the_rest(
    a: Seq<StructView>,
    path: Seq<char>,
    managed: Option<AliasesView>,
    n: nat,
)
    requires
        n <= a.len(),
    ensures
        reset_items(a, path, managed, n).0.len() == a.len(),
        forall|j: int| n <= j < a.len() ==> reset_items(a, path, managed, n).0[j] == a[j],
    decreases n,
{
    if n > 0 {
        lemma_reset_items_keep_the_rest(a, path, managed, (n - 1) as nat);
    }
}

fn reset_array(
    array: &mut TagArray,
    path: &str,
    managed: Option<&SchemaFieldAliases>,
) -> (r: Result<(), String>)
    ensures
        final(array)@ == reset_items(
            old(array)@,
            path@,
            aliases_option(managed),
            old(array)@.len(),
        ).0,
        ended_with(
            r,
            reset_items(old(array)@, path@, aliases_option(managed), old(array)@.len()).1,
        ),
    decreases old(array)@, 1nat,
{
    let ghost start = array@;
    let n: usize = array.len();
    let mut i: usize = 0;
    while i < n
        invariant
            i <= n,
            n == start.len(),
            start == old(array)@,
            (array@, None::<Seq<char>>) == reset_items(
                start,
                path@,
                aliases_option(managed),
                i as nat,
            ),
        decreases n - i,
    {
        proof {
            assert(decreases_to!(start => start[i as int]));
            lemma_reset_items_keep_the_rest(start, path@, aliases_option(managed), i as nat);
        }
        let element_path: String = path_of_element(path, i);
        match reset_struct_to_defaults(array.at_mut(i), &element_path, managed) {
            Ok(()) => {},
            Err(message) => {
                proof {
                    lemma_reset_items_stop(
                        start,
                        path@,
                        aliases_option(managed),
                        (i + 1) as nat,
                        n as nat,
                    );
                }
                return Err(message);
            },
        }
        i = i + 1;
    }
    Ok(())
}

fn reset_one(field: &mut TagField, path: &str, managed: Option<&SchemaFieldAliases>) -> (r: Result<
    (),
    String,
>)
    ensures
        final(field)@ == reset_field(old(field)@, path@, aliases_option(managed)).0,
        ended_with(r, reset_field(old(field)@, path@, aliases_option(managed)).1),
    decreases old(field)@, 2nat,
{
    let ghost start = field@;
    match field.field_type() {
        TagFieldType::Struct => {
            if let Some(nested) = field.as_struct_mut() {
                proof {
                    struct_is_inside(start, nested@);
                }
                return reset_struct_to_defaults(nested, path, managed);
            }
            Ok(())
        },
        TagFieldType::Block => {
            if let Some(block) = field.as_block_mut() {
                block.clear();
            }
            Ok(())
        },
        TagFieldType::Array => {
            if let Some(array) = field.as_array_mut() {
                proof {
                    items_are_inside(start, array@);
                }
                return reset_array(array, path, managed);
            }
            Ok(())
        },
        TagFieldType::PageableResource => {
            if let Some(resource) = field.as_resource() {
                if !resource.is_null() {
                    return Err(
                        concat2("Native template has a non-null pageable resource at ", path),
                    );
                }
            }
            Ok(())
        },
        TagFieldType::ApiInterop => {
            let _ = field.set(TagFieldData::ApiInterop(interop_reset_bytes()));
            Ok(())
        },
        _ => {
            let default: TagFieldData = match field.value() {
                Some(value) => default_field_value(value),
                None => {
                    return Ok(());
                },
            };
            proof {
                defaults_are_stable(start.content->Value_0);
            }
            match field.set(default) {
                Ok(()) => Ok(()),
                Err(_) => Err(concat3("Could not reset ", path, ": TypeMismatch")),
            }
        },
    }
}

/// Empties a kit-authored struct, except for what the kit, the engine or the
/// editor put there for good.
pub fn reset_struct_to_defaults(
    value: &mut TagStruct,
    path: &str,
    managed: Option<&SchemaFieldAliases>,
) -> (r: Result<(), String>)
    ensures
        final(value)@ == reset_fields(
            old(value)@,
            path@,
            aliases_option(managed),
            old(value)@.fields.len(),
        ).0,
        ended_with(
            r,
            reset_fields(
                old(value)@,
                path@,
                aliases_option(managed),
                old(value)@.fields.len(),
            ).1,
        ),
    decreases old(value)@, 1nat,
{
    let ghost start = value@;
    let in_render_method = is_render_method_struct(value);
    let n: usize = value.len();
    let mut i: usize = 0;
    while i < n
        invariant
            i <= n,
            n == start.fields.len(),
            start == old(value)@,
            in_render_method == render_method(start),
            (value@, None::<Seq<char>>) == reset_fields(start, path@, aliases_option(managed), i as nat),
        decreases n - i,
    {
        proof {
            field_is_inside(start, i as int);
            lemma_reset_keeps_the_rest(start, path@, aliases_option(managed), i as nat);
        }
        let key: String = clean_field_key(value.at(i).name());
        let own_definition = in_render_method && value.at(i).field_type()
            == TagFieldType::TagReference && same(&key, "definition");
        let owned = match managed {
            Some(table) => table.is_engine_managed(&key) || table.is_editor_owned(&key),
            None => false,
        };
        if !own_definition && !owned {
            let field_path: String = path_to_field(path, value.at(i));
            match reset_one(value.at_mut(i), &field_path, managed) {
                Ok(()) => {},
                Err(message) => {
                    proof {
                        lemma_reset_stops(
                            start,
                            path@,
                            aliases_option(managed),
                            (i + 1) as nat,
                            n as nat,
                        );
                    }
                    return Err(message);
                },
            }
        }
        i = i + 1;
    }
    Ok(())
}

/// A file with its root emptied, as far as that went, and without the streams
/// behind it where it went to the end.
pub open spec fn reset_file(file: FileView, managed: Option<AliasesView>) -> (
    FileView,
    Option<Seq<char>>,
) {
    let (root, fault) = reset_fields(
        file.root,
        Seq::empty(),
        managed,
        file.root.fields.len(),
    );
    (
        if fault is Some {
            FileView { root, ..file }
        } else {
            FileView {
                root,
                dependency_list: None,
                import_info: None,
                asset_depot_storage: None,
                ..file
            }
        },
        fault,
    )
}

/// Empties a kit-authored tag to start a conversion from.
pub fn reset_tag_to_defaults(tag: &mut TagFile, managed: Option<&SchemaFieldAliases>) -> (r: Result<
    (),
    String,
>)
    ensures
        final(tag)@ == reset_file(old(tag)@, aliases_option(managed)).0,
        ended_with(r, reset_file(old(tag)@, aliases_option(managed)).1),
{
    let path: String = String::new();
    match reset_struct_to_defaults(&mut tag.root, &path, managed) {
        Ok(()) => {},
        Err(message) => {
            return Err(message);
        },
    }
    tag.dependency_list = None;
    tag.import_info = None;
    tag.asset_depot_storage = None;
    Ok(())
}

}
