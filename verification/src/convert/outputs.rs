//! Where companions of a converted tag are written, and the references to them.
use crate::convert::analysis::{DraftView, TagConversionDraft};
use crate::convert::companions::COMPANION_REFERENCE_PREFIX;
use crate::convert::report::{CompanionTagDraft, CompanionView, companion_views};
use crate::convert::schema::pair_views;
use crate::fields::{FieldValue, TagFieldData, TagFieldType, TagReferenceData, text_option};
use crate::file::FileView;
use crate::keys::{
    PathComponent, PathComponentView, components, normal_path, normalize_conversion_path,
};
use crate::tag::{
    BlockView, ContentView, FieldView, StructView, TagArray, TagBlock, TagField, TagStruct,
    elements_are_inside, field_is_inside, items_are_inside, struct_is_inside,
};
use crate::text::{
    begins, chars_of, concat2, concat4, copy, join_texts, joined_with, lemma_texts_push, no_texts,
    same, starts_with, text_of, texts,
};
use vstd::prelude::*;

verus! {

// ---------------------------------------------------------------------------
// Paths
// ---------------------------------------------------------------------------
/// The text of a path's component.
pub open spec fn component_text(c: PathComponentView) -> Seq<char> {
    match c {
        PathComponentView::Prefix(s) => s,
        PathComponentView::RootDir => "/"@,
        PathComponentView::CurDir => "."@,
        PathComponentView::ParentDir => ".."@,
        PathComponentView::Normal(s) => s,
    }
}

/// The texts of a path's components.
pub open spec fn component_texts(path: Seq<PathComponentView>) -> Seq<Seq<char>> {
    Seq::new(path.len(), |i: int| component_text(path[i]))
}

/// A path as it is shown.
pub open spec fn path_text(path: Seq<PathComponentView>) -> Seq<char>
    decreases path.len(),
{
    if path.len() == 0 {
        Seq::empty()
    } else {
        let rest = path_text(path.drop_last());
        if rest.len() == 0 || path.last() is RootDir || path[path.len() - 2] is RootDir {
            rest + component_text(path.last())
        } else {
            rest + "/"@ + component_text(path.last())
        }
    }
}

/// The last dot among the first `n` characters.
pub open spec fn last_dot(name: Seq<char>, n: nat) -> Option<nat>
    decreases n,
{
    if n == 0 || n > name.len() {
        None
    } else if name[n - 1] == '.' {
        Some((n - 1) as nat)
    } else {
        last_dot(name, (n - 1) as nat)
    }
}

/// A file name without its extension: what is before the last dot, unless that is
/// nothing.
pub open spec fn stem(name: Seq<char>) -> Seq<char> {
    match last_dot(name, name.len()) {
        Some(i) => if i > 0 {
            name.take(i as int)
        } else {
            name
        },
        None => name,
    }
}

/// The folder that a path is in.
pub open spec fn parent(path: Seq<PathComponentView>) -> Option<Seq<PathComponentView>> {
    if path.len() == 0 || path.last() is RootDir || path.last() is Prefix {
        None
    } else {
        Some(path.drop_last())
    }
}

/// The name of a path's file, without its extension.
pub open spec fn file_stem(path: Seq<PathComponentView>) -> Option<Seq<char>> {
    if path.len() == 0 {
        None
    } else {
        match path.last() {
            PathComponentView::Normal(name) => Some(stem(name)),
            _ => None,
        }
    }
}

/// A path without the extension of its file.
pub open spec fn without_extension(path: Seq<PathComponentView>) -> Seq<PathComponentView> {
    match file_stem(path) {
        Some(name) => path.drop_last().push(PathComponentView::Normal(name)),
        None => path,
    }
}

/// What is behind `root` in a path that begins with it.
pub open spec fn path_behind(path: Seq<PathComponentView>, root: Seq<PathComponentView>) -> Option<
    Seq<PathComponentView>,
> {
    if root.len() <= path.len() && path.take(root.len() as int) == root {
        Some(path.skip(root.len() as int))
    } else {
        None
    }
}

/// The path by which a tag refers to another: from the root of the tags on, without
/// the extension.
pub open spec fn reference_path(output: Seq<PathComponentView>, root: Seq<PathComponentView>) -> Result<
    Seq<char>,
    Seq<char>,
> {
    match path_behind(normal_path(output), normal_path(root)) {
        Some(relative) => Ok(
            joined_with(
                component_texts(without_extension(relative)),
                "\\"@,
                without_extension(relative).len(),
            ),
        ),
        None => Err(
            "Companion output "@ + path_text(normal_path(output))
                + " is outside target tags root "@ + path_text(normal_path(root)),
        ),
    }
}

fn text_of_component(c: &PathComponent) -> (r: String)
    ensures
        r@ == component_text(c@),
{
    match c {
        PathComponent::Prefix(s) => copy(s),
        PathComponent::RootDir => copy("/"),
        PathComponent::CurDir => copy("."),
        PathComponent::ParentDir => copy(".."),
        PathComponent::Normal(s) => copy(s),
    }
}

fn texts_of_components(path: &Vec<PathComponent>) -> (r: Vec<String>)
    ensures
        texts(r@) == component_texts(components(path@)),
        r@.len() == path@.len(),
{
    let mut r: Vec<String> = no_texts();
    assert(r@.len() == texts(r@).len());
    let mut i: usize = 0;
    while i < path.len()
        invariant
            i <= path.len(),
            r@.len() == i,
            texts(r@) == component_texts(components(path@)).take(i as int),
        decreases path.len() - i,
    {
        let text: String = text_of_component(&path[i]);
        proof {
            lemma_texts_push(r@, text);
        }
        r.push(text);
        i = i + 1;
        assert(texts(r@) =~= component_texts(components(path@)).take(i as int));
    }
    assert(texts(r@) =~= component_texts(components(path@)));
    r
}

/// A path as it is shown.
pub fn text_of_path(path: &Vec<PathComponent>) -> (r: String)
    ensures
        r@ == path_text(components(path@)),
{
    let ghost all = components(path@);
    let mut r: String = String::new();
    let mut i: usize = 0;
    assert(r@ =~= path_text(all.take(0)));
    while i < path.len()
        invariant
            i <= path.len(),
            all == components(path@),
            r@ == path_text(all.take(i as int)),
        decreases path.len() - i,
    {
        assert(all.take(i + 1).drop_last() =~= all.take(i as int));
        assert(all.take(i + 1).last() == path@[i as int]@);
        assert(i > 0 ==> all.take(i + 1)[i - 1] == path@[i - 1]@);
        let text: String = text_of_component(&path[i]);
        let ghost rest = r@;
        let plain: bool = r.as_str().is_empty() || matches!(path[i], PathComponent::RootDir) || (i > 0
            && matches!(path[i - 1], PathComponent::RootDir));
        if plain {
            r.append(&text);
            assert(r@ =~= path_text(all.take(i + 1)));
        } else {
            r.append("/");
            r.append(&text);
            assert(r@ =~= path_text(all.take(i + 1)));
        }
        i = i + 1;
    }
    assert(all.take(i as int) =~= all);
    r
}

/// A file name without its extension.
pub fn stem_of(name: &str) -> (r: String)
    ensures
        r@ == stem(name@),
{
    let chars: Vec<char> = chars_of(name);
    let mut i: usize = chars.len();
    while i > 0 && chars[i - 1] != '.'
        invariant
            i <= chars.len(),
            chars@ == name@,
            last_dot(name@, name@.len()) == last_dot(name@, i as nat),
        decreases i,
    {
        i = i - 1;
    }
    if i <= 1 {
        return copy(name);
    }
    let mut front: Vec<char> = Vec::new();
    let mut j: usize = 0;
    while j < i - 1
        invariant
            j <= i - 1,
            1 < i <= chars.len(),
            front@ == chars@.take(j as int),
        decreases i - 1 - j,
    {
        front.push(chars[j]);
        j = j + 1;
        assert(front@ =~= chars@.take(j as int));
    }
    text_of(&front)
}

fn same_component(a: &PathComponent, b: &PathComponent) -> (r: bool)
    ensures
        r == (a@ == b@),
{
    match (a, b) {
        (PathComponent::Prefix(x), PathComponent::Prefix(y)) => same(x, y),
        (PathComponent::RootDir, PathComponent::RootDir) => true,
        (PathComponent::CurDir, PathComponent::CurDir) => true,
        (PathComponent::ParentDir, PathComponent::ParentDir) => true,
        (PathComponent::Normal(x), PathComponent::Normal(y)) => same(x, y),
        _ => false,
    }
}

fn copy_component(c: &PathComponent) -> (r: PathComponent)
    ensures
        r@ == c@,
{
    match c {
        PathComponent::Prefix(s) => PathComponent::Prefix(copy(s)),
        PathComponent::RootDir => PathComponent::RootDir,
        PathComponent::CurDir => PathComponent::CurDir,
        PathComponent::ParentDir => PathComponent::ParentDir,
        PathComponent::Normal(s) => PathComponent::Normal(copy(s)),
    }
}

fn copy_components(path: &Vec<PathComponent>, from: usize, to: usize) -> (r: Vec<PathComponent>)
    requires
        from <= to <= path@.len(),
    ensures
        components(r@) == components(path@).subrange(from as int, to as int),
{
    let mut r: Vec<PathComponent> = Vec::new();
    let mut i: usize = from;
    assert(components(r@) =~= components(path@).subrange(from as int, from as int));
    while i < to
        invariant
            from <= i <= to <= path@.len(),
            components(r@) == components(path@).subrange(from as int, i as int),
        decreases to - i,
    {
        let ghost before = r@;
        let c: PathComponent = copy_component(&path[i]);
        r.push(c);
        assert(components(r@) =~= components(before).push(c@));
        i = i + 1;
        assert(components(r@) =~= components(path@).subrange(from as int, i as int));
    }
    r
}

fn relative_to(path: &Vec<PathComponent>, root: &Vec<PathComponent>) -> (r: Option<
    Vec<PathComponent>,
>)
    ensures
        match r {
            Some(relative) => path_behind(components(path@), components(root@)) == Some(
                components(relative@),
            ),
            None => path_behind(components(path@), components(root@)) is None,
        },
{
    if root.len() > path.len() {
        return None;
    }
    let mut i: usize = 0;
    while i < root.len()
        invariant
            i <= root.len() <= path.len(),
            forall|j: int| 0 <= j < i ==> components(path@)[j] == components(root@)[j],
        decreases root.len() - i,
    {
        if !same_component(&path[i], &root[i]) {
            assert(components(path@).take(root@.len() as int)[i as int] != components(
                root@,
            )[i as int]);
            return None;
        }
        i = i + 1;
    }
    assert(components(path@).take(root@.len() as int) =~= components(root@));
    let relative: Vec<PathComponent> = copy_components(path, root.len(), path.len());
    assert(components(relative@) =~= components(path@).skip(root@.len() as int));
    Some(relative)
}

fn drop_extension(path: Vec<PathComponent>) -> (r: Vec<PathComponent>)
    ensures
        components(r@) == without_extension(components(path@)),
{
    let ghost start = components(path@);
    let mut path: Vec<PathComponent> = path;
    if path.len() == 0 {
        return path;
    }
    let last: usize = path.len() - 1;
    assert(start.last() == path@[last as int]@);
    let name: Option<String> = match &path[last] {
        PathComponent::Normal(name) => Some(stem_of(name)),
        _ => None,
    };
    if let Some(name) = name {
        let c: PathComponent = PathComponent::Normal(name);
        path[last] = c;
        assert(components(path@) =~= start.drop_last().push(c@));
    }
    path
}

/// The path by which a tag refers to the one at `output`.
pub fn output_reference_path(output: &Vec<PathComponent>, target_tags_root: &Vec<PathComponent>) -> (r:
    Result<String, String>)
    ensures
        match r {
            Ok(path) => reference_path(components(output@), components(target_tags_root@)) == Ok::<
                Seq<char>,
                Seq<char>,
            >(path@),
            Err(why) => reference_path(components(output@), components(target_tags_root@))
                == Err::<Seq<char>, Seq<char>>(why@),
        },
{
    let normal: Vec<PathComponent> = normalize_conversion_path(output);
    let root: Vec<PathComponent> = normalize_conversion_path(target_tags_root);
    match relative_to(&normal, &root) {
        None => {
            let own: String = text_of_path(&normal);
            let outer: String = text_of_path(&root);
            Err(concat4("Companion output ", &own, " is outside target tags root ", &outer))
        },
        Some(relative) => {
            let reference: Vec<PathComponent> = drop_extension(relative);
            let parts: Vec<String> = texts_of_components(&reference);
            Ok(join_texts(&parts, "\\", parts.len()))
        },
    }
}

// ---------------------------------------------------------------------------
// References to companions
// ---------------------------------------------------------------------------
/// The path behind `key` in a table, from `i` on.
pub open spec fn output_from(table: Seq<(Seq<char>, Seq<char>)>, key: Seq<char>, i: nat) -> Option<
    Seq<char>,
>
    decreases table.len() - i,
{
    if i >= table.len() {
        None
    } else if table[i as int].0 == key {
        Some(table[i as int].1)
    } else {
        output_from(table, key, i + 1)
    }
}

/// The key of the companion that a reference stands for.
pub open spec fn companion_key_of(path: Seq<char>) -> Option<Seq<char>> {
    if begins(path, COMPANION_REFERENCE_PREFIX@) {
        Some(path.skip(COMPANION_REFERENCE_PREFIX@.len() as int))
    } else {
        None
    }
}

/// A field with the references in it resolved, and the first that could not be.
pub open spec fn field_resolved(f: FieldView, table: Seq<(Seq<char>, Seq<char>)>) -> (
    FieldView,
    Option<Seq<char>>,
)
    decreases f, 0nat,
{
    match f.field_type {
        TagFieldType::TagReference => match f.content {
            ContentView::Value(FieldValue::Reference(Some((group, path)))) => match companion_key_of(
                path,
            ) {
                Some(key) => match output_from(table, key, 0) {
                    Some(output) => (
                        f.with_value(FieldValue::Reference(Some((group, output)))),
                        None,
                    ),
                    None => (f, Some("Missing generated companion output for "@ + key)),
                },
                None => (f, None),
            },
            _ => (f, None),
        },
        TagFieldType::Struct => match f.content {
            ContentView::Struct(s) => {
                let (after, fault) = struct_resolved(s, table);
                (FieldView { content: ContentView::Struct(after), ..f }, fault)
            },
            _ => (f, None),
        },
        TagFieldType::Block => match f.content {
            ContentView::Block(b) => {
                let (after, fault) = list_resolved(b.elements, table, b.elements.len());
                (
                    FieldView {
                        content: ContentView::Block(BlockView { elements: after, ..b }),
                        ..f
                    },
                    fault,
                )
            },
            _ => (f, None),
        },
        TagFieldType::Array => match f.content {
            ContentView::Array(a) => {
                let (after, fault) = list_resolved(a, table, a.len());
                (FieldView { content: ContentView::Array(after), ..f }, fault)
            },
            _ => (f, None),
        },
        _ => (f, None),
    }
}

/// The fields with the references in the first `n` of them resolved, up to the
/// first that could not be.
pub open spec fn fields_resolved(
    fields: Seq<FieldView>,
    table: Seq<(Seq<char>, Seq<char>)>,
    n: nat,
) -> (Seq<FieldView>, Option<Seq<char>>)
    decreases fields, n,
{
    if n == 0 || n > fields.len() {
        (fields, None)
    } else {
        let (sofar, fault) = fields_resolved(fields, table, (n - 1) as nat);
        if fault is Some {
            (sofar, fault)
        } else {
            let (after, more) = field_resolved(fields[n - 1], table);
            (sofar.update(n - 1, after), more)
        }
    }
}

/// The same of a list of structs.
pub open spec fn list_resolved(
    list: Seq<StructView>,
    table: Seq<(Seq<char>, Seq<char>)>,
    n: nat,
) -> (Seq<StructView>, Option<Seq<char>>)
    decreases list, n,
{
    if n == 0 || n > list.len() {
        (list, None)
    } else {
        let (sofar, fault) = list_resolved(list, table, (n - 1) as nat);
        if fault is Some {
            (sofar, fault)
        } else {
            let (after, more) = struct_resolved(list[n - 1], table);
            (sofar.update(n - 1, after), more)
        }
    }
}

/// A struct with the references in it resolved, up to the first that could not be.
pub open spec fn struct_resolved(s: StructView, table: Seq<(Seq<char>, Seq<char>)>) -> (
    StructView,
    Option<Seq<char>>,
)
    decreases s, 0nat,
{
    let (fields, fault) = fields_resolved(s.fields, table, s.fields.len());
    (StructView { fields, ..s }, fault)
}

proof fn lemma_fields_resolved(fields: Seq<FieldView>, table: Seq<(Seq<char>, Seq<char>)>, n: nat)
    requires
        n <= fields.len(),
    ensures
        fields_resolved(fields, table, n).0.len() == fields.len(),
        forall|i: int|
            n <= i < fields.len() ==> fields_resolved(fields, table, n).0[i] == fields[i],
    decreases n,
{
    if n > 0 {
        lemma_fields_resolved(fields, table, (n - 1) as nat);
    }
}

proof fn lemma_fields_fault(
    fields: Seq<FieldView>,
    table: Seq<(Seq<char>, Seq<char>)>,
    n: nat,
    m: nat,
)
    requires
        n <= m <= fields.len(),
        fields_resolved(fields, table, n).1 is Some,
    ensures
        fields_resolved(fields, table, m) == fields_resolved(fields, table, n),
    decreases m,
{
    if n < m {
        lemma_fields_fault(fields, table, n, (m - 1) as nat);
    }
}

proof fn lemma_list_resolved(list: Seq<StructView>, table: Seq<(Seq<char>, Seq<char>)>, n: nat)
    requires
        n <= list.len(),
    ensures
        list_resolved(list, table, n).0.len() == list.len(),
        forall|i: int| n <= i < list.len() ==> list_resolved(list, table, n).0[i] == list[i],
    decreases n,
{
    if n > 0 {
        lemma_list_resolved(list, table, (n - 1) as nat);
    }
}

proof fn lemma_list_fault(
    list: Seq<StructView>,
    table: Seq<(Seq<char>, Seq<char>)>,
    n: nat,
    m: nat,
)
    requires
        n <= m <= list.len(),
        list_resolved(list, table, n).1 is Some,
    ensures
        list_resolved(list, table, m) == list_resolved(list, table, n),
    decreases m,
{
    if n < m {
        lemma_list_fault(list, table, n, (m - 1) as nat);
    }
}

fn output_of(table: &Vec<(String, String)>, key: &str) -> (r: Option<String>)
    ensures
        text_option(r) == output_from(pair_views(table@), key@, 0),
{
    let mut i: usize = 0;
    while i < table.len()
        invariant
            i <= table.len(),
            output_from(pair_views(table@), key@, 0) == output_from(
                pair_views(table@),
                key@,
                i as nat,
            ),
        decreases table.len() - i,
    {
        if same(&table[i].0, key) {
            return Some(copy(&table[i].1));
        }
        i = i + 1;
    }
    None
}

fn key_of_companion(path: &str) -> (r: Option<String>)
    ensures
        text_option(r) == companion_key_of(path@),
{
    if !starts_with(path, COMPANION_REFERENCE_PREFIX) {
        return None;
    }
    let chars: Vec<char> = chars_of(path);
    let skipped: Vec<char> = chars_of(COMPANION_REFERENCE_PREFIX);
    let mut rest: Vec<char> = Vec::new();
    let mut i: usize = skipped.len();
    assert(rest@ =~= chars@.subrange(i as int, i as int));
    while i < chars.len()
        invariant
            skipped@.len() <= i <= chars.len(),
            rest@ == chars@.subrange(skipped@.len() as int, i as int),
        decreases chars.len() - i,
    {
        rest.push(chars[i]);
        i = i + 1;
        assert(rest@ =~= chars@.subrange(skipped@.len() as int, i as int));
    }
    assert(rest@ =~= chars@.skip(skipped@.len() as int));
    Some(text_of(&rest))
}

/// The outcome of resolving.
pub open spec fn fault_view(r: Result<(), String>) -> Option<Seq<char>> {
    match r {
        Ok(_) => None,
        Err(why) => Some(why@),
    }
}

/// Puts the path of each companion in the place of the references that stand for
/// it.
pub fn resolve_companion_references(structure: &mut TagStruct, table: &Vec<(String, String)>) -> (r:
    Result<(), String>)
    ensures
        (final(structure)@, fault_view(r)) == struct_resolved(old(structure)@, pair_views(table@)),
    decreases old(structure)@,
{
    let ghost start = structure@;
    let ghost refs = pair_views(table@);
    let n: usize = structure.len();
    let mut i: usize = 0;
    while i < n
        invariant
            i <= n,
            n == start.fields.len(),
            start == old(structure)@,
            refs == pair_views(table@),
            structure@ == (StructView { fields: structure@.fields, ..start }),
            structure@.fields.len() == n,
            fields_resolved(start.fields, refs, i as nat) == (
                structure@.fields,
                None::<Seq<char>>,
            ),
        decreases n - i,
    {
        proof {
            field_is_inside(start, i as int);
            lemma_fields_resolved(start.fields, refs, i as nat);
        }
        let ghost before = structure@;
        let outcome: Result<(), String> = resolve_field(structure.at_mut(i), table);
        assert(structure@.fields =~= fields_resolved(start.fields, refs, i as nat + 1).0);
        if let Err(why) = outcome {
            proof {
                lemma_fields_fault(start.fields, refs, i as nat + 1, n as nat);
            }
            return Err(why);
        }
        i = i + 1;
    }
    Ok(())
}

fn resolve_block(block: &mut TagBlock, table: &Vec<(String, String)>) -> (r: Result<(), String>)
    ensures
        (final(block)@.elements, fault_view(r)) == list_resolved(
            old(block)@.elements,
            pair_views(table@),
            old(block)@.elements.len(),
        ),
        final(block)@ == (BlockView { elements: final(block)@.elements, ..old(block)@ }),
    decreases old(block)@.elements,
{
    let ghost start = block@;
    let ghost refs = pair_views(table@);
    let n: usize = block.len();
    let mut i: usize = 0;
    while i < n
        invariant
            i <= n,
            n == start.elements.len(),
            start == old(block)@,
            refs == pair_views(table@),
            block@ == (BlockView { elements: block@.elements, ..start }),
            block@.elements.len() == n,
            list_resolved(start.elements, refs, i as nat) == (
                block@.elements,
                None::<Seq<char>>,
            ),
        decreases n - i,
    {
        proof {
            lemma_list_resolved(start.elements, refs, i as nat);
        }
        assert(decreases_to!(start.elements => start.elements[i as int]));
        let outcome: Result<(), String> = resolve_companion_references(block.at_mut(i), table);
        assert(block@.elements =~= list_resolved(start.elements, refs, i as nat + 1).0);
        if let Err(why) = outcome {
            proof {
                lemma_list_fault(start.elements, refs, i as nat + 1, n as nat);
            }
            return Err(why);
        }
        i = i + 1;
    }
    Ok(())
}

fn resolve_array(array: &mut TagArray, table: &Vec<(String, String)>) -> (r: Result<(), String>)
    ensures
        (final(array)@, fault_view(r)) == list_resolved(
            old(array)@,
            pair_views(table@),
            old(array)@.len(),
        ),
    decreases old(array)@,
{
    let ghost start = array@;
    let ghost refs = pair_views(table@);
    let n: usize = array.len();
    let mut i: usize = 0;
    while i < n
        invariant
            i <= n,
            n == start.len(),
            start == old(array)@,
            refs == pair_views(table@),
            array@.len() == n,
            list_resolved(start, refs, i as nat) == (array@, None::<Seq<char>>),
        decreases n - i,
    {
        proof {
            lemma_list_resolved(start, refs, i as nat);
        }
        assert(decreases_to!(start => start[i as int]));
        let outcome: Result<(), String> = resolve_companion_references(array.at_mut(i), table);
        assert(array@ =~= list_resolved(start, refs, i as nat + 1).0);
        if let Err(why) = outcome {
            proof {
                lemma_list_fault(start, refs, i as nat + 1, n as nat);
            }
            return Err(why);
        }
        i = i + 1;
    }
    Ok(())
}

fn resolve_reference(field: &mut TagField, table: &Vec<(String, String)>) -> (r: Result<(), String>)
    requires
        old(field)@.field_type == TagFieldType::TagReference,
    ensures
        (final(field)@, fault_view(r)) == field_resolved(old(field)@, pair_views(table@)),
{
    let (group, key): (u32, String) = match field.value() {
        Some(TagFieldData::TagReference(reference)) => match &reference.group_tag_and_name {
            Some((group, path)) => match key_of_companion(path) {
                Some(key) => (*group, key),
                None => {
                    return Ok(());
                },
            },
            None => {
                return Ok(());
            },
        },
        _ => {
            return Ok(());
        },
    };
    match output_of(table, &key) {
        Some(output) => {
            let _ = field.set(
                TagFieldData::TagReference(
                    TagReferenceData { group_tag_and_name: Some((group, output)) },
                ),
            );
            Ok(())
        },
        None => Err(concat2("Missing generated companion output for ", &key)),
    }
}

fn resolve_field(field: &mut TagField, table: &Vec<(String, String)>) -> (r: Result<(), String>)
    ensures
        (final(field)@, fault_view(r)) == field_resolved(old(field)@, pair_views(table@)),
    decreases old(field)@,
{
    let ghost start = field@;
    match field.field_type() {
        TagFieldType::TagReference => resolve_reference(field, table),
        TagFieldType::Struct => match field.as_struct_mut() {
            Some(nested) => {
                proof {
                    struct_is_inside(start, nested@);
                }
                resolve_companion_references(nested, table)
            },
            None => Ok(()),
        },
        TagFieldType::Block => match field.as_block_mut() {
            Some(block) => {
                proof {
                    elements_are_inside(start, block@);
                }
                resolve_block(block, table)
            },
            None => Ok(()),
        },
        TagFieldType::Array => match field.as_array_mut() {
            Some(array) => {
                proof {
                    items_are_inside(start, array@);
                }
                resolve_array(array, table)
            },
            None => Ok(()),
        },
        _ => Ok(()),
    }
}

// ---------------------------------------------------------------------------
// A whole draft
// ---------------------------------------------------------------------------
/// Where a companion is written: beside the converted tag, under its name.
pub open spec fn companion_output(
    folder: Seq<PathComponentView>,
    name: Seq<char>,
    companion: CompanionView,
) -> Seq<PathComponentView> {
    folder.push(
        PathComponentView::Normal(
            name + companion.file_suffix + "."@ + companion.extension,
        ),
    )
}

/// Where the first `n` companions are written, and the paths by which they are
/// referred to.
pub ghost struct OutputsView {
    pub outputs: Seq<Seq<PathComponentView>>,
    pub references: Seq<(Seq<char>, Seq<char>)>,
}

pub open spec fn outputs_placed(
    companions: Seq<CompanionView>,
    folder: Seq<PathComponentView>,
    name: Seq<char>,
    root: Seq<PathComponentView>,
    n: nat,
) -> Result<OutputsView, Seq<char>>
    decreases n,
{
    if n == 0 || n > companions.len() {
        Ok(OutputsView { outputs: Seq::empty(), references: Seq::empty() })
    } else {
        match outputs_placed(companions, folder, name, root, (n - 1) as nat) {
            Err(why) => Err(why),
            Ok(sofar) => {
                let companion = companions[n - 1];
                let output = companion_output(folder, name, companion);
                match reference_path(output, root) {
                    Err(why) => Err(why),
                    Ok(reference) => if output_from(sofar.references, companion.key, 0) is Some {
                        Err("Duplicate companion key "@ + companion.key)
                    } else {
                        Ok(
                            OutputsView {
                                outputs: sofar.outputs.push(output),
                                references: sofar.references.push((companion.key, reference)),
                            },
                        )
                    },
                }
            },
        }
    }
}

/// The companions with the references in the first `n` of them resolved, up to the
/// first that could not be.
pub open spec fn companions_resolved(
    companions: Seq<CompanionView>,
    table: Seq<(Seq<char>, Seq<char>)>,
    n: nat,
) -> (Seq<CompanionView>, Option<Seq<char>>)
    decreases n,
{
    if n == 0 || n > companions.len() {
        (companions, None)
    } else {
        let (sofar, fault) = companions_resolved(companions, table, (n - 1) as nat);
        if fault is Some {
            (sofar, fault)
        } else {
            let own = companions[n - 1];
            let (root, more) = struct_resolved(own.tag.root, table);
            (
                sofar.update(
                    n - 1,
                    CompanionView { tag: FileView { root, ..own.tag }, ..own },
                ),
                more,
            )
        }
    }
}

/// A draft with the references to its companions resolved, up to the first that
/// could not be.
pub open spec fn draft_resolved(d: DraftView, table: Seq<(Seq<char>, Seq<char>)>) -> (
    DraftView,
    Option<Seq<char>>,
) {
    let (root, fault) = struct_resolved(d.tag.root, table);
    let own = DraftView { tag: FileView { root, ..d.tag }, ..d };
    if fault is Some {
        (own, fault)
    } else {
        let (companions, more) = companions_resolved(d.companions, table, d.companions.len());
        (DraftView { companions, ..own }, more)
    }
}

/// A draft that is ready to be written, and where its companions go; or why it is
/// not.
pub open spec fn draft_prepared(
    d: DraftView,
    main: Seq<PathComponentView>,
    root: Seq<PathComponentView>,
) -> (DraftView, Result<Seq<Seq<PathComponentView>>, Seq<char>>) {
    match (parent(main), file_stem(main)) {
        (None, _) => (d, Err(path_text(main) + " has no parent folder"@)),
        (Some(_), None) => (d, Err(path_text(main) + " has no valid file name"@)),
        (Some(folder), Some(name)) => match outputs_placed(
            d.companions,
            folder,
            name,
            root,
            d.companions.len(),
        ) {
            Err(why) => (d, Err(why)),
            Ok(placed) => {
                let (after, fault) = draft_resolved(d, placed.references);
                match fault {
                    Some(why) => (after, Err(why)),
                    None => (after, Ok(placed.outputs)),
                }
            },
        },
    }
}

/// The views of a list of paths.
pub open spec fn path_views(v: Seq<Vec<PathComponent>>) -> Seq<Seq<PathComponentView>> {
    Seq::new(v.len(), |i: int| components(v[i]@))
}

/// What preparing has given.
pub open spec fn prepared_view(r: Result<Vec<Vec<PathComponent>>, String>) -> Result<
    Seq<Seq<PathComponentView>>,
    Seq<char>,
> {
    match r {
        Ok(paths) => Ok(path_views(paths@)),
        Err(why) => Err(why@),
    }
}

proof fn lemma_placed_fault(
    companions: Seq<CompanionView>,
    folder: Seq<PathComponentView>,
    name: Seq<char>,
    root: Seq<PathComponentView>,
    n: nat,
    m: nat,
)
    requires
        n <= m <= companions.len(),
        outputs_placed(companions, folder, name, root, n) is Err,
    ensures
        outputs_placed(companions, folder, name, root, m) == outputs_placed(
            companions,
            folder,
            name,
            root,
            n,
        ),
    decreases m,
{
    if n < m {
        lemma_placed_fault(companions, folder, name, root, n, (m - 1) as nat);
    }
}

fn place_outputs(
    companions: &Vec<CompanionTagDraft>,
    folder: &Vec<PathComponent>,
    name: &str,
    root: &Vec<PathComponent>,
) -> (r: Result<(Vec<Vec<PathComponent>>, Vec<(String, String)>), String>)
    ensures
        match r {
            Ok((outputs, references)) => outputs_placed(
                companion_views(companions@),
                components(folder@),
                name@,
                components(root@),
                companions@.len(),
            ) == Ok::<OutputsView, Seq<char>>(
                OutputsView {
                    outputs: path_views(outputs@),
                    references: pair_views(references@),
                },
            ),
            Err(why) => outputs_placed(
                companion_views(companions@),
                components(folder@),
                name@,
                components(root@),
                companions@.len(),
            ) == Err::<OutputsView, Seq<char>>(why@),
        },
{
    let ghost all = companion_views(companions@);
    let ghost dir = components(folder@);
    let ghost top = components(root@);
    let mut outputs: Vec<Vec<PathComponent>> = Vec::new();
    let mut references: Vec<(String, String)> = Vec::new();
    assert(path_views(outputs@) =~= Seq::<Seq<PathComponentView>>::empty());
    assert(pair_views(references@) =~= Seq::<(Seq<char>, Seq<char>)>::empty());
    let mut i: usize = 0;
    while i < companions.len()
        invariant
            i <= companions.len(),
            all == companion_views(companions@),
            dir == components(folder@),
            top == components(root@),
            outputs_placed(all, dir, name@, top, i as nat) == Ok::<OutputsView, Seq<char>>(
                OutputsView {
                    outputs: path_views(outputs@),
                    references: pair_views(references@),
                },
            ),
        decreases companions.len() - i,
    {
        let companion: &CompanionTagDraft = &companions[i];
        assert(all[i as int] == companion@);
        let file: String = concat4(name, &companion.file_suffix, ".", &companion.extension);
        let mut output: Vec<PathComponent> = copy_components(folder, 0, folder.len());
        let ghost before = output@;
        let last: PathComponent = PathComponent::Normal(file);
        output.push(last);
        assert(components(output@) =~= components(before).push(last@));
        assert(components(before) =~= dir);
        assert(components(output@) == companion_output(dir, name@, companion@));
        let reference: String = match output_reference_path(&output, root) {
            Ok(reference) => reference,
            Err(why) => {
                proof {
                    lemma_placed_fault(all, dir, name@, top, i as nat + 1, companions@.len());
                }
                return Err(why);
            },
        };
        if output_of(&references, &companion.key).is_some() {
            proof {
                lemma_placed_fault(all, dir, name@, top, i as nat + 1, companions@.len());
            }
            return Err(concat2("Duplicate companion key ", &companion.key));
        }
        let ghost sofar = outputs@;
        let ghost refs = references@;
        let entry: (String, String) = (copy(&companion.key), reference);
        references.push(entry);
        outputs.push(output);
        assert(path_views(outputs@) =~= path_views(sofar).push(components(output@)));
        assert(pair_views(references@) =~= pair_views(refs).push((entry.0@, entry.1@)));
        i = i + 1;
    }
    Ok((outputs, references))
}

proof fn lemma_companions_resolved(
    companions: Seq<CompanionView>,
    table: Seq<(Seq<char>, Seq<char>)>,
    n: nat,
)
    requires
        n <= companions.len(),
    ensures
        companions_resolved(companions, table, n).0.len() == companions.len(),
        forall|i: int|
            n <= i < companions.len() ==> companions_resolved(companions, table, n).0[i]
                == companions[i],
    decreases n,
{
    if n > 0 {
        lemma_companions_resolved(companions, table, (n - 1) as nat);
    }
}

proof fn lemma_companions_fault(
    companions: Seq<CompanionView>,
    table: Seq<(Seq<char>, Seq<char>)>,
    n: nat,
    m: nat,
)
    requires
        n <= m <= companions.len(),
        companions_resolved(companions, table, n).1 is Some,
    ensures
        companions_resolved(companions, table, m) == companions_resolved(companions, table, n),
    decreases m,
{
    if n < m {
        lemma_companions_fault(companions, table, n, (m - 1) as nat);
    }
}

fn resolve_companions(companions: &mut Vec<CompanionTagDraft>, table: &Vec<(String, String)>) -> (r:
    Result<(), String>)
    ensures
        (companion_views(final(companions)@), fault_view(r)) == companions_resolved(
            companion_views(old(companions)@),
            pair_views(table@),
            old(companions)@.len(),
        ),
{
    let ghost start = companion_views(companions@);
    let ghost refs = pair_views(table@);
    let n: usize = companions.len();
    let mut i: usize = 0;
    while i < n
        invariant
            i <= n,
            n == start.len(),
            n == companions@.len(),
            n == old(companions)@.len(),
            start == companion_views(old(companions)@),
            refs == pair_views(table@),
            companions_resolved(start, refs, i as nat) == (
                companion_views(companions@),
                None::<Seq<char>>,
            ),
        decreases n - i,
    {
        proof {
            lemma_companions_resolved(start, refs, i as nat);
        }
        let ghost before = companions@;
        assert(companion_views(before)[i as int] == start[i as int]);
        let companion: &mut CompanionTagDraft = &mut companions[i];
        let outcome: Result<(), String> = resolve_companion_references(
            &mut companion.tag.root,
            table,
        );
        assert(companion_views(companions@) =~= companions_resolved(
            start,
            refs,
            i as nat + 1,
        ).0);
        if let Err(why) = outcome {
            proof {
                lemma_companions_fault(start, refs, i as nat + 1, n as nat);
            }
            return Err(why);
        }
        i = i + 1;
    }
    Ok(())
}

/// Decides where the companions of a draft are written, beside the tag itself at
/// `main_output`, and puts those paths in the place of the references that stand
/// for them. `target_tags_root` is the folder that references are relative to.
pub fn prepare_companion_outputs(
    draft: &mut TagConversionDraft,
    main_output: &Vec<PathComponent>,
    target_tags_root: &Vec<PathComponent>,
) -> (r: Result<Vec<Vec<PathComponent>>, String>)
    ensures
        (final(draft)@, prepared_view(r)) == draft_prepared(
            old(draft)@,
            components(main_output@),
            components(target_tags_root@),
        ),
{
    let ghost main = components(main_output@);
    let n: usize = main_output.len();
    let rooted: bool = n == 0 || matches!(main_output[n - 1], PathComponent::RootDir) || matches!(
        main_output[n - 1],
        PathComponent::Prefix(_)
    );
    assert(n > 0 ==> main.last() == main_output@[n - 1]@);
    if rooted {
        let text: String = text_of_path(main_output);
        return Err(concat2(&text, " has no parent folder"));
    }
    let name: String = match &main_output[n - 1] {
        PathComponent::Normal(name) => stem_of(name),
        _ => {
            let text: String = text_of_path(main_output);
            return Err(concat2(&text, " has no valid file name"));
        },
    };
    let folder: Vec<PathComponent> = copy_components(main_output, 0, n - 1);
    assert(components(folder@) =~= main.drop_last());
    let (outputs, references): (Vec<Vec<PathComponent>>, Vec<(String, String)>) =
        match place_outputs(&draft.companion_tags, &folder, &name, target_tags_root) {
        Ok(placed) => placed,
        Err(why) => {
            return Err(why);
        },
    };
    match resolve_companion_references(&mut draft.tag.root, &references) {
        Ok(_) => {},
        Err(why) => {
            return Err(why);
        },
    }
    match resolve_companions(&mut draft.companion_tags, &references) {
        Ok(_) => Ok(outputs),
        Err(why) => Err(why),
    }
}

// ---------------------------------------------------------------------------
// Laws
// ---------------------------------------------------------------------------
/// Whether no reference in a field stands for a companion.
pub open spec fn settled_references(f: FieldView) -> bool
    decreases f, 0nat,
{
    match f.field_type {
        TagFieldType::TagReference => f.content matches ContentView::Value(
            FieldValue::Reference(Some((_, path))),
        ) ==> companion_key_of(path) is None,
        TagFieldType::Struct => f.content matches ContentView::Struct(s)
            ==> settled_references_in(s.fields, s.fields.len()),
        TagFieldType::Block => f.content matches ContentView::Block(b)
            ==> settled_references_among(b.elements, b.elements.len()),
        TagFieldType::Array => f.content matches ContentView::Array(a)
            ==> settled_references_among(a, a.len()),
        _ => true,
    }
}

/// The same of the first `n` fields.
pub open spec fn settled_references_in(fields: Seq<FieldView>, n: nat) -> bool
    decreases fields, n,
{
    n == 0 || n > fields.len() || (settled_references_in(fields, (n - 1) as nat)
        && settled_references(fields[n - 1]))
}

/// The same of the first `n` structs.
pub open spec fn settled_references_among(list: Seq<StructView>, n: nat) -> bool
    decreases list, n,
{
    n == 0 || n > list.len() || (settled_references_among(list, (n - 1) as nat)
        && settled_references_in(list[n - 1].fields, list[n - 1].fields.len()))
}

/// Whether no path in a table stands for a companion itself.
pub open spec fn plain_outputs(table: Seq<(Seq<char>, Seq<char>)>) -> bool {
    forall|i: int| 0 <= i < table.len() ==> companion_key_of((#[trigger] table[i]).1) is None
}

proof fn lemma_plain_output(table: Seq<(Seq<char>, Seq<char>)>, key: Seq<char>, i: nat)
    requires
        plain_outputs(table),
    ensures
        output_from(table, key, i) matches Some(output) ==> companion_key_of(output) is None,
    decreases table.len() - i,
{
    if i < table.len() {
        lemma_plain_output(table, key, i + 1);
    }
}

proof fn lemma_prefix_settled(a: Seq<FieldView>, b: Seq<FieldView>, n: nat)
    requires
        n <= a.len(),
        n <= b.len(),
        forall|i: int| 0 <= i < n ==> a[i] == b[i],
    ensures
        settled_references_in(a, n) == settled_references_in(b, n),
    decreases n,
{
    if n > 0 {
        lemma_prefix_settled(a, b, (n - 1) as nat);
    }
}

proof fn lemma_prefix_settled_among(a: Seq<StructView>, b: Seq<StructView>, n: nat)
    requires
        n <= a.len(),
        n <= b.len(),
        forall|i: int| 0 <= i < n ==> a[i] == b[i],
    ensures
        settled_references_among(a, n) == settled_references_among(b, n),
    decreases n,
{
    if n > 0 {
        lemma_prefix_settled_among(a, b, (n - 1) as nat);
    }
}

proof fn lemma_fields_settled(fields: Seq<FieldView>, table: Seq<(Seq<char>, Seq<char>)>, n: nat)
    requires
        n <= fields.len(),
        plain_outputs(table),
        fields_resolved(fields, table, n).1 is None,
    ensures
        settled_references_in(fields_resolved(fields, table, n).0, n),
    decreases fields, n,
{
    if n > 0 {
        let m = (n - 1) as nat;
        lemma_fields_settled(fields, table, m);
        lemma_fields_resolved(fields, table, m);
        lemma_field_settled(fields[n - 1], table);
        let before = fields_resolved(fields, table, m).0;
        let after = fields_resolved(fields, table, n).0;
        lemma_prefix_settled(before, after, m);
    }
}

proof fn lemma_list_settled(list: Seq<StructView>, table: Seq<(Seq<char>, Seq<char>)>, n: nat)
    requires
        n <= list.len(),
        plain_outputs(table),
        list_resolved(list, table, n).1 is None,
    ensures
        settled_references_among(list_resolved(list, table, n).0, n),
    decreases list, n,
{
    if n > 0 {
        let m = (n - 1) as nat;
        lemma_list_settled(list, table, m);
        lemma_list_resolved(list, table, m);
        let own = list[n - 1];
        assert(list_resolved(list, table, n).1 == struct_resolved(own, table).1);
        assert(struct_resolved(own, table).1 == fields_resolved(
            own.fields,
            table,
            own.fields.len(),
        ).1);
        lemma_fields_settled(own.fields, table, own.fields.len());
        lemma_fields_resolved(own.fields, table, own.fields.len());
        let before = list_resolved(list, table, m).0;
        let after = list_resolved(list, table, n).0;
        assert(after[n - 1] == struct_resolved(own, table).0);
        assert(after[n - 1].fields == fields_resolved(own.fields, table, own.fields.len()).0);
        lemma_prefix_settled_among(before, after, m);
    }
}

proof fn lemma_field_settled(f: FieldView, table: Seq<(Seq<char>, Seq<char>)>)
    requires
        plain_outputs(table),
        field_resolved(f, table).1 is None,
    ensures
        settled_references(field_resolved(f, table).0),
    decreases f, 0nat,
{
    match f.content {
        ContentView::Value(FieldValue::Reference(Some((_, path)))) => {
            if f.field_type == TagFieldType::TagReference {
                if let Some(key) = companion_key_of(path) {
                    lemma_plain_output(table, key, 0);
                }
            }
        },
        ContentView::Struct(s) => {
            if f.field_type == TagFieldType::Struct {
                lemma_fields_settled(s.fields, table, s.fields.len());
                lemma_fields_resolved(s.fields, table, s.fields.len());
            }
        },
        ContentView::Block(b) => {
            if f.field_type == TagFieldType::Block {
                lemma_list_settled(b.elements, table, b.elements.len());
                lemma_list_resolved(b.elements, table, b.elements.len());
            }
        },
        ContentView::Array(a) => {
            if f.field_type == TagFieldType::Array {
                lemma_list_settled(a, table, a.len());
                lemma_list_resolved(a, table, a.len());
            }
        },
        _ => {},
    }
}

/// Where resolving succeeds, no reference that stands for a companion is left.
pub proof fn every_companion_reference_is_resolved(
    s: StructView,
    table: Seq<(Seq<char>, Seq<char>)>,
)
    requires
        plain_outputs(table),
        struct_resolved(s, table).1 is None,
    ensures
        settled_references_in(
            struct_resolved(s, table).0.fields,
            struct_resolved(s, table).0.fields.len(),
        ),
{
    lemma_fields_settled(s.fields, table, s.fields.len());
    lemma_fields_resolved(s.fields, table, s.fields.len());
}

}
