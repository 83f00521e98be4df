//! The files that new tags start from: which are offered, in which order, and which is taken.
use crate::convert::analysis::DraftView;
use crate::convert::defaults::reset_file;
use crate::convert::environment::{
    GameDefinitions, GroupSchema, NativeTemplate, extension_in, group_place, schema_place,
};
use crate::convert::finishing::{OutputCheck, first_fault};
use crate::convert::groups::place_of_tag;
use crate::convert::outputs::path_text;
use crate::convert::schema::AliasesView;
use crate::convert::templates::{
    NATIVE_TEMPLATE_SCAN_LIMIT, file_extension, first_template, group_of_file,
    group_with_extension, nodes_before, path_before, sorted_place, templates_from,
    text_before_text, usable_template, with_template,
};
use crate::file::FileView;
use crate::games::classic_games;
use crate::keys::PathComponentView;
use crate::laws::paths::{lemma_one_piece, lemma_pieces_joined};
use crate::text::{pieces, same_ignoring_case};
use vstd::prelude::*;

verus! {

// ---------------------------------------------------------------------------
// The files of a group
// ---------------------------------------------------------------------------
proof fn lemma_one_piece_is_the_text(s: Seq<char>, c: char)
    ensures
        pieces(s, c).len() >= 1,
        pieces(s, c).len() == 1 ==> pieces(s, c)[0] == s,
    decreases s.len(),
{
    if s.len() > 0 {
        lemma_one_piece_is_the_text(s.drop_last(), c);
        assert(s.drop_last().push(s.last()) =~= s);
    } else {
        assert(s =~= Seq::empty());
    }
}

/// The extension of a file is what stands behind the last dot of its name.
pub proof fn an_extension_stands_behind_the_last_dot(
    directory: Seq<char>,
    stem: Seq<char>,
    extension: Seq<char>,
)
    requires
        stem.len() > 0,
        !stem.contains('/'),
        !extension.contains('/'),
        !extension.contains('.'),
    ensures
        file_extension(stem + seq!['.'] + extension) == Some(extension),
        file_extension(directory + seq!['/'] + (stem + seq!['.'] + extension)) == Some(extension),
{
    let name = stem + seq!['.'] + extension;
    assert(!name.contains('/')) by {
        if name.contains('/') {
            let i = choose|i: int| 0 <= i < name.len() && name[i] == '/';
            if i < stem.len() {
                assert(stem[i] == '/');
            } else if i > stem.len() {
                assert(extension[i - stem.len() - 1] == '/');
            }
        }
    }
    lemma_one_piece(name, '/');
    lemma_pieces_joined(directory, '/', name);
    lemma_pieces_joined(stem, '.', extension);
    lemma_one_piece(extension, '.');
    lemma_one_piece_is_the_text(stem, '.');
    let parts = pieces(name, '.');
    assert(parts == pieces(stem, '.') + seq![extension]);
    assert(parts.last() == extension);
    assert(pieces(directory + seq!['/'] + name, '/').last() == name);
}

/// A file belongs to a group whose extension it has: the last one that has it.
pub proof fn a_file_goes_to_the_last_group_of_its_extension(
    groups: Seq<(u32, Seq<char>)>,
    extensions: Seq<(u32, Seq<char>)>,
    extension: Seq<char>,
    n: nat,
    k: int,
)
    requires
        0 <= k < n <= groups.len(),
        same_ignoring_case(extension_in(extensions, groups[k].0, groups[k].1), extension),
        forall|j: int|
            k < j < n ==> !same_ignoring_case(
                extension_in(extensions, (#[trigger] groups[j]).0, groups[j].1),
                extension,
            ),
    ensures
        group_with_extension(groups, extensions, extension, n) == Some(groups[k].0),
    decreases n,
{
    if n - 1 > k {
        assert(!same_ignoring_case(
            extension_in(extensions, groups[n - 1].0, groups[n - 1].1),
            extension,
        ));
        a_file_goes_to_the_last_group_of_its_extension(
            groups,
            extensions,
            extension,
            (n - 1) as nat,
            k,
        );
    }
}

/// A group that has no extension of its own is spelled by its name; one that has is spelled
/// by the first that is given for it.
pub proof fn the_first_extension_of_a_group_counts(
    extensions: Seq<(u32, Seq<char>)>,
    tag: u32,
    name: Seq<char>,
    k: int,
)
    ensures
        (forall|j: int| 0 <= j < extensions.len() ==> (#[trigger] extensions[j]).0 != tag)
            ==> extension_in(extensions, tag, name) == name,
        0 <= k < extensions.len() && extensions[k].0 == tag && (forall|j: int|
            0 <= j < k ==> (#[trigger] extensions[j]).0 != tag) ==> extension_in(
            extensions,
            tag,
            name,
        ) == extensions[k].1,
{
    lemma_first_of_tag(extensions, tag, 0);
}

proof fn lemma_first_of_tag(names: Seq<(u32, Seq<char>)>, tag: u32, from: nat)
    ensures
        match place_of_tag(names, tag, from) {
            Some(p) => from <= p < names.len() && names[p as int].0 == tag && forall|j: int|
                from <= j < p ==> (#[trigger] names[j]).0 != tag,
            None => forall|j: int| from <= j < names.len() ==> (#[trigger] names[j]).0 != tag,
        },
    decreases names.len() - from,
{
    if from < names.len() && names[from as int].0 != tag {
        lemma_first_of_tag(names, tag, from + 1);
    }
}

// ---------------------------------------------------------------------------
// The list of a group
// ---------------------------------------------------------------------------
proof fn lemma_sorted_place(list: Seq<NativeTemplate>, path: Seq<char>, from: nat)
    requires
        from <= list.len(),
    ensures
        from <= sorted_place(list, path, from) <= list.len(),
    decreases list.len() - from,
{
    if from < list.len() && !path_before(path, list[from as int].path@) {
        lemma_sorted_place(list, path, from + 1);
    }
}

proof fn lemma_listed(list: Seq<NativeTemplate>, item: NativeTemplate, t: NativeTemplate)
    ensures
        with_template(list, item).len() == list.len() + 1,
        with_template(list, item).contains(t) <==> t == item || list.contains(t),
{
    lemma_sorted_place(list, item.path@, 0);
    let at = sorted_place(list, item.path@, 0) as int;
    let all = with_template(list, item);
    assert(all == list.insert(at, item));
    assert(all[at] == item);
    if list.contains(t) {
        let i = choose|i: int| 0 <= i < list.len() && list[i] == t;
        if i < at {
            assert(all[i] == t);
        } else {
            assert(all[i + 1] == t);
        }
    }
    if all.contains(t) && t != item {
        let i = choose|i: int| 0 <= i < all.len() && all[i] == t;
        if i < at {
            assert(list[i] == t);
        } else {
            assert(list[i - 1] == t);
        }
    }
}

/// The files that a group is offered are those that belong to it, and no others.
pub proof fn every_file_of_a_group_is_offered(
    definitions: GameDefinitions,
    files: Seq<NativeTemplate>,
    tag: u32,
    from: nat,
    t: NativeTemplate,
)
    ensures
        templates_from(definitions, files, tag, from).contains(t) <==> exists|i: int|
            from <= i < files.len() && (#[trigger] files[i]) == t && group_of_file(
                definitions,
                t.path@,
            ) == Some(tag),
    decreases files.len() - from,
{
    if from < files.len() {
        every_file_of_a_group_is_offered(definitions, files, tag, from + 1, t);
        let rest = templates_from(definitions, files, tag, from + 1);
        lemma_listed(rest, files[from as int], t);
        if files[from as int] == t && group_of_file(definitions, t.path@) == Some(tag) {
            assert(files[from as int] == t);
        }
    }
}

/// The number of files that belong to a group, of those from `from` on.
pub open spec fn files_of(
    definitions: GameDefinitions,
    files: Seq<NativeTemplate>,
    tag: u32,
    from: nat,
) -> nat
    decreases files.len() - from,
{
    if from >= files.len() {
        0
    } else if group_of_file(definitions, files[from as int].path@) == Some(tag) {
        files_of(definitions, files, tag, from + 1) + 1
    } else {
        files_of(definitions, files, tag, from + 1)
    }
}

/// Each file that belongs to a group is offered once.
pub proof fn no_file_is_offered_twice(
    definitions: GameDefinitions,
    files: Seq<NativeTemplate>,
    tag: u32,
    from: nat,
)
    ensures
        templates_from(definitions, files, tag, from).len() == files_of(
            definitions,
            files,
            tag,
            from,
        ),
    decreases files.len() - from,
{
    if from < files.len() {
        no_file_is_offered_twice(definitions, files, tag, from + 1);
        let rest = templates_from(definitions, files, tag, from + 1);
        lemma_listed(rest, files[from as int], files[from as int]);
    }
}

// ---------------------------------------------------------------------------
// Order
// ---------------------------------------------------------------------------
/// Texts are ordered by the first character in which they differ, and a text stands before
/// what it begins.
pub proof fn texts_are_ordered_by_their_first_difference(a: Seq<char>, b: Seq<char>, k: nat)
    requires
        k <= a.len(),
        k < b.len(),
        forall|i: int| 0 <= i < k ==> a[i] == b[i],
        k == a.len() || a[k as int] < b[k as int],
    ensures
        text_before_text(a, b),
        !text_before_text(b, a),
    decreases k,
{
    if k > 0 {
        assert(a[0] == b[0]);
        assert forall|i: int| 0 <= i < k - 1 implies a.skip(1)[i] == b.skip(1)[i] by {
            assert(a[i + 1] == b[i + 1]);
        }
        texts_are_ordered_by_their_first_difference(a.skip(1), b.skip(1), (k - 1) as nat);
    }
}

/// Paths are ordered by the first name in which they differ, and a directory stands before
/// what is in it.
pub proof fn paths_are_ordered_by_their_first_difference(
    a: Seq<Seq<char>>,
    b: Seq<Seq<char>>,
    k: nat,
)
    requires
        k <= a.len(),
        k < b.len(),
        forall|i: int| 0 <= i < k ==> a[i] == b[i],
        k == a.len() || (a[k as int] != b[k as int] && text_before_text(a[k as int], b[k as int])
            && !text_before_text(b[k as int], a[k as int])),
    ensures
        nodes_before(a, b),
        !nodes_before(b, a),
    decreases k,
{
    if k > 0 {
        assert(a[0] == b[0]);
        assert forall|i: int| 0 <= i < k - 1 implies a.skip(1)[i] == b.skip(1)[i] by {
            assert(a[i + 1] == b[i + 1]);
        }
        paths_are_ordered_by_their_first_difference(a.skip(1), b.skip(1), (k - 1) as nat);
    }
}

// ---------------------------------------------------------------------------
// The file that is taken
// ---------------------------------------------------------------------------
/// A new tag starts from the first file that it can start from.
pub proof fn the_first_usable_file_is_taken(
    list: Seq<NativeTemplate>,
    tag: u32,
    game: Seq<char>,
    managed: Option<AliasesView>,
    from: nat,
    k: nat,
)
    requires
        from <= k < list.len(),
        k < NATIVE_TEMPLATE_SCAN_LIMIT,
        usable_template(list[k as int], tag, game, managed) != Ok::<
            Option<(FileView, Seq<char>)>,
            Seq<char>,
        >(None),
        forall|j: int|
            from <= j < k ==> usable_template(#[trigger] list[j], tag, game, managed) == Ok::<
                Option<(FileView, Seq<char>)>,
                Seq<char>,
            >(None),
    ensures
        first_template(list, tag, game, managed, from) == usable_template(
            list[k as int],
            tag,
            game,
            managed,
        ),
    decreases k - from,
{
    if from < k {
        assert(usable_template(list[from as int], tag, game, managed) == Ok::<
            Option<(FileView, Seq<char>)>,
            Seq<char>,
        >(None));
        the_first_usable_file_is_taken(list, tag, game, managed, from + 1, k);
    }
}

/// What a tag starts from is a file of its own group, kept under its own path, and of a
/// modern game in the order of bytes that the game writes.
pub proof fn a_tag_starts_from_a_file_of_its_group(
    candidate: NativeTemplate,
    tag: u32,
    game: Seq<char>,
    managed: Option<AliasesView>,
)
    ensures
        usable_template(candidate, tag, game, managed) matches Ok(Some(found)) ==> {
            &&& candidate.tag is Some
            &&& candidate.tag->0.header.group_tag == tag
            &&& (candidate.tag->0.classic is Some <==> classic_games().contains(game))
            &&& candidate.tag->0.classic is None ==> !candidate.tag->0.big_endian
            &&& found.1 == candidate.path@
            &&& found.0 == reset_file(candidate.tag->0@, managed).0
        },
{
}

/// A schema is found under the name of its group: the first that has it.
pub proof fn the_first_schema_of_a_group_is_found(
    schemas: Seq<GroupSchema>,
    group: Seq<char>,
    from: nat,
)
    ensures
        match schema_place(schemas, group, from) {
            Some(p) => from <= p < schemas.len() && schemas[p as int].group_name@ == group
                && forall|j: int|
                from <= j < p ==> (#[trigger] schemas[j]).group_name@ != group,
            None => forall|j: int|
                from <= j < schemas.len() ==> (#[trigger] schemas[j]).group_name@ != group,
        },
    decreases schemas.len() - from,
{
    if from < schemas.len() && schemas[from as int].group_name@ != group {
        the_first_schema_of_a_group_is_found(schemas, group, from + 1);
    }
}

/// The files of a group are found under its tag: the first list that is kept under it.
pub proof fn the_first_list_of_a_group_is_found(
    by_group: Seq<(u32, Vec<NativeTemplate>)>,
    tag: u32,
    from: nat,
)
    ensures
        match group_place(by_group, tag, from) {
            Some(p) => from <= p < by_group.len() && by_group[p as int].0 == tag && forall|j: int|
                from <= j < p ==> (#[trigger] by_group[j]).0 != tag,
            None => forall|j: int| from <= j < by_group.len() ==> (#[trigger] by_group[j]).0 != tag,
        },
    decreases by_group.len() - from,
{
    if from < by_group.len() && by_group[from as int].0 != tag {
        the_first_list_of_a_group_is_found(by_group, tag, from + 1);
    }
}

// ---------------------------------------------------------------------------
// What is written
// ---------------------------------------------------------------------------
/// What is reported of the tags that are written is the first that failed, and nothing
/// where none did.
pub proof fn the_first_failed_tag_is_reported(
    d: DraftView,
    main: Seq<PathComponentView>,
    outputs: Seq<Seq<PathComponentView>>,
    checks: Seq<OutputCheck>,
    from: nat,
    k: nat,
)
    requires
        0 < from <= k <= checks.len(),
        forall|j: int|
            from <= j < k ==> (#[trigger] checks[j]).written is Ok && checks[j].reopened is Ok,
    ensures
        k == checks.len() ==> first_fault(d, main, outputs, checks, from) is None,
        k < checks.len() && checks[k as int].written is Err ==> first_fault(
            d,
            main,
            outputs,
            checks,
            from,
        ) == Some(
            "Could not serialize "@ + path_text(outputs[k - 1]) + ": "@
                + checks[k as int].written->Err_0@,
        ),
        k < checks.len() && checks[k as int].written is Ok && checks[k as int].reopened is Err
            && d.companions[k - 1].tag.classic is None ==> first_fault(
            d,
            main,
            outputs,
            checks,
            from,
        ) == Some(
            "Could not reopen "@ + path_text(outputs[k - 1]) + ": "@
                + checks[k as int].reopened->Err_0@,
        ),
    decreases k - from,
{
    if from < k {
        assert(checks[from as int].written is Ok && checks[from as int].reopened is Ok);
        the_first_failed_tag_is_reported(d, main, outputs, checks, from + 1, k);
    }
}

}
