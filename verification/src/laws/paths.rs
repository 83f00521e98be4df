//! Paths and names: what they are made of and what answers to them.
use crate::convert::outputs::{
    component_texts, last_dot, path_behind, reference_path, stem, without_extension,
};
use crate::guid::{guid_in, hex_byte, hex_char, hex_digit, hex_text};
use crate::keys::{
    PathComponentView, a_normal_path_is_kept, alias_scan, field_key, index_open, is_normal_path,
    nonempty, normal_option, normal_path, option_aliases, options_agree, path_covers, path_nodes,
    with_alias,
};
use crate::text::{blank, joined_with, lemma_pieces_nonempty, pieces};
use vstd::prelude::*;

verus! {

// ---------------------------------------------------------------------------
// Paths of fields
// ---------------------------------------------------------------------------
pub proof fn lemma_pieces_joined(a: Seq<char>, c: char, b: Seq<char>)
    ensures
        pieces(a + seq![c] + b, c) == pieces(a, c) + pieces(b, c),
    decreases b.len(),
{
    let whole = a + seq![c] + b;
    lemma_pieces_nonempty(a, c);
    lemma_pieces_nonempty(b, c);
    if b.len() == 0 {
        assert(whole.drop_last() =~= a);
        assert(pieces(whole, c) =~= pieces(a, c) + pieces(b, c));
    } else {
        lemma_pieces_joined(a, c, b.drop_last());
        lemma_pieces_nonempty(b.drop_last(), c);
        assert(whole.drop_last() =~= a + seq![c] + b.drop_last());
        assert(pieces(whole, c) =~= pieces(a, c) + pieces(b, c));
    }
}

pub proof fn lemma_one_piece(s: Seq<char>, c: char)
    requires
        !s.contains(c),
    ensures
        pieces(s, c) == seq![s],
    decreases s.len(),
{
    if s.len() > 0 {
        let rest = s.drop_last();
        assert(!rest.contains(c)) by {
            if rest.contains(c) {
                let i = choose|i: int| 0 <= i < rest.len() && rest[i] == c;
                assert(s[i] == c);
            }
        }
        lemma_one_piece(rest, c);
        assert(s[s.len() - 1] != c);
        assert(rest.push(s.last()) =~= s);
        assert(pieces(s, c) =~= seq![s]);
    } else {
        assert(s =~= Seq::<char>::empty());
    }
}

proof fn lemma_nonempty_joined(a: Seq<Seq<char>>, b: Seq<Seq<char>>)
    ensures
        nonempty(a + b) == nonempty(a) + nonempty(b),
    decreases b.len(),
{
    if b.len() == 0 {
        assert(a + b =~= a);
        assert(nonempty(a) + nonempty(b) =~= nonempty(a));
    } else {
        lemma_nonempty_joined(a, b.drop_last());
        assert((a + b).drop_last() =~= a + b.drop_last());
        assert(nonempty(a + b) =~= nonempty(a) + nonempty(b));
    }
}

/// The names of a path that is put together with a slash are those of the one part, and
/// then those of the other; a name alone is the only one of its path.
pub proof fn a_slash_stands_between_names(a: Seq<char>, b: Seq<char>)
    ensures
        path_nodes(a + seq!['/'] + b) == path_nodes(a) + path_nodes(b),
        a.len() > 0 && !a.contains('/') ==> path_nodes(a) == seq![a],
        a.len() == 0 ==> path_nodes(a).len() == 0,
{
    lemma_pieces_joined(a, '/', b);
    lemma_nonempty_joined(pieces(a, '/'), pieces(b, '/'));
    assert(nonempty(Seq::<Seq<char>>::empty()) =~= Seq::empty());
    if !a.contains('/') {
        lemma_one_piece(a, '/');
        assert(seq![a].drop_last() =~= Seq::empty());
        if a.len() > 0 {
            assert(nonempty(seq![a]) =~= seq![a]);
        }
    }
    if a.len() == 0 {
        assert(!a.contains('/'));
    }
}

proof fn lemma_plain_behind(a: Seq<char>, b: Seq<char>)
    requires
        !index_open(a),
    ensures
        field_key(a + b) == field_key(a) + field_key(b),
        index_open(a + b) == index_open(b),
    decreases b.len(),
{
    if b.len() == 0 {
        assert(a + b =~= a);
        assert(field_key(a) + field_key(b) =~= field_key(a));
    } else {
        lemma_plain_behind(a, b.drop_last());
        assert((a + b).drop_last() =~= a + b.drop_last());
        assert((a + b).last() == b.last());
        assert(field_key(a + b) =~= field_key(a) + field_key(b));
    }
}

/// A path covers every path below it.
pub proof fn a_path_covers_what_is_below_it(path: Seq<char>, below: Seq<char>)
    requires
        !index_open(path),
        path_nodes(field_key(path)).len() > 0,
    ensures
        path_covers(path, path + seq!['/'] + below),
{
    let slash = seq!['/'];
    assert(slash.drop_last() =~= Seq::empty());
    assert(!index_open(slash.drop_last()));
    assert(field_key(slash.drop_last()) =~= Seq::empty());
    assert(field_key(slash) =~= slash);
    lemma_plain_behind(path, slash + below);
    lemma_plain_behind(slash, below);
    assert(path + slash + below =~= path + (slash + below));
    assert(field_key(path + slash + below) =~= field_key(path) + slash + field_key(below));
    a_slash_stands_between_names(field_key(path), field_key(below));
    let o = path_nodes(field_key(path));
    let i = path_nodes(field_key(path + slash + below));
    assert(i.take(o.len() as int) =~= o);
}

/// A path covers no path of other names: one that is covered begins with every name of it.
pub proof fn a_covered_path_begins_with_the_names(outer: Seq<char>, inner: Seq<char>, k: int)
    requires
        path_covers(outer, inner),
        0 <= k < path_nodes(field_key(outer)).len(),
    ensures
        k < path_nodes(field_key(inner)).len(),
        path_nodes(field_key(inner))[k] == path_nodes(field_key(outer))[k],
{
    let o = path_nodes(field_key(outer));
    let i = path_nodes(field_key(inner));
    assert(i.take(o.len() as int)[k] == o[k]);
}

// ---------------------------------------------------------------------------
// Paths of files
// ---------------------------------------------------------------------------
/// A step into a directory and out of it again leads nowhere, and so does a step that
/// stays.
pub proof fn a_step_out_undoes_a_step_in(path: Seq<PathComponentView>, name: Seq<char>)
    ensures
        normal_path(
            path.push(PathComponentView::Normal(name)).push(PathComponentView::ParentDir),
        ) == normal_path(path),
        normal_path(path.push(PathComponentView::CurDir)) == normal_path(path),
        normal_path(path.push(PathComponentView::Normal(name))) == normal_path(path).push(
            PathComponentView::Normal(name),
        ),
{
    let inside = path.push(PathComponentView::Normal(name));
    assert(inside.drop_last() =~= path);
    assert(inside.push(PathComponentView::ParentDir).drop_last() =~= inside);
    assert(path.push(PathComponentView::CurDir).drop_last() =~= path);
    assert(normal_path(inside) == normal_path(path).push(PathComponentView::Normal(name)));
    assert(normal_path(inside).drop_last() =~= normal_path(path));
}

proof fn lemma_last_dot(name: Seq<char>, extension: Seq<char>, n: nat)
    requires
        !extension.contains('.'),
        n <= extension.len(),
    ensures
        last_dot(name + seq!['.'] + extension, name.len() + 1 + n) == Some(name.len()),
    decreases n,
{
    let whole = name + seq!['.'] + extension;
    if n == 0 {
        assert(whole[name.len() as int] == '.');
    } else {
        lemma_last_dot(name, extension, (n - 1) as nat);
        assert(whole[(name.len() + n) as int] == extension[n - 1]);
    }
}

proof fn lemma_no_dot(name: Seq<char>, n: nat)
    requires
        !name.contains('.'),
        n <= name.len(),
    ensures
        last_dot(name, n) is None,
    decreases n,
{
    if n > 0 {
        lemma_no_dot(name, (n - 1) as nat);
        assert(name[n - 1] != '.');
    }
}

/// A file's name without its extension ends before the last dot; a name without a dot is
/// its own.
pub proof fn a_stem_ends_before_the_last_dot(name: Seq<char>, extension: Seq<char>)
    requires
        name.len() > 0,
        !extension.contains('.'),
    ensures
        stem(name + seq!['.'] + extension) == name,
        stem(extension) == extension,
{
    let whole = name + seq!['.'] + extension;
    lemma_last_dot(name, extension, extension.len());
    lemma_no_dot(extension, extension.len());
    assert(whole.len() == name.len() + 1 + extension.len());
    assert(whole.take(name.len() as int) =~= name);
}

/// What is behind a directory is the rest of the path, and nothing is behind one that the
/// path does not begin with.
pub proof fn what_is_behind_a_directory_is_the_rest(
    root: Seq<PathComponentView>,
    rest: Seq<PathComponentView>,
    path: Seq<PathComponentView>,
)
    ensures
        path_behind(root + rest, root) == Some(rest),
        path_behind(path, root) matches Some(behind) ==> path == root + behind,
{
    assert((root + rest).take(root.len() as int) =~= root);
    assert((root + rest).skip(root.len() as int) =~= rest);
    if path_behind(path, root) is Some {
        let behind = path_behind(path, root)->0;
        assert(path =~= path.take(root.len() as int) + path.skip(root.len() as int));
        assert(path == root + behind);
    }
}

/// A tag is referred to by the directories from the root of the tags on, parted by
/// backslashes, and by its name without the extension.
pub proof fn a_tag_is_referred_to_from_the_root_of_the_tags(
    root: Seq<PathComponentView>,
    directory: Seq<char>,
    name: Seq<char>,
    extension: Seq<char>,
)
    requires
        is_normal_path(root),
        name.len() > 0,
        !extension.contains('.'),
    ensures
        reference_path(
            root.push(PathComponentView::Normal(name + seq!['.'] + extension)),
            root,
        ) == Ok::<Seq<char>, Seq<char>>(name),
        reference_path(
            root.push(PathComponentView::Normal(directory)).push(
                PathComponentView::Normal(name + seq!['.'] + extension),
            ),
            root,
        ) == Ok::<Seq<char>, Seq<char>>(directory + seq!['\\'] + name),
{
    let own = name + seq!['.'] + extension;
    let file = PathComponentView::Normal(own);
    let inside = PathComponentView::Normal(directory);
    a_stem_ends_before_the_last_dot(name, extension);
    a_normal_path_is_kept(root);
    a_step_out_undoes_a_step_in(root, own);
    a_step_out_undoes_a_step_in(root, directory);
    a_step_out_undoes_a_step_in(root.push(inside), own);
    what_is_behind_a_directory_is_the_rest(root, seq![file], root);
    what_is_behind_a_directory_is_the_rest(root, seq![inside, file], root);
    assert(root.push(file) =~= root + seq![file]);
    assert(root.push(inside).push(file) =~= root + seq![inside, file]);
    let bare = PathComponentView::Normal(name);
    assert(seq![file].drop_last().push(bare) =~= seq![bare]);
    assert(seq![inside, file].drop_last().push(bare) =~= seq![inside, bare]);
    assert(without_extension(seq![file]) == seq![bare]);
    assert(without_extension(seq![inside, file]) == seq![inside, bare]);
    let two = component_texts(seq![inside, bare]);
    assert(two[0] == directory && two[1] == name);
    reveal_strlit("\\");
    assert("\\"@ =~= seq!['\\']);
    assert(joined_with(component_texts(seq![bare]), "\\"@, 1) == name);
    assert(joined_with(two, "\\"@, 1) == directory);
    assert(joined_with(two, "\\"@, 2) == directory + "\\"@ + name);
}

// ---------------------------------------------------------------------------
// Former names
// ---------------------------------------------------------------------------
/// A text without a mark that parts names.
pub open spec fn one_name(s: Seq<char>) -> bool {
    forall|i: int| 0 <= i < s.len() ==> (#[trigger] s[i]) != '{' && s[i] != '}' && s[i] != '|'
}

proof fn lemma_scan_behind_mark(a: Seq<char>, mark: char, name: Seq<char>)
    requires
        mark == '{' || mark == '}' || mark == '|',
        one_name(name),
    ensures
        alias_scan(a + seq![mark] + name) == (option_aliases(a), name),
    decreases name.len(),
{
    let whole = a + seq![mark] + name;
    if name.len() == 0 {
        assert(whole.drop_last() =~= a);
        assert(name =~= Seq::empty());
    } else {
        let rest = name.drop_last();
        assert forall|i: int| 0 <= i < rest.len() implies (#[trigger] rest[i]) != '{' && rest[i]
            != '}' && rest[i] != '|' by {
            assert(rest[i] == name[i]);
        }
        lemma_scan_behind_mark(a, mark, rest);
        assert(whole.drop_last() =~= a + seq![mark] + rest);
        assert(whole.last() == name[name.len() - 1]);
        assert(rest.push(name.last()) =~= name);
    }
}

/// Each name that the marks part is one that its option goes by, and no other is: a name
/// behind a mark joins those before it.
pub proof fn every_parted_name_is_gone_by(
    a: Seq<char>,
    mark: char,
    name: Seq<char>,
    other: Seq<char>,
)
    requires
        mark == '{' || mark == '}' || mark == '|',
        one_name(name),
    ensures
        option_aliases(a + seq![mark] + name).contains(other) <==> option_aliases(a).contains(other)
            || (other == normal_option(name) && other.len() > 0),
{
    lemma_scan_behind_mark(a, mark, name);
    let list = option_aliases(a);
    let item = normal_option(name);
    let all = option_aliases(a + seq![mark] + name);
    assert(all == with_alias(list, item));
    if all.contains(other) {
        let i = choose|i: int| 0 <= i < all.len() && all[i] == other;
        if all.len() > list.len() && i == list.len() {
        } else {
            assert(list[i] == other);
        }
    }
    if list.contains(other) {
        let i = choose|i: int| 0 <= i < list.len() && list[i] == other;
        assert(all[i] == other);
    }
    if other == item && other.len() > 0 && !list.contains(other) {
        assert(all[list.len() as int] == other);
    }
}

/// A name alone is the one that its option goes by.
pub proof fn a_name_alone_is_gone_by(name: Seq<char>)
    requires
        one_name(name),
        normal_option(name).len() > 0,
    ensures
        option_aliases(name) == seq![normal_option(name)],
{
    lemma_scan_of_one(name);
    assert(!Seq::<Seq<char>>::empty().contains(normal_option(name)));
    assert(option_aliases(name) =~= seq![normal_option(name)]);
}

proof fn lemma_scan_of_one(name: Seq<char>)
    requires
        one_name(name),
    ensures
        alias_scan(name) == (Seq::<Seq<char>>::empty(), name),
    decreases name.len(),
{
    if name.len() == 0 {
        assert(name =~= Seq::empty());
    } else {
        let rest = name.drop_last();
        assert forall|i: int| 0 <= i < rest.len() implies (#[trigger] rest[i]) != '{' && rest[i]
            != '}' && rest[i] != '|' by {
            assert(rest[i] == name[i]);
        }
        lemma_scan_of_one(rest);
        assert(name.last() == name[name.len() - 1]);
        assert(rest.push(name.last()) =~= name);
    }
}

/// An option that names a former name answers to it.
pub proof fn an_option_answers_to_its_former_name(a: Seq<char>, mark: char, name: Seq<char>)
    requires
        mark == '{' || mark == '}' || mark == '|',
        one_name(name),
        normal_option(name).len() > 0,
        !blank(name),
        !blank(a + seq![mark] + name),
    ensures
        options_agree(a + seq![mark] + name, name),
{
    every_parted_name_is_gone_by(a, mark, name, normal_option(name));
    a_name_alone_is_gone_by(name);
    let all = option_aliases(a + seq![mark] + name);
    let i = choose|i: int| 0 <= i < all.len() && all[i] == normal_option(name);
    assert(seq![normal_option(name)][0] == normal_option(name));
    assert(option_aliases(name).contains(all[i]));
}

// ---------------------------------------------------------------------------
// Identifiers
// ---------------------------------------------------------------------------
proof fn lemma_hex_digits(n: int)
    requires
        0 <= n < 16,
    ensures
        hex_digit(hex_char(n)) == Some(n as u8),
{
    let c = hex_char(n);
    if n < 10 {
        assert(c as u8 == 48 + n);
    } else {
        assert(c as u8 == 87 + n);
    }
}

proof fn lemma_hex_places(bytes: Seq<u8>, i: int)
    requires
        0 <= i < bytes.len(),
    ensures
        hex_text(bytes).len() == 2 * bytes.len(),
        hex_text(bytes)[2 * i] == hex_char(bytes[i] as int / 16),
        hex_text(bytes)[2 * i + 1] == hex_char(bytes[i] as int % 16),
    decreases bytes.len(),
{
    let rest = bytes.drop_last();
    let text = hex_text(rest);
    let b = bytes.last() as int;
    if rest.len() > 0 {
        lemma_hex_places(
            rest,
            if i < rest.len() {
                i
            } else {
                0
            },
        );
    }
    assert(text.len() == 2 * rest.len());
    assert(hex_text(bytes) == text.push(hex_char(b / 16)).push(hex_char(b % 16)));
    if i < rest.len() {
        assert(rest[i] == bytes[i]);
    }
}

/// An identifier reads back from its notation.
pub proof fn an_identifier_reads_back(guid: Seq<u8>)
    requires
        guid.len() == 16,
    ensures
        guid_in(hex_text(guid)) == Some(guid),
{
    let text = hex_text(guid);
    lemma_hex_places(guid, 0);
    assert forall|i: int| 0 <= i < 16 implies #[trigger] hex_byte(text[2 * i], text[2 * i + 1])
        == Some(guid[i]) by {
        lemma_hex_places(guid, i);
        lemma_hex_digits(guid[i] as int / 16);
        lemma_hex_digits(guid[i] as int % 16);
    }
    assert(guid_in(text)->0 =~= guid);
}

}
