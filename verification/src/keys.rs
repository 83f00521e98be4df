//! The keys that names are compared by: field names, option names, field paths.
use crate::text::{
    ascii_lower, before, blank, chars_of, concat3, concat4, contains_text, copy, decimal,
    decimal_text, is_blank, is_white, lemma_texts_push, lower_char, pieces, same, split_text,
    text_before, texts, white,
};
use vstd::prelude::*;

verus! {

// ---------------------------------------------------------------------------
// Field names
// ---------------------------------------------------------------------------
/// The markup characters that a schema puts behind a field's name: `*` read
/// only, `!` engine managed, `^` block name.
pub open spec fn markup(c: char) -> bool {
    c == '*' || c == '!' || c == '^'
}

/// Whether a bracketed index is still open at the end of `s`.
pub open spec fn index_open(s: Seq<char>) -> bool
    decreases s.len(),
{
    if s.len() == 0 {
        false
    } else if s.last() == '[' {
        true
    } else if s.last() == ']' {
        false
    } else {
        index_open(s.drop_last())
    }
}

/// A field name without bracketed indices and markup, in lower case.
pub open spec fn field_key(name: Seq<char>) -> Seq<char>
    decreases name.len(),
{
    if name.len() == 0 {
        Seq::empty()
    } else {
        let rest = field_key(name.drop_last());
        let c = name.last();
        if index_open(name.drop_last()) || c == '[' || markup(c) {
            rest
        } else {
            rest.push(ascii_lower(c))
        }
    }
}

/// A field name reduced to the key the matcher compares on.
///
/// Element indices and field ordinals come off, with the markup of the schema
/// grammar, and the result is lower case, so that two schemas that disagree on
/// capitals alone still pair.
pub fn clean_field_key(name: &str) -> (r: String)
    ensures
        r@ == field_key(name@),
{
    let chars: Vec<char> = chars_of(name);
    let mut r: String = String::new();
    let mut open = false;
    let mut i: usize = 0;
    assert(name@.take(0) =~= Seq::<char>::empty());
    while i < chars.len()
        invariant
            i <= chars.len(),
            chars@ == name@,
            r@ == field_key(name@.take(i as int)),
            open == index_open(name@.take(i as int)),
        decreases chars.len() - i,
    {
        let c = chars[i];
        assert(name@.take(i + 1).drop_last() =~= name@.take(i as int));
        if !open && c != '[' && c != '*' && c != '!' && c != '^' {
            r.push(lower_char(c));
        }
        if c == '[' {
            open = true;
        } else if c == ']' {
            open = false;
        }
        i = i + 1;
    }
    assert(name@.take(i as int) =~= name@);
    r
}

/// `child` below `parent`; a root path is empty.
pub open spec fn joined(parent: Seq<char>, child: Seq<char>) -> Seq<char> {
    if parent.len() == 0 {
        child
    } else {
        parent + "/"@ + child
    }
}

pub fn join_path(parent: &str, child: &str) -> (r: String)
    ensures
        r@ == joined(parent@, child@),
{
    if parent.is_empty() {
        copy(child)
    } else {
        concat3(parent, "/", child)
    }
}

/// The path of element `index` of the container at `path`.
pub open spec fn element_path(path: Seq<char>, index: nat) -> Seq<char> {
    path + "["@ + decimal(index) + "]"@
}

pub fn path_of_element(path: &str, index: usize) -> (r: String)
    ensures
        r@ == element_path(path@, index as nat),
{
    let number: String = decimal_text(index as u128);
    concat4(path, "[", &number, "]")
}

// ---------------------------------------------------------------------------
// Field paths
// ---------------------------------------------------------------------------
/// The items of `s` that are not empty.
pub open spec fn nonempty(s: Seq<Seq<char>>) -> Seq<Seq<char>>
    decreases s.len(),
{
    if s.len() == 0 {
        Seq::empty()
    } else {
        let rest = nonempty(s.drop_last());
        if s.last().len() == 0 {
            rest
        } else {
            rest.push(s.last())
        }
    }
}

/// The nodes of a field path, outermost first.
pub open spec fn path_nodes(path: Seq<char>) -> Seq<Seq<char>> {
    nonempty(pieces(path, '/'))
}

pub fn nodes_of(path: &str) -> (r: Vec<String>)
    ensures
        texts(r@) == path_nodes(path@),
{
    let parts: Vec<String> = split_text(path, '/');
    let mut r: Vec<String> = Vec::new();
    let mut i: usize = 0;
    assert(texts(r@) =~= nonempty(texts(parts@).take(0)));
    while i < parts.len()
        invariant
            i <= parts.len(),
            texts(r@) == nonempty(texts(parts@).take(i as int)),
        decreases parts.len() - i,
    {
        assert(texts(parts@).take(i + 1).drop_last() =~= texts(parts@).take(i as int));
        if !parts[i].as_str().is_empty() {
            let item: String = copy(&parts[i]);
            proof {
                lemma_texts_push(r@, item);
            }
            r.push(item);
        }
        i = i + 1;
    }
    assert(texts(parts@).take(i as int) =~= texts(parts@));
    r
}

/// Whether the field at `outer` is the field at `inner` or holds it. The root is
/// no field, and covers itself alone.
pub open spec fn path_covers(outer: Seq<char>, inner: Seq<char>) -> bool {
    let o = path_nodes(field_key(outer));
    let i = path_nodes(field_key(inner));
    (o.len() == 0 ==> i.len() == 0) && o.len() <= i.len() && i.take(o.len() as int) == o
}

/// Whether the field at `outer` is the field at `inner` or holds it, node by
/// node and whatever the element indices.
pub fn is_ancestor_path(outer: &str, inner: &str) -> (r: bool)
    ensures
        r == path_covers(outer@, inner@),
{
    let o: Vec<String> = nodes_of(&clean_field_key(outer));
    let n: Vec<String> = nodes_of(&clean_field_key(inner));
    if o.len() > n.len() || (o.len() == 0 && n.len() > 0) {
        return false;
    }
    let ghost os = texts(o@);
    let ghost ns = texts(n@);
    let mut i: usize = 0;
    while i < o.len()
        invariant
            i <= o.len() <= n.len(),
            o.len() == 0 ==> n.len() == 0,
            os == texts(o@),
            ns == texts(n@),
            os == path_nodes(field_key(outer@)),
            ns == path_nodes(field_key(inner@)),
            forall|j: int| 0 <= j < i ==> os[j] == ns[j],
        decreases o.len() - i,
    {
        if !same(&o[i], &n[i]) {
            assert(os[i as int] != ns.take(os.len() as int)[i as int]);
            return false;
        }
        i = i + 1;
    }
    assert(ns.take(os.len() as int) =~= os);
    true
}

/// Every path covers itself, and covering is transitive.
pub proof fn covering_is_a_preorder(a: Seq<char>, b: Seq<char>, c: Seq<char>)
    ensures
        path_covers(a, a),
        path_covers(a, b) && path_covers(b, c) ==> path_covers(a, c),
{
    let x = path_nodes(field_key(a));
    let y = path_nodes(field_key(b));
    let z = path_nodes(field_key(c));
    assert(x.take(x.len() as int) =~= x);
    if path_covers(a, b) && path_covers(b, c) {
        assert(z.take(x.len() as int) =~= z.take(y.len() as int).take(x.len() as int));
    }
}

// ---------------------------------------------------------------------------
// Option names
// ---------------------------------------------------------------------------
/// One step of [`normal_words`]: what is written so far, and whether white space
/// was passed since.
pub open spec fn normal_step(acc: (Seq<char>, bool), c: char) -> (Seq<char>, bool) {
    if markup(c) {
        acc
    } else if c == '_' || c == '-' || white(c) {
        (acc.0, true)
    } else if acc.1 && acc.0.len() > 0 {
        (acc.0.push(' ').push(ascii_lower(c)), false)
    } else {
        (acc.0.push(ascii_lower(c)), false)
    }
}

/// The lower-case words of `s`, one space between them, read left to right.
pub open spec fn normal_words(s: Seq<char>) -> (Seq<char>, bool)
    decreases s.len(),
{
    if s.len() == 0 {
        (Seq::empty(), false)
    } else {
        normal_step(normal_words(s.drop_last()), s.last())
    }
}

/// An option's name as options are compared by: help text cut at `#`, no
/// markup, `_` and `-` read as spaces, words one space apart, lower case.
pub open spec fn normal_option(name: Seq<char>) -> Seq<char> {
    normal_words(before(name, "#"@)).0
}

pub fn normalize_option_name(name: &str) -> (r: String)
    ensures
        r@ == normal_option(name@),
{
    let kept: String = text_before(name, "#");
    let chars: Vec<char> = chars_of(&kept);
    let mut r: String = String::new();
    let mut gap = false;
    let mut i: usize = 0;
    assert(kept@.take(0) =~= Seq::<char>::empty());
    while i < chars.len()
        invariant
            i <= chars.len(),
            chars@ == kept@,
            (r@, gap) == normal_words(kept@.take(i as int)),
        decreases chars.len() - i,
    {
        let c = chars[i];
        assert(kept@.take(i + 1).drop_last() =~= kept@.take(i as int));
        if c == '*' || c == '!' || c == '^' {
        } else if c == '_' || c == '-' || is_white(c) {
            gap = true;
        } else {
            if gap && !r.as_str().is_empty() {
                r.push(' ');
            }
            r.push(lower_char(c));
            gap = false;
        }
        i = i + 1;
    }
    assert(kept@.take(i as int) =~= kept@);
    r
}

/// `list` with `item` at its end, unless `item` is empty or already there.
pub open spec fn with_alias(list: Seq<Seq<char>>, item: Seq<char>) -> Seq<Seq<char>> {
    if item.len() == 0 || list.contains(item) {
        list
    } else {
        list.push(item)
    }
}

/// The characters that part the alternative names of an option.
pub open spec fn alias_mark(c: char) -> bool {
    c == '{' || c == '}' || c == '|'
}

/// The alternatives completed within `s`, and the characters of the one not yet
/// completed.
pub open spec fn alias_scan(s: Seq<char>) -> (Seq<Seq<char>>, Seq<char>)
    decreases s.len(),
{
    if s.len() == 0 {
        (Seq::empty(), Seq::empty())
    } else {
        let (done, current) = alias_scan(s.drop_last());
        if alias_mark(s.last()) {
            (with_alias(done, normal_option(current)), Seq::empty())
        } else {
            (done, current.push(s.last()))
        }
    }
}

/// The alternative names that one written name holds, as in `new{old}`.
pub open spec fn option_aliases(name: Seq<char>) -> Seq<Seq<char>> {
    let (done, current) = alias_scan(name);
    with_alias(done, normal_option(current))
}

fn add_alias(list: &mut Vec<String>, current: &str)
    ensures
        texts(final(list)@) == with_alias(texts(old(list)@), normal_option(current@)),
{
    let item: String = normalize_option_name(current);
    if !item.as_str().is_empty() && !contains_text(list, &item) {
        proof {
            lemma_texts_push(list@, item);
        }
        list.push(item);
    }
}

pub fn option_name_aliases(name: &str) -> (r: Vec<String>)
    ensures
        texts(r@) == option_aliases(name@),
{
    let chars: Vec<char> = chars_of(name);
    let mut r: Vec<String> = Vec::new();
    let mut current: String = String::new();
    let mut i: usize = 0;
    assert(name@.take(0) =~= Seq::<char>::empty());
    assert(texts(r@) =~= Seq::<Seq<char>>::empty());
    while i < chars.len()
        invariant
            i <= chars.len(),
            chars@ == name@,
            (texts(r@), current@) == alias_scan(name@.take(i as int)),
        decreases chars.len() - i,
    {
        let c = chars[i];
        assert(name@.take(i + 1).drop_last() =~= name@.take(i as int));
        if c == '{' || c == '}' || c == '|' {
            add_alias(&mut r, &current);
            current = String::new();
        } else {
            current.push(c);
        }
        i = i + 1;
    }
    assert(name@.take(i as int) =~= name@);
    add_alias(&mut r, &current);
    r
}

/// Whether two lists of names have one in common.
pub open spec fn share_a_name(a: Seq<Seq<char>>, b: Seq<Seq<char>>) -> bool {
    exists|i: int| 0 <= i < a.len() && b.contains(#[trigger] a[i])
}

fn any_shared(a: &Vec<String>, b: &Vec<String>) -> (r: bool)
    ensures
        r == share_a_name(texts(a@), texts(b@)),
{
    let mut i: usize = 0;
    while i < a.len()
        invariant
            i <= a.len(),
            forall|j: int| 0 <= j < i ==> !texts(b@).contains(#[trigger] texts(a@)[j]),
        decreases a.len() - i,
    {
        if contains_text(b, &a[i]) {
            assert(texts(b@).contains(texts(a@)[i as int]));
            return true;
        }
        i = i + 1;
    }
    false
}

/// Whether two option names name the same option.
pub open spec fn options_agree(left: Seq<char>, right: Seq<char>) -> bool {
    if blank(left) || blank(right) {
        blank(left) && blank(right)
    } else {
        share_a_name(option_aliases(left), option_aliases(right))
    }
}

pub fn option_names_match(left: &str, right: &str) -> (r: bool)
    ensures
        r == options_agree(left@, right@),
{
    if is_blank(left) || is_blank(right) {
        return is_blank(left) && is_blank(right);
    }
    any_shared(&option_name_aliases(left), &option_name_aliases(right))
}

/// The alternative names of a field; what follows `#`, `:` or `|` is editor
/// presentation and no name.
pub open spec fn field_aliases(name: Seq<char>) -> Seq<Seq<char>> {
    option_aliases(before(name, "#:|"@))
}

/// Whether two field names name the same field.
pub open spec fn fields_agree(left: Seq<char>, right: Seq<char>) -> bool {
    ||| field_key(left) == field_key(right)
    ||| field_key(left).len() > 0 && field_key(right).len() > 0 && share_a_name(
        field_aliases(left),
        field_aliases(right),
    )
}

pub fn field_names_match(left: &str, right: &str) -> (r: bool)
    ensures
        r == fields_agree(left@, right@),
{
    let left_key: String = clean_field_key(left);
    let right_key: String = clean_field_key(right);
    if same(&left_key, &right_key) {
        return true;
    }
    if left_key.as_str().is_empty() || right_key.as_str().is_empty() {
        return false;
    }
    any_shared(
        &option_name_aliases(&text_before(left, "#:|")),
        &option_name_aliases(&text_before(right, "#:|")),
    )
}

/// Sharing a name is symmetric.
pub proof fn lemma_share_symmetric(a: Seq<Seq<char>>, b: Seq<Seq<char>>)
    ensures
        share_a_name(a, b) == share_a_name(b, a),
{
    if share_a_name(a, b) {
        let i = choose|i: int| 0 <= i < a.len() && b.contains(#[trigger] a[i]);
        let j = choose|j: int| 0 <= j < b.len() && b[j] == a[i];
        assert(a.contains(b[j])) by {
            assert(a[i] == b[j]);
        }
    }
    if share_a_name(b, a) {
        let i = choose|i: int| 0 <= i < b.len() && a.contains(#[trigger] b[i]);
        let j = choose|j: int| 0 <= j < a.len() && a[j] == b[i];
        assert(b.contains(a[j])) by {
            assert(b[i] == a[j]);
        }
    }
}

/// Which of two names stands left is immaterial, of options and of fields.
pub proof fn names_match_both_ways(left: Seq<char>, right: Seq<char>)
    ensures
        options_agree(left, right) == options_agree(right, left),
        fields_agree(left, right) == fields_agree(right, left),
{
    lemma_share_symmetric(option_aliases(left), option_aliases(right));
    lemma_share_symmetric(field_aliases(left), field_aliases(right));
}

/// A field's name always matches itself.
pub proof fn a_field_matches_itself(name: Seq<char>)
    ensures
        fields_agree(name, name),
{
}

// ---------------------------------------------------------------------------
// File paths
// ---------------------------------------------------------------------------
/// One component of a file path.
#[derive(Debug, PartialEq, Eq)]
pub enum PathComponent {
    /// A volume prefix.
    Prefix(String),
    /// The root directory.
    RootDir,
    /// `.`
    CurDir,
    /// `..`
    ParentDir,
    /// A file or directory name.
    Normal(String),
}

pub ghost enum PathComponentView {
    Prefix(Seq<char>),
    RootDir,
    CurDir,
    ParentDir,
    Normal(Seq<char>),
}

impl PathComponent {
    pub open spec fn view(&self) -> PathComponentView {
        match self {
            PathComponent::Prefix(s) => PathComponentView::Prefix(s@),
            PathComponent::RootDir => PathComponentView::RootDir,
            PathComponent::CurDir => PathComponentView::CurDir,
            PathComponent::ParentDir => PathComponentView::ParentDir,
            PathComponent::Normal(s) => PathComponentView::Normal(s@),
        }
    }
}

/// The views of a path's components.
pub open spec fn components(v: Seq<PathComponent>) -> Seq<PathComponentView> {
    Seq::new(v.len(), |i: int| v[i]@)
}

/// A path with every `.` left out and every `..` taken together with the name
/// before it. A `..` with no name before it is left out.
pub open spec fn normal_path(path: Seq<PathComponentView>) -> Seq<PathComponentView>
    decreases path.len(),
{
    if path.len() == 0 {
        Seq::empty()
    } else {
        let rest = normal_path(path.drop_last());
        match path.last() {
            PathComponentView::CurDir => rest,
            PathComponentView::ParentDir => if rest.len() > 0 && rest.last() is Normal {
                rest.drop_last()
            } else {
                rest
            },
            other => rest.push(other),
        }
    }
}

/// `path` without `.` and `..`.
pub fn normalize_conversion_path(path: &Vec<PathComponent>) -> (r: Vec<PathComponent>)
    ensures
        components(r@) == normal_path(components(path@)),
{
    let mut r: Vec<PathComponent> = Vec::new();
    let mut i: usize = 0;
    let ghost all = components(path@);
    assert(components(r@) =~= normal_path(all.take(0)));
    while i < path.len()
        invariant
            i <= path.len(),
            all == components(path@),
            components(r@) == normal_path(all.take(i as int)),
        decreases path.len() - i,
    {
        assert(all.take(i + 1).drop_last() =~= all.take(i as int));
        assert(all.take(i + 1).last() == path@[i as int]@);
        let ghost rest = components(r@);
        match &path[i] {
            PathComponent::CurDir => {},
            PathComponent::ParentDir => {
                let named = r.len() > 0 && matches!(r[r.len() - 1], PathComponent::Normal(_));
                assert(r@.len() > 0 ==> rest.last() == r@.last()@);
                if named {
                    let _ = r.pop();
                    assert(components(r@) =~= rest.drop_last());
                }
            },
            PathComponent::Prefix(s) => {
                r.push(PathComponent::Prefix(copy(s)));
                assert(components(r@) =~= rest.push(PathComponentView::Prefix(s@)));
            },
            PathComponent::RootDir => {
                r.push(PathComponent::RootDir);
                assert(components(r@) =~= rest.push(PathComponentView::RootDir));
            },
            PathComponent::Normal(s) => {
                r.push(PathComponent::Normal(copy(s)));
                assert(components(r@) =~= rest.push(PathComponentView::Normal(s@)));
            },
        }
        i = i + 1;
    }
    assert(all.take(i as int) =~= all);
    r
}

/// Whether a path holds neither `.` nor `..`.
pub open spec fn is_normal_path(path: Seq<PathComponentView>) -> bool {
    forall|i: int|
        0 <= i < path.len() ==> !((#[trigger] path[i]) is CurDir) && !(path[i] is ParentDir)
}

/// What normalizing leaves holds neither `.` nor `..`.
pub proof fn a_normalized_path_is_normal(path: Seq<PathComponentView>)
    ensures
        is_normal_path(normal_path(path)),
    decreases path.len(),
{
    if path.len() > 0 {
        a_normalized_path_is_normal(path.drop_last());
    }
}

/// A path without `.` and `..` is left as it is.
pub proof fn a_normal_path_is_kept(path: Seq<PathComponentView>)
    requires
        is_normal_path(path),
    ensures
        normal_path(path) == path,
    decreases path.len(),
{
    if path.len() > 0 {
        assert(is_normal_path(path.drop_last()));
        a_normal_path_is_kept(path.drop_last());
        assert(!(path.last() is CurDir) && !(path.last() is ParentDir));
        assert(path =~= path.drop_last().push(path.last()));
    } else {
        assert(path =~= Seq::empty());
    }
}

/// Normalizing twice is normalizing once.
pub proof fn normalizing_a_path_is_idempotent(path: Seq<PathComponentView>)
    ensures
        normal_path(normal_path(path)) == normal_path(path),
{
    a_normalized_path_is_normal(path);
    a_normal_path_is_kept(normal_path(path));
}

}
