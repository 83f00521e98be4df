//! Texts: letters, numbers, pieces, and the names that are compared by them.
use crate::convert::values::{escaped, escaped_char, printable, quoted};
use crate::fields::{
    TagFieldType, integer_bounds, integer_type, signed_integer, value_count, width_of_integer,
};
use crate::keys::{
    alias_scan, element_path, field_key, index_open, normal_option, normal_words, option_aliases,
    options_agree,
};
use crate::text::{
    ascii_lower, before, behind, blank, decimal, digit, joined_with, lemma_before, pieces,
    trim_end, trim_start, trimmed, white,
};
use vstd::prelude::*;

verus! {

// ---------------------------------------------------------------------------
// Letters
// ---------------------------------------------------------------------------
/// A capital letter becomes the small letter of the same place in the alphabet; every other
/// character is kept. Doing so twice changes nothing more.
pub proof fn a_capital_becomes_its_small_letter(c: char)
    ensures
        'A' <= c <= 'Z' ==> ascii_lower(c) as u32 == c as u32 + 32 && 'a' <= ascii_lower(c) <= 'z',
        !('A' <= c <= 'Z') ==> ascii_lower(c) == c,
        ascii_lower(ascii_lower(c)) == ascii_lower(c),
{
}

/// White space around a text comes off, and nothing else does.
pub proof fn trimming_takes_white_space_alone(s: Seq<char>)
    ensures
        exists|i: int, j: int|
            0 <= i <= j <= s.len() && trimmed(s) == #[trigger] s.subrange(i, j) && (forall|k: int|
                0 <= k < i || j <= k < s.len() ==> white(#[trigger] s[k])) && (i < j ==> !white(s[i])
                && !white(s[j - 1])),
{
    let i = lemma_trim_start(s);
    let t = trim_start(s);
    let n = lemma_trim_end(t);
    assert(trimmed(s) =~= s.subrange(i, i + n));
    assert forall|k: int| 0 <= k < i || i + n <= k < s.len() implies white(#[trigger] s[k]) by {
        if i + n <= k {
            assert(t[k - i] == s[k]);
        }
    }
    if n > 0 {
        assert(t[0] == s[i]);
        assert(t[n - 1] == s[i + n - 1]);
    }
}

proof fn lemma_trim_start(s: Seq<char>) -> (i: int)
    ensures
        0 <= i <= s.len(),
        trim_start(s) == s.skip(i),
        forall|k: int| 0 <= k < i ==> white(#[trigger] s[k]),
        i < s.len() ==> !white(s[i]),
    decreases s.len(),
{
    if s.len() > 0 && white(s[0]) {
        let i = lemma_trim_start(s.skip(1));
        assert(s.skip(1).skip(i) =~= s.skip(i + 1));
        assert forall|k: int| 0 <= k < i + 1 implies white(#[trigger] s[k]) by {
            if k > 0 {
                assert(s.skip(1)[k - 1] == s[k]);
            }
        }
        i + 1
    } else {
        assert(s.skip(0) =~= s);
        0
    }
}

proof fn lemma_trim_end(s: Seq<char>) -> (n: int)
    ensures
        0 <= n <= s.len(),
        trim_end(s) == s.take(n),
        forall|k: int| n <= k < s.len() ==> white(#[trigger] s[k]),
        n > 0 ==> !white(s[n - 1]),
    decreases s.len(),
{
    if s.len() > 0 && white(s.last()) {
        let n = lemma_trim_end(s.drop_last());
        assert(s.drop_last().take(n) =~= s.take(n));
        assert forall|k: int| n <= k < s.len() implies white(#[trigger] s[k]) by {
            if k < s.len() - 1 {
                assert(s.drop_last()[k] == s[k]);
            }
        }
        n
    } else {
        assert(s.take(s.len() as int) =~= s);
        s.len() as int
    }
}

// ---------------------------------------------------------------------------
// Numbers
// ---------------------------------------------------------------------------
/// The number that a run of decimal digits stands for.
pub open spec fn number_read(s: Seq<char>) -> int
    decreases s.len(),
{
    if s.len() == 0 {
        0
    } else {
        10 * number_read(s.drop_last()) + (s.last() as u32 as int - 48)
    }
}

/// The decimal notation of a number consists of digits, reads as that number, and has no
/// zero in front.
pub proof fn a_number_reads_as_it_is_written(n: nat)
    ensures
        decimal(n).len() > 0,
        number_read(decimal(n)) == n,
        forall|i: int| 0 <= i < decimal(n).len() ==> '0' <= #[trigger] decimal(n)[i] <= '9',
        n > 0 ==> decimal(n)[0] != '0',
    decreases n,
{
    assert(number_read(Seq::<char>::empty()) == 0);
    assert(decimal(n).last() == digit(n % 10));
    assert(digit(n % 10) as u32 == 48 + n % 10);
    if n < 10 {
        assert(decimal(n).drop_last() =~= Seq::<char>::empty());
        assert(number_read(decimal(n)) == n);
    } else {
        a_number_reads_as_it_is_written(n / 10);
        let rest = decimal(n / 10);
        assert(decimal(n).drop_last() =~= rest);
        assert forall|i: int| 0 <= i < decimal(n).len() implies '0' <= #[trigger] decimal(n)[i]
            <= '9' by {
            if i < rest.len() {
                assert(decimal(n)[i] == rest[i]);
            }
        }
        assert(decimal(n)[0] == rest[0]);
        assert(number_read(decimal(n)) == 10 * number_read(rest) + n % 10);
    }
}

/// Different numbers are written differently.
pub proof fn different_numbers_are_written_differently(a: nat, b: nat)
    requires
        decimal(a) == decimal(b),
    ensures
        a == b,
{
    a_number_reads_as_it_is_written(a);
    a_number_reads_as_it_is_written(b);
}

// ---------------------------------------------------------------------------
// Pieces
// ---------------------------------------------------------------------------
proof fn lemma_joined_prefix(a: Seq<Seq<char>>, b: Seq<Seq<char>>, sep: Seq<char>, n: nat)
    requires
        n <= a.len(),
        n <= b.len(),
        forall|i: int| 0 <= i < n ==> #[trigger] a[i] == b[i],
    ensures
        joined_with(a, sep, n) == joined_with(b, sep, n),
    decreases n,
{
    if n > 0 {
        assert(a[n - 1] == b[n - 1]);
        if n > 1 {
            lemma_joined_prefix(a, b, sep, (n - 1) as nat);
        } else {
            assert(a[0] == b[0]);
        }
    }
}

/// The pieces of a text, put together again with the mark between them, are the text; and
/// no piece holds the mark.
pub proof fn pieces_put_together_are_the_text(s: Seq<char>, c: char)
    ensures
        pieces(s, c).len() > 0,
        joined_with(pieces(s, c), seq![c], pieces(s, c).len()) == s,
        forall|i: int| 0 <= i < pieces(s, c).len() ==> !(#[trigger] pieces(s, c)[i]).contains(c),
    decreases s.len(),
{
    let all = pieces(s, c);
    let sep = seq![c];
    if s.len() == 0 {
        assert(all[0] =~= Seq::<char>::empty());
        assert(joined_with(all, sep, 1) =~= s);
    } else {
        let rest = pieces(s.drop_last(), c);
        let n = rest.len();
        pieces_put_together_are_the_text(s.drop_last(), c);
        assert(s =~= s.drop_last().push(s.last()));
        if s.last() == c {
            lemma_joined_prefix(all, rest, sep, n);
            assert(joined_with(all, sep, n + 1) =~= s);
            assert forall|i: int| 0 <= i < all.len() implies !(#[trigger] all[i]).contains(c) by {
                if i < n {
                    assert(all[i] == rest[i]);
                }
            }
        } else {
            let last = rest.last();
            assert(all =~= rest.update(n - 1, last.push(s.last())));
            if n > 1 {
                lemma_joined_prefix(all, rest, sep, (n - 1) as nat);
            }
            assert(joined_with(all, sep, n) =~= s);
            assert forall|i: int| 0 <= i < all.len() implies !(#[trigger] all[i]).contains(c) by {
                assert(!rest[i].contains(c));
                if i == n - 1 && all[i].contains(c) {
                    let k = choose|k: int| 0 <= k < all[i].len() && all[i][k] == c;
                    if k < last.len() {
                        assert(last[k] == c);
                    }
                }
            }
        }
    }
}

/// What stands behind a mark stands behind the first one.
pub proof fn what_is_behind_is_behind_the_first(s: Seq<char>, c: char, i: int)
    requires
        0 <= i < s.len(),
        s[i] == c,
        forall|k: int| 0 <= k < i ==> #[trigger] s[k] != c,
    ensures
        behind(s, c) == Some(s.skip(i + 1)),
    decreases s.len(),
{
    if i > 0 {
        assert(s[0] != c);
        let t = s.skip(1);
        assert forall|k: int| 0 <= k < i - 1 implies #[trigger] t[k] != c by {
            assert(t[k] == s[k + 1]);
        }
        what_is_behind_is_behind_the_first(t, c, i - 1);
        assert(t.skip(i) =~= s.skip(i + 1));
    }
}

// ---------------------------------------------------------------------------
// Keys
// ---------------------------------------------------------------------------
proof fn lemma_digits_open(s: Seq<char>, n: nat)
    requires
        index_open(s),
    ensures
        field_key(s + decimal(n)) == field_key(s),
        index_open(s + decimal(n)),
    decreases n,
{
    a_number_reads_as_it_is_written(n);
    let d = decimal(n);
    let whole = s + d;
    if n < 10 {
        assert(whole.drop_last() =~= s);
    } else {
        lemma_digits_open(s, n / 10);
        assert(whole.drop_last() =~= s + decimal(n / 10));
    }
    assert(whole.last() == d[d.len() - 1]);
}

/// The index of an element is no part of a key, and neither is the markup of a schema.
pub proof fn an_index_is_no_part_of_a_key(path: Seq<char>, i: nat, c: char)
    requires
        !index_open(path),
    ensures
        field_key(element_path(path, i)) == field_key(path),
        c == '*' || c == '!' || c == '^' ==> field_key(path.push(c)) == field_key(path),
{
    reveal_strlit("[");
    reveal_strlit("]");
    assert("["@ =~= seq!['[']);
    assert("]"@ =~= seq![']']);
    let open = path.push('[');
    assert(open.drop_last() =~= path);
    assert(path + "["@ =~= open);
    assert(index_open(open));
    assert(field_key(open) == field_key(path));
    lemma_digits_open(open, i);
    let inner = open + decimal(i);
    let whole = element_path(path, i);
    assert(whole =~= inner.push(']'));
    assert(whole.drop_last() =~= inner);
    assert(path.push(c).drop_last() =~= path);
}

/// Two characters that names are spelled alike with: the same letter, or a separator each.
pub open spec fn spelled_alike(a: char, b: char) -> bool {
    ||| ascii_lower(a) == ascii_lower(b)
    ||| separates(a) && separates(b)
}

/// Whether a character separates the words of a name.
pub open spec fn separates(c: char) -> bool {
    c == '_' || c == '-' || white(c)
}

proof fn lemma_words_alike(a: Seq<char>, b: Seq<char>)
    requires
        a.len() == b.len(),
        forall|i: int| 0 <= i < a.len() ==> spelled_alike(#[trigger] a[i], b[i]),
    ensures
        normal_words(a) == normal_words(b),
    decreases a.len(),
{
    if a.len() > 0 {
        assert forall|i: int| 0 <= i < a.len() - 1 implies spelled_alike(
            #[trigger] a.drop_last()[i],
            b.drop_last()[i],
        ) by {
            assert(a.drop_last()[i] == a[i]);
        }
        lemma_words_alike(a.drop_last(), b.drop_last());
        assert(spelled_alike(a[a.len() - 1], b[b.len() - 1]));
    }
}

/// Names that differ in capitals alone, or in what separates their words, have one normal
/// spelling.
pub proof fn capitals_and_separators_do_not_matter(a: Seq<char>, b: Seq<char>)
    requires
        a.len() == b.len(),
        !a.contains('#'),
        !b.contains('#'),
        forall|i: int| 0 <= i < a.len() ==> spelled_alike(#[trigger] a[i], b[i]),
    ensures
        normal_option(a) == normal_option(b),
{
    lemma_no_mark(a);
    lemma_no_mark(b);
    lemma_words_alike(a, b);
}

proof fn lemma_no_mark(s: Seq<char>)
    requires
        !s.contains('#'),
    ensures
        before(s, "#"@) == s,
{
    reveal_strlit("#");
    assert("#"@ =~= seq!['#']);
    assert forall|j: int| 0 <= j < s.len() implies !"#"@.contains(#[trigger] s[j]) by {
        if "#"@.contains(s[j]) {
            let k = choose|k: int| 0 <= k < "#"@.len() && "#"@[k] == s[j];
            assert(s[j] == '#');
        }
    }
    lemma_before(s, "#"@, s.len() as int);
    assert(s.take(s.len() as int) =~= s);
}

/// Whether a name has no former name beside it.
pub open spec fn without_former_names(s: Seq<char>) -> bool {
    !s.contains('{') && !s.contains('}') && !s.contains('|')
}

proof fn lemma_scan(s: Seq<char>)
    requires
        without_former_names(s),
    ensures
        alias_scan(s) == (Seq::<Seq<char>>::empty(), s),
    decreases s.len(),
{
    if s.len() > 0 {
        let rest = s.drop_last();
        assert(forall|i: int| 0 <= i < rest.len() ==> #[trigger] rest[i] == s[i]);
        assert(s[s.len() - 1] == s.last());
        lemma_scan(rest);
        assert(rest.push(s.last()) =~= s);
    } else {
        assert(s =~= Seq::<char>::empty());
    }
}

/// Two option names without former names agree exactly where they have one normal spelling.
pub proof fn plain_names_agree_where_they_are_spelled_alike(a: Seq<char>, b: Seq<char>)
    requires
        without_former_names(a),
        without_former_names(b),
        normal_option(a).len() > 0,
        normal_option(b).len() > 0,
        !blank(a),
        !blank(b),
    ensures
        options_agree(a, b) <==> normal_option(a) == normal_option(b),
{
    lemma_scan(a);
    lemma_scan(b);
    let x = option_aliases(a);
    let y = option_aliases(b);
    assert(x =~= seq![normal_option(a)]);
    assert(y =~= seq![normal_option(b)]);
    if normal_option(a) == normal_option(b) {
        assert(y.contains(x[0])) by {
            assert(y[0] == x[0]);
        }
    }
    if options_agree(a, b) {
        let i = choose|i: int| 0 <= i < x.len() && y.contains(#[trigger] x[i]);
        let j = choose|j: int| 0 <= j < y.len() && y[j] == x[i];
        assert(i == 0 && j == 0);
    }
}

// ---------------------------------------------------------------------------
// Integers
// ---------------------------------------------------------------------------
/// An integer type counts as many numbers as its bytes can tell apart: half of them below
/// zero where it is signed, none where it is not.
pub proof fn an_integer_type_counts_what_its_bytes_can(t: TagFieldType)
    requires
        integer_type(t),
    ensures
        signed_integer(t) ==> integer_bounds(t).0 == -(value_count(width_of_integer(t)->0) / 2)
            && integer_bounds(t).1 == value_count(width_of_integer(t)->0) / 2 - 1,
        t == TagFieldType::ByteInteger || t == TagFieldType::WordInteger || t
            == TagFieldType::DwordInteger || t == TagFieldType::QwordInteger ==> !signed_integer(t)
            && integer_bounds(t).0 == 0 && integer_bounds(t).1 == value_count(
            width_of_integer(t)->0,
        ) - 1,
        t == TagFieldType::CharInteger || t == TagFieldType::ShortInteger || t
            == TagFieldType::LongInteger || t == TagFieldType::Int64Integer ==> signed_integer(t),
        t == TagFieldType::CharInteger || t == TagFieldType::ByteInteger ==> value_count(
            width_of_integer(t)->0,
        ) == 0x100,
        t == TagFieldType::ShortInteger || t == TagFieldType::WordInteger ==> value_count(
            width_of_integer(t)->0,
        ) == 0x1_0000,
        t == TagFieldType::LongInteger || t == TagFieldType::DwordInteger ==> value_count(
            width_of_integer(t)->0,
        ) == 0x1_0000_0000,
        t == TagFieldType::Int64Integer || t == TagFieldType::QwordInteger ==> value_count(
            width_of_integer(t)->0,
        ) == 0x1_0000_0000_0000_0000,
        t == TagFieldType::CharBlockIndex || t == TagFieldType::CustomCharBlockIndex
            ==> integer_bounds(t) == (-0x80int, 0x7fint),
        t == TagFieldType::ShortBlockIndex || t == TagFieldType::CustomShortBlockIndex
            ==> integer_bounds(t) == (-0x8000int, 0x7fffint),
        t == TagFieldType::LongBlockIndex || t == TagFieldType::CustomLongBlockIndex
            ==> integer_bounds(t) == (-0x8000_0000int, 0x7fff_ffffint),
{
}

// ---------------------------------------------------------------------------
// Quotation
// ---------------------------------------------------------------------------
/// What a reader of a quotation takes a character behind a backslash for.
pub open spec fn meant_by(c: char) -> char {
    if c == 't' {
        '\t'
    } else if c == 'r' {
        '\r'
    } else if c == 'n' {
        '\n'
    } else {
        c
    }
}

/// What a reader takes the inside of a quotation for, from its beginning on.
pub open spec fn read_escapes(s: Seq<char>) -> Seq<char>
    decreases s.len(),
{
    if s.len() == 0 {
        Seq::empty()
    } else if s[0] == '\\' && s.len() > 1 {
        seq![meant_by(s[1])] + read_escapes(s.skip(2))
    } else {
        seq![s[0]] + read_escapes(s.skip(1))
    }
}

proof fn lemma_escaped_from_the_front(s: Seq<char>)
    requires
        s.len() > 0,
    ensures
        escaped(s) == escaped_char(s[0]) + escaped(s.skip(1)),
    decreases s.len(),
{
    let rest = s.drop_last();
    if s.len() == 1 {
        assert(rest =~= Seq::empty());
        assert(s.skip(1) =~= Seq::empty());
        assert(escaped(rest) =~= Seq::empty());
        assert(escaped(s.skip(1)) =~= Seq::empty());
        assert(escaped(s) =~= escaped_char(s[0]) + escaped(s.skip(1)));
    } else {
        lemma_escaped_from_the_front(rest);
        assert(rest.skip(1) =~= s.skip(1).drop_last());
        assert(s.skip(1).last() == s.last());
        assert(escaped(s.skip(1)) == escaped(rest.skip(1)) + escaped_char(s.last()));
        assert(escaped(s) =~= escaped_char(s[0]) + escaped(s.skip(1)));
    }
}

proof fn lemma_escapes_read_back(s: Seq<char>)
    ensures
        read_escapes(escaped(s)) == s,
    decreases s.len(),
{
    if s.len() == 0 {
        assert(read_escapes(escaped(s)) =~= s);
    } else {
        let code = escaped_char(s[0]);
        let tail = escaped(s.skip(1));
        lemma_escaped_from_the_front(s);
        lemma_escapes_read_back(s.skip(1));
        assert((code + tail).skip(code.len() as int) =~= tail);
        assert(seq![s[0]] + s.skip(1) =~= s);
    }
}

/// A text in quotation marks reads back as it was.
pub proof fn a_quoted_text_reads_back(s: Seq<char>)
    requires
        printable(s),
    ensures
        ({
            let q = quoted(s);
            &&& q.len() >= 2
            &&& q[0] == '"'
            &&& q[q.len() - 1] == '"'
            &&& read_escapes(q.subrange(1, q.len() - 1)) == s
        }),
{
    lemma_escapes_read_back(s);
    let q = quoted(s);
    assert(q.subrange(1, q.len() - 1) =~= escaped(s));
}

}
