//! Options and flags cross by name: what the target holds is decided by the names
//! that the source holds and by the target's own options, and by nothing else.
use crate::convert::environment::EnvironmentView;
use crate::convert::report::ContextView;
use crate::convert::values::{
    converted_enum, converted_flags, flags_carried, flags_of_word, names_only, option_for,
    option_stands_for, with_bit,
};
use crate::fields::{
    FieldValue, OptionsView, TagFieldType, bit_set, flag_word, flags_type, set_flags,
};
use crate::keys::options_agree;
use crate::tag::{ContentView, FieldView};
use vstd::prelude::*;

verus! {

// ---------------------------------------------------------------------------
// Which option stands for a name
// ---------------------------------------------------------------------------
/// Whether an option of the target goes by the name `name` of the source: the two
/// are spelled alike, or the catalog relates them.
pub open spec fn goes_by(
    env: EnvironmentView,
    path: Seq<char>,
    option: Seq<char>,
    name: Seq<char>,
) -> bool {
    options_agree(option, name) || env.mapping_catalog.relates_options(
        env.group_name,
        path,
        env.source_game,
        env.target_game,
        name,
        option,
    )
}

/// Whether the option at `j` is the first of `options` that goes by `name`.
pub open spec fn is_first_for(
    env: EnvironmentView,
    path: Seq<char>,
    options: Seq<Seq<char>>,
    name: Seq<char>,
    j: int,
) -> bool {
    &&& 0 <= j < options.len()
    &&& goes_by(env, path, options[j], name)
    &&& forall|k: int| 0 <= k < j ==> !goes_by(env, path, #[trigger] options[k], name)
}

proof fn lemma_option_for(
    env: EnvironmentView,
    path: Seq<char>,
    options: Seq<Seq<char>>,
    name: Seq<char>,
    from: nat,
)
    requires
        forall|k: int|
            0 <= k < from && k < options.len() ==> !goes_by(
                env,
                path,
                #[trigger] options[k],
                name,
            ),
    ensures
        match option_for(env, path, options, name, from) {
            Some((j, by_catalog)) => is_first_for(env, path, options, name, j as int) && (
            by_catalog <==> !options_agree(options[j as int], name)),
            None => forall|k: int|
                0 <= k < options.len() ==> !goes_by(env, path, #[trigger] options[k], name),
        },
    decreases options.len() - from,
{
    if from < options.len() {
        if option_stands_for(env, path, options[from as int], name) is None {
            lemma_option_for(env, path, options, name, from + 1);
        }
    }
}

proof fn lemma_one_first(
    env: EnvironmentView,
    path: Seq<char>,
    options: Seq<Seq<char>>,
    name: Seq<char>,
    i: int,
    j: int,
)
    requires
        is_first_for(env, path, options, name, i),
        is_first_for(env, path, options, name, j),
    ensures
        i == j,
{
    if i < j {
        assert(!goes_by(env, path, options[i], name));
    } else if j < i {
        assert(!goes_by(env, path, options[j], name));
    }
}

// ---------------------------------------------------------------------------
// Enums
// ---------------------------------------------------------------------------
/// A converted enum field holds the place, and the name, of the first option of the
/// target that goes by the name that the source holds. The number that the source
/// holds plays no part.
pub proof fn an_option_crosses_by_its_name(
    env: EnvironmentView,
    f: FieldView,
    t: FieldView,
    path: Seq<char>,
    c: ContextView,
    name: Seq<char>,
    options: Seq<Seq<char>>,
    j: int,
)
    requires
        f.content matches ContentView::Value(v) && (v matches FieldValue::Enum { name: held, .. }
            && held == Some(name)),
        t.options == OptionsView::Enum(options),
        t.field_type == TagFieldType::CharEnum && options.len() <= 0x80 || t.field_type
            == TagFieldType::ShortEnum && options.len() <= 0x8000 || t.field_type
            == TagFieldType::LongEnum && options.len() <= 0x8000_0000,
        is_first_for(env, path, options, name, j),
    ensures
        converted_enum(env, f, t, path, c).0 == (FieldView {
            content: ContentView::Value(
                FieldValue::Enum { kind: t.field_type, value: j, name: Some(options[j]) },
            ),
            ..t
        }),
{
    lemma_option_for(env, path, options, name, 0);
    let found = option_for(env, path, options, name, 0).unwrap().0;
    lemma_one_first(env, path, options, name, found as int, j);
}

/// An enum field whose option nothing in the target goes by stays as it was, and the
/// report names it.
pub proof fn an_option_without_a_counterpart_is_reported(
    env: EnvironmentView,
    f: FieldView,
    t: FieldView,
    path: Seq<char>,
    c: ContextView,
    name: Seq<char>,
    options: Seq<Seq<char>>,
)
    requires
        f.content matches ContentView::Value(v) && (v matches FieldValue::Enum { name: held, .. }
            && held == Some(name)),
        t.options == OptionsView::Enum(options),
        forall|k: int| 0 <= k < options.len() ==> !goes_by(env, path, #[trigger] options[k], name),
    ensures
        converted_enum(env, f, t, path, c).0 == t,
        converted_enum(env, f, t, path, c).1.report.issues.len() == c.report.issues.len() + 1,
        converted_enum(env, f, t, path, c).1.report.issues.last().path == path,
        c.report.unsupported_source < usize::MAX ==> converted_enum(
            env,
            f,
            t,
            path,
            c,
        ).1.report.unsupported_source == c.report.unsupported_source + 1,
{
    lemma_option_for(env, path, options, name, 0);
}

// ---------------------------------------------------------------------------
// Flags
// ---------------------------------------------------------------------------
/// Whether the first option of the target that goes by one of the first `n` names is
/// that of bit `bit`.
pub open spec fn bit_is_named(
    env: EnvironmentView,
    path: Seq<char>,
    options: Seq<(u32, Seq<char>)>,
    names: Seq<(u32, Seq<char>)>,
    n: nat,
    bit: u32,
) -> bool {
    exists|i: int, j: int|
        0 <= i < n && #[trigger] is_first_for(env, path, names_only(options), names[i].1, j)
            && options[j].0 == bit
}

proof fn lemma_bit_added(word: u64, b: u32, bit: u32)
    requires
        bit < 64,
    ensures
        ((with_bit(word, b) >> bit) & 1 == 1) <==> ((word >> bit) & 1 == 1 || b == bit),
{
    if b < 64 {
        assert((((word | (1u64 << b)) >> bit) & 1 == 1) <==> ((word >> bit) & 1 == 1 || b == bit))
            by (bit_vector)
            requires
                b < 64,
                bit < 64,
        ;
    }
}

/// A bit of the converted word is set if and only if it is the bit of the first option
/// of the target that goes by one of the names set in the source.
pub proof fn a_bit_is_set_for_its_name_alone(
    env: EnvironmentView,
    path: Seq<char>,
    options: Seq<(u32, Seq<char>)>,
    names: Seq<(u32, Seq<char>)>,
    n: nat,
    c: ContextView,
    bit: u32,
)
    requires
        n <= names.len(),
        bit < 64,
    ensures
        ((flags_carried(env, path, options, names, n, c).0 >> bit) & 1 == 1) <==> bit_is_named(
            env,
            path,
            options,
            names,
            n,
            bit,
        ),
    decreases n,
{
    if n == 0 {
        assert((0u64 >> bit) & 1 == 0) by (bit_vector);
    } else {
        let m = (n - 1) as nat;
        a_bit_is_set_for_its_name_alone(env, path, options, names, m, c, bit);
        let name = names[n - 1].1;
        lemma_option_for(env, path, names_only(options), name, 0);
        let before = flags_carried(env, path, options, names, m, c).0;
        match option_for(env, path, names_only(options), name, 0) {
            None => {
                if bit_is_named(env, path, options, names, n, bit) {
                    let (i, j) = choose|i: int, j: int|
                        0 <= i < n && #[trigger] is_first_for(
                            env,
                            path,
                            names_only(options),
                            names[i].1,
                            j,
                        ) && options[j].0 == bit;
                    assert(i != n - 1) by {
                        if i == n - 1 {
                            assert(!goes_by(env, path, names_only(options)[j], name));
                        }
                    }
                    assert(bit_is_named(env, path, options, names, m, bit));
                }
            },
            Some((at, _)) => {
                lemma_bit_added(before, options[at as int].0, bit);
                if bit_is_named(env, path, options, names, n, bit) {
                    let (i, j) = choose|i: int, j: int|
                        0 <= i < n && #[trigger] is_first_for(
                            env,
                            path,
                            names_only(options),
                            names[i].1,
                            j,
                        ) && options[j].0 == bit;
                    if i == n - 1 {
                        lemma_one_first(env, path, names_only(options), name, at as int, j);
                    } else {
                        assert(bit_is_named(env, path, options, names, m, bit));
                    }
                }
                if options[at as int].0 == bit {
                    assert(is_first_for(env, path, names_only(options), names[n - 1].1, at as int));
                }
            },
        }
    }
}

/// The numbers of the source's bits have no influence on the converted word, nor on
/// what is reported: two sources with the same names are converted alike.
pub proof fn the_bits_of_the_source_do_not_matter(
    env: EnvironmentView,
    path: Seq<char>,
    options: Seq<(u32, Seq<char>)>,
    a: Seq<(u32, Seq<char>)>,
    b: Seq<(u32, Seq<char>)>,
    n: nat,
    c: ContextView,
)
    requires
        a.len() == b.len(),
        forall|i: int| 0 <= i < a.len() ==> (#[trigger] a[i]).1 == b[i].1,
    ensures
        flags_carried(env, path, options, a, n, c) == flags_carried(env, path, options, b, n, c),
    decreases n,
{
    if n > 0 && n <= a.len() {
        assert(a[n - 1].1 == b[n - 1].1);
        the_bits_of_the_source_do_not_matter(env, path, options, a, b, (n - 1) as nat, c);
    }
}

/// The number of bits of a flags field of type `t`.
pub open spec fn flag_room(t: TagFieldType) -> u32 {
    match t {
        TagFieldType::ByteFlags => 8,
        TagFieldType::WordFlags => 16,
        _ => 32,
    }
}

proof fn lemma_bit_kept(kind: TagFieldType, word: u64, bit: u32)
    requires
        flags_type(kind),
        bit < flag_room(kind),
    ensures
        flags_of_word(kind, word) matches FieldValue::Flags { value, .. } && (((flag_word(value)
            >> bit) & 1 == 1) <==> ((word >> bit) & 1 == 1)),
{
    match kind {
        TagFieldType::ByteFlags => {
            assert((((word as u8) as u32 >> bit) & 1 == 1) <==> ((word >> bit) & 1 == 1))
                by (bit_vector)
                requires
                    bit < 8,
            ;
        },
        TagFieldType::WordFlags => {
            assert((((word as u16) as u32 >> bit) & 1 == 1) <==> ((word >> bit) & 1 == 1))
                by (bit_vector)
                requires
                    bit < 16,
            ;
        },
        _ => {
            let low = word as u32;
            assert(((low >> bit) & 1 == 1) <==> ((word >> bit) & 1 == 1)) by (bit_vector)
                requires
                    bit < 32,
                    low == word as u32,
            ;
            let value = low as i32;
            assert(value < 0 ==> low == value + 0x1_0000_0000) by (bit_vector)
                requires
                    value == low as i32,
            ;
            assert(value >= 0 ==> low == value) by (bit_vector)
                requires
                    value == low as i32,
            ;
            assert(flag_word(value as int) == low);
        },
    }
}

/// The flags that read as set in a word are the declared ones whose bits are set in
/// it, each as it is declared.
pub proof fn a_flag_reads_as_set_with_its_bit(
    word: u32,
    flags: Seq<(u32, Seq<char>)>,
    flag: (u32, Seq<char>),
)
    ensures
        set_flags(word, flags).contains(flag) <==> flags.contains(flag) && flag.0 < 32 && (word
            >> flag.0) & 1 == 1,
    decreases flags.len(),
{
    if flags.len() > 0 {
        let rest = set_flags(word, flags.drop_last());
        let whole = set_flags(word, flags);
        a_flag_reads_as_set_with_its_bit(word, flags.drop_last(), flag);
        assert(flags =~= flags.drop_last().push(flags.last()));
        assert(flags.contains(flag) <==> flags.drop_last().contains(flag) || flag == flags.last()) by {
            if flags.contains(flag) {
                let i = choose|i: int| 0 <= i < flags.len() && flags[i] == flag;
                if i < flags.len() - 1 {
                    assert(flags.drop_last()[i] == flag);
                }
            }
            if flags.drop_last().contains(flag) {
                let i = choose|i: int| 0 <= i < flags.len() - 1 && flags.drop_last()[i] == flag;
                assert(flags[i] == flag);
            }
            if flag == flags.last() {
                assert(flags[flags.len() - 1] == flag);
            }
        }
        if bit_set(word, flags.last().0) {
            assert(whole == rest.push(flags.last()));
            if rest.contains(flag) {
                let i = choose|i: int| 0 <= i < rest.len() && rest[i] == flag;
                assert(whole[i] == flag);
            }
            if flag == flags.last() {
                assert(whole[rest.len() as int] == flag);
            }
            if whole.contains(flag) {
                let i = choose|i: int| 0 <= i < whole.len() && whole[i] == flag;
                if i < rest.len() {
                    assert(rest[i] == flag);
                }
            }
        }
    }
}

/// A converted flags field reads as the set of exactly those of its options whose bits
/// are those of the first options that go by the names set in the source.
pub proof fn flags_cross_by_their_names(
    env: EnvironmentView,
    f: FieldView,
    t: FieldView,
    path: Seq<char>,
    c: ContextView,
    held: int,
    names: Seq<(u32, Seq<char>)>,
    options: Seq<(u32, Seq<char>)>,
)
    requires
        f.content matches ContentView::Value(v) && (v matches FieldValue::Flags {
            value,
            names: set,
            ..
        } && value == held && set == names),
        held == 0 || names.len() > 0,
        t.options == OptionsView::Flags(options),
        flags_type(t.field_type),
        forall|j: int| 0 <= j < options.len() ==> (#[trigger] options[j]).0 < flag_room(t.field_type),
    ensures
        converted_flags(env, f, t, path, c).0.content matches ContentView::Value(v) && (
        v matches FieldValue::Flags { kind, names: set, .. } && kind == t.field_type && forall|
            j: int,
        |
            0 <= j < options.len() ==> (#[trigger] set.contains(options[j]) <==> bit_is_named(
                env,
                path,
                options,
                names,
                names.len(),
                options[j].0,
            ))),
{
    let word = flags_carried(env, path, options, names, names.len(), c).0;
    let value = flags_of_word(t.field_type, word);
    let number = match value {
        FieldValue::Flags { value, .. } => value,
        _ => 0,
    };
    assert(value.kind() == t.field_type);
    assert forall|j: int| 0 <= j < options.len() implies (#[trigger] set_flags(
        flag_word(number),
        options,
    ).contains(options[j]) <==> bit_is_named(
        env,
        path,
        options,
        names,
        names.len(),
        options[j].0,
    )) by {
        a_flag_reads_as_set_with_its_bit(flag_word(number), options, options[j]);
        lemma_bit_kept(t.field_type, word, options[j].0);
        a_bit_is_set_for_its_name_alone(
            env,
            path,
            options,
            names,
            names.len(),
            c,
            options[j].0,
        );
    }
}

}
