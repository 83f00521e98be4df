//! Converting single values: numbers, options, flags, references, text.
use crate::convert::environment::{
    ConversionEnvironment, EnvironmentView, reference_group, reference_group_of,
};
use crate::convert::report::{ContextView, ConversionContext, record_unsupported};
use crate::fields::{
    FieldValue, OptionsView, TagFieldData, TagFieldType, TagOptions, TagReferenceData, enum_type,
    flag_names, flags_type, integer_field_value, integer_fits, integer_of, integer_value,
    label_of_type, meaningful, reinterpret_same_width_integer, reinterpreted, type_label,
    value_is_meaningful,
};
use crate::keys::{option_names_match, options_agree};
use crate::tag::{
    ContentView, FieldView, StructView, TagField, TagStruct, field_is_inside, items_are_inside,
    struct_is_inside,
};
use crate::text::{concat3, concat4, copy, decimal_int, decimal_int_text, texts};
use vstd::prelude::*;

verus! {

// ---------------------------------------------------------------------------
// Whether a field says anything
// ---------------------------------------------------------------------------
/// Whether a field holds anything but empty and zero values.
pub open spec fn field_meaningful(f: FieldView) -> bool
    decreases f, 0nat,
{
    match f.field_type {
        TagFieldType::Struct => match f.content {
            ContentView::Struct(s) => some_field_meaningful(s.fields, s.fields.len()),
            _ => false,
        },
        TagFieldType::Array => match f.content {
            ContentView::Array(a) => some_struct_meaningful(a, a.len()),
            _ => false,
        },
        TagFieldType::Block => match f.content {
            ContentView::Block(b) => b.elements.len() > 0,
            _ => false,
        },
        TagFieldType::PageableResource => match f.content {
            ContentView::Resource(r) => !(r.content is Null),
            _ => false,
        },
        _ => match f.content {
            ContentView::Value(v) => meaningful(v),
            _ => false,
        },
    }
}

/// Whether one of the first `n` fields holds anything.
pub open spec fn some_field_meaningful(fields: Seq<FieldView>, n: nat) -> bool
    decreases fields, n,
{
    if n == 0 || n > fields.len() {
        false
    } else {
        some_field_meaningful(fields, (n - 1) as nat) || field_meaningful(fields[n - 1])
    }
}

/// Whether one of the first `n` structs holds anything.
pub open spec fn some_struct_meaningful(structs: Seq<StructView>, n: nat) -> bool
    decreases structs, n,
{
    if n == 0 || n > structs.len() {
        false
    } else {
        some_struct_meaningful(structs, (n - 1) as nat) || some_field_meaningful(
            structs[n - 1].fields,
            structs[n - 1].fields.len(),
        )
    }
}

/// Whether a struct holds anything.
pub open spec fn struct_meaningful(s: StructView) -> bool {
    some_field_meaningful(s.fields, s.fields.len())
}

proof fn lemma_some_field(fields: Seq<FieldView>, i: nat, n: nat)
    requires
        i <= n <= fields.len(),
        some_field_meaningful(fields, i),
    ensures
        some_field_meaningful(fields, n),
    decreases n,
{
    if i < n {
        lemma_some_field(fields, i, (n - 1) as nat);
    }
}

proof fn lemma_some_struct(structs: Seq<StructView>, i: nat, n: nat)
    requires
        i <= n <= structs.len(),
        some_struct_meaningful(structs, i),
    ensures
        some_struct_meaningful(structs, n),
    decreases n,
{
    if i < n {
        lemma_some_struct(structs, i, (n - 1) as nat);
    }
}

pub fn field_has_meaningful_value(field: &TagField) -> (r: bool)
    ensures
        r == field_meaningful(field@),
    decreases field@, 0nat,
{
    match field.field_type() {
        TagFieldType::Struct => match field.as_struct() {
            Some(s) => {
                proof {
                    struct_is_inside(field@, s@);
                }
                struct_has_meaningful_value(s)
            },
            None => false,
        },
        TagFieldType::Array => match field.as_array() {
            Some(array) => {
                let n: usize = array.len();
                let mut i: usize = 0;
                while i < n
                    invariant
                        i <= n,
                        n == array@.len(),
                        field@.content == ContentView::Array(array@),
                        field@.field_type == TagFieldType::Array,
                        !some_struct_meaningful(array@, i as nat),
                    decreases n - i,
                {
                    proof {
                        items_are_inside(field@, array@);
                    }
                    if struct_has_meaningful_value(array.at(i)) {
                        proof {
                            lemma_some_struct(array@, (i + 1) as nat, n as nat);
                        }
                        assert(field_meaningful(field@));
                        return true;
                    }
                    i = i + 1;
                }
                false
            },
            None => false,
        },
        TagFieldType::Block => match field.as_block() {
            Some(block) => !block.is_empty(),
            None => false,
        },
        TagFieldType::PageableResource => match field.as_resource() {
            Some(resource) => !resource.is_null(),
            None => false,
        },
        _ => match field.value() {
            Some(value) => value_is_meaningful(value),
            None => false,
        },
    }
}

pub fn struct_has_meaningful_value(value: &TagStruct) -> (r: bool)
    ensures
        r == struct_meaningful(value@),
    decreases value@, 0nat,
{
    let n: usize = value.len();
    let mut i: usize = 0;
    while i < n
        invariant
            i <= n,
            n == value@.fields.len(),
            !some_field_meaningful(value@.fields, i as nat),
        decreases n - i,
    {
        proof {
            field_is_inside(value@, i as int);
        }
        if field_has_meaningful_value(value.at(i)) {
            proof {
                lemma_some_field(value@.fields, (i + 1) as nat, n as nat);
            }
            return true;
        }
        i = i + 1;
    }
    false
}

// ---------------------------------------------------------------------------
// Writing a converted value
// ---------------------------------------------------------------------------
/// A target field, and what has been gathered, after `v` was written into it.
pub open spec fn assigned(
    t: FieldView,
    v: FieldValue,
    path: Seq<char>,
    exact: bool,
    c: ContextView,
) -> (FieldView, ContextView) {
    if v.kind() == t.field_type {
        (t.with_value(v), c.carried(exact))
    } else {
        (t, c.unsupported(path, "Could not assign target value: TypeMismatch"@))
    }
}

pub fn set_converted(
    target: &mut TagField,
    value: TagFieldData,
    path: &str,
    exact: bool,
    context: &mut ConversionContext,
)
    ensures
        (final(target)@, final(context)@) == assigned(
            old(target)@,
            value@,
            path@,
            exact,
            old(context)@,
        ),
{
    match target.set(value) {
        Ok(()) => context.count_carried(exact),
        Err(_) => record_unsupported(
            context,
            path,
            copy("Could not assign target value: TypeMismatch"),
        ),
    }
}

// ---------------------------------------------------------------------------
// Integers
// ---------------------------------------------------------------------------
/// An integer field converted: the bits are carried where the two types differ
/// in signedness alone, the number otherwise, where it fits.
pub open spec fn converted_integer(
    f: FieldView,
    t: FieldView,
    path: Seq<char>,
    c: ContextView,
) -> (FieldView, ContextView) {
    match f.content {
        ContentView::Value(v) => match integer_of(v) {
            Some(n) => {
                let m = reinterpreted(f.field_type, t.field_type, n);
                if integer_fits(t.field_type, m) {
                    assigned(
                        t,
                        FieldValue::Number { kind: t.field_type, value: m },
                        path,
                        f.field_type == t.field_type,
                        c,
                    )
                } else {
                    (
                        t,
                        c.unsupported(
                            path,
                            "Value "@ + decimal_int(m) + " does not fit target "@ + type_label(
                                t.field_type,
                            ),
                        ),
                    )
                }
            },
            None => (t, c),
        },
        _ => (t, c),
    }
}

pub fn convert_integer(
    source: &TagField,
    target: &mut TagField,
    path: &str,
    context: &mut ConversionContext,
)
    ensures
        (final(target)@, final(context)@) == converted_integer(
            source@,
            old(target)@,
            path@,
            old(context)@,
        ),
{
    let value: i128 = match source.value() {
        Some(value) => match integer_value(value) {
            Some(n) => n,
            None => {
                return;
            },
        },
        None => {
            return;
        },
    };
    let target_type: TagFieldType = target.field_type();
    let value: i128 = reinterpret_same_width_integer(source.field_type(), target_type, value);
    match integer_field_value(target_type, value) {
        Some(converted) => set_converted(
            target,
            converted,
            path,
            source.field_type() == target_type,
            context,
        ),
        None => {
            let number: String = decimal_int_text(value);
            record_unsupported(
                context,
                path,
                concat4("Value ", &number, " does not fit target ", label_of_type(target_type)),
            );
        },
    }
}

// ---------------------------------------------------------------------------
// References
// ---------------------------------------------------------------------------
/// A reference converted: the same path, under the group that the source group
/// becomes.
pub open spec fn converted_reference(
    env: EnvironmentView,
    f: FieldView,
    t: FieldView,
    path: Seq<char>,
    c: ContextView,
) -> (FieldView, ContextView) {
    match f.content {
        ContentView::Value(FieldValue::Reference(Some((group, name)))) => match reference_group(
            env,
            group,
        ) {
            Err(message) => (t, c.unsupported(path, message)),
            Ok(tag) => assigned(
                t,
                FieldValue::Reference(Some((tag, name))),
                path,
                group == tag,
                c,
            ),
        },
        _ => (t, c),
    }
}

pub fn convert_reference(
    source: &TagField,
    target: &mut TagField,
    path: &str,
    env: &ConversionEnvironment,
    context: &mut ConversionContext,
)
    ensures
        (final(target)@, final(context)@) == converted_reference(
            env@,
            source@,
            old(target)@,
            path@,
            old(context)@,
        ),
{
    if let Some(TagFieldData::TagReference(reference)) = source.value() {
        if let Some((group, name)) = &reference.group_tag_and_name {
            match reference_group_of(env, *group) {
                Err(message) => record_unsupported(context, path, message),
                Ok(tag) => set_converted(
                    target,
                    TagFieldData::TagReference(
                        TagReferenceData { group_tag_and_name: Some((tag, copy(name))) },
                    ),
                    path,
                    *group == tag,
                    context,
                ),
            }
        }
    }
}

// ---------------------------------------------------------------------------
// Options
// ---------------------------------------------------------------------------
/// The debug form of a text.
pub uninterp spec fn debug_text(s: Seq<char>) -> Seq<char>;

/// Whether a text holds printable ASCII, tabs and line ends alone.
pub open spec fn printable(s: Seq<char>) -> bool {
    forall|i: int|
        0 <= i < s.len() ==> 0x20 <= (#[trigger] s[i]) as u32 <= 0x7e || s[i] == '\t' || s[i] == '\r'
            || s[i] == '\n'
}

/// A character of such a text, escaped where it has to be.
pub open spec fn escaped_char(c: char) -> Seq<char> {
    if c == '"' {
        seq!['\\', '"']
    } else if c == '\\' {
        seq!['\\', '\\']
    } else if c == '\t' {
        seq!['\\', 't']
    } else if c == '\r' {
        seq!['\\', 'r']
    } else if c == '\n' {
        seq!['\\', 'n']
    } else {
        seq![c]
    }
}

/// Such a text with its characters escaped.
pub open spec fn escaped(s: Seq<char>) -> Seq<char>
    decreases s.len(),
{
    if s.len() == 0 {
        Seq::empty()
    } else {
        escaped(s.drop_last()) + escaped_char(s.last())
    }
}

/// A text as messages show it: in quotation marks, quotation marks, backslashes, tabs
/// and line ends in it escaped. What else is escaped in other texts is up to the
/// standard library's tables of characters.
pub open spec fn quoted(s: Seq<char>) -> Seq<char> {
    if printable(s) {
        seq!['"'] + escaped(s) + seq!['"']
    } else {
        debug_text(s)
    }
}

/// The `Debug` form of a `str`, as `format!` writes it: the text in quotation marks,
/// with `"`, a backslash, a tab and line ends escaped by a backslash and other
/// printable ASCII as it is. Of texts with other characters nothing is claimed but
/// that the form depends on the text alone.
#[verifier::external_body]
fn debug_form(s: &str) -> (r: String)
    ensures
        r@ == debug_text(s@),
        printable(s@) ==> r@ == seq!['"'] + escaped(s@) + seq!['"'],
{
    format!("{s:?}")
}

pub fn quote(s: &str) -> (r: String)
    ensures
        r@ == quoted(s@),
{
    debug_form(s)
}

/// Whether the option `candidate` of the field at `path` stands for `name`, and
/// whether it is the catalog that says so.
pub open spec fn option_stands_for(
    env: EnvironmentView,
    path: Seq<char>,
    candidate: Seq<char>,
    name: Seq<char>,
) -> Option<bool> {
    if options_agree(candidate, name) {
        Some(false)
    } else if env.mapping_catalog.relates_options(
        env.group_name,
        path,
        env.source_game,
        env.target_game,
        name,
        candidate,
    ) {
        Some(true)
    } else {
        None
    }
}

fn option_stands_for_name(
    env: &ConversionEnvironment,
    path: &str,
    candidate: &str,
    name: &str,
) -> (r: Option<bool>)
    ensures
        r == option_stands_for(env@, path@, candidate@, name@),
{
    if option_names_match(candidate, name) {
        Some(false)
    } else if env.mapping_catalog.option_names_match(
        env.group_name,
        path,
        env.source_game,
        env.target_game,
        name,
        candidate,
    ) {
        Some(true)
    } else {
        None
    }
}

/// The first option at or behind `from` that stands for `name`.
pub open spec fn option_for(
    env: EnvironmentView,
    path: Seq<char>,
    names: Seq<Seq<char>>,
    name: Seq<char>,
    from: nat,
) -> Option<(nat, bool)>
    decreases names.len() - from,
{
    if from >= names.len() {
        None
    } else {
        match option_stands_for(env, path, names[from as int], name) {
            Some(by_catalog) => Some((from, by_catalog)),
            None => option_for(env, path, names, name, from + 1),
        }
    }
}

fn option_for_name(
    env: &ConversionEnvironment,
    path: &str,
    names: &Vec<String>,
    name: &str,
) -> (r: Option<(usize, bool)>)
    ensures
        match r {
            Some((i, by_catalog)) => option_for(env@, path@, texts(names@), name@, 0) == Some(
                (i as nat, by_catalog),
            ),
            None => option_for(env@, path@, texts(names@), name@, 0) is None,
        },
{
    let mut i: usize = 0;
    while i < names.len()
        invariant
            i <= names.len(),
            option_for(env@, path@, texts(names@), name@, 0) == option_for(
                env@,
                path@,
                texts(names@),
                name@,
                i as nat,
            ),
        decreases names.len() - i,
    {
        if let Some(by_catalog) = option_stands_for_name(env, path, &names[i], name) {
            return Some((i, by_catalog));
        }
        i = i + 1;
    }
    None
}

/// The value of an enum field of type `kind` at option `index`.
pub open spec fn enum_at(kind: TagFieldType, index: nat, name: Seq<char>) -> FieldValue {
    FieldValue::Enum {
        kind,
        value: match kind {
            TagFieldType::CharEnum => index as i8 as int,
            TagFieldType::ShortEnum => index as i16 as int,
            _ => index as i32 as int,
        },
        name: Some(name),
    }
}

pub fn enum_value_at(kind: TagFieldType, index: usize, name: &str) -> (r: Option<TagFieldData>)
    ensures
        r is Some <==> enum_type(kind),
        r matches Some(v) ==> v@ == enum_at(kind, index as nat, name@),
{
    match kind {
        TagFieldType::CharEnum => Some(
            TagFieldData::CharEnum {
                value: #[verifier::truncate]
                (index as i8),
                name: Some(copy(name)),
            },
        ),
        TagFieldType::ShortEnum => Some(
            TagFieldData::ShortEnum {
                value: #[verifier::truncate]
                (index as i16),
                name: Some(copy(name)),
            },
        ),
        TagFieldType::LongEnum => Some(
            TagFieldData::LongEnum {
                value: #[verifier::truncate]
                (index as i32),
                name: Some(copy(name)),
            },
        ),
        _ => None,
    }
}

/// The name of the option that an enum field holds.
pub open spec fn option_held(f: FieldView) -> Option<Seq<char>> {
    match f.content {
        ContentView::Value(FieldValue::Enum { name, .. }) => name,
        _ => None,
    }
}

/// The name of the option that an enum field holds.
pub fn held_option(field: &TagField) -> (r: Option<&String>)
    ensures
        match r {
            Some(name) => option_held(field@) == Some(name@),
            None => option_held(field@) is None,
        },
{
    match field.value() {
        Some(TagFieldData::CharEnum { name, .. }) => name.as_ref(),
        Some(TagFieldData::ShortEnum { name, .. }) => name.as_ref(),
        Some(TagFieldData::LongEnum { name, .. }) => name.as_ref(),
        _ => None,
    }
}

/// An enum field converted: the target's option that stands for the source's.
pub open spec fn converted_enum(
    env: EnvironmentView,
    f: FieldView,
    t: FieldView,
    path: Seq<char>,
    c: ContextView,
) -> (FieldView, ContextView) {
    match option_held(f) {
        None => if field_meaningful(f) {
            (t, c.unsupported(path, "Unresolved source enum value"@))
        } else {
            (t, c)
        },
        Some(name) => match t.options {
            OptionsView::Enum(names) => match option_for(env, path, names, name, 0) {
                None => (
                    t,
                    c.unsupported(path, "Target enum has no "@ + quoted(name) + " option"@),
                ),
                Some((index, by_catalog)) => {
                    let c1 = if by_catalog {
                        c.aliased()
                    } else {
                        c
                    };
                    if enum_type(t.field_type) {
                        assigned(t, enum_at(t.field_type, index, name), path, false, c1)
                    } else {
                        (t, c1)
                    }
                },
            },
            _ => (t, c),
        },
    }
}

pub fn convert_enum(
    source: &TagField,
    target: &mut TagField,
    path: &str,
    env: &ConversionEnvironment,
    context: &mut ConversionContext,
)
    ensures
        (final(target)@, final(context)@) == converted_enum(
            env@,
            source@,
            old(target)@,
            path@,
            old(context)@,
        ),
{
    let name: &String = match held_option(source) {
        Some(name) => name,
        None => {
            if field_has_meaningful_value(source) {
                record_unsupported(context, path, copy("Unresolved source enum value"));
            }
            return;
        },
    };
    let found: Option<(usize, bool)> = match target.options() {
        TagOptions::Enum(names) => option_for_name(env, path, names, name),
        _ => {
            return;
        },
    };
    match found {
        None => {
            let shown: String = quote(name);
            record_unsupported(context, path, concat3("Target enum has no ", &shown, " option"));
        },
        Some((index, by_catalog)) => {
            if by_catalog {
                context.count_alias();
            }
            if let Some(value) = enum_value_at(target.field_type(), index, name) {
                set_converted(target, value, path, false, context);
            }
        },
    }
}

// ---------------------------------------------------------------------------
// Flags
// ---------------------------------------------------------------------------
/// `word` with bit `bit` set.
pub open spec fn with_bit(word: u64, bit: u32) -> u64 {
    if bit < 64 {
        word | (1u64 << bit)
    } else {
        word
    }
}

/// The names of flags, without their bits.
pub open spec fn names_only(flags: Seq<(u32, Seq<char>)>) -> Seq<Seq<char>> {
    Seq::new(flags.len(), |i: int| flags[i].1)
}

/// The word of the target's flags that stand for the first `n` of the source's,
/// and what has been gathered.
pub open spec fn flags_carried(
    env: EnvironmentView,
    path: Seq<char>,
    options: Seq<(u32, Seq<char>)>,
    names: Seq<(u32, Seq<char>)>,
    n: nat,
    c: ContextView,
) -> (u64, ContextView)
    decreases n,
{
    if n == 0 || n > names.len() {
        (0, c)
    } else {
        let (word, c) = flags_carried(env, path, options, names, (n - 1) as nat, c);
        let name = names[n - 1].1;
        match option_for(env, path, names_only(options), name, 0) {
            None => (
                word,
                c.unsupported(path, "Target flags have no "@ + quoted(name) + " bit"@),
            ),
            Some((index, by_catalog)) => (
                with_bit(word, options[index as int].0),
                if by_catalog {
                    c.aliased()
                } else {
                    c
                },
            ),
        }
    }
}

/// The value of a flags field of type `kind` with the given word.
pub open spec fn flags_of_word(kind: TagFieldType, word: u64) -> FieldValue {
    FieldValue::Flags {
        kind,
        value: match kind {
            TagFieldType::ByteFlags => word as u8 as int,
            TagFieldType::WordFlags => word as u16 as int,
            _ => word as u32 as i32 as int,
        },
        names: Seq::empty(),
    }
}

/// A flags field converted: the target's flags that stand for the source's.
pub open spec fn converted_flags(
    env: EnvironmentView,
    f: FieldView,
    t: FieldView,
    path: Seq<char>,
    c: ContextView,
) -> (FieldView, ContextView) {
    match f.content {
        ContentView::Value(FieldValue::Flags { value, names, .. }) => if value != 0 && names.len()
            == 0 {
            (t, c.unsupported(path, "Set source flag bits have no names"@))
        } else {
            match t.options {
                OptionsView::Flags(options) => {
                    let (word, c1) = flags_carried(env, path, options, names, names.len(), c);
                    if flags_type(t.field_type) {
                        assigned(t, flags_of_word(t.field_type, word), path, false, c1)
                    } else {
                        (t, c1)
                    }
                },
                _ => (t, c),
            }
        },
        _ => (t, c),
    }
}

fn flag_for_name(
    env: &ConversionEnvironment,
    path: &str,
    options: &Vec<(u32, String)>,
    name: &str,
) -> (r: Option<(usize, bool)>)
    ensures
        match r {
            Some((i, by_catalog)) => option_for(
                env@,
                path@,
                names_only(flag_names(options@)),
                name@,
                0,
            ) == Some((i as nat, by_catalog)) && i < options.len(),
            None => option_for(env@, path@, names_only(flag_names(options@)), name@, 0) is None,
        },
{
    let ghost names = names_only(flag_names(options@));
    let mut i: usize = 0;
    while i < options.len()
        invariant
            i <= options.len(),
            names == names_only(flag_names(options@)),
            option_for(env@, path@, names, name@, 0) == option_for(
                env@,
                path@,
                names,
                name@,
                i as nat,
            ),
        decreases options.len() - i,
    {
        assert(names[i as int] == options@[i as int].1@);
        if let Some(by_catalog) = option_stands_for_name(env, path, &options[i].1, name) {
            return Some((i, by_catalog));
        }
        i = i + 1;
    }
    None
}

fn set_bit(word: u64, bit: u32) -> (r: u64)
    ensures
        r == with_bit(word, bit),
{
    if bit < 64 {
        word | (1u64 << bit)
    } else {
        word
    }
}

fn carry_flags(
    env: &ConversionEnvironment,
    path: &str,
    options: &Vec<(u32, String)>,
    names: &Vec<(u32, String)>,
    context: &mut ConversionContext,
) -> (r: u64)
    ensures
        (r, final(context)@) == flags_carried(
            env@,
            path@,
            flag_names(options@),
            flag_names(names@),
            names@.len(),
            old(context)@,
        ),
{
    let ghost start = context@;
    let ghost all = flag_names(names@);
    let ghost opts = flag_names(options@);
    let mut word: u64 = 0;
    let mut i: usize = 0;
    while i < names.len()
        invariant
            i <= names.len(),
            all == flag_names(names@),
            opts == flag_names(options@),
            (word, context@) == flags_carried(env@, path@, opts, all, i as nat, start),
        decreases names.len() - i,
    {
        assert(all[i as int].1 == names@[i as int].1@);
        match flag_for_name(env, path, options, &names[i].1) {
            None => {
                let shown: String = quote(&names[i].1);
                record_unsupported(
                    context,
                    path,
                    concat3("Target flags have no ", &shown, " bit"),
                );
            },
            Some((index, by_catalog)) => {
                assert(opts[index as int].0 == options@[index as int].0);
                if by_catalog {
                    context.count_alias();
                }
                word = set_bit(word, options[index].0);
            },
        }
        i = i + 1;
    }
    word
}

fn flags_value(kind: TagFieldType, word: u64) -> (r: Option<TagFieldData>)
    ensures
        r is Some <==> flags_type(kind),
        r matches Some(v) ==> v@ == flags_of_word(kind, word),
{
    let names: Vec<(u32, String)> = Vec::new();
    assert(flag_names(names@) =~= Seq::empty());
    match kind {
        TagFieldType::ByteFlags => Some(
            TagFieldData::ByteFlags {
                value: #[verifier::truncate]
                (word as u8),
                names,
            },
        ),
        TagFieldType::WordFlags => Some(
            TagFieldData::WordFlags {
                value: #[verifier::truncate]
                (word as u16),
                names,
            },
        ),
        TagFieldType::LongFlags => {
            let low: u32 = #[verifier::truncate]
            (word as u32);
            Some(
                TagFieldData::LongFlags {
                    value: #[verifier::truncate]
                    (low as i32),
                    names,
                },
            )
        },
        _ => None,
    }
}

pub fn convert_flags(
    source: &TagField,
    target: &mut TagField,
    path: &str,
    env: &ConversionEnvironment,
    context: &mut ConversionContext,
)
    ensures
        (final(target)@, final(context)@) == converted_flags(
            env@,
            source@,
            old(target)@,
            path@,
            old(context)@,
        ),
{
    let (set, names): (bool, &Vec<(u32, String)>) = match source.value() {
        Some(TagFieldData::ByteFlags { value, names }) => (*value != 0, names),
        Some(TagFieldData::WordFlags { value, names }) => (*value != 0, names),
        Some(TagFieldData::LongFlags { value, names }) => (*value != 0, names),
        _ => {
            return;
        },
    };
    if set && names.len() == 0 {
        record_unsupported(context, path, copy("Set source flag bits have no names"));
        return;
    }
    let word: u64 = match target.options() {
        TagOptions::Flags(options) => carry_flags(env, path, options, names, context),
        _ => {
            return;
        },
    };
    if let Some(value) = flags_value(target.field_type(), word) {
        set_converted(target, value, path, false, context);
    }
}

}
