//! What a group's schema says of its fields beyond what a tag's own layout
//! keeps: former names, units, and who owns a field.
use crate::fields::text_option;
use crate::guid::{guid_in, parse_schema_guid, schema_struct_key, struct_key};
use crate::json::{
    fault_in_json, item_views, items_of_json, json_fault, json_items, json_member,
    json_member_text, json_members, member_of, member_text_of, member_views, members_of_json,
};
use crate::keys::{clean_field_key, field_key, option_aliases, option_name_aliases};
use crate::text::{
    before, begins, behind, concat4, contains_char, contains_text, copy, lemma_texts_push, lower,
    lowered, same, starts_with, text_before, text_behind, texts, trim_start, trim_text, trimmed,
    without_leading_white,
};
use vstd::prelude::*;

verus! {

/// One former or alternative name: within the struct, `left` is also `right`.
#[derive(Debug, PartialEq, Eq)]
pub struct FieldAlias {
    pub struct_key: String,
    pub left: String,
    pub right: String,
}

/// What the schemas of a group say of its fields, all by cleaned key.
#[derive(Debug, PartialEq, Eq, Default)]
pub struct SchemaFieldAliases {
    pub aliases: Vec<FieldAlias>,
    /// The `:units` annotation of a field; the last one counts.
    pub units: Vec<(String, String)>,
    /// Fields whose schema name carries `*`: the editor owns them.
    pub editor_owned: Vec<String>,
    /// Fields whose schema name carries `!`: the engine manages them.
    pub engine_managed: Vec<String>,
}

pub ghost struct AliasesView {
    pub aliases: Seq<(Seq<char>, Seq<char>, Seq<char>)>,
    pub units: Seq<(Seq<char>, Seq<char>)>,
    pub editor_owned: Seq<Seq<char>>,
    pub engine_managed: Seq<Seq<char>>,
}

/// The views of a list of aliases.
pub open spec fn alias_views(v: Seq<FieldAlias>) -> Seq<(Seq<char>, Seq<char>, Seq<char>)> {
    Seq::new(v.len(), |i: int| (v[i].struct_key@, v[i].left@, v[i].right@))
}

/// The views of a list of pairs of texts.
pub open spec fn pair_views(v: Seq<(String, String)>) -> Seq<(Seq<char>, Seq<char>)> {
    Seq::new(v.len(), |i: int| (v[i].0@, v[i].1@))
}

/// The unit that a field's schema name annotates it with: the `secs` in
/// `strike delay bounds:secs#help`.
pub open spec fn unit_annotation(name: Seq<char>) -> Option<Seq<char>> {
    match behind(before(name, "#"@), ':') {
        Some(unit) => if trimmed(unit).len() > 0 {
            Some(lowered(trimmed(unit)))
        } else {
            None
        },
        None => None,
    }
}

pub fn field_unit_annotation(name: &str) -> (r: Option<String>)
    ensures
        text_option(r) == unit_annotation(name@),
{
    let shown: String = text_before(name, "#");
    match text_behind(&shown, ':') {
        Some(unit) => {
            let unit: String = trim_text(&unit);
            if unit.as_str().is_empty() {
                None
            } else {
                Some(lower(&unit))
            }
        },
        None => None,
    }
}

/// The aliases of name `i` of `names` with the first `n` of them.
pub open spec fn aliases_of_one(
    key: Seq<char>,
    names: Seq<Seq<char>>,
    i: int,
    n: nat,
) -> Seq<(Seq<char>, Seq<char>, Seq<char>)>
    decreases n,
{
    if n == 0 {
        Seq::empty()
    } else {
        let rest = aliases_of_one(key, names, i, (n - 1) as nat);
        if names[n - 1] != names[i] {
            rest.push((key, field_key(names[i]), field_key(names[n - 1])))
        } else {
            rest
        }
    }
}

/// The aliases of the first `n` of `names` with all of them.
pub open spec fn aliases_among(
    key: Seq<char>,
    names: Seq<Seq<char>>,
    n: nat,
) -> Seq<(Seq<char>, Seq<char>, Seq<char>)>
    decreases n,
{
    if n == 0 {
        Seq::empty()
    } else {
        aliases_among(key, names, (n - 1) as nat) + aliases_of_one(key, names, n - 1, names.len())
    }
}

impl AliasesView {
    pub open spec fn empty() -> AliasesView {
        AliasesView {
            aliases: Seq::empty(),
            units: Seq::empty(),
            editor_owned: Seq::empty(),
            engine_managed: Seq::empty(),
        }
    }

    /// Whether, in the struct, the field `left` is also known as `right`.
    pub open spec fn matches(
        self,
        guid: Seq<u8>,
        struct_name: Seq<char>,
        left: Seq<char>,
        right: Seq<char>,
    ) -> bool {
        self.aliases.contains((struct_key(guid, struct_name), left, right))
    }

    /// The unit of the field `key` among the first `n` annotations.
    pub open spec fn unit_in(self, key: Seq<char>, n: nat) -> Option<Seq<char>>
        decreases n,
    {
        if n == 0 {
            None
        } else if self.units[n - 1].0 == key {
            Some(self.units[n - 1].1)
        } else {
            self.unit_in(key, (n - 1) as nat)
        }
    }

    /// The unit of the field `key`.
    pub open spec fn unit_of(self, key: Seq<char>) -> Option<Seq<char>> {
        self.unit_in(key, self.units.len())
    }

    /// With what the schema name `name` of a field of the struct `key` says.
    pub open spec fn with_name(self, key: Seq<char>, name: Seq<char>) -> AliasesView {
        let base = before(name, "#:"@);
        AliasesView {
            aliases: self.aliases + aliases_among(
                key,
                option_aliases(base),
                option_aliases(base).len(),
            ),
            units: match unit_annotation(name) {
                Some(unit) => self.units.push((field_key(base), unit)),
                None => self.units,
            },
            editor_owned: if base.contains('*') {
                self.editor_owned.push(field_key(base))
            } else {
                self.editor_owned
            },
            engine_managed: if base.contains('!') || begins(trim_start(base), "runtime "@) {
                self.engine_managed.push(field_key(base))
            } else {
                self.engine_managed
            },
        }
    }

    /// With what the first `n` fields of a struct say.
    pub open spec fn with_fields(
        self,
        key: Seq<char>,
        fields: Seq<Seq<u8>>,
        n: nat,
    ) -> AliasesView
        decreases n,
    {
        if n == 0 || n > fields.len() {
            self
        } else {
            let rest = self.with_fields(key, fields, (n - 1) as nat);
            match json_member_text(fields[n - 1], "name"@) {
                Some(name) => rest.with_name(key, name),
                None => rest,
            }
        }
    }

    /// With what one struct of a schema says, where it has an identifier and a
    /// list of fields.
    pub open spec fn with_struct(self, name: Seq<char>, structure: Seq<u8>) -> AliasesView {
        let guid = match json_member_text(structure, "guid"@) {
            Some(text) => guid_in(text),
            None => None,
        };
        let fields = match json_member(structure, "fields"@) {
            Some(list) => json_items(list),
            None => None,
        };
        match (guid, fields) {
            (Some(guid), Some(fields)) => self.with_fields(
                struct_key(guid, name),
                fields,
                fields.len(),
            ),
            _ => self,
        }
    }

    /// With what the first `n` structs of a schema say.
    pub open spec fn with_structs(
        self,
        structs: Seq<(Seq<char>, Seq<u8>)>,
        n: nat,
    ) -> AliasesView
        decreases n,
    {
        if n == 0 || n > structs.len() {
            self
        } else {
            self.with_structs(structs, (n - 1) as nat).with_struct(
                structs[n - 1].0,
                structs[n - 1].1,
            )
        }
    }

    /// With what one schema says.
    pub open spec fn with_schema(self, schema: Seq<u8>) -> AliasesView {
        match json_member(schema, "structs"@) {
            Some(value) => match json_members(value) {
                Some(structs) => self.with_structs(structs, structs.len()),
                None => self,
            },
            None => self,
        }
    }

    /// With what the first `n` of a list of schemas say.
    pub open spec fn with_schemas(self, schemas: Seq<Seq<u8>>, n: nat) -> AliasesView
        decreases n,
    {
        if n == 0 || n > schemas.len() {
            self
        } else {
            self.with_schemas(schemas, (n - 1) as nat).with_schema(schemas[n - 1])
        }
    }
}

/// The position of the first schema at or behind `from` that is no JSON document; the
/// number of schemas where all are.
pub open spec fn first_unreadable(schemas: Seq<Seq<u8>>, from: nat) -> nat
    decreases schemas.len() - from,
{
    if from >= schemas.len() {
        schemas.len()
    } else if json_fault(schemas[from as int]) is Some {
        from
    } else {
        first_unreadable(schemas, from + 1)
    }
}

impl SchemaFieldAliases {
    pub open spec fn view(&self) -> AliasesView {
        AliasesView {
            aliases: alias_views(self.aliases@),
            units: pair_views(self.units@),
            editor_owned: texts(self.editor_owned@),
            engine_managed: texts(self.engine_managed@),
        }
    }

    /// Nothing said of any field.
    pub fn new() -> (r: SchemaFieldAliases)
        ensures
            r@ == AliasesView::empty(),
    {
        let r: SchemaFieldAliases = SchemaFieldAliases {
            aliases: Vec::new(),
            units: Vec::new(),
            editor_owned: Vec::new(),
            engine_managed: Vec::new(),
        };
        assert(r@.aliases =~= Seq::empty());
        assert(r@.units =~= Seq::empty());
        assert(r@.editor_owned =~= Seq::empty());
        assert(r@.engine_managed =~= Seq::empty());
        r
    }

    /// Takes in the aliases among the names of one field.
    #[verifier::loop_isolation(false)]
    fn absorb_aliases(&mut self, key: &str, names: &Vec<String>)
        ensures
            final(self)@ == (AliasesView {
                aliases: old(self)@.aliases + aliases_among(
                    key@,
                    texts(names@),
                    texts(names@).len(),
                ),
                ..old(self)@
            }),
    {
        let ghost start = self@;
        let ghost all = texts(names@);
        let mut i: usize = 0;
        assert(start.aliases + aliases_among(key@, all, 0) =~= start.aliases);
        while i < names.len()
            invariant
                i <= names.len(),
                self@ == (AliasesView {
                    aliases: start.aliases + aliases_among(key@, all, i as nat),
                    ..start
                }),
            decreases names.len() - i,
        {
            let ghost done = start.aliases + aliases_among(key@, all, i as nat);
            let mut j: usize = 0;
            assert(done + aliases_of_one(key@, all, i as int, 0) =~= done);
            while j < names.len()
                invariant
                    i < names.len(),
                    j <= names.len(),
                    self@ == (AliasesView {
                        aliases: done + aliases_of_one(key@, all, i as int, j as nat),
                        ..start
                    }),
                decreases names.len() - j,
            {
                let ghost row = aliases_of_one(key@, all, i as int, j as nat);
                if !same(&names[j], &names[i]) {
                    let ghost before = self.aliases@;
                    let alias: FieldAlias = FieldAlias {
                        struct_key: copy(key),
                        left: clean_field_key(&names[i]),
                        right: clean_field_key(&names[j]),
                    };
                    self.aliases.push(alias);
                    let ghost triple = (key@, field_key(all[i as int]), field_key(all[j as int]));
                    assert(alias_views(self.aliases@) =~= alias_views(before).push(triple));
                    assert((done + row).push(triple) =~= done + row.push(triple));
                }
                j = j + 1;
            }
            i = i + 1;
            assert(self@.aliases =~= start.aliases + aliases_among(key@, all, i as nat));
        }
    }

    /// Takes in what the schema name of a field says.
    pub fn absorb_name(&mut self, key: &str, name: &str)
        ensures
            final(self)@ == old(self)@.with_name(key@, name@),
    {
        let base: String = text_before(name, "#:");
        let base_key: String = clean_field_key(&base);
        if contains_char(&base, '*') {
            let item: String = copy(&base_key);
            proof {
                lemma_texts_push(self.editor_owned@, item);
            }
            self.editor_owned.push(item);
        }
        if contains_char(&base, '!') || starts_with(&without_leading_white(&base), "runtime ") {
            let item: String = copy(&base_key);
            proof {
                lemma_texts_push(self.engine_managed@, item);
            }
            self.engine_managed.push(item);
        }
        if let Some(unit) = field_unit_annotation(name) {
            let ghost before = self.units@;
            self.units.push((base_key, unit));
            assert(pair_views(self.units@) =~= pair_views(before).push((field_key(base@), unit@)));
        }
        let names: Vec<String> = option_name_aliases(&base);
        self.absorb_aliases(key, &names);
    }

    fn absorb_struct(&mut self, struct_name: &str, structure: &Vec<u8>)
        ensures
            final(self)@ == old(self)@.with_struct(struct_name@, structure@),
    {
        let guid: [u8; 16] = match member_text_of(structure, "guid") {
            Some(text) => match parse_schema_guid(&text) {
                Some(guid) => guid,
                None => {
                    return;
                },
            },
            None => {
                return;
            },
        };
        let fields: Vec<Vec<u8>> = match member_of(structure, "fields") {
            Some(list) => match items_of_json(&list) {
                Some(fields) => fields,
                None => {
                    return;
                },
            },
            None => {
                return;
            },
        };
        let key: String = schema_struct_key(&guid, struct_name);
        let ghost start = self@;
        let ghost all = item_views(fields@);
        let mut i: usize = 0;
        while i < fields.len()
            invariant
                i <= fields.len(),
                all == item_views(fields@),
                self@ == start.with_fields(key@, all, i as nat),
            decreases fields.len() - i,
        {
            if let Some(name) = member_text_of(&fields[i], "name") {
                self.absorb_name(&key, &name);
            }
            i = i + 1;
        }
    }

    /// Takes in what a schema says.
    pub fn absorb(&mut self, schema: &Vec<u8>)
        ensures
            final(self)@ == old(self)@.with_schema(schema@),
    {
        let structs: Vec<(String, Vec<u8>)> = match member_of(schema, "structs") {
            Some(value) => match members_of_json(&value) {
                Some(structs) => structs,
                None => {
                    return;
                },
            },
            None => {
                return;
            },
        };
        let ghost start = self@;
        let ghost all = member_views(structs@);
        let mut i: usize = 0;
        while i < structs.len()
            invariant
                i <= structs.len(),
                all == member_views(structs@),
                self@ == start.with_structs(all, i as nat),
            decreases structs.len() - i,
        {
            assert(all[i as int] == (structs@[i as int].0@, structs@[i as int].1@));
            self.absorb_struct(&structs[i].0, &structs[i].1);
            i = i + 1;
        }
    }

    /// What a group's schema and those of its ancestors say, nearest first.
    ///
    /// `path` is where the group's own schema was read; it stands in the message. The
    /// line of ancestors ends before the first that is no JSON document.
    pub fn load(path: &str, schema: &Vec<u8>, ancestors: &Vec<Vec<u8>>) -> (r: Result<
        SchemaFieldAliases,
        String,
    >)
        ensures
            match json_fault(schema@) {
                Some(error) => r matches Err(message) && message@ == "Could not parse "@ + path@
                    + ": "@ + error,
                None => r matches Ok(aliases) && aliases@ == AliasesView::empty().with_schema(
                    schema@,
                ).with_schemas(
                    item_views(ancestors@),
                    first_unreadable(item_views(ancestors@), 0),
                ),
            },
    {
        if let Some(error) = fault_in_json(schema) {
            return Err(concat4("Could not parse ", path, ": ", &error));
        }
        let mut result: SchemaFieldAliases = SchemaFieldAliases::new();
        result.absorb(schema);
        let ghost start = result@;
        let ghost all = item_views(ancestors@);
        let mut i: usize = 0;
        while i < ancestors.len()
            invariant
                i <= ancestors.len(),
                all == item_views(ancestors@),
                first_unreadable(all, 0) == first_unreadable(all, i as nat),
                result@ == start.with_schemas(all, i as nat),
                start == AliasesView::empty().with_schema(schema@),
                json_fault(schema@) is None,
            decreases ancestors.len() - i,
        {
            assert(all[i as int] == ancestors@[i as int]@);
            if fault_in_json(&ancestors[i]).is_some() {
                return Ok(result);
            }
            result.absorb(&ancestors[i]);
            i = i + 1;
        }
        Ok(result)
    }

    /// Whether, in the struct, the field `left` is also known as `right`.
    pub fn matches(&self, guid: &[u8; 16], struct_name: &str, left: &str, right: &str) -> (r: bool)
        ensures
            r == self@.matches(guid@, struct_name@, left@, right@),
    {
        let key: String = schema_struct_key(guid, struct_name);
        let ghost triple = (key@, left@, right@);
        let mut i: usize = 0;
        while i < self.aliases.len()
            invariant
                i <= self.aliases.len(),
                triple == (struct_key(guid@, struct_name@), left@, right@),
                key@ == struct_key(guid@, struct_name@),
                forall|j: int| 0 <= j < i ==> self@.aliases[j] != triple,
            decreases self.aliases.len() - i,
        {
            let alias: &FieldAlias = &self.aliases[i];
            assert(self@.aliases[i as int] == (alias.struct_key@, alias.left@, alias.right@));
            if same(&alias.struct_key, &key) && same(&alias.left, left) && same(
                &alias.right,
                right,
            ) {
                return true;
            }
            i = i + 1;
        }
        false
    }

    /// The unit of the field `key`.
    pub fn unit_of(&self, key: &str) -> (r: Option<&str>)
        ensures
            match r {
                Some(unit) => self@.unit_of(key@) == Some(unit@),
                None => self@.unit_of(key@) is None,
            },
    {
        let mut i: usize = self.units.len();
        while i > 0
            invariant
                i <= self.units.len(),
                self@.unit_of(key@) == self@.unit_in(key@, i as nat),
            decreases i,
        {
            i = i - 1;
            assert(self@.units[i as int] == (self.units@[i as int].0@, self.units@[i as int].1@));
            if same(&self.units[i].0, key) {
                return Some(self.units[i].1.as_str());
            }
        }
        None
    }

    pub fn is_editor_owned(&self, key: &str) -> (r: bool)
        ensures
            r == self@.editor_owned.contains(key@),
    {
        contains_text(&self.editor_owned, key)
    }

    pub fn is_engine_managed(&self, key: &str) -> (r: bool)
        ensures
            r == self@.engine_managed.contains(key@),
    {
        contains_text(&self.engine_managed, key)
    }
}

// ---------------------------------------------------------------------------
// Ancestors
// ---------------------------------------------------------------------------
/// How many ancestors are looked for before the search is given up.
pub const ANCESTOR_LIMIT: u32 = 32;

/// The name of the schema file of the group that `schema` names as its parent,
/// where the tag index `meta` knows it.
pub open spec fn parent_schema(meta: Seq<u8>, schema: Seq<u8>) -> Option<Seq<char>> {
    match (json_member(meta, "tag_index"@), json_member_text(schema, "parent_tag"@)) {
        (Some(index), Some(parent)) => json_member_text(index, parent),
        _ => None,
    }
}

/// The next ancestor to read, given the schema that was read last and how many
/// ancestors have been read before: the name of its file, or `None` where the
/// search ends.
///
/// Whoever reads the files calls this for the group's own schema and then for
/// each ancestor in turn. Anything that cannot be read or resolved ends the
/// search.
pub fn next_ancestor(meta: &Vec<u8>, schema: &Vec<u8>, found: u32) -> (r: Option<String>)
    ensures
        text_option(r) == if found < ANCESTOR_LIMIT && json_fault(meta@) is None && json_fault(
            schema@,
        ) is None {
            parent_schema(meta@, schema@)
        } else {
            None
        },
{
    if found >= ANCESTOR_LIMIT || fault_in_json(meta).is_some() || fault_in_json(
        schema,
    ).is_some() {
        return None;
    }
    match (member_of(meta, "tag_index"), member_text_of(schema, "parent_tag")) {
        (Some(index), Some(parent)) => member_text_of(&index, &parent),
        _ => None,
    }
}

// ---------------------------------------------------------------------------
// Laws
// ---------------------------------------------------------------------------
/// A `{former name}` marker relates a field's two names both ways, whatever was
/// known before: each is an alias of the other.
pub proof fn a_former_name_works_both_ways(
    known: AliasesView,
    guid: Seq<u8>,
    struct_name: Seq<char>,
    name: Seq<char>,
    i: int,
    j: int,
)
    requires
        0 <= i < option_aliases(before(name, "#:"@)).len(),
        0 <= j < option_aliases(before(name, "#:"@)).len(),
        option_aliases(before(name, "#:"@))[i] != option_aliases(before(name, "#:"@))[j],
    ensures
        ({
            let names = option_aliases(before(name, "#:"@));
            let after = known.with_name(struct_key(guid, struct_name), name);
            &&& after.matches(guid, struct_name, field_key(names[i]), field_key(names[j]))
            &&& after.matches(guid, struct_name, field_key(names[j]), field_key(names[i]))
        }),
{
    let names = option_aliases(before(name, "#:"@));
    let key = struct_key(guid, struct_name);
    let after = known.with_name(key, name);
    lemma_alias_listed(key, names, names.len(), i, j);
    lemma_alias_listed(key, names, names.len(), j, i);
    let list = aliases_among(key, names, names.len());
    let a = choose|k: int|
        0 <= k < list.len() && list[k] == (key, field_key(names[i]), field_key(names[j]));
    let b = choose|k: int|
        0 <= k < list.len() && list[k] == (key, field_key(names[j]), field_key(names[i]));
    assert(after.aliases[known.aliases.len() + a] == list[a]);
    assert(after.aliases[known.aliases.len() + b] == list[b]);
}

proof fn lemma_alias_in_row(key: Seq<char>, names: Seq<Seq<char>>, i: int, n: nat, j: int)
    requires
        0 <= j < n <= names.len(),
        names[i] != names[j],
    ensures
        aliases_of_one(key, names, i, n).contains((key, field_key(names[i]), field_key(names[j]))),
    decreases n,
{
    let item = (key, field_key(names[i]), field_key(names[j]));
    let rest = aliases_of_one(key, names, i, (n - 1) as nat);
    let all = aliases_of_one(key, names, i, n);
    if j == n - 1 {
        assert(all[rest.len() as int] == item);
    } else {
        lemma_alias_in_row(key, names, i, (n - 1) as nat, j);
        let k = choose|k: int| 0 <= k < rest.len() && rest[k] == item;
        assert(all[k] == item);
    }
}

proof fn lemma_alias_listed(key: Seq<char>, names: Seq<Seq<char>>, n: nat, i: int, j: int)
    requires
        0 <= i < n <= names.len(),
        0 <= j < names.len(),
        names[i] != names[j],
    ensures
        aliases_among(key, names, n).contains((key, field_key(names[i]), field_key(names[j]))),
    decreases n,
{
    let item = (key, field_key(names[i]), field_key(names[j]));
    let rest = aliases_among(key, names, (n - 1) as nat);
    let row = aliases_of_one(key, names, n - 1, names.len());
    let all = aliases_among(key, names, n);
    if i == n - 1 {
        lemma_alias_in_row(key, names, i, names.len(), j);
        let k = choose|k: int| 0 <= k < row.len() && row[k] == item;
        assert(all[rest.len() + k] == item);
    } else {
        lemma_alias_listed(key, names, (n - 1) as nat, i, j);
        let k = choose|k: int| 0 <= k < rest.len() && rest[k] == item;
        assert(all[k] == item);
    }
}

}
