//! The catalog of reviewed mappings: which names, options, payloads, structs and
//! groups of one game stand for which of another, and which losses are accepted.
use crate::convert::groups::{GameTagIndex, GroupsView};
use crate::fields::reference_view;
use crate::games::{conversion_profiles, profile_names};
use crate::guid::{guid_in, guid_option, parse_schema_guid, same_guids};
use crate::keys::{
    clean_field_key, covering_is_a_preorder, field_key, field_names_match, is_ancestor_path,
    normal_option, normalize_option_name, option_names_match, path_covers,
};
use crate::text::{
    before, blank, concat2, concat5, contains_text, copy, decimal, decimal_text, eq_ignoring_case,
    is_blank, last_piece, lower, lowered, pieces, same, same_ignoring_case, split_text,
    text_after_last, text_before, texts, trim_text, trimmed,
};
use vstd::prelude::*;

verus! {

/// A tag class that goes by another name in another game.
#[derive(Debug, PartialEq, Eq)]
pub struct GroupAliasRule {
    pub source: String,
    pub target: String,
    pub source_games: Vec<String>,
    pub target_games: Vec<String>,
    pub reason: String,
}

/// A field that goes by another name in another game.
#[derive(Debug, PartialEq, Eq)]
pub struct FieldAliasRule {
    pub group: String,
    pub source_games: Vec<String>,
    pub target_games: Vec<String>,
    pub source_struct_guid: Option<String>,
    pub target_struct_guid: Option<String>,
    pub source: String,
    pub target: String,
}

/// Two `data` definitions that hold the same kind of payload.
#[derive(Debug, PartialEq, Eq)]
pub struct PayloadAliasRule {
    pub group: String,
    pub source_games: Vec<String>,
    pub target_games: Vec<String>,
    pub source_definition: String,
    pub target_definition: String,
}

/// A struct that sits elsewhere in another game.
#[derive(Debug, PartialEq, Eq)]
pub struct StructMappingRule {
    pub group: String,
    pub source_games: Vec<String>,
    pub target_games: Vec<String>,
    pub source_path: String,
    pub target_path: String,
    pub bidirectional: bool,
}

/// A group that does not convert between some games.
#[derive(Debug, PartialEq, Eq)]
pub struct IncompatiblePairRule {
    pub group: String,
    pub source_games: Vec<String>,
    pub target_games: Vec<String>,
    pub reason: String,
}

/// A schema that is not good enough to convert with.
#[derive(Debug, PartialEq, Eq)]
pub struct UnusableSchemaRule {
    pub group: String,
    pub games: Vec<String>,
    pub reason: String,
}

/// A source field whose loss is accepted, in one direction.
#[derive(Debug, PartialEq, Eq)]
pub struct ReferenceDropRule {
    pub group: String,
    pub source_games: Vec<String>,
    pub target_games: Vec<String>,
    pub source_path: String,
    pub reason: String,
}

/// An option that goes by another name in another game.
#[derive(Debug, PartialEq, Eq)]
pub struct OptionAliasRule {
    pub group: String,
    pub field: String,
    pub source_games: Vec<String>,
    pub target_games: Vec<String>,
    pub source: String,
    pub target: String,
}

/// The reviewed mappings.
#[derive(Debug, PartialEq, Eq)]
pub struct ConversionMappingCatalog {
    pub version: u32,
    pub coverage: String,
    pub covered_groups: Vec<String>,
    pub struct_mappings: Vec<StructMappingRule>,
    pub incompatible_pairs: Vec<IncompatiblePairRule>,
    pub unusable_schemas: Vec<UnusableSchemaRule>,
    pub reference_drops: Vec<ReferenceDropRule>,
    pub accepted_field_drops: Vec<ReferenceDropRule>,
    pub accepted_payload_drops: Vec<ReferenceDropRule>,
    pub field_aliases: Vec<FieldAliasRule>,
    pub option_aliases: Vec<OptionAliasRule>,
    pub group_aliases: Vec<GroupAliasRule>,
    pub payload_aliases: Vec<PayloadAliasRule>,
}

// ---------------------------------------------------------------------------
// Scopes
// ---------------------------------------------------------------------------
/// Whether a list of games covers `game`; an empty list covers every game.
pub open spec fn in_scope(games: Seq<Seq<char>>, game: Seq<char>) -> bool {
    games.len() == 0 || games.contains(game)
}

pub fn game_scope_matches(games: &Vec<String>, game: &str) -> (r: bool)
    ensures
        r == in_scope(texts(games@), game@),
{
    games.len() == 0 || contains_text(games, game)
}

/// Whether two names are the same option name.
pub open spec fn names_equal(left: Seq<char>, right: Seq<char>) -> bool {
    normal_option(left) == normal_option(right)
}

pub fn normalized_names_equal(left: &str, right: &str) -> (r: bool)
    ensures
        r == names_equal(left@, right@),
{
    same(&normalize_option_name(left), &normalize_option_name(right))
}

/// Whether a rule that names `rule_source` in `source_games` and `rule_target` in
/// `target_games` relates the two given names, read forwards or backwards.
pub open spec fn rule_relates(
    source_games: Seq<Seq<char>>,
    target_games: Seq<Seq<char>>,
    rule_source: Seq<char>,
    rule_target: Seq<char>,
    source_game: Seq<char>,
    target_game: Seq<char>,
    source_name: Seq<char>,
    target_name: Seq<char>,
) -> bool {
    ||| in_scope(source_games, source_game) && in_scope(target_games, target_game) && names_equal(
        rule_source,
        source_name,
    ) && names_equal(rule_target, target_name)
    ||| in_scope(source_games, target_game) && in_scope(target_games, source_game) && names_equal(
        rule_source,
        target_name,
    ) && names_equal(rule_target, source_name)
}

pub fn mapping_rule_direction_matches(
    source_games: &Vec<String>,
    target_games: &Vec<String>,
    source_game: &str,
    target_game: &str,
    rule_source: &str,
    rule_target: &str,
    source_name: &str,
    target_name: &str,
) -> (r: bool)
    ensures
        r == rule_relates(
            texts(source_games@),
            texts(target_games@),
            rule_source@,
            rule_target@,
            source_game@,
            target_game@,
            source_name@,
            target_name@,
        ),
{
    let forward = game_scope_matches(source_games, source_game) && game_scope_matches(
        target_games,
        target_game,
    ) && normalized_names_equal(rule_source, source_name) && normalized_names_equal(
        rule_target,
        target_name,
    );
    let reverse = game_scope_matches(source_games, target_game) && game_scope_matches(
        target_games,
        source_game,
    ) && normalized_names_equal(rule_source, target_name) && normalized_names_equal(
        rule_target,
        source_name,
    );
    forward || reverse
}

/// The identifier that an optional text writes.
pub open spec fn optional_guid(text: Option<String>) -> Option<Seq<u8>> {
    match text {
        Some(s) => guid_in(s@),
        None => None,
    }
}

/// Whether a rule's identifier, where it gives one, is `guid`.
pub open spec fn guid_admits(rule: Option<Seq<u8>>, guid: Seq<u8>) -> bool {
    match rule {
        Some(g) => g == guid,
        None => true,
    }
}

/// Whether a rule's identifiers admit the two structs, read forwards or
/// backwards.
pub open spec fn guids_relate(
    source_rule: Option<Seq<u8>>,
    target_rule: Option<Seq<u8>>,
    source_guid: Seq<u8>,
    target_guid: Seq<u8>,
    source_game: Seq<char>,
    target_game: Seq<char>,
    source_games: Seq<Seq<char>>,
    target_games: Seq<Seq<char>>,
) -> bool {
    ||| in_scope(source_games, source_game) && in_scope(target_games, target_game) && guid_admits(
        source_rule,
        source_guid,
    ) && guid_admits(target_rule, target_guid)
    ||| in_scope(source_games, target_game) && in_scope(target_games, source_game) && guid_admits(
        source_rule,
        target_guid,
    ) && guid_admits(target_rule, source_guid)
}

fn optional_guid_of(text: &Option<String>) -> (r: Option<[u8; 16]>)
    ensures
        guid_option(r) == optional_guid(*text),
{
    match text {
        Some(s) => parse_schema_guid(s),
        None => None,
    }
}

fn guid_is_admitted(rule: &Option<[u8; 16]>, guid: &[u8; 16]) -> (r: bool)
    ensures
        r == guid_admits(guid_option(*rule), guid@),
{
    match rule {
        Some(g) => same_guids(g, guid),
        None => true,
    }
}

pub fn guid_rule_matches(
    source_rule: &Option<String>,
    target_rule: &Option<String>,
    source_guid: &[u8; 16],
    target_guid: &[u8; 16],
    source_game: &str,
    target_game: &str,
    source_games: &Vec<String>,
    target_games: &Vec<String>,
) -> (r: bool)
    ensures
        r == guids_relate(
            optional_guid(*source_rule),
            optional_guid(*target_rule),
            source_guid@,
            target_guid@,
            source_game@,
            target_game@,
            texts(source_games@),
            texts(target_games@),
        ),
{
    let source_rule: Option<[u8; 16]> = optional_guid_of(source_rule);
    let target_rule: Option<[u8; 16]> = optional_guid_of(target_rule);
    let forward = game_scope_matches(source_games, source_game) && game_scope_matches(
        target_games,
        target_game,
    ) && guid_is_admitted(&source_rule, source_guid) && guid_is_admitted(&target_rule, target_guid);
    let reverse = game_scope_matches(source_games, target_game) && game_scope_matches(
        target_games,
        source_game,
    ) && guid_is_admitted(&source_rule, target_guid) && guid_is_admitted(&target_rule, source_guid);
    forward || reverse
}

// ---------------------------------------------------------------------------
// What makes a catalog valid
// ---------------------------------------------------------------------------
/// A message about rule `index` of a section.
pub open spec fn about_rule(section: Seq<char>, index: nat, what: Seq<char>) -> Seq<char> {
    "conversion_mappings.json "@ + section + "["@ + decimal(index) + ("]"@ + what)
}

fn message_about_rule(section: &str, index: usize, what: &str) -> (r: String)
    ensures
        r@ == about_rule(section@, index as nat, what@),
{
    let number: String = decimal_text(index as u128);
    let tail: String = concat2("]", what);
    concat5("conversion_mappings.json ", section, "[", &number, &tail)
}

/// The first of `games`, from `from` on, that is no profile.
pub open spec fn first_unknown_game(games: Seq<Seq<char>>, from: nat) -> Option<Seq<char>>
    decreases games.len() - from,
{
    if from >= games.len() {
        None
    } else if !profile_names().contains(games[from as int]) {
        Some(games[from as int])
    } else {
        first_unknown_game(games, from + 1)
    }
}

fn unknown_game_in(games: &Vec<String>) -> (r: Option<&String>)
    ensures
        match r {
            Some(game) => first_unknown_game(texts(games@), 0) == Some(game@),
            None => first_unknown_game(texts(games@), 0) is None,
        },
{
    let profiles: Vec<String> = conversion_profiles();
    let mut i: usize = 0;
    while i < games.len()
        invariant
            i <= games.len(),
            texts(profiles@) == profile_names(),
            first_unknown_game(texts(games@), 0) == first_unknown_game(texts(games@), i as nat),
        decreases games.len() - i,
    {
        if !contains_text(&profiles, &games[i]) {
            return Some(&games[i]);
        }
        i = i + 1;
    }
    None
}

/// What is wrong with the games that a rule names.
pub open spec fn games_fault(
    section: Seq<char>,
    index: nat,
    source_games: Seq<Seq<char>>,
    target_games: Seq<Seq<char>>,
) -> Option<Seq<char>> {
    match (first_unknown_game(source_games, 0), first_unknown_game(target_games, 0)) {
        (Some(game), _) => Some(about_rule(section, index, " uses unsupported game "@ + game)),
        (None, Some(game)) => Some(about_rule(section, index, " uses unsupported game "@ + game)),
        (None, None) => None,
    }
}

fn fault_in_games(
    section: &str,
    index: usize,
    source_games: &Vec<String>,
    target_games: &Vec<String>,
) -> (r: Result<(), String>)
    ensures
        fault_is(r, games_fault(section@, index as nat, texts(source_games@), texts(target_games@))),
{
    if let Some(game) = unknown_game_in(source_games) {
        return Err(message_about_rule(section, index, &concat2(" uses unsupported game ", game)));
    }
    if let Some(game) = unknown_game_in(target_games) {
        return Err(message_about_rule(section, index, &concat2(" uses unsupported game ", game)));
    }
    Ok(())
}

/// Whether a check succeeded where nothing is wrong, and told the fault where
/// something is.
pub open spec fn fault_is(r: Result<(), String>, fault: Option<Seq<char>>) -> bool {
    match fault {
        Some(message) => r matches Err(m) && m@ == message,
        None => r is Ok,
    }
}

/// What is wrong with the scope of a rule that must name its games.
pub open spec fn scope_fault(
    section: Seq<char>,
    index: nat,
    group: Seq<char>,
    source_games: Seq<Seq<char>>,
    target_games: Seq<Seq<char>>,
) -> Option<Seq<char>> {
    if blank(group) || source_games.len() == 0 || target_games.len() == 0 {
        Some(about_rule(section, index, " has an empty group or game scope"@))
    } else {
        games_fault(section, index, source_games, target_games)
    }
}

pub fn validate_game_scopes(
    section: &str,
    index: usize,
    group: &str,
    source_games: &Vec<String>,
    target_games: &Vec<String>,
) -> (r: Result<(), String>)
    ensures
        fault_is(
            r,
            scope_fault(
                section@,
                index as nat,
                group@,
                texts(source_games@),
                texts(target_games@),
            ),
        ),
{
    if is_blank(group) || source_games.len() == 0 || target_games.len() == 0 {
        return Err(message_about_rule(section, index, " has an empty group or game scope"));
    }
    fault_in_games(section, index, source_games, target_games)
}

/// What is wrong with a rule that maps one name to another.
pub open spec fn mapping_fault(
    section: Seq<char>,
    index: nat,
    group: Seq<char>,
    source_games: Seq<Seq<char>>,
    target_games: Seq<Seq<char>>,
    source: Seq<char>,
    target: Seq<char>,
) -> Option<Seq<char>> {
    if blank(group) || normal_option(source).len() == 0 || normal_option(target).len() == 0 {
        Some(about_rule(section, index, " has an empty group or name"@))
    } else {
        games_fault(section, index, source_games, target_games)
    }
}

pub fn validate_mapping_rule_scope(
    section: &str,
    index: usize,
    group: &str,
    source_games: &Vec<String>,
    target_games: &Vec<String>,
    source: &str,
    target: &str,
) -> (r: Result<(), String>)
    ensures
        fault_is(
            r,
            mapping_fault(
                section@,
                index as nat,
                group@,
                texts(source_games@),
                texts(target_games@),
                source@,
                target@,
            ),
        ),
{
    if is_blank(group) || normalize_option_name(source).as_str().is_empty()
        || normalize_option_name(target).as_str().is_empty() {
        return Err(message_about_rule(section, index, " has an empty group or name"));
    }
    fault_in_games(section, index, source_games, target_games)
}

/// What is wrong with entry `index` of the covered groups.
pub open spec fn covered_fault(groups: Seq<Seq<char>>, index: int) -> Option<Seq<char>> {
    let group = lowered(trimmed(groups[index]));
    if group.len() == 0 {
        Some(about_rule("covered_groups"@, index as nat, " is empty"@))
    } else if exists|j: int|
        0 <= j < index && lowered(trimmed(#[trigger] groups[j])) == group {
        Some(about_rule("covered_groups"@, index as nat, " duplicates "@ + groups[index]))
    } else {
        None
    }
}

fn check_covered(groups: &Vec<String>, index: usize) -> (r: Result<(), String>)
    requires
        index < groups.len(),
    ensures
        fault_is(r, covered_fault(texts(groups@), index as int)),
{
    let group: String = lower(&trim_text(&groups[index]));
    let ghost all = texts(groups@);
    if group.as_str().is_empty() {
        return Err(message_about_rule("covered_groups", index, " is empty"));
    }
    let mut j: usize = 0;
    while j < index
        invariant
            j <= index < groups.len(),
            all == texts(groups@),
            group@ == lowered(trimmed(all[index as int])),
            group@.len() > 0,
            forall|k: int| 0 <= k < j ==> lowered(trimmed(#[trigger] all[k])) != group@,
        decreases index - j,
    {
        if same(&lower(&trim_text(&groups[j])), &group) {
            assert(lowered(trimmed(all[j as int])) == group@);
            return Err(
                message_about_rule(
                    "covered_groups",
                    index,
                    &concat2(" duplicates ", &groups[index]),
                ),
            );
        }
        j = j + 1;
    }
    Ok(())
}

/// Whether an optional text is no identifier.
pub open spec fn bad_guid(text: Option<String>) -> bool {
    text matches Some(s) && guid_in(s@) is None
}

fn is_bad_guid(text: &Option<String>) -> (r: bool)
    ensures
        r == bad_guid(*text),
{
    match text {
        Some(s) => parse_schema_guid(s).is_none(),
        None => false,
    }
}

/// What is wrong with a field alias.
pub open spec fn field_alias_fault(rule: FieldAliasRule, index: int) -> Option<Seq<char>> {
    match mapping_fault(
        "field_aliases"@,
        index as nat,
        rule.group@,
        texts(rule.source_games@),
        texts(rule.target_games@),
        rule.source@,
        rule.target@,
    ) {
        Some(fault) => Some(fault),
        None => if bad_guid(rule.source_struct_guid) {
            Some(about_rule("field_aliases"@, index as nat, " has an invalid source_struct_guid"@))
        } else if bad_guid(rule.target_struct_guid) {
            Some(about_rule("field_aliases"@, index as nat, " has an invalid target_struct_guid"@))
        } else {
            None
        },
    }
}

fn check_field_alias(rule: &FieldAliasRule, index: usize) -> (r: Result<(), String>)
    ensures
        fault_is(r, field_alias_fault(*rule, index as int)),
{
    match validate_mapping_rule_scope(
        "field_aliases",
        index,
        &rule.group,
        &rule.source_games,
        &rule.target_games,
        &rule.source,
        &rule.target,
    ) {
        Err(message) => {
            return Err(message);
        },
        Ok(()) => {},
    }
    if is_bad_guid(&rule.source_struct_guid) {
        return Err(message_about_rule("field_aliases", index, " has an invalid source_struct_guid"));
    }
    if is_bad_guid(&rule.target_struct_guid) {
        return Err(message_about_rule("field_aliases", index, " has an invalid target_struct_guid"));
    }
    Ok(())
}

/// What is wrong with a group alias.
pub open spec fn group_alias_fault(rule: GroupAliasRule, index: int) -> Option<Seq<char>> {
    match mapping_fault(
        "group_aliases"@,
        index as nat,
        rule.source@,
        texts(rule.source_games@),
        texts(rule.target_games@),
        rule.source@,
        rule.target@,
    ) {
        Some(fault) => Some(fault),
        None => if rule.source_games@.len() == 0 || rule.target_games@.len() == 0 {
            Some(
                about_rule(
                    "group_aliases"@,
                    index as nat,
                    " must name both source_games and target_games"@,
                ),
            )
        } else if names_equal(rule.source@, rule.target@) {
            Some(about_rule("group_aliases"@, index as nat, " renames a group to itself"@))
        } else if blank(rule.reason@) {
            Some(about_rule("group_aliases"@, index as nat, " needs a reason"@))
        } else {
            None
        },
    }
}

fn check_group_alias(rule: &GroupAliasRule, index: usize) -> (r: Result<(), String>)
    ensures
        fault_is(r, group_alias_fault(*rule, index as int)),
{
    match validate_mapping_rule_scope(
        "group_aliases",
        index,
        &rule.source,
        &rule.source_games,
        &rule.target_games,
        &rule.source,
        &rule.target,
    ) {
        Err(message) => {
            return Err(message);
        },
        Ok(()) => {},
    }
    if rule.source_games.len() == 0 || rule.target_games.len() == 0 {
        return Err(
            message_about_rule(
                "group_aliases",
                index,
                " must name both source_games and target_games",
            ),
        );
    }
    if normalized_names_equal(&rule.source, &rule.target) {
        return Err(message_about_rule("group_aliases", index, " renames a group to itself"));
    }
    if is_blank(&rule.reason) {
        return Err(message_about_rule("group_aliases", index, " needs a reason"));
    }
    Ok(())
}

/// Whether a path that is not the root has an empty node.
pub open spec fn bad_path(path: Seq<char>) -> bool {
    path.len() > 0 && pieces(path, '/').contains(Seq::<char>::empty())
}

fn is_bad_path(path: &str) -> (r: bool)
    ensures
        r == bad_path(path@),
{
    let empty: String = String::new();
    !path.is_empty() && contains_text(&split_text(path, '/'), &empty)
}

/// What is wrong with a struct mapping.
pub open spec fn struct_mapping_fault(rule: StructMappingRule, index: int) -> Option<Seq<char>> {
    match scope_fault(
        "struct_mappings"@,
        index as nat,
        rule.group@,
        texts(rule.source_games@),
        texts(rule.target_games@),
    ) {
        Some(fault) => Some(fault),
        None => if bad_path(rule.source_path@) || bad_path(rule.target_path@) {
            Some(about_rule("struct_mappings"@, index as nat, " has an invalid path"@))
        } else {
            None
        },
    }
}

fn check_struct_mapping(rule: &StructMappingRule, index: usize) -> (r: Result<(), String>)
    ensures
        fault_is(r, struct_mapping_fault(*rule, index as int)),
{
    match validate_game_scopes(
        "struct_mappings",
        index,
        &rule.group,
        &rule.source_games,
        &rule.target_games,
    ) {
        Err(message) => {
            return Err(message);
        },
        Ok(()) => {},
    }
    if is_bad_path(&rule.source_path) || is_bad_path(&rule.target_path) {
        return Err(message_about_rule("struct_mappings", index, " has an invalid path"));
    }
    Ok(())
}

/// What is wrong with an incompatible pair.
pub open spec fn incompatible_pair_fault(
    rule: IncompatiblePairRule,
    index: int,
) -> Option<Seq<char>> {
    match scope_fault(
        "incompatible_pairs"@,
        index as nat,
        rule.group@,
        texts(rule.source_games@),
        texts(rule.target_games@),
    ) {
        Some(fault) => Some(fault),
        None => if blank(rule.reason@) {
            Some(about_rule("incompatible_pairs"@, index as nat, " has no reason"@))
        } else {
            None
        },
    }
}

fn check_incompatible_pair(rule: &IncompatiblePairRule, index: usize) -> (r: Result<(), String>)
    ensures
        fault_is(r, incompatible_pair_fault(*rule, index as int)),
{
    match validate_game_scopes(
        "incompatible_pairs",
        index,
        &rule.group,
        &rule.source_games,
        &rule.target_games,
    ) {
        Err(message) => {
            return Err(message);
        },
        Ok(()) => {},
    }
    if is_blank(&rule.reason) {
        return Err(message_about_rule("incompatible_pairs", index, " has no reason"));
    }
    Ok(())
}

/// What is wrong with an unusable schema.
pub open spec fn unusable_schema_fault(rule: UnusableSchemaRule, index: int) -> Option<Seq<char>> {
    match scope_fault(
        "unusable_schemas"@,
        index as nat,
        rule.group@,
        texts(rule.games@),
        texts(rule.games@),
    ) {
        Some(fault) => Some(fault),
        None => if blank(rule.reason@) {
            Some(about_rule("unusable_schemas"@, index as nat, " has no reason"@))
        } else {
            None
        },
    }
}

fn check_unusable_schema(rule: &UnusableSchemaRule, index: usize) -> (r: Result<(), String>)
    ensures
        fault_is(r, unusable_schema_fault(*rule, index as int)),
{
    match validate_game_scopes(
        "unusable_schemas",
        index,
        &rule.group,
        &rule.games,
        &rule.games,
    ) {
        Err(message) => {
            return Err(message);
        },
        Ok(()) => {},
    }
    if is_blank(&rule.reason) {
        return Err(message_about_rule("unusable_schemas", index, " has no reason"));
    }
    Ok(())
}

/// What is wrong with an accepted loss.
pub open spec fn drop_fault(
    section: Seq<char>,
    rule: ReferenceDropRule,
    index: int,
) -> Option<Seq<char>> {
    match scope_fault(
        section,
        index as nat,
        rule.group@,
        texts(rule.source_games@),
        texts(rule.target_games@),
    ) {
        Some(fault) => Some(fault),
        None => if field_key(rule.source_path@).len() == 0 || blank(rule.reason@) {
            Some(about_rule(section, index as nat, " has an empty path or reason"@))
        } else {
            None
        },
    }
}

fn check_drop(section: &str, rule: &ReferenceDropRule, index: usize) -> (r: Result<(), String>)
    ensures
        fault_is(r, drop_fault(section@, *rule, index as int)),
{
    match validate_game_scopes(
        section,
        index,
        &rule.group,
        &rule.source_games,
        &rule.target_games,
    ) {
        Err(message) => {
            return Err(message);
        },
        Ok(()) => {},
    }
    if clean_field_key(&rule.source_path).as_str().is_empty() || is_blank(&rule.reason) {
        return Err(message_about_rule(section, index, " has an empty path or reason"));
    }
    Ok(())
}

/// What is wrong with an option alias.
pub open spec fn option_alias_fault(rule: OptionAliasRule, index: int) -> Option<Seq<char>> {
    match mapping_fault(
        "option_aliases"@,
        index as nat,
        rule.group@,
        texts(rule.source_games@),
        texts(rule.target_games@),
        rule.source@,
        rule.target@,
    ) {
        Some(fault) => Some(fault),
        None => if normal_option(rule.field@).len() == 0 {
            Some(about_rule("option_aliases"@, index as nat, " has an empty field"@))
        } else {
            None
        },
    }
}

fn check_option_alias(rule: &OptionAliasRule, index: usize) -> (r: Result<(), String>)
    ensures
        fault_is(r, option_alias_fault(*rule, index as int)),
{
    match validate_mapping_rule_scope(
        "option_aliases",
        index,
        &rule.group,
        &rule.source_games,
        &rule.target_games,
        &rule.source,
        &rule.target,
    ) {
        Err(message) => {
            return Err(message);
        },
        Ok(()) => {},
    }
    if normalize_option_name(&rule.field).as_str().is_empty() {
        return Err(message_about_rule("option_aliases", index, " has an empty field"));
    }
    Ok(())
}


/// The first fault among the covered groups, from `from` on.
pub open spec fn first_covered_fault(rules: Seq<Seq<char>>, from: nat) -> Option<Seq<char>>
    decreases rules.len() - from,
{
    if from >= rules.len() {
        None
    } else {
        match covered_fault(rules, from as int) {
            Some(fault) => Some(fault),
            None => first_covered_fault(rules, from + 1),
        }
    }
}

fn check_covered_rules(rules: &Vec<String>) -> (r: Result<(), String>)
    ensures
        fault_is(r, first_covered_fault(texts(rules@), 0)),
{
    let mut i: usize = 0;
    while i < rules.len()
        invariant
            i <= rules.len(),
            first_covered_fault(texts(rules@), 0) == first_covered_fault(texts(rules@), i as nat),
        decreases rules.len() - i,
    {
        match check_covered(rules, i) {
            Err(message) => {
                return Err(message);
            },
            Ok(()) => {},
        }
        i = i + 1;
    }
    Ok(())
}

/// The first fault among the field aliases, from `from` on.
pub open spec fn first_field_alias_fault(rules: Seq<FieldAliasRule>, from: nat) -> Option<Seq<char>>
    decreases rules.len() - from,
{
    if from >= rules.len() {
        None
    } else {
        match field_alias_fault(rules[from as int], from as int) {
            Some(fault) => Some(fault),
            None => first_field_alias_fault(rules, from + 1),
        }
    }
}

fn check_field_alias_rules(rules: &Vec<FieldAliasRule>) -> (r: Result<(), String>)
    ensures
        fault_is(r, first_field_alias_fault(rules@, 0)),
{
    let mut i: usize = 0;
    while i < rules.len()
        invariant
            i <= rules.len(),
            first_field_alias_fault(rules@, 0) == first_field_alias_fault(rules@, i as nat),
        decreases rules.len() - i,
    {
        match check_field_alias(&rules[i], i) {
            Err(message) => {
                return Err(message);
            },
            Ok(()) => {},
        }
        i = i + 1;
    }
    Ok(())
}

/// The first fault among the group aliases, from `from` on.
pub open spec fn first_group_alias_fault(rules: Seq<GroupAliasRule>, from: nat) -> Option<Seq<char>>
    decreases rules.len() - from,
{
    if from >= rules.len() {
        None
    } else {
        match group_alias_fault(rules[from as int], from as int) {
            Some(fault) => Some(fault),
            None => first_group_alias_fault(rules, from + 1),
        }
    }
}

fn check_group_alias_rules(rules: &Vec<GroupAliasRule>) -> (r: Result<(), String>)
    ensures
        fault_is(r, first_group_alias_fault(rules@, 0)),
{
    let mut i: usize = 0;
    while i < rules.len()
        invariant
            i <= rules.len(),
            first_group_alias_fault(rules@, 0) == first_group_alias_fault(rules@, i as nat),
        decreases rules.len() - i,
    {
        match check_group_alias(&rules[i], i) {
            Err(message) => {
                return Err(message);
            },
            Ok(()) => {},
        }
        i = i + 1;
    }
    Ok(())
}

/// The first fault among the struct mappings, from `from` on.
pub open spec fn first_struct_mapping_fault(rules: Seq<StructMappingRule>, from: nat) -> Option<Seq<char>>
    decreases rules.len() - from,
{
    if from >= rules.len() {
        None
    } else {
        match struct_mapping_fault(rules[from as int], from as int) {
            Some(fault) => Some(fault),
            None => first_struct_mapping_fault(rules, from + 1),
        }
    }
}

fn check_struct_mapping_rules(rules: &Vec<StructMappingRule>) -> (r: Result<(), String>)
    ensures
        fault_is(r, first_struct_mapping_fault(rules@, 0)),
{
    let mut i: usize = 0;
    while i < rules.len()
        invariant
            i <= rules.len(),
            first_struct_mapping_fault(rules@, 0) == first_struct_mapping_fault(rules@, i as nat),
        decreases rules.len() - i,
    {
        match check_struct_mapping(&rules[i], i) {
            Err(message) => {
                return Err(message);
            },
            Ok(()) => {},
        }
        i = i + 1;
    }
    Ok(())
}

/// The first fault among the incompatible pairs, from `from` on.
pub open spec fn first_incompatible_pair_fault(rules: Seq<IncompatiblePairRule>, from: nat) -> Option<Seq<char>>
    decreases rules.len() - from,
{
    if from >= rules.len() {
        None
    } else {
        match incompatible_pair_fault(rules[from as int], from as int) {
            Some(fault) => Some(fault),
            None => first_incompatible_pair_fault(rules, from + 1),
        }
    }
}

fn check_incompatible_pair_rules(rules: &Vec<IncompatiblePairRule>) -> (r: Result<(), String>)
    ensures
        fault_is(r, first_incompatible_pair_fault(rules@, 0)),
{
    let mut i: usize = 0;
    while i < rules.len()
        invariant
            i <= rules.len(),
            first_incompatible_pair_fault(rules@, 0) == first_incompatible_pair_fault(rules@, i as nat),
        decreases rules.len() - i,
    {
        match check_incompatible_pair(&rules[i], i) {
            Err(message) => {
                return Err(message);
            },
            Ok(()) => {},
        }
        i = i + 1;
    }
    Ok(())
}

/// The first fault among the unusable schemas, from `from` on.
pub open spec fn first_unusable_schema_fault(rules: Seq<UnusableSchemaRule>, from: nat) -> Option<Seq<char>>
    decreases rules.len() - from,
{
    if from >= rules.len() {
        None
    } else {
        match unusable_schema_fault(rules[from as int], from as int) {
            Some(fault) => Some(fault),
            None => first_unusable_schema_fault(rules, from + 1),
        }
    }
}

fn check_unusable_schema_rules(rules: &Vec<UnusableSchemaRule>) -> (r: Result<(), String>)
    ensures
        fault_is(r, first_unusable_schema_fault(rules@, 0)),
{
    let mut i: usize = 0;
    while i < rules.len()
        invariant
            i <= rules.len(),
            first_unusable_schema_fault(rules@, 0) == first_unusable_schema_fault(rules@, i as nat),
        decreases rules.len() - i,
    {
        match check_unusable_schema(&rules[i], i) {
            Err(message) => {
                return Err(message);
            },
            Ok(()) => {},
        }
        i = i + 1;
    }
    Ok(())
}

/// The first fault among the option aliases, from `from` on.
pub open spec fn first_option_alias_fault(rules: Seq<OptionAliasRule>, from: nat) -> Option<Seq<char>>
    decreases rules.len() - from,
{
    if from >= rules.len() {
        None
    } else {
        match option_alias_fault(rules[from as int], from as int) {
            Some(fault) => Some(fault),
            None => first_option_alias_fault(rules, from + 1),
        }
    }
}

fn check_option_alias_rules(rules: &Vec<OptionAliasRule>) -> (r: Result<(), String>)
    ensures
        fault_is(r, first_option_alias_fault(rules@, 0)),
{
    let mut i: usize = 0;
    while i < rules.len()
        invariant
            i <= rules.len(),
            first_option_alias_fault(rules@, 0) == first_option_alias_fault(rules@, i as nat),
        decreases rules.len() - i,
    {
        match check_option_alias(&rules[i], i) {
            Err(message) => {
                return Err(message);
            },
            Ok(()) => {},
        }
        i = i + 1;
    }
    Ok(())
}

/// The first fault among the accepted losses of a section, from `from` on.
pub open spec fn first_drop_fault(section: Seq<char>, rules: Seq<ReferenceDropRule>, from: nat) -> Option<Seq<char>>
    decreases rules.len() - from,
{
    if from >= rules.len() {
        None
    } else {
        match drop_fault(section, rules[from as int], from as int) {
            Some(fault) => Some(fault),
            None => first_drop_fault(section, rules, from + 1),
        }
    }
}

fn check_drop_rules(section: &str, rules: &Vec<ReferenceDropRule>) -> (r: Result<(), String>)
    ensures
        fault_is(r, first_drop_fault(section@, rules@, 0)),
{
    let mut i: usize = 0;
    while i < rules.len()
        invariant
            i <= rules.len(),
            first_drop_fault(section@, rules@, 0) == first_drop_fault(section@, rules@, i as nat),
        decreases rules.len() - i,
    {
        match check_drop(section, &rules[i], i) {
            Err(message) => {
                return Err(message);
            },
            Ok(()) => {},
        }
        i = i + 1;
    }
    Ok(())
}

/// What `a` says, or else what `b` says.
pub open spec fn or_else(a: Option<Seq<char>>, b: Option<Seq<char>>) -> Option<Seq<char>> {
    match a {
        Some(x) => Some(x),
        None => b,
    }
}

/// The first fault of a catalog, section by section.
pub open spec fn catalog_fault(c: ConversionMappingCatalog) -> Option<Seq<char>> {
    if c.version != 1 {
        Some("Unsupported conversion mapping catalog version "@ + decimal(c.version as nat))
    } else if c.coverage@ != "all_supported_groups"@ {
        Some("Unsupported conversion mapping coverage policy "@ + c.coverage@)
    } else {
        or_else(first_covered_fault(texts(c.covered_groups@), 0),
        or_else(first_field_alias_fault(c.field_aliases@, 0),
        or_else(first_group_alias_fault(c.group_aliases@, 0),
        or_else(first_struct_mapping_fault(c.struct_mappings@, 0),
        or_else(first_incompatible_pair_fault(c.incompatible_pairs@, 0),
        or_else(first_unusable_schema_fault(c.unusable_schemas@, 0),
        or_else(first_drop_fault("reference_drops"@, c.reference_drops@, 0),
        or_else(first_drop_fault("accepted_field_drops"@, c.accepted_field_drops@, 0),
        or_else(first_drop_fault("accepted_payload_drops"@, c.accepted_payload_drops@, 0),
        first_option_alias_fault(c.option_aliases@, 0))))))))))
    }
}

impl ConversionMappingCatalog {
    /// The catalog, where nothing is wrong with it.
    pub fn load(catalog: ConversionMappingCatalog) -> (r: Result<ConversionMappingCatalog, String>)
        ensures
            match catalog_fault(catalog) {
                Some(fault) => r matches Err(message) && message@ == fault,
                None => r == Ok::<ConversionMappingCatalog, String>(catalog),
            },
    {
        if catalog.version != 1 {
            let number: String = decimal_text(catalog.version as u128);
            return Err(concat2("Unsupported conversion mapping catalog version ", &number));
        }
        if !same(&catalog.coverage, "all_supported_groups") {
            return Err(
                concat2("Unsupported conversion mapping coverage policy ", &catalog.coverage),
            );
        }
        match check_covered_rules(&catalog.covered_groups) {
            Err(message) => {
                return Err(message);
            },
            Ok(()) => {},
        }
        match check_field_alias_rules(&catalog.field_aliases) {
            Err(message) => {
                return Err(message);
            },
            Ok(()) => {},
        }
        match check_group_alias_rules(&catalog.group_aliases) {
            Err(message) => {
                return Err(message);
            },
            Ok(()) => {},
        }
        match check_struct_mapping_rules(&catalog.struct_mappings) {
            Err(message) => {
                return Err(message);
            },
            Ok(()) => {},
        }
        match check_incompatible_pair_rules(&catalog.incompatible_pairs) {
            Err(message) => {
                return Err(message);
            },
            Ok(()) => {},
        }
        match check_unusable_schema_rules(&catalog.unusable_schemas) {
            Err(message) => {
                return Err(message);
            },
            Ok(()) => {},
        }
        match check_drop_rules("reference_drops", &catalog.reference_drops) {
            Err(message) => {
                return Err(message);
            },
            Ok(()) => {},
        }
        match check_drop_rules("accepted_field_drops", &catalog.accepted_field_drops) {
            Err(message) => {
                return Err(message);
            },
            Ok(()) => {},
        }
        match check_drop_rules("accepted_payload_drops", &catalog.accepted_payload_drops) {
            Err(message) => {
                return Err(message);
            },
            Ok(()) => {},
        }
        match check_option_alias_rules(&catalog.option_aliases) {
            Err(message) => {
                return Err(message);
            },
            Ok(()) => {},
        }
        Ok(catalog)
    }
}

// ---------------------------------------------------------------------------
// What a catalog says
// ---------------------------------------------------------------------------
/// A pair of fields that a catalog is asked about.
pub struct FieldMappingRequest<'a> {
    pub group: &'a str,
    pub source_game: &'a str,
    pub target_game: &'a str,
    pub source_guid: [u8; 16],
    pub target_guid: [u8; 16],
    pub source_name: &'a str,
    pub target_name: &'a str,
}

/// Whether a rule says that the two fields are the same.
pub open spec fn field_rule_relates(
    rule: FieldAliasRule,
    group: Seq<char>,
    source_game: Seq<char>,
    target_game: Seq<char>,
    source_guid: Seq<u8>,
    target_guid: Seq<u8>,
    source_name: Seq<char>,
    target_name: Seq<char>,
) -> bool {
    &&& same_ignoring_case(rule.group@, group)
    &&& rule_relates(
        texts(rule.source_games@),
        texts(rule.target_games@),
        rule.source@,
        rule.target@,
        source_game,
        target_game,
        source_name,
        target_name,
    )
    &&& guids_relate(
        optional_guid(rule.source_struct_guid),
        optional_guid(rule.target_struct_guid),
        source_guid,
        target_guid,
        source_game,
        target_game,
        texts(rule.source_games@),
        texts(rule.target_games@),
    )
}

/// Whether a rule says that the two options are the same.
pub open spec fn option_rule_relates(
    rule: OptionAliasRule,
    group: Seq<char>,
    field: Seq<char>,
    source_game: Seq<char>,
    target_game: Seq<char>,
    source_name: Seq<char>,
    target_name: Seq<char>,
) -> bool {
    &&& same_ignoring_case(rule.group@, group)
    &&& normal_option(rule.field@) == normal_option(field)
    &&& rule_relates(
        texts(rule.source_games@),
        texts(rule.target_games@),
        rule.source@,
        rule.target@,
        source_game,
        target_game,
        source_name,
        target_name,
    )
}

/// The last node of a field path, without its index.
pub open spec fn leaf_of(path: Seq<char>) -> Seq<char> {
    before(last_piece(path, '/'), "["@)
}

/// Whether the games of a rule are those of a conversion, read forwards.
pub open spec fn forwards(
    source_games: Seq<String>,
    target_games: Seq<String>,
    source_game: Seq<char>,
    target_game: Seq<char>,
) -> bool {
    in_scope(texts(source_games), source_game) && in_scope(texts(target_games), target_game)
}

fn is_forwards(
    source_games: &Vec<String>,
    target_games: &Vec<String>,
    source_game: &str,
    target_game: &str,
) -> (r: bool)
    ensures
        r == forwards(source_games@, target_games@, source_game@, target_game@),
{
    game_scope_matches(source_games, source_game) && game_scope_matches(target_games, target_game)
}

/// Whether a rule says that two `data` definitions hold the same kind of payload.
pub open spec fn payload_rule_allows(
    rule: PayloadAliasRule,
    group: Seq<char>,
    source_game: Seq<char>,
    target_game: Seq<char>,
    source_definition: Seq<char>,
    target_definition: Seq<char>,
) -> bool {
    &&& same_ignoring_case(rule.group@, group)
    &&& {
        ||| forwards(rule.source_games@, rule.target_games@, source_game, target_game)
            && rule.source_definition@ == source_definition && rule.target_definition@
            == target_definition
        ||| forwards(rule.source_games@, rule.target_games@, target_game, source_game)
            && rule.source_definition@ == target_definition && rule.target_definition@
            == source_definition
    }
}

/// Where a rule says that a group's source and target structs sit.
pub open spec fn struct_rule_paths(
    rule: StructMappingRule,
    group: Seq<char>,
    source_game: Seq<char>,
    target_game: Seq<char>,
) -> Option<(Seq<char>, Seq<char>)> {
    if !same_ignoring_case(rule.group@, group) {
        None
    } else if forwards(rule.source_games@, rule.target_games@, source_game, target_game) {
        Some((rule.source_path@, rule.target_path@))
    } else if rule.bidirectional && forwards(
        rule.source_games@,
        rule.target_games@,
        target_game,
        source_game,
    ) {
        Some((rule.target_path@, rule.source_path@))
    } else {
        None
    }
}

/// Why a rule says that a group does not convert.
pub open spec fn incompatible_reason(
    rule: IncompatiblePairRule,
    group: Seq<char>,
    source_game: Seq<char>,
    target_game: Seq<char>,
) -> Option<Seq<char>> {
    if same_ignoring_case(rule.group@, group) && (forwards(
        rule.source_games@,
        rule.target_games@,
        source_game,
        target_game,
    ) || forwards(rule.source_games@, rule.target_games@, target_game, source_game)) {
        Some(rule.reason@)
    } else {
        None
    }
}

/// Why a rule says that a game's schema cannot be used.
pub open spec fn unusable_reason(
    rule: UnusableSchemaRule,
    group: Seq<char>,
    game: Seq<char>,
) -> Option<Seq<char>> {
    if same_ignoring_case(rule.group@, group) && in_scope(texts(rule.games@), game) {
        Some(rule.reason@)
    } else {
        None
    }
}

/// Whether an accepted loss is one of this group, in this direction.
pub open spec fn drop_applies(
    rule: ReferenceDropRule,
    group: Seq<char>,
    source_game: Seq<char>,
    target_game: Seq<char>,
) -> bool {
    same_ignoring_case(rule.group@, group) && forwards(
        rule.source_games@,
        rule.target_games@,
        source_game,
        target_game,
    )
}

/// Why a rule accepts the loss of the reference at exactly `path`.
pub open spec fn exact_drop_reason(
    rule: ReferenceDropRule,
    group: Seq<char>,
    source_game: Seq<char>,
    target_game: Seq<char>,
    path: Seq<char>,
) -> Option<Seq<char>> {
    if drop_applies(rule, group, source_game, target_game) && field_key(rule.source_path@)
        == field_key(path) {
        Some(rule.reason@)
    } else {
        None
    }
}

/// Why a rule accepts the loss of the field at `path` or of what holds it.
pub open spec fn covering_drop_reason(
    rule: ReferenceDropRule,
    group: Seq<char>,
    source_game: Seq<char>,
    target_game: Seq<char>,
    path: Seq<char>,
) -> Option<Seq<char>> {
    if drop_applies(rule, group, source_game, target_game) && path_covers(rule.source_path@, path) {
        Some(rule.reason@)
    } else {
        None
    }
}

/// What a rule renames a group to.
pub open spec fn group_rule_name(
    rule: GroupAliasRule,
    group: Seq<char>,
    source_game: Seq<char>,
    target_game: Seq<char>,
) -> Option<Seq<char>> {
    if forwards(rule.source_games@, rule.target_games@, source_game, target_game) && names_equal(
        rule.source@,
        group,
    ) {
        Some(rule.target@)
    } else if forwards(rule.source_games@, rule.target_games@, target_game, source_game)
        && names_equal(rule.target@, group) {
        Some(rule.source@)
    } else {
        None
    }
}

/// The first answer of the rules from `from` on.
pub open spec fn first_struct_paths(
    rules: Seq<StructMappingRule>,
    group: Seq<char>,
    source_game: Seq<char>,
    target_game: Seq<char>,
    from: nat,
) -> Option<(Seq<char>, Seq<char>)>
    decreases rules.len() - from,
{
    if from >= rules.len() {
        None
    } else {
        match struct_rule_paths(rules[from as int], group, source_game, target_game) {
            Some(paths) => Some(paths),
            None => first_struct_paths(rules, group, source_game, target_game, from + 1),
        }
    }
}

pub open spec fn first_incompatible_reason(
    rules: Seq<IncompatiblePairRule>,
    group: Seq<char>,
    source_game: Seq<char>,
    target_game: Seq<char>,
    from: nat,
) -> Option<Seq<char>>
    decreases rules.len() - from,
{
    if from >= rules.len() {
        None
    } else {
        or_else(
            incompatible_reason(rules[from as int], group, source_game, target_game),
            first_incompatible_reason(rules, group, source_game, target_game, from + 1),
        )
    }
}

pub open spec fn first_unusable_reason(
    rules: Seq<UnusableSchemaRule>,
    group: Seq<char>,
    game: Seq<char>,
    from: nat,
) -> Option<Seq<char>>
    decreases rules.len() - from,
{
    if from >= rules.len() {
        None
    } else {
        or_else(
            unusable_reason(rules[from as int], group, game),
            first_unusable_reason(rules, group, game, from + 1),
        )
    }
}

pub open spec fn first_exact_drop(
    rules: Seq<ReferenceDropRule>,
    group: Seq<char>,
    source_game: Seq<char>,
    target_game: Seq<char>,
    path: Seq<char>,
    from: nat,
) -> Option<Seq<char>>
    decreases rules.len() - from,
{
    if from >= rules.len() {
        None
    } else {
        or_else(
            exact_drop_reason(rules[from as int], group, source_game, target_game, path),
            first_exact_drop(rules, group, source_game, target_game, path, from + 1),
        )
    }
}

pub open spec fn first_covering_drop(
    rules: Seq<ReferenceDropRule>,
    group: Seq<char>,
    source_game: Seq<char>,
    target_game: Seq<char>,
    path: Seq<char>,
    from: nat,
) -> Option<Seq<char>>
    decreases rules.len() - from,
{
    if from >= rules.len() {
        None
    } else {
        or_else(
            covering_drop_reason(rules[from as int], group, source_game, target_game, path),
            first_covering_drop(rules, group, source_game, target_game, path, from + 1),
        )
    }
}

pub open spec fn first_group_name(
    rules: Seq<GroupAliasRule>,
    group: Seq<char>,
    source_game: Seq<char>,
    target_game: Seq<char>,
    from: nat,
) -> Option<Seq<char>>
    decreases rules.len() - from,
{
    if from >= rules.len() {
        None
    } else {
        or_else(
            group_rule_name(rules[from as int], group, source_game, target_game),
            first_group_name(rules, group, source_game, target_game, from + 1),
        )
    }
}

/// The view of an optional borrowed text.
pub open spec fn str_option(v: Option<&str>) -> Option<Seq<char>> {
    match v {
        Some(s) => Some(s@),
        None => None,
    }
}

impl ConversionMappingCatalog {
    /// Whether a rule says that the two fields are the same.
    pub open spec fn relates_fields(
        &self,
        group: Seq<char>,
        source_game: Seq<char>,
        target_game: Seq<char>,
        source_guid: Seq<u8>,
        target_guid: Seq<u8>,
        source_name: Seq<char>,
        target_name: Seq<char>,
    ) -> bool {
        exists|i: int|
            0 <= i < self.field_aliases@.len() && field_rule_relates(
                #[trigger] self.field_aliases@[i],
                group,
                source_game,
                target_game,
                source_guid,
                target_guid,
                source_name,
                target_name,
            )
    }

    /// Whether a rule says that the two options of the field at `path` are the
    /// same.
    pub open spec fn relates_options(
        &self,
        group: Seq<char>,
        path: Seq<char>,
        source_game: Seq<char>,
        target_game: Seq<char>,
        source_name: Seq<char>,
        target_name: Seq<char>,
    ) -> bool {
        exists|i: int|
            0 <= i < self.option_aliases@.len() && option_rule_relates(
                #[trigger] self.option_aliases@[i],
                group,
                leaf_of(path),
                source_game,
                target_game,
                source_name,
                target_name,
            )
    }

    /// Whether a rule says that two `data` definitions hold the same kind of
    /// payload.
    pub open spec fn allows_payload(
        &self,
        group: Seq<char>,
        source_game: Seq<char>,
        target_game: Seq<char>,
        source_definition: Seq<char>,
        target_definition: Seq<char>,
    ) -> bool {
        exists|i: int|
            0 <= i < self.payload_aliases@.len() && payload_rule_allows(
                #[trigger] self.payload_aliases@[i],
                group,
                source_game,
                target_game,
                source_definition,
                target_definition,
            )
    }

    /// Why the loss of a source field is accepted, as a field or as a reference.
    pub open spec fn accepted_drop(
        &self,
        group: Seq<char>,
        source_game: Seq<char>,
        target_game: Seq<char>,
        path: Seq<char>,
    ) -> Option<Seq<char>> {
        or_else(
            first_covering_drop(
                self.accepted_field_drops@,
                group,
                source_game,
                target_game,
                path,
                0,
            ),
            first_covering_drop(self.reference_drops@, group, source_game, target_game, path, 0),
        )
    }

    pub fn field_names_match(&self, request: &FieldMappingRequest<'_>) -> (r: bool)
        ensures
            r == self.relates_fields(
                request.group@,
                request.source_game@,
                request.target_game@,
                request.source_guid@,
                request.target_guid@,
                request.source_name@,
                request.target_name@,
            ),
    {
        let mut i: usize = 0;
        while i < self.field_aliases.len()
            invariant
                i <= self.field_aliases.len(),
                forall|j: int|
                    0 <= j < i ==> !field_rule_relates(
                        #[trigger] self.field_aliases@[j],
                        request.group@,
                        request.source_game@,
                        request.target_game@,
                        request.source_guid@,
                        request.target_guid@,
                        request.source_name@,
                        request.target_name@,
                    ),
            decreases self.field_aliases.len() - i,
        {
            let rule: &FieldAliasRule = &self.field_aliases[i];
            if eq_ignoring_case(&rule.group, request.group) && mapping_rule_direction_matches(
                &rule.source_games,
                &rule.target_games,
                request.source_game,
                request.target_game,
                &rule.source,
                &rule.target,
                request.source_name,
                request.target_name,
            ) && guid_rule_matches(
                &rule.source_struct_guid,
                &rule.target_struct_guid,
                &request.source_guid,
                &request.target_guid,
                request.source_game,
                request.target_game,
                &rule.source_games,
                &rule.target_games,
            ) {
                assert(self.field_aliases@[i as int] == *rule);
                return true;
            }
            i = i + 1;
        }
        false
    }

    pub fn option_names_match(
        &self,
        group: &str,
        field_path: &str,
        source_game: &str,
        target_game: &str,
        source_name: &str,
        target_name: &str,
    ) -> (r: bool)
        ensures
            r == self.relates_options(
                group@,
                field_path@,
                source_game@,
                target_game@,
                source_name@,
                target_name@,
            ),
    {
        let leaf: String = text_before(&text_after_last(field_path, '/'), "[");
        let field: String = normalize_option_name(&leaf);
        let mut i: usize = 0;
        while i < self.option_aliases.len()
            invariant
                i <= self.option_aliases.len(),
                field@ == normal_option(leaf_of(field_path@)),
                forall|j: int|
                    0 <= j < i ==> !option_rule_relates(
                        #[trigger] self.option_aliases@[j],
                        group@,
                        leaf_of(field_path@),
                        source_game@,
                        target_game@,
                        source_name@,
                        target_name@,
                    ),
            decreases self.option_aliases.len() - i,
        {
            let rule: &OptionAliasRule = &self.option_aliases[i];
            if eq_ignoring_case(&rule.group, group) && same(
                &normalize_option_name(&rule.field),
                &field,
            ) && mapping_rule_direction_matches(
                &rule.source_games,
                &rule.target_games,
                source_game,
                target_game,
                &rule.source,
                &rule.target,
                source_name,
                target_name,
            ) {
                assert(self.option_aliases@[i as int] == *rule);
                return true;
            }
            i = i + 1;
        }
        false
    }

    pub fn payload_alias_allows(
        &self,
        group: &str,
        source_game: &str,
        target_game: &str,
        source_definition: &str,
        target_definition: &str,
    ) -> (r: bool)
        ensures
            r == self.allows_payload(
                group@,
                source_game@,
                target_game@,
                source_definition@,
                target_definition@,
            ),
    {
        let mut i: usize = 0;
        while i < self.payload_aliases.len()
            invariant
                i <= self.payload_aliases.len(),
                forall|j: int|
                    0 <= j < i ==> !payload_rule_allows(
                        #[trigger] self.payload_aliases@[j],
                        group@,
                        source_game@,
                        target_game@,
                        source_definition@,
                        target_definition@,
                    ),
            decreases self.payload_aliases.len() - i,
        {
            let rule: &PayloadAliasRule = &self.payload_aliases[i];
            if eq_ignoring_case(&rule.group, group) && ((is_forwards(
                &rule.source_games,
                &rule.target_games,
                source_game,
                target_game,
            ) && same(&rule.source_definition, source_definition) && same(
                &rule.target_definition,
                target_definition,
            )) || (is_forwards(&rule.source_games, &rule.target_games, target_game, source_game)
                && same(&rule.source_definition, target_definition) && same(
                &rule.target_definition,
                source_definition,
            ))) {
                assert(self.payload_aliases@[i as int] == *rule);
                return true;
            }
            i = i + 1;
        }
        false
    }

    pub fn struct_mapping(&self, group: &str, source_game: &str, target_game: &str) -> (r: Option<
        (&str, &str),
    >)
        ensures
            match r {
                Some((a, b)) => first_struct_paths(
                    self.struct_mappings@,
                    group@,
                    source_game@,
                    target_game@,
                    0,
                ) == Some((a@, b@)),
                None => first_struct_paths(
                    self.struct_mappings@,
                    group@,
                    source_game@,
                    target_game@,
                    0,
                ) is None,
            },
    {
        let mut i: usize = 0;
        while i < self.struct_mappings.len()
            invariant
                i <= self.struct_mappings.len(),
                first_struct_paths(self.struct_mappings@, group@, source_game@, target_game@, 0)
                    == first_struct_paths(
                    self.struct_mappings@,
                    group@,
                    source_game@,
                    target_game@,
                    i as nat,
                ),
            decreases self.struct_mappings.len() - i,
        {
            let rule: &StructMappingRule = &self.struct_mappings[i];
            if eq_ignoring_case(&rule.group, group) {
                if is_forwards(&rule.source_games, &rule.target_games, source_game, target_game) {
                    return Some((rule.source_path.as_str(), rule.target_path.as_str()));
                }
                if rule.bidirectional && is_forwards(
                    &rule.source_games,
                    &rule.target_games,
                    target_game,
                    source_game,
                ) {
                    return Some((rule.target_path.as_str(), rule.source_path.as_str()));
                }
            }
            i = i + 1;
        }
        None
    }

    pub fn incompatibility_reason(&self, group: &str, source_game: &str, target_game: &str) -> (r:
        Option<&str>)
        ensures
            str_option(r) == first_incompatible_reason(
                self.incompatible_pairs@,
                group@,
                source_game@,
                target_game@,
                0,
            ),
    {
        let mut i: usize = 0;
        while i < self.incompatible_pairs.len()
            invariant
                i <= self.incompatible_pairs.len(),
                first_incompatible_reason(
                    self.incompatible_pairs@,
                    group@,
                    source_game@,
                    target_game@,
                    0,
                ) == first_incompatible_reason(
                    self.incompatible_pairs@,
                    group@,
                    source_game@,
                    target_game@,
                    i as nat,
                ),
            decreases self.incompatible_pairs.len() - i,
        {
            let rule: &IncompatiblePairRule = &self.incompatible_pairs[i];
            if eq_ignoring_case(&rule.group, group) && (is_forwards(
                &rule.source_games,
                &rule.target_games,
                source_game,
                target_game,
            ) || is_forwards(&rule.source_games, &rule.target_games, target_game, source_game)) {
                return Some(rule.reason.as_str());
            }
            i = i + 1;
        }
        None
    }

    pub fn unusable_schema_reason(&self, group: &str, game: &str) -> (r: Option<&str>)
        ensures
            str_option(r) == first_unusable_reason(self.unusable_schemas@, group@, game@, 0),
    {
        let mut i: usize = 0;
        while i < self.unusable_schemas.len()
            invariant
                i <= self.unusable_schemas.len(),
                first_unusable_reason(self.unusable_schemas@, group@, game@, 0)
                    == first_unusable_reason(self.unusable_schemas@, group@, game@, i as nat),
            decreases self.unusable_schemas.len() - i,
        {
            let rule: &UnusableSchemaRule = &self.unusable_schemas[i];
            if eq_ignoring_case(&rule.group, group) && game_scope_matches(&rule.games, game) {
                return Some(rule.reason.as_str());
            }
            i = i + 1;
        }
        None
    }

    pub fn reference_drop_reason(
        &self,
        group: &str,
        source_game: &str,
        target_game: &str,
        source_path: &str,
    ) -> (r: Option<&str>)
        ensures
            str_option(r) == first_exact_drop(
                self.reference_drops@,
                group@,
                source_game@,
                target_game@,
                source_path@,
                0,
            ),
    {
        let mut i: usize = 0;
        while i < self.reference_drops.len()
            invariant
                i <= self.reference_drops.len(),
                first_exact_drop(
                    self.reference_drops@,
                    group@,
                    source_game@,
                    target_game@,
                    source_path@,
                    0,
                ) == first_exact_drop(
                    self.reference_drops@,
                    group@,
                    source_game@,
                    target_game@,
                    source_path@,
                    i as nat,
                ),
            decreases self.reference_drops.len() - i,
        {
            let rule: &ReferenceDropRule = &self.reference_drops[i];
            if eq_ignoring_case(&rule.group, group) && is_forwards(
                &rule.source_games,
                &rule.target_games,
                source_game,
                target_game,
            ) && same(&clean_field_key(&rule.source_path), &clean_field_key(source_path)) {
                return Some(rule.reason.as_str());
            }
            i = i + 1;
        }
        None
    }

    /// Why the loss of a source field with no target counterpart is accepted.
    ///
    /// A rule covers its own path and everything beneath it: where the target has
    /// no such container, it has none of the fields inside one either.
    pub fn accepted_drop_reason(
        &self,
        group: &str,
        source_game: &str,
        target_game: &str,
        source_path: &str,
    ) -> (r: Option<&str>)
        ensures
            str_option(r) == self.accepted_drop(group@, source_game@, target_game@, source_path@),
    {
        match covering_drop_of(
            &self.accepted_field_drops,
            group,
            source_game,
            target_game,
            source_path,
        ) {
            Some(reason) => Some(reason),
            None => covering_drop_of(
                &self.reference_drops,
                group,
                source_game,
                target_game,
                source_path,
            ),
        }
    }

    /// Why an inline `data` blob is reviewed as safe to lose.
    pub fn accepted_payload_drop_reason(
        &self,
        group: &str,
        source_game: &str,
        target_game: &str,
        source_path: &str,
    ) -> (r: Option<&str>)
        ensures
            str_option(r) == first_covering_drop(
                self.accepted_payload_drops@,
                group@,
                source_game@,
                target_game@,
                source_path@,
                0,
            ),
    {
        covering_drop_of(
            &self.accepted_payload_drops,
            group,
            source_game,
            target_game,
            source_path,
        )
    }

    /// What `group` is called in `target_game`, where a reviewed rule renames it.
    pub fn group_alias(&self, group: &str, source_game: &str, target_game: &str) -> (r: Option<
        &str,
    >)
        ensures
            str_option(r) == first_group_name(
                self.group_aliases@,
                group@,
                source_game@,
                target_game@,
                0,
            ),
    {
        let mut i: usize = 0;
        while i < self.group_aliases.len()
            invariant
                i <= self.group_aliases.len(),
                first_group_name(self.group_aliases@, group@, source_game@, target_game@, 0)
                    == first_group_name(
                    self.group_aliases@,
                    group@,
                    source_game@,
                    target_game@,
                    i as nat,
                ),
            decreases self.group_aliases.len() - i,
        {
            let rule: &GroupAliasRule = &self.group_aliases[i];
            if is_forwards(&rule.source_games, &rule.target_games, source_game, target_game)
                && normalized_names_equal(&rule.source, group) {
                return Some(rule.target.as_str());
            }
            if is_forwards(&rule.source_games, &rule.target_games, target_game, source_game)
                && normalized_names_equal(&rule.target, group) {
                return Some(rule.source.as_str());
            }
            i = i + 1;
        }
        None
    }
}

fn covering_drop_of<'a>(
    rules: &'a Vec<ReferenceDropRule>,
    group: &str,
    source_game: &str,
    target_game: &str,
    source_path: &str,
) -> (r: Option<&'a str>)
    ensures
        str_option(r) == first_covering_drop(
            rules@,
            group@,
            source_game@,
            target_game@,
            source_path@,
            0,
        ),
{
    let mut i: usize = 0;
    while i < rules.len()
        invariant
            i <= rules.len(),
            first_covering_drop(rules@, group@, source_game@, target_game@, source_path@, 0)
                == first_covering_drop(
                rules@,
                group@,
                source_game@,
                target_game@,
                source_path@,
                i as nat,
            ),
        decreases rules.len() - i,
    {
        let rule: &ReferenceDropRule = &rules[i];
        if eq_ignoring_case(&rule.group, group) && is_forwards(
            &rule.source_games,
            &rule.target_games,
            source_game,
            target_game,
        ) && is_ancestor_path(&rule.source_path, source_path) {
            return Some(rule.reason.as_str());
        }
        i = i + 1;
    }
    None
}

// ---------------------------------------------------------------------------
// Groups
// ---------------------------------------------------------------------------
/// The group that a target game has under the name `name`.
pub open spec fn named_group(groups: GroupsView, name: Seq<char>) -> Option<(u32, Seq<char>)> {
    match groups.tag_of(lowered(name)) {
        Some(tag) => Some(
            (
                tag,
                match groups.name_of(tag) {
                    Some(n) => n,
                    None => name,
                },
            ),
        ),
        None => None,
    }
}

/// The group that `group` lands on in the target game. A reviewed alias outranks
/// a group of the same name.
pub open spec fn target_group(
    catalog: ConversionMappingCatalog,
    groups: GroupsView,
    group: Seq<char>,
    source_game: Seq<char>,
    target_game: Seq<char>,
) -> Option<(u32, Seq<char>)> {
    match first_group_name(catalog.group_aliases@, group, source_game, target_game, 0) {
        Some(alias) => match named_group(groups, alias) {
            Some(found) => Some(found),
            None => named_group(groups, group),
        },
        None => named_group(groups, group),
    }
}

fn named_group_of(groups: &GameTagIndex, name: &str) -> (r: Option<(u32, String)>)
    ensures
        reference_view(r) == named_group(groups@, name@),
{
    match groups.tag_of(&lower(name)) {
        Some(tag) => match groups.name_of(tag) {
            Some(found) => Some((tag, copy(found))),
            None => Some((tag, copy(name))),
        },
        None => None,
    }
}

pub fn resolve_target_group(
    group_name: &str,
    target_groups: &GameTagIndex,
    catalog: &ConversionMappingCatalog,
    source_game: &str,
    target_game: &str,
) -> (r: Option<(u32, String)>)
    ensures
        reference_view(r) == target_group(
            *catalog,
            target_groups@,
            group_name@,
            source_game@,
            target_game@,
        ),
{
    if let Some(alias) = catalog.group_alias(group_name, source_game, target_game) {
        if let Some(found) = named_group_of(target_groups, alias) {
            return Some(found);
        }
    }
    named_group_of(target_groups, group_name)
}

// ---------------------------------------------------------------------------
// Laws
// ---------------------------------------------------------------------------
/// Every mapping of names works in both directions: what relates a source field,
/// option or payload to a target one relates the target one to the source one
/// when the games change places.
pub proof fn mappings_are_reversible(
    catalog: ConversionMappingCatalog,
    group: Seq<char>,
    path: Seq<char>,
    a: Seq<char>,
    b: Seq<char>,
    a_guid: Seq<u8>,
    b_guid: Seq<u8>,
    a_name: Seq<char>,
    b_name: Seq<char>,
)
    ensures
        catalog.relates_fields(group, a, b, a_guid, b_guid, a_name, b_name)
            == catalog.relates_fields(group, b, a, b_guid, a_guid, b_name, a_name),
        catalog.relates_options(group, path, a, b, a_name, b_name) == catalog.relates_options(
            group,
            path,
            b,
            a,
            b_name,
            a_name,
        ),
        catalog.allows_payload(group, a, b, a_name, b_name) == catalog.allows_payload(
            group,
            b,
            a,
            b_name,
            a_name,
        ),
{
    lemma_field_rules_reverse(catalog, group, a, b, a_guid, b_guid, a_name, b_name);
    lemma_field_rules_reverse(catalog, group, b, a, b_guid, a_guid, b_name, a_name);
    lemma_option_rules_reverse(catalog, group, path, a, b, a_name, b_name);
    lemma_option_rules_reverse(catalog, group, path, b, a, b_name, a_name);
    lemma_payload_rules_reverse(catalog, group, a, b, a_name, b_name);
    lemma_payload_rules_reverse(catalog, group, b, a, b_name, a_name);
}

proof fn lemma_field_rules_reverse(
    catalog: ConversionMappingCatalog,
    group: Seq<char>,
    a: Seq<char>,
    b: Seq<char>,
    a_guid: Seq<u8>,
    b_guid: Seq<u8>,
    a_name: Seq<char>,
    b_name: Seq<char>,
)
    ensures
        catalog.relates_fields(group, a, b, a_guid, b_guid, a_name, b_name)
            ==> catalog.relates_fields(group, b, a, b_guid, a_guid, b_name, a_name),
{
    if catalog.relates_fields(group, a, b, a_guid, b_guid, a_name, b_name) {
        let i = choose|i: int|
            0 <= i < catalog.field_aliases@.len() && field_rule_relates(
                #[trigger] catalog.field_aliases@[i],
                group,
                a,
                b,
                a_guid,
                b_guid,
                a_name,
                b_name,
            );
        let rule = catalog.field_aliases@[i];
        assert(field_rule_relates(rule, group, b, a, b_guid, a_guid, b_name, a_name));
    }
}

proof fn lemma_option_rules_reverse(
    catalog: ConversionMappingCatalog,
    group: Seq<char>,
    path: Seq<char>,
    a: Seq<char>,
    b: Seq<char>,
    a_name: Seq<char>,
    b_name: Seq<char>,
)
    ensures
        catalog.relates_options(group, path, a, b, a_name, b_name) ==> catalog.relates_options(
            group,
            path,
            b,
            a,
            b_name,
            a_name,
        ),
{
    if catalog.relates_options(group, path, a, b, a_name, b_name) {
        let i = choose|i: int|
            0 <= i < catalog.option_aliases@.len() && option_rule_relates(
                #[trigger] catalog.option_aliases@[i],
                group,
                leaf_of(path),
                a,
                b,
                a_name,
                b_name,
            );
        let rule = catalog.option_aliases@[i];
        assert(option_rule_relates(rule, group, leaf_of(path), b, a, b_name, a_name));
    }
}

proof fn lemma_payload_rules_reverse(
    catalog: ConversionMappingCatalog,
    group: Seq<char>,
    a: Seq<char>,
    b: Seq<char>,
    a_name: Seq<char>,
    b_name: Seq<char>,
)
    ensures
        catalog.allows_payload(group, a, b, a_name, b_name) ==> catalog.allows_payload(
            group,
            b,
            a,
            b_name,
            a_name,
        ),
{
    if catalog.allows_payload(group, a, b, a_name, b_name) {
        let i = choose|i: int|
            0 <= i < catalog.payload_aliases@.len() && payload_rule_allows(
                #[trigger] catalog.payload_aliases@[i],
                group,
                a,
                b,
                a_name,
                b_name,
            );
        let rule = catalog.payload_aliases@[i];
        assert(payload_rule_allows(rule, group, b, a, b_name, a_name));
    }
}

/// Whether a group converts at all is the same in both directions.
pub proof fn incompatibility_is_symmetric(
    rules: Seq<IncompatiblePairRule>,
    group: Seq<char>,
    a: Seq<char>,
    b: Seq<char>,
    from: nat,
)
    ensures
        first_incompatible_reason(rules, group, a, b, from) == first_incompatible_reason(
            rules,
            group,
            b,
            a,
            from,
        ),
    decreases rules.len() - from,
{
    if from < rules.len() {
        incompatibility_is_symmetric(rules, group, a, b, from + 1);
    }
}

/// A dropped container covers what is inside it: where the loss of the field at
/// `outer` is accepted, so is that of every field below it.
pub proof fn an_accepted_loss_covers_what_is_inside(
    rules: Seq<ReferenceDropRule>,
    group: Seq<char>,
    source_game: Seq<char>,
    target_game: Seq<char>,
    outer: Seq<char>,
    inner: Seq<char>,
    from: nat,
)
    requires
        path_covers(outer, inner),
        first_covering_drop(rules, group, source_game, target_game, outer, from) is Some,
    ensures
        first_covering_drop(rules, group, source_game, target_game, inner, from) is Some,
    decreases rules.len() - from,
{
    if from < rules.len() {
        covering_is_a_preorder(rules[from as int].source_path@, outer, inner);
        if covering_drop_reason(rules[from as int], group, source_game, target_game, outer) is None {
            an_accepted_loss_covers_what_is_inside(
                rules,
                group,
                source_game,
                target_game,
                outer,
                inner,
                from + 1,
            );
        }
    }
}

/// An accepted loss is accepted in one direction alone: where no rule names the
/// target game among its source games, nothing is accepted the other way.
pub proof fn accepted_losses_are_one_way(
    rules: Seq<ReferenceDropRule>,
    group: Seq<char>,
    source_game: Seq<char>,
    target_game: Seq<char>,
    path: Seq<char>,
    from: nat,
)
    requires
        forall|i: int|
            0 <= i < rules.len() ==> !in_scope(
                texts((#[trigger] rules[i]).source_games@),
                target_game,
            ),
    ensures
        first_covering_drop(rules, group, target_game, source_game, path, from) is None,
        first_exact_drop(rules, group, target_game, source_game, path, from) is None,
    decreases rules.len() - from,
{
    if from < rules.len() {
        assert(!in_scope(texts(rules[from as int].source_games@), target_game));
        accepted_losses_are_one_way(rules, group, source_game, target_game, path, from + 1);
    }
}

}
