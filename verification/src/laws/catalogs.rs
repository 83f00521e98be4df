//! The catalog of reviewed mappings: what a catalog without a fault holds, and which rule
//! decides.
use crate::convert::catalog::{
    ConversionMappingCatalog, FieldAliasRule, GroupAliasRule, IncompatiblePairRule,
    OptionAliasRule, PayloadAliasRule, ReferenceDropRule, StructMappingRule, UnusableSchemaRule,
    catalog_fault, covered_fault, drop_fault, field_alias_fault, field_rule_relates,
    first_covered_fault, first_drop_fault, first_field_alias_fault, first_group_alias_fault,
    first_incompatible_pair_fault, first_incompatible_reason, first_option_alias_fault,
    first_struct_mapping_fault, first_unknown_game, first_unusable_reason,
    first_unusable_schema_fault, games_fault, group_alias_fault, in_scope,
    incompatible_pair_fault, incompatible_reason, option_alias_fault, payload_rule_allows,
    struct_mapping_fault, unusable_reason, unusable_schema_fault,
};
use crate::games::profile_names;
use crate::guid::guid_in;
use crate::keys::{field_key, normal_option};
use crate::text::{blank, lowered, pieces, same_ignoring_case, texts, trimmed};
use vstd::prelude::*;

verus! {

// ---------------------------------------------------------------------------
// A catalog without a fault
// ---------------------------------------------------------------------------
/// Games that are all known.
pub open spec fn known_games(games: Seq<Seq<char>>) -> bool {
    forall|i: int| 0 <= i < games.len() ==> profile_names().contains(#[trigger] games[i])
}

proof fn lemma_known_games(games: Seq<Seq<char>>, from: nat)
    ensures
        first_unknown_game(games, from) is None <==> forall|i: int|
            from <= i < games.len() ==> profile_names().contains(#[trigger] games[i]),
    decreases games.len() - from,
{
    if from < games.len() {
        lemma_known_games(games, from + 1);
        if !profile_names().contains(games[from as int]) {
            assert(from <= from < games.len());
        }
    }
}

/// A rule is faulted for its games where one of them is unknown, and only there.
pub proof fn a_rule_is_faulted_for_an_unknown_game(
    section: Seq<char>,
    index: nat,
    source_games: Seq<Seq<char>>,
    target_games: Seq<Seq<char>>,
)
    ensures
        games_fault(section, index, source_games, target_games) is None <==> known_games(
            source_games,
        ) && known_games(target_games),
{
    lemma_known_games(source_games, 0);
    lemma_known_games(target_games, 0);
}

proof fn lemma_no_covered_fault(groups: Seq<Seq<char>>, from: nat)
    requires
        first_covered_fault(groups, from) is None,
    ensures
        forall|i: int|
            from <= i < groups.len() ==> covered_fault(groups, i) is None && (#[trigger] groups[i])
                == groups[i],
    decreases groups.len() - from,
{
    if from < groups.len() {
        lemma_no_covered_fault(groups, from + 1);
    }
}

proof fn lemma_no_field_alias_fault(rules: Seq<FieldAliasRule>, from: nat, i: int)
    requires
        first_field_alias_fault(rules, from) is None,
        from <= i < rules.len(),
    ensures
        field_alias_fault(rules[i], i) is None,
    decreases rules.len() - from,
{
    if from < i {
        lemma_no_field_alias_fault(rules, from + 1, i);
    }
}

proof fn lemma_no_group_alias_fault(rules: Seq<GroupAliasRule>, from: nat, i: int)
    requires
        first_group_alias_fault(rules, from) is None,
        from <= i < rules.len(),
    ensures
        group_alias_fault(rules[i], i) is None,
    decreases rules.len() - from,
{
    if from < i {
        lemma_no_group_alias_fault(rules, from + 1, i);
    }
}

proof fn lemma_no_struct_mapping_fault(rules: Seq<StructMappingRule>, from: nat, i: int)
    requires
        first_struct_mapping_fault(rules, from) is None,
        from <= i < rules.len(),
    ensures
        struct_mapping_fault(rules[i], i) is None,
    decreases rules.len() - from,
{
    if from < i {
        lemma_no_struct_mapping_fault(rules, from + 1, i);
    }
}

proof fn lemma_no_incompatible_pair_fault(rules: Seq<IncompatiblePairRule>, from: nat, i: int)
    requires
        first_incompatible_pair_fault(rules, from) is None,
        from <= i < rules.len(),
    ensures
        incompatible_pair_fault(rules[i], i) is None,
    decreases rules.len() - from,
{
    if from < i {
        lemma_no_incompatible_pair_fault(rules, from + 1, i);
    }
}

proof fn lemma_no_unusable_schema_fault(rules: Seq<UnusableSchemaRule>, from: nat, i: int)
    requires
        first_unusable_schema_fault(rules, from) is None,
        from <= i < rules.len(),
    ensures
        unusable_schema_fault(rules[i], i) is None,
    decreases rules.len() - from,
{
    if from < i {
        lemma_no_unusable_schema_fault(rules, from + 1, i);
    }
}

proof fn lemma_no_option_alias_fault(rules: Seq<OptionAliasRule>, from: nat, i: int)
    requires
        first_option_alias_fault(rules, from) is None,
        from <= i < rules.len(),
    ensures
        option_alias_fault(rules[i], i) is None,
    decreases rules.len() - from,
{
    if from < i {
        lemma_no_option_alias_fault(rules, from + 1, i);
    }
}

proof fn lemma_no_drop_fault(section: Seq<char>, rules: Seq<ReferenceDropRule>, from: nat, i: int)
    requires
        first_drop_fault(section, rules, from) is None,
        from <= i < rules.len(),
    ensures
        drop_fault(section, rules[i], i) is None,
    decreases rules.len() - from,
{
    if from < i {
        lemma_no_drop_fault(section, rules, from + 1, i);
    }
}

/// The groups that a catalog without a fault covers have names, and no two the same.
pub proof fn covered_groups_are_named_once(c: ConversionMappingCatalog, i: int, j: int)
    requires
        catalog_fault(c) is None,
        0 <= i < c.covered_groups@.len(),
        0 <= j < i,
    ensures
        lowered(trimmed(c.covered_groups@[i]@)).len() > 0,
        lowered(trimmed(c.covered_groups@[i]@)) != lowered(trimmed(c.covered_groups@[j]@)),
{
    let groups = texts(c.covered_groups@);
    lemma_no_covered_fault(groups, 0);
    assert(groups[i] == c.covered_groups@[i]@);
    assert(groups[j] == c.covered_groups@[j]@);
    assert(covered_fault(groups, i) is None);
    assert(lowered(trimmed(groups[j])) != lowered(trimmed(groups[i])));
}

/// Every rule on names in a catalog without a fault names a group, two names and known
/// games, and identifiers that can be read; one that renames a group changes its name and
/// says why.
pub proof fn every_rule_on_names_is_whole(c: ConversionMappingCatalog, i: int)
    requires
        catalog_fault(c) is None,
    ensures
        c.version == 1,
        c.coverage@ == "all_supported_groups"@,
        0 <= i < c.field_aliases@.len() ==> {
            let rule = c.field_aliases@[i];
            &&& !blank(rule.group@)
            &&& normal_option(rule.source@).len() > 0
            &&& normal_option(rule.target@).len() > 0
            &&& known_games(texts(rule.source_games@))
            &&& known_games(texts(rule.target_games@))
            &&& rule.source_struct_guid matches Some(text) ==> guid_in(text@) is Some
            &&& rule.target_struct_guid matches Some(text) ==> guid_in(text@) is Some
        },
        0 <= i < c.option_aliases@.len() ==> {
            let rule = c.option_aliases@[i];
            &&& !blank(rule.group@)
            &&& normal_option(rule.field@).len() > 0
            &&& normal_option(rule.source@).len() > 0
            &&& normal_option(rule.target@).len() > 0
            &&& known_games(texts(rule.source_games@))
            &&& known_games(texts(rule.target_games@))
        },
        0 <= i < c.group_aliases@.len() ==> {
            let rule = c.group_aliases@[i];
            &&& rule.source_games@.len() > 0
            &&& rule.target_games@.len() > 0
            &&& known_games(texts(rule.source_games@))
            &&& known_games(texts(rule.target_games@))
            &&& normal_option(rule.source@) != normal_option(rule.target@)
            &&& !blank(rule.reason@)
        },
{
    if 0 <= i < c.field_aliases@.len() {
        let rule = c.field_aliases@[i];
        lemma_no_field_alias_fault(c.field_aliases@, 0, i);
        a_rule_is_faulted_for_an_unknown_game(
            "field_aliases"@,
            i as nat,
            texts(rule.source_games@),
            texts(rule.target_games@),
        );
    }
    if 0 <= i < c.option_aliases@.len() {
        let rule = c.option_aliases@[i];
        lemma_no_option_alias_fault(c.option_aliases@, 0, i);
        a_rule_is_faulted_for_an_unknown_game(
            "option_aliases"@,
            i as nat,
            texts(rule.source_games@),
            texts(rule.target_games@),
        );
    }
    if 0 <= i < c.group_aliases@.len() {
        let rule = c.group_aliases@[i];
        lemma_no_group_alias_fault(c.group_aliases@, 0, i);
        a_rule_is_faulted_for_an_unknown_game(
            "group_aliases"@,
            i as nat,
            texts(rule.source_games@),
            texts(rule.target_games@),
        );
    }
}

/// Games that a rule names: some, and known ones.
pub open spec fn names_games(games: Seq<String>) -> bool {
    games.len() > 0 && known_games(texts(games))
}

/// Whether a rule that lets something go is whole.
pub open spec fn whole_drop(rule: ReferenceDropRule) -> bool {
    &&& !blank(rule.group@)
    &&& names_games(rule.source_games@)
    &&& names_games(rule.target_games@)
    &&& field_key(rule.source_path@).len() > 0
    &&& !blank(rule.reason@)
}

proof fn lemma_whole_drop(section: Seq<char>, rules: Seq<ReferenceDropRule>, i: int)
    requires
        first_drop_fault(section, rules, 0) is None,
        0 <= i < rules.len(),
    ensures
        whole_drop(rules[i]),
{
    lemma_no_drop_fault(section, rules, 0, i);
    a_rule_is_faulted_for_an_unknown_game(
        section,
        i as nat,
        texts(rules[i].source_games@),
        texts(rules[i].target_games@),
    );
}

/// Every other rule in a catalog without a fault names its group and known games, and those
/// that refuse something or let it go say what and why.
pub proof fn every_rule_on_losses_is_whole(c: ConversionMappingCatalog, i: int)
    requires
        catalog_fault(c) is None,
    ensures
        0 <= i < c.struct_mappings@.len() ==> {
            let rule = c.struct_mappings@[i];
            &&& !blank(rule.group@)
            &&& names_games(rule.source_games@)
            &&& names_games(rule.target_games@)
            &&& rule.source_path@.len() > 0 ==> !pieces(rule.source_path@, '/').contains(
                Seq::<char>::empty(),
            )
            &&& rule.target_path@.len() > 0 ==> !pieces(rule.target_path@, '/').contains(
                Seq::<char>::empty(),
            )
        },
        0 <= i < c.incompatible_pairs@.len() ==> {
            let rule = c.incompatible_pairs@[i];
            &&& !blank(rule.group@)
            &&& names_games(rule.source_games@)
            &&& names_games(rule.target_games@)
            &&& !blank(rule.reason@)
        },
        0 <= i < c.unusable_schemas@.len() ==> {
            let rule = c.unusable_schemas@[i];
            &&& !blank(rule.group@)
            &&& names_games(rule.games@)
            &&& !blank(rule.reason@)
        },
        0 <= i < c.reference_drops@.len() ==> whole_drop(c.reference_drops@[i]),
        0 <= i < c.accepted_field_drops@.len() ==> whole_drop(c.accepted_field_drops@[i]),
        0 <= i < c.accepted_payload_drops@.len() ==> whole_drop(c.accepted_payload_drops@[i]),
{
    if 0 <= i < c.struct_mappings@.len() {
        let rule = c.struct_mappings@[i];
        lemma_no_struct_mapping_fault(c.struct_mappings@, 0, i);
        a_rule_is_faulted_for_an_unknown_game(
            "struct_mappings"@,
            i as nat,
            texts(rule.source_games@),
            texts(rule.target_games@),
        );
    }
    if 0 <= i < c.incompatible_pairs@.len() {
        let rule = c.incompatible_pairs@[i];
        lemma_no_incompatible_pair_fault(c.incompatible_pairs@, 0, i);
        a_rule_is_faulted_for_an_unknown_game(
            "incompatible_pairs"@,
            i as nat,
            texts(rule.source_games@),
            texts(rule.target_games@),
        );
    }
    if 0 <= i < c.unusable_schemas@.len() {
        let rule = c.unusable_schemas@[i];
        lemma_no_unusable_schema_fault(c.unusable_schemas@, 0, i);
        a_rule_is_faulted_for_an_unknown_game(
            "unusable_schemas"@,
            i as nat,
            texts(rule.games@),
            texts(rule.games@),
        );
    }
    if 0 <= i < c.reference_drops@.len() {
        lemma_whole_drop("reference_drops"@, c.reference_drops@, i);
    }
    if 0 <= i < c.accepted_field_drops@.len() {
        lemma_whole_drop("accepted_field_drops"@, c.accepted_field_drops@, i);
    }
    if 0 <= i < c.accepted_payload_drops@.len() {
        lemma_whole_drop("accepted_payload_drops"@, c.accepted_payload_drops@, i);
    }
}

// ---------------------------------------------------------------------------
// The rule that decides
// ---------------------------------------------------------------------------
/// A group cannot cross between two games for the reason of the first rule that names it
/// and them, in either direction.
pub proof fn the_first_incompatible_pair_decides(
    rules: Seq<IncompatiblePairRule>,
    group: Seq<char>,
    source_game: Seq<char>,
    target_game: Seq<char>,
    from: nat,
    k: nat,
)
    requires
        from <= k <= rules.len(),
        forall|j: int|
            from <= j < k ==> incompatible_reason(
                #[trigger] rules[j],
                group,
                source_game,
                target_game,
            ) is None,
    ensures
        k < rules.len() && same_ignoring_case(rules[k as int].group@, group) && in_scope(
            texts(rules[k as int].source_games@),
            source_game,
        ) && in_scope(texts(rules[k as int].target_games@), target_game)
            ==> first_incompatible_reason(rules, group, source_game, target_game, from) == Some(
            rules[k as int].reason@,
        ),
        k < rules.len() && same_ignoring_case(rules[k as int].group@, group) && in_scope(
            texts(rules[k as int].source_games@),
            target_game,
        ) && in_scope(texts(rules[k as int].target_games@), source_game)
            ==> first_incompatible_reason(rules, group, source_game, target_game, from) == Some(
            rules[k as int].reason@,
        ),
        k == rules.len() ==> first_incompatible_reason(
            rules,
            group,
            source_game,
            target_game,
            from,
        ) is None,
    decreases k - from,
{
    if from < k {
        assert(incompatible_reason(rules[from as int], group, source_game, target_game) is None);
        the_first_incompatible_pair_decides(
            rules,
            group,
            source_game,
            target_game,
            from + 1,
            k,
        );
    }
}

/// A group's schema is of no use in a game for the reason of the first rule that names both.
pub proof fn the_first_unusable_schema_decides(
    rules: Seq<UnusableSchemaRule>,
    group: Seq<char>,
    game: Seq<char>,
    from: nat,
    k: nat,
)
    requires
        from <= k <= rules.len(),
        forall|j: int|
            from <= j < k ==> unusable_reason(#[trigger] rules[j], group, game) is None,
    ensures
        k < rules.len() && same_ignoring_case(rules[k as int].group@, group) && in_scope(
            texts(rules[k as int].games@),
            game,
        ) ==> first_unusable_reason(rules, group, game, from) == Some(rules[k as int].reason@),
        k == rules.len() ==> first_unusable_reason(rules, group, game, from) is None,
    decreases k - from,
{
    if from < k {
        assert(unusable_reason(rules[from as int], group, game) is None);
        the_first_unusable_schema_decides(rules, group, game, from + 1, k);
    }
}

/// A rule on payloads relates the two definitions it names, whichever of them is the
/// source's, and no others.
pub proof fn a_payload_rule_relates_its_two_definitions(
    rule: PayloadAliasRule,
    group: Seq<char>,
    source_game: Seq<char>,
    target_game: Seq<char>,
    source: Seq<char>,
    target: Seq<char>,
)
    ensures
        payload_rule_allows(rule, group, source_game, target_game, source, target)
            == payload_rule_allows(rule, group, target_game, source_game, target, source),
        payload_rule_allows(rule, group, source_game, target_game, source, target) ==> (source
            == rule.source_definition@ && target == rule.target_definition@) || (source
            == rule.target_definition@ && target == rule.source_definition@),
{
}

/// A rule on fields relates the two names it gives, in its group, whichever of them is the
/// source's, and no others.
pub proof fn a_field_rule_relates_its_two_names(
    rule: FieldAliasRule,
    group: Seq<char>,
    source_game: Seq<char>,
    target_game: Seq<char>,
    source_guid: Seq<u8>,
    target_guid: Seq<u8>,
    source: Seq<char>,
    target: Seq<char>,
)
    requires
        field_rule_relates(
            rule,
            group,
            source_game,
            target_game,
            source_guid,
            target_guid,
            source,
            target,
        ),
    ensures
        same_ignoring_case(rule.group@, group),
        (normal_option(source) == normal_option(rule.source@) && normal_option(target)
            == normal_option(rule.target@)) || (normal_option(source) == normal_option(rule.target@)
            && normal_option(target) == normal_option(rule.source@)),
        rule.source_struct_guid matches Some(text) ==> (guid_in(text@) matches Some(g) ==> g
            == source_guid || g == target_guid),
        rule.target_struct_guid matches Some(text) ==> (guid_in(text@) matches Some(g) ==> g
            == source_guid || g == target_guid),
{
}

}
