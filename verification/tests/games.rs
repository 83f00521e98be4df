//! Which games convert to which, and by which routes.
use blam_tags::games::{
    CAMPAIGN_EVOLVED_GAME, CAMPAIGN_EVOLVED_PARENT, classic_conversion_games, conversion_chain,
    conversion_games, conversion_pair_supported, conversion_profiles, conversion_routes,
    conversion_targets_for, subsequences, unsupported_pair_message,
};

fn owned(list: &[&str]) -> Vec<String> {
    list.iter().map(|s| (*s).to_owned()).collect()
}

#[test]
fn routes_walk_the_generation_chain_shortest_first() {
    let routes = conversion_routes("halo2_mcc", "haloreach_mcc");
    assert_eq!(routes[0], vec!["halo2_mcc", "haloreach_mcc"]);
    assert_eq!(routes[1], vec!["halo2_mcc", "halo3_mcc", "haloreach_mcc"]);
    let chain = conversion_chain();
    let index = |game: &str| chain.iter().position(|e| e == game).unwrap();
    for route in &routes {
        let positions: Vec<usize> = route.iter().map(|game| index(game)).collect();
        assert!(positions.windows(2).all(|pair| pair[0] < pair[1]), "{route:?} doubles back");
        assert!(
            positions.iter().all(|p| *p >= index("halo2_mcc") && *p <= index("haloreach_mcc")),
            "{route:?} leaves the span between its endpoints"
        );
    }
    let down = conversion_routes("halo4_mcc", "halo2_mcc");
    assert_eq!(down[0], vec!["halo4_mcc", "halo2_mcc"]);
    assert!(
        down.iter().any(|route| route
            == &vec![
                "halo4_mcc".to_owned(),
                "haloreach_mcc".to_owned(),
                "halo3_mcc".to_owned(),
                "halo2_mcc".to_owned()
            ]),
        "{down:?}"
    );
    assert_eq!(
        conversion_routes("halo3_mcc", "halo3odst_mcc"),
        vec![vec!["halo3_mcc", "halo3odst_mcc"]]
    );
    assert_eq!(
        conversion_routes(CAMPAIGN_EVOLVED_GAME, CAMPAIGN_EVOLVED_PARENT),
        vec![vec![CAMPAIGN_EVOLVED_GAME, CAMPAIGN_EVOLVED_PARENT]]
    );
    assert!(conversion_routes("halo3_mcc", CAMPAIGN_EVOLVED_GAME).is_empty());
    assert!(conversion_routes("haloce_mcc", "halo2amp_mcc")
        .iter()
        .all(|route| !route.iter().any(|game| game == CAMPAIGN_EVOLVED_GAME)));
}

#[test]
fn scripts_are_only_stripped_when_the_engine_changes() {
    assert!(!conversion_pair_supported("halo3_mcc", "halo3_mcc"));
}

#[test]
fn campaign_evolved_converts_only_with_reach() {
    assert!(conversion_pair_supported("haloreach_mcc", CAMPAIGN_EVOLVED_GAME));
    assert!(conversion_pair_supported(CAMPAIGN_EVOLVED_GAME, "haloreach_mcc"));
    for other in ["halo3_mcc", "halo3odst_mcc", "halo4_mcc", "halo2amp_mcc"] {
        assert!(!conversion_pair_supported(other, CAMPAIGN_EVOLVED_GAME), "{other}");
        assert!(!conversion_pair_supported(CAMPAIGN_EVOLVED_GAME, other));
    }
    assert!(!conversion_pair_supported(CAMPAIGN_EVOLVED_GAME, CAMPAIGN_EVOLVED_GAME));
    let message = unsupported_pair_message("halo3_mcc", CAMPAIGN_EVOLVED_GAME);
    assert!(message.contains("haloreach_mcc"), "{message}");
    assert!(conversion_pair_supported("halo3_mcc", "haloreach_mcc"));
    assert!(conversion_pair_supported("halo4_mcc", "halo2amp_mcc"));
}

#[test]
fn support_is_symmetric_and_never_with_itself() {
    let mut all = conversion_profiles();
    all.push("no such game".to_owned());
    for a in &all {
        assert!(!conversion_pair_supported(a, a));
        for b in &all {
            assert_eq!(conversion_pair_supported(a, b), conversion_pair_supported(b, a));
        }
    }
}

#[test]
fn targets_are_the_supported_profiles_in_order() {
    assert_eq!(conversion_targets_for(CAMPAIGN_EVOLVED_GAME), vec![CAMPAIGN_EVOLVED_PARENT]);
    let targets = conversion_targets_for("halo3_mcc");
    assert!(targets.contains(&"haloce_mcc".to_owned()));
    assert!(!targets.contains(&"halo3_mcc".to_owned()));
    assert!(!targets.contains(&CAMPAIGN_EVOLVED_GAME.to_owned()));
    assert!(conversion_targets_for("no such game").is_empty());
}

#[test]
fn subsequences_keep_their_order() {
    let items = owned(&["a", "b", "c"]);
    assert_eq!(subsequences(&items, 0), vec![Vec::<String>::new()]);
    assert_eq!(
        subsequences(&items, 2),
        vec![owned(&["a", "b"]), owned(&["a", "c"]), owned(&["b", "c"])]
    );
    assert_eq!(subsequences(&items, 3), vec![items.clone()]);
    assert!(subsequences(&items, 4).is_empty());
}

#[test]
fn an_unknown_pair_is_refused_in_general_terms() {
    assert_eq!(
        unsupported_pair_message("no such game", "halo3_mcc"),
        "The selected source or target profile is not supported by this converter"
    );
}

#[test]
fn every_hop_of_every_route_is_supported() {
    for route in conversion_routes("haloce_mcc", "halo2amp_mcc") {
        assert!(route.windows(2).all(|hop| conversion_pair_supported(&hop[0], &hop[1])));
    }
    let lengths: Vec<usize> =
        conversion_routes("haloce_mcc", "halo2amp_mcc").iter().map(Vec::len).collect();
    assert!(lengths.windows(2).all(|pair| pair[0] <= pair[1]));
    assert_eq!(lengths.len(), 32);
}

#[test]
fn the_common_base_converts_among_itself() {
    let games = conversion_games();
    assert_eq!(games.len(), 5);
    for a in &games {
        for b in &games {
            assert_eq!(conversion_pair_supported(a, b), a != b);
        }
    }
    assert_eq!(classic_conversion_games(), vec!["haloce_mcc", "halo2_mcc"]);
}

#[test]
fn no_route_leads_from_a_game_to_itself() {
    for game in conversion_profiles() {
        assert!(conversion_routes(&game, &game).is_empty());
        assert_eq!(
            unsupported_pair_message(&game, &game),
            "Choose a different target game profile"
        );
    }
}
