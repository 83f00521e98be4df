//! Keys of fields, names of options, and paths.
use blam_tags::keys::{
    PathComponent, clean_field_key, field_names_match, is_ancestor_path, join_path,
    normalize_conversion_path, normalize_option_name, option_name_aliases, option_names_match,
    path_of_element,
};

#[test]
fn enum_and_flag_option_aliases_match_semantically() {
    assert!(option_names_match(
        "particle correlation 1{particle random 1}",
        "particle correlation 1"
    ));
    assert!(option_names_match(
        "resolved manually{resolved in postprocess|required by game}",
        "required by game"
    ));
    assert!(!option_names_match("particle correlation 1", "particle correlation 2"));
    assert!(option_names_match(" ", " "));
    assert!(option_names_match(
        "spew#fires its primary action barrel whenever the trigger is down",
        "spew"
    ));
    assert!(field_names_match("coefficient*!", "spherical harmonic{coefficient}*!"));
    assert!(!field_names_match("acceleration", "deceleration"));
}

#[test]
fn editor_order_annotations_do_not_alias_unrelated_fields() {
    assert!(field_names_match("animations*|ABCDCC", "animations*|ABCDCC"));
    assert!(!field_names_match(
        "animations*|ABCDCC",
        "sound references|ABCDCC!*#Legacy field"
    ));
}

#[test]
fn keys_drop_indices_markers_and_case() {
    assert_eq!(clean_field_key("Skeleton Nodes[7]"), "skeleton nodes");
    assert_eq!(clean_field_key("decal name^"), "decal name");
    assert_eq!(clean_field_key("node count*!"), "node count");
    assert_eq!(clean_field_key("a[0]/B[12]/c"), "a/b/c");
}

#[test]
fn matching_names_goes_both_ways() {
    for (a, b) in [
        ("coefficient", "spherical harmonic{coefficient}"),
        ("acceleration", "deceleration"),
        ("x", "X"),
    ] {
        assert_eq!(field_names_match(a, b), field_names_match(b, a));
        assert_eq!(option_names_match(a, b), option_names_match(b, a));
        assert!(field_names_match(a, a));
    }
}

#[test]
fn a_path_covers_itself_and_what_is_inside() {
    assert!(is_ancestor_path("a/b", "a/b"));
    assert!(is_ancestor_path("a/b", "a[3]/b[0]/c"));
    assert!(!is_ancestor_path("a/b", "a/bc"));
    assert!(!is_ancestor_path("a/b", "a"));
    assert!(!is_ancestor_path("", "a"));
}

#[test]
fn paths_are_joined_by_a_slash() {
    assert_eq!(join_path("", "a"), "a");
    assert_eq!(join_path("a", "b"), "a/b");
    assert_eq!(path_of_element("a", 12), "a[12]");
}

#[test]
fn options_are_normalized() {
    assert_eq!(normalize_option_name(&normalize_option_name(" Fire At  Will#x")),
        normalize_option_name(" Fire At  Will#x"));
    let aliases = option_name_aliases("a{b|c}");
    assert!(aliases.contains(&"a".to_owned()));
    assert!(aliases.contains(&"b".to_owned()));
    assert!(aliases.contains(&"c".to_owned()));
}

fn normal(name: &str) -> PathComponent {
    PathComponent::Normal(name.to_owned())
}

#[test]
fn a_path_is_normalized_once_and_for_all() {
    let path = vec![
        PathComponent::RootDir,
        PathComponent::ParentDir,
        normal("a"),
        PathComponent::CurDir,
        normal("b"),
        PathComponent::ParentDir,
        normal("c"),
    ];
    let once = normalize_conversion_path(&path);
    assert_eq!(once, vec![PathComponent::RootDir, normal("a"), normal("c")]);
    assert_eq!(normalize_conversion_path(&once), once);
    assert_eq!(
        normalize_conversion_path(&vec![PathComponent::ParentDir, normal("a")]),
        vec![normal("a")]
    );
}
