//! Routes over several games, and what is looked up by name on the way.
use crate::convert::analysis::{ConversionDefinitions, game_place};
use crate::convert::environment::GameDefinitions;
use crate::convert::report::IssueView;
use crate::convert::routing::{
    FileLayer, RoutedView, TemplateSource, hop_name, marked, route_run, routes_run,
};
use crate::file::FileView;
use crate::json::member_in;
use crate::text::{begins, ends};
use vstd::prelude::*;

verus! {

// ---------------------------------------------------------------------------
// Looking up
// ---------------------------------------------------------------------------
/// A game is found by its name: the first that has it.
pub proof fn the_first_game_of_a_name_is_found(
    games: Seq<GameDefinitions>,
    game: Seq<char>,
    from: nat,
)
    ensures
        match game_place(games, game, from) {
            Some(k) => from <= k < games.len() && games[k as int].game@ == game && forall|j: int|
                from <= j < k ==> (#[trigger] games[j]).game@ != game,
            None => forall|j: int| from <= j < games.len() ==> (#[trigger] games[j]).game@ != game,
        },
    decreases games.len() - from,
{
    if from < games.len() && games[from as int].game@ != game {
        the_first_game_of_a_name_is_found(games, game, from + 1);
    }
}

/// A member of an object is found by its key: the first that has it.
pub proof fn the_first_member_of_a_key_is_found(
    members: Seq<(Seq<char>, Seq<u8>)>,
    key: Seq<char>,
    k: int,
)
    ensures
        0 <= k < members.len() && members[k].0 == key && (forall|j: int|
            0 <= j < k ==> (#[trigger] members[j]).0 != key) ==> member_in(members, key) == Some(
            members[k].1,
        ),
        (forall|j: int| 0 <= j < members.len() ==> (#[trigger] members[j]).0 != key) ==> member_in(
            members,
            key,
        ) is None,
    decreases members.len(),
{
    if members.len() > 0 && members[0].0 != key {
        let rest = members.skip(1);
        the_first_member_of_a_key_is_found(rest, key, k - 1);
        if forall|j: int| 0 <= j < members.len() ==> (#[trigger] members[j]).0 != key {
            assert forall|j: int| 0 <= j < rest.len() implies (#[trigger] rest[j]).0 != key by {
                assert(rest[j] == members[j + 1]);
            }
        }
        if 0 <= k < members.len() && members[k].0 == key && (forall|j: int|
            0 <= j < k ==> (#[trigger] members[j]).0 != key) {
            assert(rest[k - 1] == members[k]);
            assert forall|j: int| 0 <= j < k - 1 implies (#[trigger] rest[j]).0 != key by {
                assert(rest[j] == members[j + 1]);
            }
        }
    } else if members.len() > 0 {
        assert(members[0].0 == key);
    }
}

// ---------------------------------------------------------------------------
// Routes
// ---------------------------------------------------------------------------
/// Each report of a hop keeps its kind, its path and its words, in their order, with the
/// hop named before them.
pub proof fn every_report_of_a_hop_names_the_hop(
    issues: Seq<IssueView>,
    from: Seq<char>,
    to: Seq<char>,
    i: int,
)
    requires
        0 <= i < issues.len(),
    ensures
        marked(issues, from, to).len() == issues.len(),
        marked(issues, from, to)[i].kind == issues[i].kind,
        marked(issues, from, to)[i].path == issues[i].path,
        ends(marked(issues, from, to)[i].message, issues[i].message),
        begins(marked(issues, from, to)[i].message, "["@ + from),
{
    let lead = "["@ + hop_name(from, to) + "] "@;
    let own = issues[i].message;
    let message = lead + own;
    assert(message.skip(message.len() - own.len()) =~= own);
    let start = "["@ + from;
    assert(message.take(start.len() as int) =~= start);
}

/// The routes are tried in their order, each from the source as it was: the first that
/// leads to the end is the one whose tag is taken.
pub proof fn the_first_route_that_leads_there_is_taken<T: TemplateSource>(
    definitions: ConversionDefinitions,
    templates: T,
    files: FileLayer,
    source: FileView,
    s: RoutedView,
    k: nat,
)
    requires
        s.at <= k < s.routes.len(),
        s.input == source,
        s.hop == 0,
        s.issues == Seq::<IssueView>::empty(),
        route_run(
            definitions,
            templates,
            files,
            source,
            s.routes[k as int],
            0,
            Seq::empty(),
        ) is Ok,
        forall|j: int|
            s.at <= j < k ==> route_run(
                definitions,
                templates,
                files,
                source,
                #[trigger] s.routes[j],
                0,
                Seq::empty(),
            ) is Err,
    ensures
        routes_run(definitions, templates, files, source, s) == route_run(
            definitions,
            templates,
            files,
            source,
            s.routes[k as int],
            0,
            Seq::empty(),
        ),
    decreases k - s.at,
{
    if s.at < k {
        let tried = route_run(
            definitions,
            templates,
            files,
            source,
            s.routes[s.at as int],
            0,
            Seq::empty(),
        );
        assert(tried is Err);
        let next = s.refused(source, tried->Err_0);
        the_first_route_that_leads_there_is_taken(
            definitions,
            templates,
            files,
            source,
            next,
            k,
        );
    }
}

/// Where no route leads to the end the conversion is refused.
pub proof fn a_conversion_without_a_way_is_refused<T: TemplateSource>(
    definitions: ConversionDefinitions,
    templates: T,
    files: FileLayer,
    source: FileView,
    s: RoutedView,
)
    requires
        s.at <= s.routes.len(),
        s.input == source,
        s.hop == 0,
        s.issues == Seq::<IssueView>::empty(),
        forall|j: int|
            s.at <= j < s.routes.len() ==> route_run(
                definitions,
                templates,
                files,
                source,
                #[trigger] s.routes[j],
                0,
                Seq::empty(),
            ) is Err,
    ensures
        routes_run(definitions, templates, files, source, s) is Err,
    decreases s.routes.len() - s.at,
{
    if s.at < s.routes.len() {
        let tried = route_run(
            definitions,
            templates,
            files,
            source,
            s.routes[s.at as int],
            0,
            Seq::empty(),
        );
        assert(tried is Err);
        a_conversion_without_a_way_is_refused(
            definitions,
            templates,
            files,
            source,
            s.refused(source, tried->Err_0),
        );
    }
}

}
