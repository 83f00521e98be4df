//! The game profiles, the pairs of them that convert, and the routes between.
use crate::text::{concat3, concat5, contains_text, copy, copy_texts, lemma_texts_push, same, texts};
use vstd::prelude::*;

verus! {

/// The definitions-directory name for Campaign Evolved.
pub const CAMPAIGN_EVOLVED_GAME: &'static str = "haloce_evolved";

/// The profile Campaign Evolved's schemas descend from, and the only one it
/// converts with.
pub const CAMPAIGN_EVOLVED_PARENT: &'static str = "haloreach_mcc";

/// The five profiles of the reviewed common base.
pub open spec fn mcc_games() -> Seq<Seq<char>> {
    seq!["halo3_mcc"@, "halo3odst_mcc"@, "haloreach_mcc"@, "halo4_mcc"@, "halo2amp_mcc"@]
}

/// The profiles whose tags come in the classic container.
pub open spec fn classic_games() -> Seq<Seq<char>> {
    seq!["haloce_mcc"@, "halo2_mcc"@]
}

/// The engine generations in the order in which the tag formats descend.
///
/// Campaign Evolved is no generation: its schemas hang off Reach's, and nothing
/// passes through it.
pub open spec fn generation_chain() -> Seq<Seq<char>> {
    classic_games() + mcc_games()
}

/// Every profile that a tag may be converted to or from, in menu order.
pub open spec fn profile_names() -> Seq<Seq<char>> {
    generation_chain().push(CAMPAIGN_EVOLVED_GAME@)
}

/// The five profiles of the reviewed common base.
pub fn conversion_games() -> (r: Vec<String>)
    ensures
        texts(r@) == mcc_games(),
{
    let r: Vec<String> = vec![
        copy("halo3_mcc"),
        copy("halo3odst_mcc"),
        copy("haloreach_mcc"),
        copy("halo4_mcc"),
        copy("halo2amp_mcc"),
    ];
    assert(texts(r@) =~= mcc_games());
    r
}

/// The profiles whose tags come in the classic container.
pub fn classic_conversion_games() -> (r: Vec<String>)
    ensures
        texts(r@) == classic_games(),
{
    let r: Vec<String> = vec![copy("haloce_mcc"), copy("halo2_mcc")];
    assert(texts(r@) =~= classic_games());
    r
}

/// The engine generations in order.
pub fn conversion_chain() -> (r: Vec<String>)
    ensures
        texts(r@) == generation_chain(),
{
    let r: Vec<String> = vec![
        copy("haloce_mcc"),
        copy("halo2_mcc"),
        copy("halo3_mcc"),
        copy("halo3odst_mcc"),
        copy("haloreach_mcc"),
        copy("halo4_mcc"),
        copy("halo2amp_mcc"),
    ];
    assert(texts(r@) =~= generation_chain());
    r
}

/// Every profile that a tag may be converted to or from, in menu order.
pub fn conversion_profiles() -> (r: Vec<String>)
    ensures
        texts(r@) == profile_names(),
{
    let mut r: Vec<String> = conversion_chain();
    let last: String = copy(CAMPAIGN_EVOLVED_GAME);
    proof {
        lemma_texts_push(r@, last);
    }
    r.push(last);
    r
}

/// Whether the converter will attempt this ordered pair.
pub open spec fn pair_supported(source: Seq<char>, target: Seq<char>) -> bool {
    if source == target {
        false
    } else if source == CAMPAIGN_EVOLVED_GAME@ {
        target == CAMPAIGN_EVOLVED_PARENT@
    } else if target == CAMPAIGN_EVOLVED_GAME@ {
        source == CAMPAIGN_EVOLVED_PARENT@
    } else {
        generation_chain().contains(source) && generation_chain().contains(target)
    }
}

/// Whether the converter will attempt this ordered pair.
///
/// The profiles of the generation chain convert to each other in any direction.
/// Campaign Evolved pairs with Halo Reach alone, both ways.
pub fn conversion_pair_supported(source_game: &str, target_game: &str) -> (r: bool)
    ensures
        r == pair_supported(source_game@, target_game@),
{
    if same(source_game, target_game) {
        return false;
    }
    if same(source_game, CAMPAIGN_EVOLVED_GAME) {
        return same(target_game, CAMPAIGN_EVOLVED_PARENT);
    }
    if same(target_game, CAMPAIGN_EVOLVED_GAME) {
        return same(source_game, CAMPAIGN_EVOLVED_PARENT);
    }
    let chain: Vec<String> = conversion_chain();
    contains_text(&chain, source_game) && contains_text(&chain, target_game)
}

/// A pair converts both ways or not at all, and no profile converts to itself.
pub proof fn pair_support_is_symmetric_and_irreflexive(a: Seq<char>, b: Seq<char>)
    ensures
        pair_supported(a, b) == pair_supported(b, a),
        !pair_supported(a, a),
{
}

/// The names in `list` that `source` converts to.
pub open spec fn supported_of(source: Seq<char>, list: Seq<Seq<char>>) -> Seq<Seq<char>>
    decreases list.len(),
{
    if list.len() == 0 {
        Seq::empty()
    } else {
        let rest = supported_of(source, list.drop_last());
        if pair_supported(source, list.last()) {
            rest.push(list.last())
        } else {
            rest
        }
    }
}

/// The profiles a conversion from `source_game` may target, in menu order.
pub fn conversion_targets_for(source_game: &str) -> (r: Vec<String>)
    ensures
        texts(r@) == supported_of(source_game@, profile_names()),
{
    let profiles: Vec<String> = conversion_profiles();
    let ghost all = texts(profiles@);
    let mut r: Vec<String> = Vec::new();
    let mut i: usize = 0;
    assert(texts(r@) =~= supported_of(source_game@, all.take(0)));
    while i < profiles.len()
        invariant
            i <= profiles.len(),
            all == texts(profiles@),
            texts(r@) == supported_of(source_game@, all.take(i as int)),
        decreases profiles.len() - i,
    {
        assert(all.take(i + 1).drop_last() =~= all.take(i as int));
        if conversion_pair_supported(source_game, &profiles[i]) {
            let item: String = copy(&profiles[i]);
            proof {
                lemma_texts_push(r@, item);
            }
            r.push(item);
        }
        i = i + 1;
    }
    assert(all.take(i as int) =~= all);
    r
}

/// What a conversion may target are exactly the profiles it pairs with.
pub proof fn targets_are_the_supported_profiles(
    source: Seq<char>,
    list: Seq<Seq<char>>,
    target: Seq<char>,
)
    ensures
        supported_of(source, list).contains(target) <==> list.contains(target) && pair_supported(
            source,
            target,
        ),
    decreases list.len(),
{
    if list.len() > 0 {
        let init = list.drop_last();
        targets_are_the_supported_profiles(source, init, target);
        let rest = supported_of(source, init);
        assert(list =~= init.push(list.last()));
        assert(list.contains(target) <==> init.contains(target) || list.last() == target) by {
            if init.contains(target) {
                let k = choose|k: int| 0 <= k < init.len() && init[k] == target;
                assert(list[k] == target);
            }
            if list.last() == target {
                assert(list[list.len() - 1] == target);
            }
        }
        assert(rest.push(list.last()).contains(target) <==> rest.contains(target) || list.last()
            == target) by {
            let pushed = rest.push(list.last());
            if rest.contains(target) {
                let k = choose|k: int| 0 <= k < rest.len() && rest[k] == target;
                assert(pushed[k] == target);
            }
            if list.last() == target {
                assert(pushed[rest.len() as int] == target);
            }
        }
    }
}

// ---------------------------------------------------------------------------
// Routes
// ---------------------------------------------------------------------------
/// The views of a list of routes.
pub open spec fn route_views(v: Seq<Vec<String>>) -> Seq<Seq<Seq<char>>> {
    Seq::new(v.len(), |i: int| texts(v[i]@))
}

pub proof fn lemma_routes_push(v: Seq<Vec<String>>, r: Vec<String>)
    ensures
        route_views(v.push(r)) == route_views(v).push(texts(r@)),
{
    assert(route_views(v.push(r)) =~= route_views(v).push(texts(r@)));
}

/// `lists`, each with `head` put in front.
pub open spec fn each_after(head: Seq<char>, lists: Seq<Seq<Seq<char>>>) -> Seq<Seq<Seq<char>>> {
    Seq::new(lists.len(), |i: int| seq![head] + lists[i])
}

/// The order-preserving subsequences of `items` with exactly `count` elements.
pub open spec fn subsequences_of(items: Seq<Seq<char>>, count: nat) -> Seq<Seq<Seq<char>>>
    decreases items.len(),
{
    if count == 0 {
        seq![Seq::empty()]
    } else if items.len() < count {
        Seq::empty()
    } else {
        each_after(items[0], subsequences_of(items.skip(1), (count - 1) as nat)) + subsequences_of(
            items.skip(1),
            count,
        )
    }
}

/// The order-preserving subsequences of `items[from..]` with exactly `count`
/// elements.
fn subsequences_from(items: &Vec<String>, from: usize, count: usize) -> (r: Vec<Vec<String>>)
    requires
        from <= items.len(),
    ensures
        route_views(r@) == subsequences_of(texts(items@).skip(from as int), count as nat),
    decreases items.len() - from,
{
    let ghost rest = texts(items@).skip(from as int);
    let mut out: Vec<Vec<String>> = Vec::new();
    if count == 0 {
        let one: Vec<String> = Vec::new();
        proof {
            lemma_routes_push(out@, one);
        }
        out.push(one);
        assert(texts(one@) =~= Seq::<Seq<char>>::empty());
        assert(route_views(out@) =~= subsequences_of(rest, 0));
        return out;
    }
    if items.len() - from < count {
        assert(route_views(out@) =~= subsequences_of(rest, count as nat));
        return out;
    }
    assert(rest.skip(1) =~= texts(items@).skip(from + 1));
    let with: Vec<Vec<String>> = subsequences_from(items, from + 1, count - 1);
    let ghost withs = route_views(with@);
    let ghost after = each_after(rest[0], withs);
    let mut i: usize = 0;
    assert(route_views(out@) =~= after.take(0));
    while i < with.len()
        invariant
            i <= with.len(),
            from < items.len(),
            rest == texts(items@).skip(from as int),
            withs == route_views(with@),
            after == each_after(rest[0], withs),
            route_views(out@) == after.take(i as int),
        decreases with.len() - i,
    {
        let mut one: Vec<String> = Vec::new();
        one.push(copy(&items[from]));
        let mut tail: Vec<String> = copy_texts(&with[i]);
        let ghost tail_view = texts(tail@);
        one.append(&mut tail);
        assert(texts(one@) =~= seq![rest[0]] + tail_view);
        proof {
            lemma_routes_push(out@, one);
        }
        out.push(one);
        i = i + 1;
        assert(route_views(out@) =~= after.take(i as int));
    }
    assert(after.take(i as int) =~= after);
    let ghost first = out@;
    let mut without: Vec<Vec<String>> = subsequences_from(items, from + 1, count);
    let ghost second = without@;
    out.append(&mut without);
    assert(route_views(out@) =~= route_views(first) + route_views(second));
    out
}

/// Order-preserving subsequences of `items` of exactly `count` elements.
pub fn subsequences(items: &Vec<String>, count: usize) -> (r: Vec<Vec<String>>)
    ensures
        route_views(r@) == subsequences_of(texts(items@), count as nat),
{
    assert(texts(items@).skip(0) =~= texts(items@));
    subsequences_from(items, 0, count)
}

/// The first position of `name` in `list` at or behind `from`.
pub open spec fn position_from(list: Seq<Seq<char>>, name: Seq<char>, from: nat) -> Option<nat>
    decreases list.len() - from,
{
    if from >= list.len() {
        None
    } else if list[from as int] == name {
        Some(from)
    } else {
        position_from(list, name, from + 1)
    }
}

/// The position of a generation in the chain.
pub open spec fn chain_position(game: Seq<char>) -> Option<nat> {
    position_from(generation_chain(), game, 0)
}

fn position_of(list: &Vec<String>, name: &str) -> (r: Option<usize>)
    ensures
        match r {
            Some(p) => position_from(texts(list@), name@, 0) == Some(p as nat) && p < list.len(),
            None => position_from(texts(list@), name@, 0) is None,
        },
{
    let mut i: usize = 0;
    while i < list.len()
        invariant
            i <= list.len(),
            position_from(texts(list@), name@, 0) == position_from(texts(list@), name@, i as nat),
        decreases list.len() - i,
    {
        if same(&list[i], name) {
            return Some(i);
        }
        i = i + 1;
    }
    None
}

/// The generations strictly between two positions of the chain, in travel order.
pub open spec fn strictly_between(from: int, to: int) -> Seq<Seq<char>> {
    let chain = generation_chain();
    if from < to {
        chain.subrange(from + 1, to)
    } else {
        chain.subrange(to + 1, from).reverse()
    }
}

/// The copies of `list[from..to]`.
fn copy_range(list: &Vec<String>, from: usize, to: usize) -> (r: Vec<String>)
    requires
        from <= to <= list.len(),
    ensures
        texts(r@) == texts(list@).subrange(from as int, to as int),
{
    let mut r: Vec<String> = Vec::new();
    let mut i: usize = from;
    while i < to
        invariant
            from <= i <= to <= list.len(),
            texts(r@) == texts(list@).subrange(from as int, i as int),
        decreases to - i,
    {
        let item: String = copy(&list[i]);
        proof {
            lemma_texts_push(r@, item);
        }
        r.push(item);
        i = i + 1;
        assert(texts(r@) =~= texts(list@).subrange(from as int, i as int));
    }
    r
}

/// The copies of `list`, last first.
fn copy_reversed(list: &Vec<String>) -> (r: Vec<String>)
    ensures
        texts(r@) == texts(list@).reverse(),
{
    let mut r: Vec<String> = Vec::new();
    let mut i: usize = list.len();
    while i > 0
        invariant
            i <= list.len(),
            texts(r@) == texts(list@).reverse().take(list.len() - i),
        decreases i,
    {
        i = i - 1;
        let item: String = copy(&list[i]);
        proof {
            lemma_texts_push(r@, item);
        }
        r.push(item);
        assert(texts(r@) =~= texts(list@).reverse().take(list.len() - i));
    }
    assert(texts(r@) =~= texts(list@).reverse());
    r
}

/// A route from `source` over `stops` to `target`.
pub open spec fn route_over(
    source: Seq<char>,
    stops: Seq<Seq<char>>,
    target: Seq<char>,
) -> Seq<Seq<char>> {
    seq![source] + stops + seq![target]
}

/// Whether every hop of a route is a pair the converter will attempt.
pub open spec fn hops_supported(route: Seq<Seq<char>>) -> bool {
    forall|i: int| 0 <= i < route.len() - 1 ==> pair_supported(#[trigger] route[i], route[i + 1])
}

fn all_hops_supported(route: &Vec<String>) -> (r: bool)
    ensures
        r == hops_supported(texts(route@)),
{
    let ghost names = texts(route@);
    let mut i: usize = 0;
    while i < route.len() && i + 1 < route.len()
        invariant
            route.len() > 0 ==> i < route.len(),
            names == texts(route@),
            forall|j: int| 0 <= j < i ==> pair_supported(#[trigger] names[j], names[j + 1]),
        decreases route.len() - i,
    {
        if !conversion_pair_supported(&route[i], &route[i + 1]) {
            assert(!pair_supported(names[i as int], names[i + 1]));
            return false;
        }
        i = i + 1;
    }
    true
}

/// The routes over the stop lists `lists` whose hops are all supported.
pub open spec fn supported_routes(
    source: Seq<char>,
    target: Seq<char>,
    lists: Seq<Seq<Seq<char>>>,
) -> Seq<Seq<Seq<char>>>
    decreases lists.len(),
{
    if lists.len() == 0 {
        Seq::empty()
    } else {
        let rest = supported_routes(source, target, lists.drop_last());
        let route = route_over(source, lists.last(), target);
        if hops_supported(route) {
            rest.push(route)
        } else {
            rest
        }
    }
}

/// The routes with one to `most` stops out of `between`, fewest stops first.
pub open spec fn routes_up_to(
    source: Seq<char>,
    target: Seq<char>,
    between: Seq<Seq<char>>,
    most: nat,
) -> Seq<Seq<Seq<char>>>
    decreases most,
{
    if most == 0 {
        Seq::empty()
    } else {
        routes_up_to(source, target, between, (most - 1) as nat) + supported_routes(
            source,
            target,
            subsequences_of(between, most),
        )
    }
}

/// The direct route, where its pair is supported.
pub open spec fn direct_routes(source: Seq<char>, target: Seq<char>) -> Seq<Seq<Seq<char>>> {
    if pair_supported(source, target) {
        seq![seq![source, target]]
    } else {
        Seq::empty()
    }
}

/// Every route from `source` to `target`, shortest first. No game has one to itself.
pub open spec fn routes_between(source: Seq<char>, target: Seq<char>) -> Seq<Seq<Seq<char>>> {
    let direct = direct_routes(source, target);
    if source == target || source == CAMPAIGN_EVOLVED_GAME@ || target == CAMPAIGN_EVOLVED_GAME@ {
        direct
    } else {
        match (chain_position(source), chain_position(target)) {
            (Some(from), Some(to)) => {
                let between = strictly_between(from as int, to as int);
                direct + routes_up_to(source, target, between, between.len())
            },
            _ => direct,
        }
    }
}

/// Appends to `routes` the supported routes over the stop lists `lists`.
fn append_routes(
    routes: &mut Vec<Vec<String>>,
    source_game: &str,
    target_game: &str,
    lists: &Vec<Vec<String>>,
)
    ensures
        route_views(final(routes)@) == route_views(old(routes)@) + supported_routes(
            source_game@,
            target_game@,
            route_views(lists@),
        ),
{
    let ghost start = route_views(routes@);
    let ghost all = route_views(lists@);
    let mut i: usize = 0;
    assert(start + supported_routes(source_game@, target_game@, all.take(0)) =~= start);
    while i < lists.len()
        invariant
            i <= lists.len(),
            all == route_views(lists@),
            route_views(routes@) == start + supported_routes(
                source_game@,
                target_game@,
                all.take(i as int),
            ),
        decreases lists.len() - i,
    {
        assert(all.take(i + 1).drop_last() =~= all.take(i as int));
        let ghost rest = supported_routes(source_game@, target_game@, all.take(i as int));
        let mut route: Vec<String> = Vec::new();
        route.push(copy(source_game));
        let mut stops: Vec<String> = copy_texts(&lists[i]);
        let ghost stop_views = texts(stops@);
        route.append(&mut stops);
        route.push(copy(target_game));
        assert(texts(route@) =~= route_over(source_game@, stop_views, target_game@));
        if all_hops_supported(&route) {
            proof {
                lemma_routes_push(routes@, route);
                let view = texts(route@);
                assert((start + rest).push(view) =~= start + rest.push(view));
            }
            routes.push(route);
        }
        i = i + 1;
    }
    assert(all.take(i as int) =~= all);
}

/// Routes from `source_game` to `target_game`, shortest first.
///
/// The first entry is the direct pair, where it is allowed at all. Later entries
/// add one intermediate at a time, taken from the generation chain strictly
/// between the two endpoints. Campaign Evolved never routes.
///
/// A game has no route to itself, nothing lying between the two ends.
pub fn conversion_routes(source_game: &str, target_game: &str) -> (r: Vec<Vec<String>>)
    ensures
        route_views(r@) == routes_between(source_game@, target_game@),
{
    let mut routes: Vec<Vec<String>> = Vec::new();
    assert(route_views(routes@) =~= Seq::<Seq<Seq<char>>>::empty());
    if conversion_pair_supported(source_game, target_game) {
        let direct: Vec<String> = vec![copy(source_game), copy(target_game)];
        assert(texts(direct@) =~= seq![source_game@, target_game@]);
        proof {
            lemma_routes_push(routes@, direct);
        }
        routes.push(direct);
    }
    assert(route_views(routes@) =~= direct_routes(source_game@, target_game@));
    if same(source_game, target_game) || same(source_game, CAMPAIGN_EVOLVED_GAME) || same(
        target_game,
        CAMPAIGN_EVOLVED_GAME,
    ) {
        return routes;
    }
    let chain: Vec<String> = conversion_chain();
    let (from, to): (usize, usize) = match (
        position_of(&chain, source_game),
        position_of(&chain, target_game),
    ) {
        (Some(from), Some(to)) => (from, to),
        _ => {
            return routes;
        },
    };
    proof {
        lemma_position_names(generation_chain(), source_game@, 0);
        lemma_position_names(generation_chain(), target_game@, 0);
    }
    let between: Vec<String> = if from < to {
        copy_range(&chain, from + 1, to)
    } else {
        copy_reversed(&copy_range(&chain, to + 1, from))
    };
    let ghost stops = texts(between@);
    assert(stops == strictly_between(from as int, to as int));
    let ghost direct = route_views(routes@);
    let mut count: usize = 0;
    assert(direct + routes_up_to(source_game@, target_game@, stops, 0) =~= direct);
    while count < between.len()
        invariant
            count <= between.len(),
            stops == texts(between@),
            route_views(routes@) == direct + routes_up_to(
                source_game@,
                target_game@,
                stops,
                count as nat,
            ),
        decreases between.len() - count,
    {
        let ghost done = routes_up_to(source_game@, target_game@, stops, count as nat);
        let lists: Vec<Vec<String>> = subsequences(&between, count + 1);
        append_routes(&mut routes, source_game, target_game, &lists);
        count = count + 1;
        assert(route_views(routes@) =~= direct + routes_up_to(
            source_game@,
            target_game@,
            stops,
            count as nat,
        ));
    }
    routes
}

/// A found position holds the name.
pub proof fn lemma_position_names(list: Seq<Seq<char>>, name: Seq<char>, from: nat)
    ensures
        match position_from(list, name, from) {
            Some(p) => from <= p < list.len() && list[p as int] == name,
            None => forall|i: int| from <= i < list.len() ==> list[i] != name,
        },
    decreases list.len() - from,
{
    if from < list.len() && list[from as int] != name {
        lemma_position_names(list, name, from + 1);
    }
}

// ---------------------------------------------------------------------------
// What holds of every route
// ---------------------------------------------------------------------------
/// Whether `part` is `items` with some elements left out, order kept.
pub open spec fn is_subsequence(part: Seq<Seq<char>>, items: Seq<Seq<char>>) -> bool
    decreases items.len(),
{
    if part.len() == 0 {
        true
    } else if items.len() == 0 {
        false
    } else {
        ||| part[0] == items[0] && is_subsequence(part.skip(1), items.skip(1))
        ||| is_subsequence(part, items.skip(1))
    }
}

proof fn lemma_subsequence_is_no_longer(part: Seq<Seq<char>>, items: Seq<Seq<char>>)
    requires
        is_subsequence(part, items),
    ensures
        part.len() <= items.len(),
    decreases items.len(),
{
    if part.len() > 0 {
        if part[0] == items[0] && is_subsequence(part.skip(1), items.skip(1)) {
            lemma_subsequence_is_no_longer(part.skip(1), items.skip(1));
        } else {
            lemma_subsequence_is_no_longer(part, items.skip(1));
        }
    }
}

/// `subsequences` lists the order-preserving subsequences of the asked length,
/// all of them and nothing else.
pub proof fn subsequences_are_exactly_those_of_the_length(
    items: Seq<Seq<char>>,
    count: nat,
    part: Seq<Seq<char>>,
)
    ensures
        subsequences_of(items, count).contains(part) <==> part.len() == count && is_subsequence(
            part,
            items,
        ),
    decreases items.len(),
{
    let all = subsequences_of(items, count);
    if count == 0 {
        assert(all[0] == Seq::<Seq<char>>::empty());
        if part.len() == 0 {
            assert(part =~= all[0]);
        }
    } else if items.len() < count {
        if is_subsequence(part, items) {
            lemma_subsequence_is_no_longer(part, items);
        }
    } else {
        let rest = items.skip(1);
        let with = subsequences_of(rest, (count - 1) as nat);
        let without = subsequences_of(rest, count);
        let after = each_after(items[0], with);
        subsequences_are_exactly_those_of_the_length(rest, count, part);
        if part.len() > 0 {
            subsequences_are_exactly_those_of_the_length(rest, (count - 1) as nat, part.skip(1));
        }
        if all.contains(part) {
            let i = choose|i: int| 0 <= i < all.len() && all[i] == part;
            if i < after.len() {
                assert(part == seq![items[0]] + with[i]);
                assert(part.skip(1) =~= with[i]);
                assert(with.contains(part.skip(1)));
            } else {
                assert(without[i - after.len()] == part);
                assert(without.contains(part));
            }
        }
        if part.len() == count && is_subsequence(part, items) {
            if part[0] == items[0] && is_subsequence(part.skip(1), rest) {
                let i = choose|i: int| 0 <= i < with.len() && with[i] == part.skip(1);
                assert(after[i] =~= part);
                assert(all[i] == part);
            } else {
                let i = choose|i: int| 0 <= i < without.len() && without[i] == part;
                assert(all[after.len() + i] == part);
            }
        }
    }
}

proof fn lemma_supported_routes(
    source: Seq<char>,
    target: Seq<char>,
    lists: Seq<Seq<Seq<char>>>,
    route: Seq<Seq<char>>,
)
    ensures
        supported_routes(source, target, lists).contains(route) <==> hops_supported(route) && exists|
            i: int,
        |
            0 <= i < lists.len() && route == route_over(source, #[trigger] lists[i], target),
    decreases lists.len(),
{
    if lists.len() > 0 {
        let init = lists.drop_last();
        let rest = supported_routes(source, target, init);
        let last = route_over(source, lists.last(), target);
        lemma_supported_routes(source, target, init, route);
        let all = supported_routes(source, target, lists);
        if all.contains(route) {
            let i = choose|i: int| 0 <= i < all.len() && all[i] == route;
            if i < rest.len() {
                assert(rest.contains(route));
                let k = choose|k: int|
                    0 <= k < init.len() && route == route_over(source, #[trigger] init[k], target);
                assert(lists[k] == init[k]);
            } else {
                assert(lists[lists.len() - 1] == lists.last());
            }
        }
        if hops_supported(route) && exists|i: int|
            0 <= i < lists.len() && route == route_over(source, #[trigger] lists[i], target) {
            let k = choose|k: int|
                0 <= k < lists.len() && route == route_over(source, #[trigger] lists[k], target);
            if k < init.len() {
                assert(init[k] == lists[k]);
                let i = choose|i: int| 0 <= i < rest.len() && rest[i] == route;
                assert(all[i] == route);
            } else {
                assert(all[rest.len() as int] == route);
            }
        }
    }
}

/// Whether `route` leads over at least one and at most `most` stops taken, in
/// order, from `between`.
pub open spec fn leads_over(
    source: Seq<char>,
    target: Seq<char>,
    between: Seq<Seq<char>>,
    most: nat,
    route: Seq<Seq<char>>,
) -> bool {
    exists|stops: Seq<Seq<char>>|
        1 <= stops.len() <= most && #[trigger] is_subsequence(stops, between) && route
            == route_over(source, stops, target)
}

proof fn lemma_routes_up_to(
    source: Seq<char>,
    target: Seq<char>,
    between: Seq<Seq<char>>,
    most: nat,
    route: Seq<Seq<char>>,
)
    ensures
        routes_up_to(source, target, between, most).contains(route) <==> hops_supported(route)
            && leads_over(source, target, between, most, route),
    decreases most,
{
    if most > 0 {
        let fewer = (most - 1) as nat;
        let lists = subsequences_of(between, most);
        let a = routes_up_to(source, target, between, fewer);
        let b = supported_routes(source, target, lists);
        lemma_routes_up_to(source, target, between, fewer, route);
        lemma_supported_routes(source, target, lists, route);
        assert((a + b).contains(route) <==> a.contains(route) || b.contains(route)) by {
            if a.contains(route) {
                let i = choose|i: int| 0 <= i < a.len() && a[i] == route;
                assert((a + b)[i] == route);
            }
            if b.contains(route) {
                let i = choose|i: int| 0 <= i < b.len() && b[i] == route;
                assert((a + b)[a.len() + i] == route);
            }
            if (a + b).contains(route) {
                let i = choose|i: int| 0 <= i < (a + b).len() && (a + b)[i] == route;
                if i < a.len() {
                    assert(a[i] == route);
                } else {
                    assert(b[i - a.len()] == route);
                }
            }
        }
        if b.contains(route) {
            let i = choose|i: int|
                0 <= i < lists.len() && route == route_over(source, #[trigger] lists[i], target);
            subsequences_are_exactly_those_of_the_length(between, most, lists[i]);
            assert(lists.contains(lists[i]));
            assert(is_subsequence(lists[i], between));
        }
        if hops_supported(route) && leads_over(source, target, between, most, route) {
            let stops = choose|stops: Seq<Seq<char>>|
                1 <= stops.len() <= most && #[trigger] is_subsequence(stops, between) && route
                    == route_over(source, stops, target);
            if stops.len() == most {
                subsequences_are_exactly_those_of_the_length(between, most, stops);
                let i = choose|i: int| 0 <= i < lists.len() && lists[i] == stops;
                assert(route == route_over(source, lists[i], target));
            } else {
                assert(leads_over(source, target, between, fewer, route));
            }
        }
    }
}

/// The routes are exactly the direct pair, where it is supported, and every walk
/// along the chain over some of the generations strictly between the two ends
/// whose hops are all supported.
pub proof fn routes_are_exactly_the_supported_walks(
    source: Seq<char>,
    target: Seq<char>,
    from: nat,
    to: nat,
    route: Seq<Seq<char>>,
)
    requires
        source != target,
        chain_position(source) == Some(from),
        chain_position(target) == Some(to),
        source != CAMPAIGN_EVOLVED_GAME@,
        target != CAMPAIGN_EVOLVED_GAME@,
    ensures
        routes_between(source, target).contains(route) <==> {
            ||| pair_supported(source, target) && route == seq![source, target]
            ||| hops_supported(route) && leads_over(
                source,
                target,
                strictly_between(from as int, to as int),
                strictly_between(from as int, to as int).len(),
                route,
            )
        },
{
    let between = strictly_between(from as int, to as int);
    let direct = direct_routes(source, target);
    let others = routes_up_to(source, target, between, between.len());
    lemma_routes_up_to(source, target, between, between.len(), route);
    let all = direct + others;
    if direct.contains(route) {
        let i = choose|i: int| 0 <= i < direct.len() && direct[i] == route;
        assert(all[i] == route);
    }
    if others.contains(route) {
        let i = choose|i: int| 0 <= i < others.len() && others[i] == route;
        assert(all[direct.len() + i] == route);
    }
    if all.contains(route) {
        let i = choose|i: int| 0 <= i < all.len() && all[i] == route;
        if i < direct.len() {
            assert(direct[i] == route);
        } else {
            assert(others[i - direct.len()] == route);
        }
    }
    if pair_supported(source, target) {
        assert(direct[0] == seq![source, target]);
    }
}

/// A game has no route to itself, and is refused in words.
pub proof fn no_game_routes_to_itself(game: Seq<char>)
    ensures
        routes_between(game, game).len() == 0,
        refusal_of_pair(game, game) == "Choose a different target game profile"@,
{
}

/// Campaign Evolved never routes: the direct pair is all there is.
pub proof fn campaign_evolved_never_routes(source: Seq<char>, target: Seq<char>)
    requires
        source == CAMPAIGN_EVOLVED_GAME@ || target == CAMPAIGN_EVOLVED_GAME@,
    ensures
        routes_between(source, target) == direct_routes(source, target),
{
}

/// Whether no route stands before a shorter one, and none is longer than `most`.
pub open spec fn shortest_first(routes: Seq<Seq<Seq<char>>>) -> bool {
    forall|i: int, j: int|
        0 <= i <= j < routes.len() ==> (#[trigger] routes[i]).len() <= (#[trigger] routes[j]).len()
}

proof fn lemma_supported_lengths(
    source: Seq<char>,
    target: Seq<char>,
    between: Seq<Seq<char>>,
    count: nat,
    i: int,
)
    requires
        0 <= i < supported_routes(source, target, subsequences_of(between, count)).len(),
    ensures
        supported_routes(source, target, subsequences_of(between, count))[i].len() == count + 2,
{
    let lists = subsequences_of(between, count);
    let route = supported_routes(source, target, lists)[i];
    assert(supported_routes(source, target, lists).contains(route));
    lemma_supported_routes(source, target, lists, route);
    let k = choose|k: int|
        0 <= k < lists.len() && route == route_over(source, #[trigger] lists[k], target);
    assert(lists.contains(lists[k]));
    subsequences_are_exactly_those_of_the_length(between, count, lists[k]);
}

proof fn lemma_up_to_lengths(
    source: Seq<char>,
    target: Seq<char>,
    between: Seq<Seq<char>>,
    most: nat,
)
    ensures
        shortest_first(routes_up_to(source, target, between, most)),
        forall|i: int|
            0 <= i < routes_up_to(source, target, between, most).len() ==> 3 <= (
            #[trigger] routes_up_to(source, target, between, most)[i]).len() <= most + 2,
    decreases most,
{
    if most > 0 {
        let fewer = (most - 1) as nat;
        lemma_up_to_lengths(source, target, between, fewer);
        let a = routes_up_to(source, target, between, fewer);
        let b = supported_routes(source, target, subsequences_of(between, most));
        assert forall|i: int| 0 <= i < b.len() implies (#[trigger] b[i]).len() == most + 2 by {
            lemma_supported_lengths(source, target, between, most, i);
        }
    }
}

/// No route stands before a shorter one.
pub proof fn routes_come_shortest_first(source: Seq<char>, target: Seq<char>)
    ensures
        shortest_first(routes_between(source, target)),
{
    match (chain_position(source), chain_position(target)) {
        (Some(from), Some(to)) => {
            let between = strictly_between(from as int, to as int);
            lemma_up_to_lengths(source, target, between, between.len());
        },
        _ => {},
    }
}

// ---------------------------------------------------------------------------
// Refusals
// ---------------------------------------------------------------------------
/// Why a pair is refused, in a sentence that says what to do instead.
pub open spec fn refusal_of_pair(source: Seq<char>, target: Seq<char>) -> Seq<char> {
    if source == target {
        "Choose a different target game profile"@
    } else if source == CAMPAIGN_EVOLVED_GAME@ || target == CAMPAIGN_EVOLVED_GAME@ {
        let other = if source == CAMPAIGN_EVOLVED_GAME@ {
            target
        } else {
            source
        };
        "Campaign Evolved converts only to and from "@ + CAMPAIGN_EVOLVED_PARENT@
            + ", because its schemas descend from Reach's and no other profile's do. Convert to "@
            + CAMPAIGN_EVOLVED_PARENT@ + (" first, then to "@ + other + "."@)
    } else {
        "The selected source or target profile is not supported by this converter"@
    }
}

pub fn unsupported_pair_message(source_game: &str, target_game: &str) -> (r: String)
    ensures
        r@ == refusal_of_pair(source_game@, target_game@),
{
    if same(source_game, target_game) {
        return copy("Choose a different target game profile");
    }
    if same(source_game, CAMPAIGN_EVOLVED_GAME) || same(target_game, CAMPAIGN_EVOLVED_GAME) {
        let other: &str = if same(source_game, CAMPAIGN_EVOLVED_GAME) {
            target_game
        } else {
            source_game
        };
        let advice: String = concat3(" first, then to ", other, ".");
        return concat5(
            "Campaign Evolved converts only to and from ",
            CAMPAIGN_EVOLVED_PARENT,
            ", because its schemas descend from Reach's and no other profile's do. Convert to ",
            CAMPAIGN_EVOLVED_PARENT,
            &advice,
        );
    }
    copy("The selected source or target profile is not supported by this converter")
}

}
