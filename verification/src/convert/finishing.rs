//! What is done to a draft once its outputs are placed: its tags get fresh lists of
//! their dependencies, and each is saved and opened once before anything is written.
use crate::convert::analysis::{DraftView, TagConversionDraft, listed_view};
use crate::convert::outputs::{fault_view, path_text, path_views, text_of_path};
use crate::convert::report::CompanionView;
use crate::fields::copy_bytes;
use crate::file::FileView;
use crate::keys::{PathComponent, PathComponentView, components};
use crate::text::{concat2, concat3, concat4};
use vstd::prelude::*;

verus! {

// ---------------------------------------------------------------------------
// Lists of dependencies
// ---------------------------------------------------------------------------
/// What listing the dependencies of several tags has given.
pub open spec fn list_views(v: Seq<Result<Vec<u8>, String>>) -> Seq<Result<Seq<u8>, Seq<char>>> {
    Seq::new(v.len(), |i: int| listed_view(v[i]))
}

/// A draft with a list in its tag, which is the first, or in the companion that
/// stands at its place behind it.
pub open spec fn with_list(d: DraftView, at: int, list: Seq<u8>) -> DraftView {
    if at == 0 {
        DraftView { tag: FileView { dependency_list: Some(list), ..d.tag }, ..d }
    } else {
        let own = d.companions[at - 1];
        DraftView {
            companions: d.companions.update(
                at - 1,
                CompanionView {
                    tag: FileView { dependency_list: Some(list), ..own.tag },
                    ..own
                },
            ),
            ..d
        }
    }
}

/// What is said where the dependencies of a tag could not be listed.
pub open spec fn unlisted(d: DraftView, at: int, why: Seq<char>) -> Seq<char> {
    if at == 0 {
        "Could not rebuild converted tag dependencies: "@ + why
    } else {
        "Could not rebuild "@ + d.companions[at - 1].group_name
            + " companion dependencies: "@ + why
    }
}

/// A draft with the first `n` lists in its tags, up to the first that could not be
/// made.
pub open spec fn lists_taken(
    d: DraftView,
    lists: Seq<Result<Seq<u8>, Seq<char>>>,
    n: nat,
) -> (DraftView, Option<Seq<char>>)
    decreases n,
{
    if n == 0 {
        (d, None)
    } else {
        let (sofar, fault) = lists_taken(d, lists, (n - 1) as nat);
        match (fault, lists[n - 1]) {
            (Some(_), _) => (sofar, fault),
            (None, Ok(list)) => (with_list(sofar, n - 1, list), None),
            (None, Err(why)) => (sofar, Some(unlisted(d, n - 1, why))),
        }
    }
}

proof fn lemma_lists_fault(
    d: DraftView,
    lists: Seq<Result<Seq<u8>, Seq<char>>>,
    n: nat,
    m: nat,
)
    requires
        n <= m,
        lists_taken(d, lists, n).1 is Some,
    ensures
        lists_taken(d, lists, m) == lists_taken(d, lists, n),
    decreases m,
{
    if n < m {
        lemma_lists_fault(d, lists, n, (m - 1) as nat);
    }
}

/// A list changes nothing but the list: the tags keep their contents, and the draft
/// its companions and all it says.
pub proof fn listing_changes_the_lists_alone(
    d: DraftView,
    lists: Seq<Result<Seq<u8>, Seq<char>>>,
    n: nat,
)
    requires
        n <= d.companions.len() + 1,
    ensures
        ({
            let after = lists_taken(d, lists, n).0;
            &&& after == DraftView { tag: after.tag, companions: after.companions, ..d }
            &&& after.tag == FileView { dependency_list: after.tag.dependency_list, ..d.tag }
            &&& after.companions.len() == d.companions.len()
            &&& forall|i: int|
                0 <= i < d.companions.len() ==> (#[trigger] after.companions[i]) == (
                CompanionView {
                    tag: FileView {
                        dependency_list: after.companions[i].tag.dependency_list,
                        ..d.companions[i].tag
                    },
                    ..d.companions[i]
                })
        }),
    decreases n,
{
    if n > 0 {
        listing_changes_the_lists_alone(d, lists, (n - 1) as nat);
    }
}

/// Puts the lists of their dependencies into the tags of a draft: the first into its
/// own, and one into each companion. The first that could not be made ends it.
pub fn take_output_lists(
    draft: &mut TagConversionDraft,
    lists: Vec<Result<Vec<u8>, String>>,
) -> (r: Result<(), String>)
    requires
        lists@.len() == old(draft)@.companions.len() + 1,
    ensures
        (final(draft)@, fault_view(r)) == lists_taken(
            old(draft)@,
            list_views(lists@),
            list_views(lists@).len(),
        ),
{
    let ghost start = draft@;
    let ghost all = list_views(lists@);
    let n: usize = draft.companion_tags.len();
    assert(all[0] == listed_view(lists@[0]));
    match &lists[0] {
        Ok(list) => {
            draft.tag.dependency_list = Some(copy_bytes(list));
        },
        Err(why) => {
            proof {
                assert(lists_taken(start, all, 0).1 is None);
                lemma_lists_fault(start, all, 1, all.len());
            }
            return Err(concat2("Could not rebuild converted tag dependencies: ", why));
        },
    }
    assert(lists_taken(start, all, 0) == (start, None::<Seq<char>>));
    assert(draft@ == with_list(start, 0, listed_view(lists@[0])->Ok_0));
    let mut i: usize = 0;
    while i < n
        invariant
            i <= n,
            n == draft.companion_tags@.len(),
            n + 1 == lists@.len(),
            n == start.companions.len(),
            all == list_views(lists@),
            start == old(draft)@,
            lists_taken(start, all, (i + 1) as nat) == (draft@, None::<Seq<char>>),
        decreases n - i,
    {
        let ghost before = draft@;
        let ghost own = draft.companion_tags@;
        assert(all[i + 1] == listed_view(lists@[i + 1]));
        proof {
            listing_changes_the_lists_alone(start, all, (i + 1) as nat);
            assert(before.companions[i as int] == own[i as int]@);
        }
        match &lists[i + 1] {
            Ok(list) => {
                draft.companion_tags[i].tag.dependency_list = Some(copy_bytes(list));
                assert(draft@.companions =~= with_list(before, i + 1, list@).companions);
            },
            Err(why) => {
                let tail: String = concat2(" companion dependencies: ", why);
                let message: String = concat3(
                    "Could not rebuild ",
                    &draft.companion_tags[i].group_name,
                    &tail,
                );
                proof {
                    lemma_lists_fault(start, all, (i + 2) as nat, all.len());
                    assert(message@ =~= unlisted(start, i + 1, why@));
                }
                return Err(message);
            },
        }
        i = i + 1;
    }
    Ok(())
}

// ---------------------------------------------------------------------------
// Saving and opening once
// ---------------------------------------------------------------------------
/// What saving a tag in memory and opening it again has given.
#[derive(Debug, PartialEq, Eq)]
pub struct OutputCheck {
    pub written: Result<(), String>,
    pub reopened: Result<(), String>,
}

/// What is wrong with a tag that is about to be written at `path`. A classic one is
/// not opened again: it carries no layout to open it with.
pub open spec fn check_fault(
    check: OutputCheck,
    classic: bool,
    path: Seq<PathComponentView>,
) -> Option<Seq<char>> {
    match (check.written, check.reopened) {
        (Err(why), _) => Some("Could not serialize "@ + path_text(path) + ": "@ + why@),
        (Ok(_), Err(why)) => if classic {
            None
        } else {
            Some("Could not reopen "@ + path_text(path) + ": "@ + why@)
        },
        (Ok(_), Ok(_)) => None,
    }
}

/// What is wrong with the first tag of a draft, at or behind `from`, that cannot be
/// written; its own tag comes first.
pub open spec fn first_fault(
    d: DraftView,
    main: Seq<PathComponentView>,
    outputs: Seq<Seq<PathComponentView>>,
    checks: Seq<OutputCheck>,
    from: nat,
) -> Option<Seq<char>>
    decreases checks.len() - from,
{
    if from >= checks.len() {
        None
    } else {
        let own = if from == 0 {
            check_fault(checks[0], d.tag.classic is Some, main)
        } else {
            check_fault(
                checks[from as int],
                d.companions[from - 1].tag.classic is Some,
                outputs[from - 1],
            )
        };
        match own {
            Some(why) => Some(why),
            None => first_fault(d, main, outputs, checks, from + 1),
        }
    }
}

fn judge(check: &OutputCheck, classic: bool, path: &Vec<PathComponent>) -> (r: Result<(), String>)
    ensures
        fault_view(r) == check_fault(*check, classic, components(path@)),
{
    match &check.written {
        Err(why) => {
            let text: String = text_of_path(path);
            Err(concat4("Could not serialize ", &text, ": ", why))
        },
        Ok(_) => match &check.reopened {
            Ok(_) => Ok(()),
            Err(why) => {
                if classic {
                    Ok(())
                } else {
                    let text: String = text_of_path(path);
                    Err(concat4("Could not reopen ", &text, ": ", why))
                }
            },
        },
    }
}

/// Whether the tags of a draft can be written, given what saving and opening each has
/// given: first its own, and then the companions, which go to `outputs`.
pub fn verify_roundtrip(
    draft: &TagConversionDraft,
    main_output: &Vec<PathComponent>,
    outputs: &Vec<Vec<PathComponent>>,
    checks: &Vec<OutputCheck>,
) -> (r: Result<(), String>)
    requires
        outputs@.len() == draft@.companions.len(),
        checks@.len() == draft@.companions.len() + 1,
    ensures
        fault_view(r) == first_fault(
            draft@,
            components(main_output@),
            path_views(outputs@),
            checks@,
            0,
        ),
{
    let ghost d = draft@;
    let ghost main = components(main_output@);
    let ghost paths = path_views(outputs@);
    match judge(&checks[0], draft.tag.classic.is_some(), main_output) {
        Ok(_) => {},
        Err(why) => {
            return Err(why);
        },
    }
    let n: usize = draft.companion_tags.len();
    let mut i: usize = 0;
    while i < n
        invariant
            i <= n,
            n == draft.companion_tags@.len(),
            n == outputs@.len(),
            n + 1 == checks@.len(),
            d == draft@,
            main == components(main_output@),
            paths == path_views(outputs@),
            first_fault(d, main, paths, checks@, 0) == first_fault(
                d,
                main,
                paths,
                checks@,
                (i + 1) as nat,
            ),
        decreases n - i,
    {
        assert(d.companions[i as int] == draft.companion_tags@[i as int]@);
        assert(paths[i as int] == components(outputs@[i as int]@));
        let classic: bool = draft.companion_tags[i].tag.classic.is_some();
        match judge(&checks[i + 1], classic, &outputs[i]) {
            Ok(_) => {},
            Err(why) => {
                return Err(why);
            },
        }
        i = i + 1;
    }
    Ok(())
}

}
