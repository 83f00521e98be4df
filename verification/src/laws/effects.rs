//! Effects and animations: what calls for a companion, and what is set aside or moved.
use crate::convert::answers::EngineAnswersView;
use crate::convert::companions::{
    constant_mapped, duration_mapped, impulse_keys, response_keys, responses_referred, shake_keys,
    shakes_the_camera, some_key_meaningful,
};
use crate::convert::environment::EnvironmentView;
use crate::convert::layouts::{
    about_a_hit, animation_fields, explicit_curve_key, explicit_curve_keys, issues_kept,
    losses_dropped, payload_block, some_payload_field,
};
use crate::convert::matching::{field_keyed, pairs_in_payload, place_in_payload};
use crate::convert::report::{CompanionView, ContextView, ConversionIssueKind, IssueView};
use crate::convert::values::field_meaningful;
use crate::convert::walk::conv_field;
use crate::fields::{FieldValue, TagFieldType};
use crate::keys::{element_path, field_key, joined};
use crate::layout::LayoutView;
use crate::tag::{ContentView, FieldView, StructView};
use crate::text::{begins, occurs};
use vstd::prelude::*;

verus! {

// ---------------------------------------------------------------------------
// Cameras and sounds
// ---------------------------------------------------------------------------
/// Whether a field says something under a key.
pub open spec fn says_something(s: StructView, key: Seq<char>) -> bool {
    field_keyed(s, key) matches Some(f) && field_meaningful(f)
}

/// A camera is shaken where the effect says something of an impulse or of a shake, and
/// nowhere else.
pub proof fn a_camera_is_shaken_where_the_effect_says_so(s: StructView)
    ensures
        shakes_the_camera(s) <==> {
            ||| says_something(s, "impulse duration"@)
            ||| says_something(s, "rotation"@)
            ||| says_something(s, "pushback"@)
            ||| says_something(s, "jitter"@)
            ||| says_something(s, "shake duration"@)
            ||| says_something(s, "random translation"@)
            ||| says_something(s, "random rotation"@)
            ||| says_something(s, "wobble function period"@)
            ||| says_something(s, "wobble weight"@)
            ||| says_something(s, "wobble function"@)
        },
{
    reveal_with_fuel(some_key_meaningful, 8);
    let a = impulse_keys();
    let b = shake_keys();
    assert(a.len() == 4 && b.len() == 6);
    assert(some_key_meaningful(s, a, 4) <==> says_something(s, a[0]) || says_something(s, a[1])
        || says_something(s, a[2]) || says_something(s, a[3]));
    assert(some_key_meaningful(s, b, 6) <==> says_something(s, b[0]) || says_something(s, b[1])
        || says_something(s, b[2]) || says_something(s, b[3]) || says_something(s, b[4])
        || says_something(s, b[5]));
}

/// A sound effect lasts as long as the sound it was made of: its mapping of duration is
/// the constant that the sound gives.
pub proof fn a_sound_effect_lasts_as_long_as_its_sound(
    answers: EngineAnswersView,
    sound: StructView,
    e: StructView,
    bits: Seq<u32>,
)
    requires
        field_keyed(sound, "duration"@) matches Some(f) && f.content == ContentView::Value(
            FieldValue::Reals { kind: TagFieldType::Real, bits },
        ),
    ensures
        constant_mapped(answers, e, "scale => duration"@, bits[0]) matches Ok(e1)
            ==> duration_mapped(answers, sound, e) == (e1, None::<Seq<char>>),
        constant_mapped(answers, e, "scale => duration"@, bits[0]) matches Err(why)
            ==> duration_mapped(answers, sound, e) == (e, Some(why)),
{
}

/// What an effect hands to its companions is not left for the walk: each of these fields is
/// named as taken over, and no other.
pub proof fn what_the_companions_take_over_is_named(
    env: EnvironmentView,
    t: StructView,
    camera: Option<CompanionView>,
    response: CompanionView,
    c: ContextView,
    key: Seq<char>,
)
    ensures
        responses_referred(env, t, camera, response, c).2 matches Ok(keys) ==> (keys.contains(key)
            <==> key == "player responses"@ || key == "damage response"@ || key
            == "impulse duration"@ || key == "fade function"@ || key == "rotation"@ || key
            == "pushback"@ || key == "jitter"@ || key == "shake duration"@ || key
            == "falloff function"@ || key == "random translation"@ || key == "random rotation"@
            || key == "wobble function"@ || key == "wobble function period"@ || key
            == "wobble weight"@),
{
    let k = response_keys();
    assert(k.len() == 14);
    assert(k.contains(k[0]) && k.contains(k[1]) && k.contains(k[2]) && k.contains(k[3])
        && k.contains(k[4]) && k.contains(k[5]) && k.contains(k[6]) && k.contains(k[7])
        && k.contains(k[8]) && k.contains(k[9]) && k.contains(k[10]) && k.contains(k[11])
        && k.contains(k[12]) && k.contains(k[13]));
}

/// The companions of an effect are handed over with its report: the response, and behind it
/// the camera where there is one.
pub proof fn the_companions_are_handed_over(
    env: EnvironmentView,
    t: StructView,
    camera: Option<CompanionView>,
    response: CompanionView,
    c: ContextView,
)
    ensures
        responses_referred(env, t, camera, response, c).2 is Ok ==> responses_referred(
            env,
            t,
            camera,
            response,
            c,
        ).1.companions == (match camera {
            Some(shake) => c.companions.push(response).push(shake),
            None => c.companions.push(response),
        }),
        responses_referred(env, t, camera, response, c).2 is Err ==> responses_referred(
            env,
            t,
            camera,
            response,
            c,
        ).1 == c,
{
}

// ---------------------------------------------------------------------------
// Curves of the older form
// ---------------------------------------------------------------------------
/// What is set aside of a curve of the older form is each of its own fields, and no other.
pub proof fn the_fields_of_an_older_curve_are_set_aside(
    fields: Seq<FieldView>,
    n: nat,
    key: Seq<char>,
)
    requires
        n <= fields.len(),
    ensures
        explicit_curve_keys(fields, n).contains(key) <==> (exists|i: int|
            0 <= i < n && field_key((#[trigger] fields[i]).name) == key) && {
            ||| key == "function type"@
            ||| key == "flags"@
            ||| key == "function 1"@
            ||| key == "function 2"@
            ||| key == "values"@
            ||| begins(key, "color "@)
        },
    decreases n,
{
    if n > 0 {
        let m = (n - 1) as nat;
        the_fields_of_an_older_curve_are_set_aside(fields, m, key);
        let rest = explicit_curve_keys(fields, m);
        let all = explicit_curve_keys(fields, n);
        let own = field_key(fields[n - 1].name);
        if rest.contains(key) {
            let i = choose|i: int| 0 <= i < rest.len() && rest[i] == key;
            assert(all[i] == key);
            let j = choose|j: int| 0 <= j < m && field_key((#[trigger] fields[j]).name) == key;
            assert(0 <= j < n && field_key(fields[j].name) == key);
        }
        if all.contains(key) {
            let i = choose|i: int| 0 <= i < all.len() && all[i] == key;
            if i < rest.len() {
                assert(rest[i] == key);
            } else {
                assert(field_key(fields[n - 1].name) == key);
            }
        }
        if own == key && explicit_curve_key(key) {
            assert(all[rest.len() as int] == key);
        }
    }
}

// ---------------------------------------------------------------------------
// Animations
// ---------------------------------------------------------------------------
/// The payload of an animation stands in the first block that is named for it.
pub proof fn the_first_payload_block_is_found(fields: Seq<FieldView>, from: nat)
    ensures
        match payload_block(fields, from) {
            Some(k) => from <= k < fields.len() && fields[k as int].field_type == TagFieldType::Block
                && begins(field_key(fields[k as int].name), "shared animation data"@) && forall|
                j: int,
            |
                from <= j < k ==> (#[trigger] fields[j]).field_type != TagFieldType::Block
                    || !begins(field_key(fields[j].name), "shared animation data"@),
            None => forall|j: int|
                from <= j < fields.len() ==> (#[trigger] fields[j]).field_type
                    != TagFieldType::Block || !begins(
                    field_key(fields[j].name),
                    "shared animation data"@,
                ),
        },
    decreases fields.len() - from,
{
    if from < fields.len() {
        the_first_payload_block_is_found(fields, from + 1);
    }
}

/// An animation keeps its payload inside where none of its fields is named for one.
pub proof fn an_animation_without_a_payload_field_keeps_it_inside(fields: Seq<FieldView>, n: nat)
    requires
        n <= fields.len(),
    ensures
        some_payload_field(fields, n) <==> exists|i: int|
            0 <= i < n && begins(
                field_key((#[trigger] fields[i]).name),
                "shared animation data"@,
            ),
    decreases n,
{
    if n > 0 {
        let m = (n - 1) as nat;
        an_animation_without_a_payload_field_keeps_it_inside(fields, m);
        if some_payload_field(fields, m) {
            let i = choose|i: int|
                0 <= i < m && begins(
                    field_key((#[trigger] fields[i]).name),
                    "shared animation data"@,
                );
            assert(0 <= i < n && begins(field_key(fields[i].name), "shared animation data"@));
        }
        if begins(field_key(fields[n - 1].name), "shared animation data"@) {
            assert(0 <= n - 1 < n);
        }
    }
}

/// A place in a payload is the first that is free and that the field pairs with.
pub proof fn a_field_takes_the_first_free_place_of_a_payload(
    env: EnvironmentView,
    s: StructView,
    f: FieldView,
    t: StructView,
    used: Seq<bool>,
    from: nat,
)
    ensures
        match place_in_payload(env, s, f, t, used, from) {
            Some(k) => from <= k < t.fields.len() && !used[k as int] && pairs_in_payload(
                env,
                s,
                f,
                t,
                t.fields[k as int],
            ) && forall|j: int|
                from <= j < k ==> used[j] || !pairs_in_payload(
                    env,
                    s,
                    f,
                    t,
                    #[trigger] t.fields[j],
                ),
            None => forall|j: int|
                from <= j < t.fields.len() ==> used[j] || !pairs_in_payload(
                    env,
                    s,
                    f,
                    t,
                    #[trigger] t.fields[j],
                ),
        },
    decreases t.fields.len() - from,
{
    if from < t.fields.len() && !(!used[from as int] && pairs_in_payload(
        env,
        s,
        f,
        t,
        t.fields[from as int],
    )) {
        a_field_takes_the_first_free_place_of_a_payload(env, s, f, t, used, from + 1);
    }
}

/// Each field of an animation that finds a free place in the payload is converted into it
/// and named among those that moved; every other place stays as it was, and a field that
/// finds none moves nothing.
#[verifier::rlimit(40)]
#[verifier::spinoff_prover]
pub proof fn every_field_moves_to_its_place_in_the_payload(
    env: EnvironmentView,
    layout: LayoutView,
    s: StructView,
    p: StructView,
    path: Seq<char>,
    i: nat,
    c: ContextView,
)
    requires
        i < s.fields.len(),
    ensures
        ({
            let (p0, used0, moved0, c0) = animation_fields(env, layout, s, p, path, i, c);
            let (p1, used1, moved1, c1) = animation_fields(env, layout, s, p, path, i + 1, c);
            let f = s.fields[i as int];
            match place_in_payload(env, s, f, p0, used0, 0) {
                None => p1 == p0 && used1 == used0 && moved1 == moved0 && c1 == c0,
                Some(k) => {
                    let g = p0.fields[k as int];
                    let c2 = if field_key(f.name) == field_key(g.name) {
                        c0
                    } else {
                        c0.aliased()
                    };
                    let arrived = conv_field(
                        env,
                        layout,
                        f,
                        g,
                        joined(path, "shared animation data[0]/"@ + field_key(g.name)),
                        s.guid == p.guid,
                        c2,
                    );
                    &&& p1.fields == p0.fields.update(k as int, arrived.0)
                    &&& c1 == arrived.1
                    &&& used1 == used0.update(k as int, true)
                    &&& moved1 == moved0.push(field_key(f.name))
                },
            }
        }),
{
    lemma_animation_step(env, layout, s, p, path, i, c);
}

proof fn lemma_animation_step(
    env: EnvironmentView,
    layout: LayoutView,
    s: StructView,
    p: StructView,
    path: Seq<char>,
    i: nat,
    c: ContextView,
)
    requires
        i < s.fields.len(),
    ensures
        ({
            let (p1, used, moved, c1) = animation_fields(env, layout, s, p, path, i, c);
            let f = s.fields[i as int];
            animation_fields(env, layout, s, p, path, i + 1, c) == match place_in_payload(
                env,
                s,
                f,
                p1,
                used,
                0,
            ) {
                None => (p1, used, moved, c1),
                Some(k) => {
                    let g = p1.fields[k as int];
                    let c2 = if field_key(f.name) != field_key(g.name) {
                        c1.aliased()
                    } else {
                        c1
                    };
                    let (g1, c3) = conv_field(
                        env,
                        layout,
                        f,
                        g,
                        joined(path, "shared animation data[0]/"@ + field_key(g.name)),
                        s.guid == p.guid,
                        c2,
                    );
                    (
                        StructView { fields: p1.fields.update(k as int, g1), ..p1 },
                        used.update(k as int, true),
                        moved.push(field_key(f.name)),
                        c3,
                    )
                },
            }
        }),
{
    assert((i + 1) as nat - 1 == i);
}

// ---------------------------------------------------------------------------
// Withdrawn reports
// ---------------------------------------------------------------------------
/// Whether a report is about one of the three hits of melee element `index`.
pub open spec fn tells_of_a_hit(issue: IssueView, index: nat) -> bool {
    begins(issue.path, element_path("melee damage parameters"@, index)) && (occurs(
        issue.path,
        "1st hit melee"@,
    ) || occurs(issue.path, "2nd hit melee"@) || occurs(issue.path, "3rd hit melee"@))
}

/// The number of losses among the first `n` reports.
pub open spec fn losses_among(issues: Seq<IssueView>, n: nat) -> nat
    decreases n,
{
    if n == 0 {
        0
    } else {
        losses_among(issues, (n - 1) as nat) + if issues[n - 1].kind
            == ConversionIssueKind::Unsupported {
            1nat
        } else {
            0nat
        }
    }
}

proof fn lemma_losses_pushed(issues: Seq<IssueView>, issue: IssueView, n: nat)
    requires
        n <= issues.len(),
    ensures
        losses_among(issues.push(issue), n) == losses_among(issues, n),
    decreases n,
{
    if n > 0 {
        lemma_losses_pushed(issues, issue, (n - 1) as nat);
        assert(issues.push(issue)[n - 1] == issues[n - 1]);
    }
}

/// What is withdrawn of the reports is what tells of a hit, and nothing else; as many
/// losses are taken back as are withdrawn.
pub proof fn only_reports_of_the_hits_are_withdrawn(
    issues: Seq<IssueView>,
    index: nat,
    n: nat,
    issue: IssueView,
)
    requires
        n <= issues.len(),
    ensures
        issues_kept(issues, index, n).contains(issue) <==> (exists|i: int|
            0 <= i < n && (#[trigger] issues[i]) == issue) && !tells_of_a_hit(issue, index),
        losses_among(issues, n) == losses_dropped(issues, index, n) + losses_among(
            issues_kept(issues, index, n),
            issues_kept(issues, index, n).len(),
        ),
    decreases n,
{
    if n > 0 {
        let m = (n - 1) as nat;
        only_reports_of_the_hits_are_withdrawn(issues, index, m, issue);
        let rest = issues_kept(issues, index, m);
        let all = issues_kept(issues, index, n);
        let last = issues[n - 1];
        lemma_losses_pushed(rest, last, rest.len());
        if rest.contains(issue) {
            let i = choose|i: int| 0 <= i < rest.len() && rest[i] == issue;
            assert(all[i] == issue);
            let j = choose|j: int| 0 <= j < m && (#[trigger] issues[j]) == issue;
            assert(0 <= j < n && issues[j] == issue);
        }
        if all.contains(issue) {
            let i = choose|i: int| 0 <= i < all.len() && all[i] == issue;
            if i < rest.len() {
                assert(rest[i] == issue);
            } else {
                assert(issues[n - 1] == issue);
            }
        }
        if last == issue && !about_a_hit(last, index) {
            assert(all[rest.len() as int] == issue);
        }
    }
}

}
