//! Conversions by way of the generations between.
use crate::convert::analysis::{
    ConversionDefinitions, DraftView, PendingConversion, PendingView, TagConversionDraft,
    analysis, begin_conversion, begun, finish_conversion, finished, listed_view, pending_result,
};
use crate::convert::environment::{NativeTemplate, NativeTemplateIndex, templates_option};
use crate::convert::report::{ConversionIssue, IssueView, ReportView, issue_views};
use crate::file::{FileView, TagFile};
use crate::games::{
    CAMPAIGN_EVOLVED_GAME, chain_position, classic_games, conversion_routes, direct_routes,
    pair_support_is_symmetric_and_irreflexive, pair_supported, refusal_of_pair, route_views,
    routes_between, unsupported_pair_message,
};
use crate::text::{
    concat3, concat4, concat5, copy, copy_texts, decimal, decimal_text, join_texts, joined_with,
    lemma_texts_push, no_texts, same, texts,
};
use vstd::prelude::*;

verus! {

/// Where each hop of a route gets its kit-authored templates.
///
/// A profile with no templates still converts, from a schema-built tag, so a
/// missing intermediate kit costs fidelity rather than the whole route.
pub trait TemplateSource {
    /// The kit's tags of a game.
    spec fn kit_of(&self, game: Seq<char>) -> Option<Map<u32, Seq<NativeTemplate>>>;

    fn templates_for(&self, game: &str) -> (r: Option<&NativeTemplateIndex>)
        ensures
            templates_option(r) == self.kit_of(game@),
    ;
}

impl TemplateSource for () {
    open spec fn kit_of(&self, game: Seq<char>) -> Option<Map<u32, Seq<NativeTemplate>>> {
        None
    }

    fn templates_for(&self, _game: &str) -> (r: Option<&NativeTemplateIndex>) {
        None
    }
}

/// The templates of several games; no game stands twice.
pub struct KitTemplates {
    pub kits: Vec<(String, NativeTemplateIndex)>,
}

/// The kit of a game at or behind `from`.
pub open spec fn kit_from(
    kits: Seq<(String, NativeTemplateIndex)>,
    game: Seq<char>,
    from: nat,
) -> Option<Map<u32, Seq<NativeTemplate>>>
    decreases kits.len() - from,
{
    if from >= kits.len() {
        None
    } else if kits[from as int].0@ == game {
        Some(kits[from as int].1@)
    } else {
        kit_from(kits, game, from + 1)
    }
}

impl TemplateSource for KitTemplates {
    open spec fn kit_of(&self, game: Seq<char>) -> Option<Map<u32, Seq<NativeTemplate>>> {
        kit_from(self.kits@, game, 0)
    }

    fn templates_for(&self, game: &str) -> (r: Option<&NativeTemplateIndex>) {
        let mut i: usize = 0;
        while i < self.kits.len()
            invariant
                i <= self.kits.len(),
                kit_from(self.kits@, game@, 0) == kit_from(self.kits@, game@, i as nat),
            decreases self.kits.len() - i,
        {
            if same(&self.kits[i].0, game) {
                return Some(&self.kits[i].1);
            }
            i = i + 1;
        }
        None
    }
}

/// A hop by name.
pub open spec fn hop_name(from: Seq<char>, to: Seq<char>) -> Seq<char> {
    from + " \u{2192} "@ + to
}

fn name_of_hop(from: &str, to: &str) -> (r: String)
    ensures
        r@ == hop_name(from@, to@),
{
    concat3(from, " \u{2192} ", to)
}

/// The issues of a hop, each marked with the hop that raised it.
pub open spec fn marked(issues: Seq<IssueView>, from: Seq<char>, to: Seq<char>) -> Seq<IssueView> {
    Seq::new(
        issues.len(),
        |i: int|
            IssueView {
                message: "["@ + hop_name(from, to) + "] "@ + issues[i].message,
                ..issues[i]
            },
    )
}

// ---------------------------------------------------------------------------
// One hop
// ---------------------------------------------------------------------------
/// Why a tag did not survive being saved and opened again.
#[derive(Debug, PartialEq, Eq)]
pub enum HopFault {
    Unwritable(String),
    Unopenable(String),
}

pub ghost enum HopFaultView {
    Unwritable(Seq<char>),
    Unopenable(Seq<char>),
}

impl HopFault {
    pub open spec fn view(&self) -> HopFaultView {
        match self {
            HopFault::Unwritable(why) => HopFaultView::Unwritable(why@),
            HopFault::Unopenable(why) => HopFaultView::Unopenable(why@),
        }
    }
}

/// What saving a tag and opening it again has given.
pub open spec fn saved_view(event: Result<TagFile, HopFault>) -> Result<FileView, HopFaultView> {
    match event {
        Ok(tag) => Ok(tag@),
        Err(fault) => Err(fault@),
    }
}

/// What opening the bytes of a saved tag has given. A classic container carries no
/// layout, so that it is opened with the one of its group's definition.
#[derive(Debug, PartialEq, Eq)]
pub enum HopReading {
    Modern(Result<TagFile, String>),
    /// The group of a classic container has no extension to find its definition by.
    UnknownGroup,
    /// The definition describes no layout.
    NoLayout { definition: String, why: String },
    Classic(Result<TagFile, String>),
}

/// The tag that was opened, or why none was.
pub open spec fn reading_outcome(reading: HopReading) -> Result<FileView, HopFaultView> {
    match reading {
        HopReading::Modern(Ok(tag)) => Ok(tag@),
        HopReading::Modern(Err(why)) => Err(HopFaultView::Unopenable(why@)),
        HopReading::UnknownGroup => Err(
            HopFaultView::Unopenable("unknown group for classic intermediate"@),
        ),
        HopReading::NoLayout { definition, why } => Err(
            HopFaultView::Unopenable("failed to load "@ + definition@ + ": "@ + why@),
        ),
        HopReading::Classic(Ok(tag)) => Ok(tag@),
        HopReading::Classic(Err(why)) => Err(HopFaultView::Unopenable(why@)),
    }
}

/// The tag that opening saved bytes has given, or why none.
pub fn reparse_intermediate(reading: HopReading) -> (r: Result<TagFile, HopFault>)
    ensures
        saved_view(r) == reading_outcome(reading),
{
    match reading {
        HopReading::Modern(Ok(tag)) => Ok(tag),
        HopReading::Modern(Err(why)) => Err(HopFault::Unopenable(why)),
        HopReading::UnknownGroup => Err(
            HopFault::Unopenable(copy("unknown group for classic intermediate")),
        ),
        HopReading::NoLayout { definition, why } => Err(
            HopFault::Unopenable(concat4("failed to load ", &definition, ": ", &why)),
        ),
        HopReading::Classic(Ok(tag)) => Ok(tag),
        HopReading::Classic(Err(why)) => Err(HopFault::Unopenable(why)),
    }
}

/// What a hop ends in: the draft of the last hop, or the tag that has to be saved and
/// opened again before the next, with the issues so far.
#[derive(Debug, PartialEq, Eq)]
pub enum HopOutcome {
    Done(TagConversionDraft),
    Reopen { tag: TagFile, issues: Vec<ConversionIssue> },
}

pub ghost enum HopOutcomeView {
    Done(DraftView),
    Reopen { tag: FileView, issues: Seq<IssueView> },
}

/// The view of what a hop ends in, or of why it broke.
pub open spec fn hop_outcome(r: Result<HopOutcome, String>) -> Result<HopOutcomeView, Seq<char>> {
    match r {
        Ok(HopOutcome::Done(draft)) => Ok(HopOutcomeView::Done(draft@)),
        Ok(HopOutcome::Reopen { tag, issues }) => Ok(
            HopOutcomeView::Reopen { tag: tag@, issues: issue_views(issues@) },
        ),
        Err(message) => Err(message@),
    }
}

/// How far the hop `at` of a route comes before the dependencies of its target are
/// listed.
pub open spec fn hop_begun<T: TemplateSource>(
    definitions: ConversionDefinitions,
    templates: T,
    input: FileView,
    route: Seq<Seq<char>>,
    at: nat,
) -> Result<PendingView, Seq<char>> {
    if at + 1 >= route.len() {
        Err("A conversion route needs at least two profiles"@)
    } else {
        let from = route[at as int];
        let to = route[(at + 1) as int];
        match begun(definitions, templates.kit_of(to), input, from, to) {
            Err(message) => Err(hop_name(from, to) + " failed: "@ + message),
            Ok(p) => Ok(p),
        }
    }
}

/// How the hop `at` of a route ends once the dependencies of its target are listed,
/// given the issues of the hops before.
///
/// A companion tag made in mid-route has nowhere reviewed to go, and refuses the
/// route.
pub open spec fn hop_finished(
    definitions: ConversionDefinitions,
    input: FileView,
    route: Seq<Seq<char>>,
    at: nat,
    earlier: Seq<IssueView>,
    p: PendingView,
    listed: Result<Seq<u8>, Seq<char>>,
) -> Result<HopOutcomeView, Seq<char>> {
    if at + 1 >= route.len() {
        Err("A conversion route needs at least two profiles"@)
    } else {
        let from = route[at as int];
        let to = route[(at + 1) as int];
        match finished(definitions, input, from, to, p, listed) {
            Err(message) => Err(hop_name(from, to) + " failed: "@ + message),
            Ok(draft) => if at + 2 == route.len() {
                Ok(
                    HopOutcomeView::Done(
                        DraftView {
                            report: ReportView {
                                issues: earlier + draft.report.issues,
                                ..draft.report
                            },
                            route: if route.len() > 2 {
                                route
                            } else {
                                Seq::empty()
                            },
                            ..draft
                        },
                    ),
                )
            } else if draft.companions.len() > 0 {
                Err(
                    hop_name(from, to) + " produced "@ + decimal(draft.companions.len())
                        + " companion tag(s), which cannot be carried through a further conversion"@,
                )
            } else {
                Ok(
                    HopOutcomeView::Reopen {
                        tag: draft.tag,
                        issues: earlier + marked(draft.report.issues, from, to),
                    },
                )
            },
        }
    }
}

/// How the hop `at` of a route ends, given what listing the dependencies of its
/// target gives.
pub open spec fn hop_run<T: TemplateSource>(
    definitions: ConversionDefinitions,
    templates: T,
    input: FileView,
    route: Seq<Seq<char>>,
    at: nat,
    earlier: Seq<IssueView>,
    listed: Result<Seq<u8>, Seq<char>>,
) -> Result<HopOutcomeView, Seq<char>> {
    match hop_begun(definitions, templates, input, route, at) {
        Err(message) => Err(message),
        Ok(p) => hop_finished(definitions, input, route, at, earlier, p, listed),
    }
}

/// What is said of a tag that did not survive being saved and opened again.
pub open spec fn fault_text(from: Seq<char>, to: Seq<char>, fault: HopFaultView) -> Seq<char> {
    match fault {
        HopFaultView::Unwritable(why) => hop_name(from, to) + " produced an unwritable tag: "@
            + why,
        HopFaultView::Unopenable(why) => hop_name(from, to)
            + " produced a tag that will not reopen: "@ + why,
    }
}

fn append_issues(list: &mut Vec<ConversionIssue>, more: Vec<ConversionIssue>)
    ensures
        issue_views(final(list)@) == issue_views(old(list)@) + issue_views(more@),
{
    let ghost before = list@;
    let ghost added = more@;
    let mut rest: Vec<ConversionIssue> = more;
    list.append(&mut rest);
    assert(issue_views(list@) =~= issue_views(before) + issue_views(added));
}

fn mark_issues(issues: &Vec<ConversionIssue>, from: &str, to: &str) -> (r: Vec<ConversionIssue>)
    ensures
        issue_views(r@) == marked(issue_views(issues@), from@, to@),
{
    let hop: String = name_of_hop(from, to);
    let ghost all = marked(issue_views(issues@), from@, to@);
    let mut r: Vec<ConversionIssue> = Vec::new();
    let mut i: usize = 0;
    assert(issue_views(r@) =~= all.take(0));
    while i < issues.len()
        invariant
            i <= issues.len(),
            hop@ == hop_name(from@, to@),
            all == marked(issue_views(issues@), from@, to@),
            issue_views(r@) == all.take(i as int),
        decreases issues.len() - i,
    {
        let ghost before = r@;
        let issue: ConversionIssue = ConversionIssue {
            kind: issues[i].kind,
            path: copy(&issues[i].path),
            message: concat4("[", &hop, "] ", &issues[i].message),
        };
        r.push(issue);
        assert(issue_views(r@) =~= issue_views(before).push(issue@));
        i = i + 1;
        assert(issue_views(r@) =~= all.take(i as int));
    }
    assert(all.take(i as int) =~= all);
    r
}

/// Begins the hop `at` of a route.
pub fn begin_hop<T: TemplateSource>(
    input: &TagFile,
    route: &Vec<String>,
    at: usize,
    definitions: &ConversionDefinitions,
    templates: &T,
) -> (r: Result<PendingConversion, String>)
    ensures
        pending_result(r) == hop_begun(
            *definitions,
            *templates,
            input@,
            texts(route@),
            at as nat,
        ),
{
    assert(texts(route@).len() == route@.len());
    if route.len() < 2 || at >= route.len() - 1 {
        return Err(copy("A conversion route needs at least two profiles"));
    }
    let from: &str = route[at].as_str();
    let to: &str = route[at + 1].as_str();
    match begin_conversion(input, from, to, definitions, templates.templates_for(to)) {
        Ok(pending) => Ok(pending),
        Err(message) => {
            let hop: String = name_of_hop(from, to);
            Err(concat3(&hop, " failed: ", &message))
        },
    }
}

/// Ends the hop `at` of a route, given what listing the dependencies of its target
/// has given.
pub fn finish_hop(
    input: &TagFile,
    route: &Vec<String>,
    at: usize,
    earlier: Vec<ConversionIssue>,
    definitions: &ConversionDefinitions,
    pending: PendingConversion,
    listed: Result<Vec<u8>, String>,
) -> (r: Result<HopOutcome, String>)
    ensures
        hop_outcome(r) == hop_finished(
            *definitions,
            input@,
            texts(route@),
            at as nat,
            issue_views(earlier@),
            pending@,
            listed_view(listed),
        ),
{
    assert(texts(route@).len() == route@.len());
    if route.len() < 2 || at >= route.len() - 1 {
        return Err(copy("A conversion route needs at least two profiles"));
    }
    let from: &str = route[at].as_str();
    let to: &str = route[at + 1].as_str();
    let hop: String = name_of_hop(from, to);
    let mut draft: TagConversionDraft = match finish_conversion(
        input,
        from,
        to,
        definitions,
        pending,
        listed,
    ) {
        Ok(draft) => draft,
        Err(message) => {
            return Err(concat3(&hop, " failed: ", &message));
        },
    };
    let mut issues: Vec<ConversionIssue> = earlier;
    if at == route.len() - 2 {
        append_issues(&mut issues, draft.report.issues);
        draft.report.issues = issues;
        draft.route = if route.len() > 2 {
            copy_texts(route)
        } else {
            no_texts()
        };
        return Ok(HopOutcome::Done(draft));
    }
    if draft.companion_tags.len() > 0 {
        let number: String = decimal_text(draft.companion_tags.len() as u128);
        return Err(
            concat4(
                &hop,
                " produced ",
                &number,
                " companion tag(s), which cannot be carried through a further conversion",
            ),
        );
    }
    let marked_issues: Vec<ConversionIssue> = mark_issues(&draft.report.issues, from, to);
    append_issues(&mut issues, marked_issues);
    Ok(HopOutcome::Reopen { tag: draft.tag, issues })
}

/// Runs the hop `at` of a route, given what listing the dependencies of its target
/// gives.
pub fn run_hop<T: TemplateSource>(
    input: &TagFile,
    route: &Vec<String>,
    at: usize,
    earlier: Vec<ConversionIssue>,
    definitions: &ConversionDefinitions,
    templates: &T,
    listed: Result<Vec<u8>, String>,
) -> (r: Result<HopOutcome, String>)
    ensures
        hop_outcome(r) == hop_run(
            *definitions,
            *templates,
            input@,
            texts(route@),
            at as nat,
            issue_views(earlier@),
            listed_view(listed),
        ),
{
    match begin_hop(input, route, at, definitions, templates) {
        Ok(pending) => finish_hop(input, route, at, earlier, definitions, pending, listed),
        Err(message) => Err(message),
    }
}

/// The tag that the next hop starts from: what was opened again, and not what the
/// hop before had in memory.
pub fn take_reopened(from: &str, to: &str, event: Result<TagFile, HopFault>) -> (r: Result<
    TagFile,
    String,
>)
    ensures
        match event {
            Ok(t) => r matches Ok(u) && u@ == t@,
            Err(fault) => r matches Err(m) && m@ == fault_text(from@, to@, fault@),
        },
{
    match event {
        Ok(tag) => Ok(tag),
        Err(fault) => {
            let hop: String = name_of_hop(from, to);
            match fault {
                HopFault::Unwritable(why) => Err(
                    concat3(&hop, " produced an unwritable tag: ", &why),
                ),
                HopFault::Unopenable(why) => Err(
                    concat3(&hop, " produced a tag that will not reopen: ", &why),
                ),
            }
        },
    }
}

// ---------------------------------------------------------------------------
// Routes
// ---------------------------------------------------------------------------
/// Where a routed conversion stands: which route is tried, which hop of it, what
/// that hop starts from, and why the routes before were refused.
#[derive(Debug, PartialEq, Eq)]
pub struct RoutedConversion {
    pub source_game: String,
    pub target_game: String,
    pub routes: Vec<Vec<String>>,
    pub at: usize,
    pub hop: usize,
    pub input: TagFile,
    pub issues: Vec<ConversionIssue>,
    pub refusals: Vec<String>,
}

pub ghost struct RoutedView {
    pub source_game: Seq<char>,
    pub target_game: Seq<char>,
    pub routes: Seq<Seq<Seq<char>>>,
    pub at: nat,
    pub hop: nat,
    pub input: FileView,
    pub issues: Seq<IssueView>,
    pub refusals: Seq<Seq<char>>,
}

impl RoutedConversion {
    pub open spec fn view(&self) -> RoutedView {
        RoutedView {
            source_game: self.source_game@,
            target_game: self.target_game@,
            routes: route_views(self.routes@),
            at: self.at as nat,
            hop: self.hop as nat,
            input: self.input@,
            issues: issue_views(self.issues@),
            refusals: texts(self.refusals@),
        }
    }
}

impl RoutedView {
    /// The route that is tried.
    pub open spec fn route(self) -> Seq<Seq<char>> {
        self.routes[self.at as int]
    }

    /// With the route that was tried refused, at the start of the next.
    pub open spec fn refused(self, source: FileView, message: Seq<char>) -> RoutedView {
        RoutedView {
            at: self.at + 1,
            hop: 0,
            input: source,
            issues: Seq::empty(),
            refusals: self.refusals.push(
                joined_with(self.route(), " \u{2192} "@, self.route().len()) + ": "@ + message,
            ),
            ..self
        }
    }
}

/// What a routed conversion asks for next, or what it ends in.
#[derive(Debug, PartialEq, Eq)]
pub enum RoutedStep {
    Done(TagConversionDraft),
    /// List the dependencies of the pending tag, where that is due.
    List { pending: PendingConversion, state: RoutedConversion },
    /// Save the tag and open it again.
    Reopen { tag: TagFile, state: RoutedConversion },
}

pub ghost enum StepView {
    Done(DraftView),
    List { pending: PendingView, state: RoutedView },
    Reopen { tag: FileView, state: RoutedView },
}

/// The view of a step, or of why the conversion is refused.
pub open spec fn step_result(r: Result<RoutedStep, String>) -> Result<StepView, Seq<char>> {
    match r {
        Ok(RoutedStep::Done(draft)) => Ok(StepView::Done(draft@)),
        Ok(RoutedStep::List { pending, state }) => Ok(
            StepView::List { pending: pending@, state: state@ },
        ),
        Ok(RoutedStep::Reopen { tag, state }) => Ok(
            StepView::Reopen { tag: tag@, state: state@ },
        ),
        Err(message) => Err(message@),
    }
}

/// What is said where every route was refused.
pub open spec fn all_refused(s: RoutedView) -> Seq<char> {
    "Could not convert "@ + s.source_game + " to "@ + s.target_game + (". Tried "@ + decimal(
        s.refusals.len(),
    ) + " route(s):\n  "@ + joined_with(s.refusals, "\n  "@, s.refusals.len()))
}

/// What comes next where a conversion stands at the start of a hop: the hop is begun,
/// and a route whose hop cannot be begun gives way to the next.
pub open spec fn attempt<T: TemplateSource>(
    definitions: ConversionDefinitions,
    templates: T,
    source: FileView,
    s: RoutedView,
) -> Result<StepView, Seq<char>>
    decreases s.routes.len() - s.at,
{
    if s.at >= s.routes.len() {
        Err(all_refused(s))
    } else {
        match hop_begun(definitions, templates, s.input, s.route(), s.hop) {
            Ok(pending) => Ok(StepView::List { pending, state: s }),
            Err(message) => attempt(definitions, templates, source, s.refused(source, message)),
        }
    }
}

/// What comes next once the dependencies of a pending tag are listed.
pub open spec fn after_listing<T: TemplateSource>(
    definitions: ConversionDefinitions,
    templates: T,
    source: FileView,
    s: RoutedView,
    pending: PendingView,
    listed: Result<Seq<u8>, Seq<char>>,
) -> Result<StepView, Seq<char>> {
    match hop_finished(definitions, s.input, s.route(), s.hop, s.issues, pending, listed) {
        Ok(HopOutcomeView::Done(draft)) => Ok(StepView::Done(draft)),
        Ok(HopOutcomeView::Reopen { tag, issues }) => Ok(
            StepView::Reopen { tag, state: RoutedView { issues, ..s } },
        ),
        Err(message) => attempt(definitions, templates, source, s.refused(source, message)),
    }
}

/// What comes next once a tag was saved and opened again.
pub open spec fn after_saving<T: TemplateSource>(
    definitions: ConversionDefinitions,
    templates: T,
    source: FileView,
    s: RoutedView,
    event: Result<FileView, HopFaultView>,
) -> Result<StepView, Seq<char>> {
    let from = s.route()[s.hop as int];
    let to = s.route()[s.hop as int + 1];
    match event {
        Ok(input) => attempt(
            definitions,
            templates,
            source,
            RoutedView { hop: s.hop + 1, input, ..s },
        ),
        Err(fault) => attempt(
            definitions,
            templates,
            source,
            s.refused(source, fault_text(from, to, fault)),
        ),
    }
}

/// Where a routed conversion starts.
pub open spec fn route_start(
    source: FileView,
    source_game: Seq<char>,
    target_game: Seq<char>,
) -> RoutedView {
    RoutedView {
        source_game,
        target_game,
        routes: routes_between(source_game, target_game),
        at: 0,
        hop: 0,
        input: source,
        issues: Seq::empty(),
        refusals: Seq::empty(),
    }
}

/// How a routed conversion begins.
pub open spec fn routed<T: TemplateSource>(
    definitions: ConversionDefinitions,
    templates: T,
    source: FileView,
    source_game: Seq<char>,
    target_game: Seq<char>,
) -> Result<StepView, Seq<char>> {
    if routes_between(source_game, target_game).len() == 0 {
        Err(refusal_of_pair(source_game, target_game))
    } else {
        attempt(definitions, templates, source, route_start(source, source_game, target_game))
    }
}

fn no_issues() -> (r: Vec<ConversionIssue>)
    ensures
        issue_views(r@) == Seq::<IssueView>::empty(),
{
    let r: Vec<ConversionIssue> = Vec::new();
    assert(issue_views(r@) =~= Seq::<IssueView>::empty());
    r
}

fn refuse_route(state: RoutedConversion, source: &TagFile, message: &str) -> (r: RoutedConversion)
    requires
        state@.at < state@.routes.len(),
    ensures
        r@ == state@.refused(source@, message@),
{
    let mut state: RoutedConversion = state;
    let ghost before = state@;
    let route: &Vec<String> = &state.routes[state.at];
    assert(before.route() == texts(route@));
    assert(texts(route@).len() == route@.len());
    let name: String = join_texts(route, " \u{2192} ", route.len());
    let refusal: String = concat3(&name, ": ", message);
    proof {
        lemma_texts_push(state.refusals@, refusal);
    }
    state.refusals.push(refusal);
    assert(route_views(state.routes@).len() == state.routes@.len());
    let count: usize = state.routes.len();
    state.at = state.at + 1;
    state.hop = 0;
    state.input = source.duplicate();
    state.issues = no_issues();
    state
}

#[verifier::loop_isolation(false)]
fn try_from<T: TemplateSource>(
    state: RoutedConversion,
    source: &TagFile,
    definitions: &ConversionDefinitions,
    templates: &T,
) -> (r: Result<RoutedStep, String>)
    ensures
        step_result(r) == attempt(*definitions, *templates, source@, state@),
{
    let mut state: RoutedConversion = state;
    let ghost start = state@;
    while state.at < state.routes.len()
        invariant
            state@.routes == start.routes,
            attempt(*definitions, *templates, source@, start) == attempt(
                *definitions,
                *templates,
                source@,
                state@,
            ),
        decreases start.routes.len() - state.at,
    {
        assert(state@.route() == texts(state.routes@[state.at as int]@));
        match begin_hop(&state.input, &state.routes[state.at], state.hop, definitions, templates) {
            Ok(pending) => {
                return Ok(RoutedStep::List { pending, state });
            },
            Err(message) => {
                state = refuse_route(state, source, &message);
            },
        }
    }
    assert(texts(state.refusals@).len() == state.refusals@.len());
    let number: String = decimal_text(state.refusals.len() as u128);
    let list: String = join_texts(&state.refusals, "\n  ", state.refusals.len());
    let tail: String = concat4(". Tried ", &number, " route(s):\n  ", &list);
    Err(concat5("Could not convert ", &state.source_game, " to ", &state.target_game, &tail))
}

/// Converts `source` into `target_game`, by way of the generations between where the
/// direct pair cannot carry it.
///
/// The direct conversion is tried first and returned as it is where it works. A hop
/// hands the next one a tag that was saved and opened again, and not the draft's tag
/// in memory: the intermediate is exactly the file that saving into that game and
/// importing from it would give, so that a draft that would not survive a save fails
/// there instead of two hops later.
///
/// Saving, opening and listing dependencies are the caller's. Each step says what is
/// to be done; [`take_listed`] and [`take_saved`] go on from what came of it.
pub fn analyze_conversion_routed<T: TemplateSource>(
    source: &TagFile,
    source_game: &str,
    target_game: &str,
    definitions: &ConversionDefinitions,
    templates: &T,
) -> (r: Result<RoutedStep, String>)
    ensures
        step_result(r) == routed(
            *definitions,
            *templates,
            source@,
            source_game@,
            target_game@,
        ),
{
    let routes: Vec<Vec<String>> = conversion_routes(source_game, target_game);
    assert(route_views(routes@).len() == routes@.len());
    if routes.len() == 0 {
        return Err(unsupported_pair_message(source_game, target_game));
    }
    let refusals: Vec<String> = no_texts();
    let state: RoutedConversion = RoutedConversion {
        source_game: copy(source_game),
        target_game: copy(target_game),
        routes,
        at: 0,
        hop: 0,
        input: source.duplicate(),
        issues: no_issues(),
        refusals,
    };
    try_from(state, source, definitions, templates)
}

/// Goes on once the dependencies of the pending tag are listed. Where none are due,
/// any outcome will do.
pub fn take_listed<T: TemplateSource>(
    state: RoutedConversion,
    pending: PendingConversion,
    listed: Result<Vec<u8>, String>,
    source: &TagFile,
    definitions: &ConversionDefinitions,
    templates: &T,
) -> (r: Result<RoutedStep, String>)
    requires
        state@.at < state@.routes.len(),
    ensures
        step_result(r) == after_listing(
            *definitions,
            *templates,
            source@,
            state@,
            pending@,
            listed_view(listed),
        ),
{
    let mut state: RoutedConversion = state;
    assert(state@.route() == texts(state.routes@[state.at as int]@));
    let ghost start = state@;
    let mut issues: Vec<ConversionIssue> = no_issues();
    append_issues(&mut issues, state.issues);
    assert(issue_views(issues@) =~= start.issues);
    state.issues = no_issues();
    match finish_hop(
        &state.input,
        &state.routes[state.at],
        state.hop,
        issues,
        definitions,
        pending,
        listed,
    ) {
        Ok(HopOutcome::Done(draft)) => Ok(RoutedStep::Done(draft)),
        Ok(HopOutcome::Reopen { tag, issues }) => {
            state.issues = issues;
            Ok(RoutedStep::Reopen { tag, state })
        },
        Err(message) => {
            let next: RoutedConversion = refuse_route(state, source, &message);
            try_from(next, source, definitions, templates)
        },
    }
}

/// Goes on once the tag was saved and opened again.
pub fn take_saved<T: TemplateSource>(
    state: RoutedConversion,
    event: Result<TagFile, HopFault>,
    source: &TagFile,
    definitions: &ConversionDefinitions,
    templates: &T,
) -> (r: Result<RoutedStep, String>)
    requires
        state@.at < state@.routes.len(),
        state@.hop + 1 < state@.route().len(),
    ensures
        step_result(r) == after_saving(
            *definitions,
            *templates,
            source@,
            state@,
            saved_view(event),
        ),
{
    let mut state: RoutedConversion = state;
    let route: &Vec<String> = &state.routes[state.at];
    assert(state@.route() == texts(route@));
    assert(texts(route@).len() == route@.len());
    let count: usize = route.len();
    let outcome: Result<TagFile, String> = take_reopened(
        &route[state.hop],
        &route[state.hop + 1],
        event,
    );
    match outcome {
        Ok(input) => {
            state.input = input;
            state.hop = state.hop + 1;
            try_from(state, source, definitions, templates)
        },
        Err(message) => {
            let next: RoutedConversion = refuse_route(state, source, &message);
            try_from(next, source, definitions, templates)
        },
    }
}

// ---------------------------------------------------------------------------
// The whole of a route
// ---------------------------------------------------------------------------
/// What a caller does between the steps: it lists the dependencies of a tag, and
/// saves a tag into a game and opens it again.
pub ghost struct FileLayer {
    pub list: spec_fn(FileView) -> Result<Seq<u8>, Seq<char>>,
    pub save: spec_fn(FileView, Seq<char>) -> Result<FileView, HopFaultView>,
}

/// How a route ends from its hop `at` on, given the tag that was opened last and the
/// issues of the hops before.
pub open spec fn route_run<T: TemplateSource>(
    definitions: ConversionDefinitions,
    templates: T,
    files: FileLayer,
    input: FileView,
    route: Seq<Seq<char>>,
    at: nat,
    earlier: Seq<IssueView>,
) -> Result<DraftView, Seq<char>>
    decreases route.len() - at,
{
    match hop_begun(definitions, templates, input, route, at) {
        Err(message) => Err(message),
        Ok(p) => match hop_finished(
            definitions,
            input,
            route,
            at,
            earlier,
            p,
            (files.list)(p.tag),
        ) {
            Err(message) => Err(message),
            Ok(HopOutcomeView::Done(draft)) => Ok(draft),
            Ok(HopOutcomeView::Reopen { tag, issues }) => if at + 1 >= route.len() {
                Err("A conversion route needs at least two profiles"@)
            } else {
                let from = route[at as int];
                let to = route[at as int + 1];
                match (files.save)(tag, to) {
                    Err(fault) => Err(fault_text(from, to, fault)),
                    Ok(reopened) => route_run(
                        definitions,
                        templates,
                        files,
                        reopened,
                        route,
                        at + 1,
                        issues,
                    ),
                }
            },
        },
    }
}

/// How a conversion ends from where it stands: by the first route that carries it.
pub open spec fn routes_run<T: TemplateSource>(
    definitions: ConversionDefinitions,
    templates: T,
    files: FileLayer,
    source: FileView,
    s: RoutedView,
) -> Result<DraftView, Seq<char>>
    decreases s.routes.len() - s.at,
{
    if s.at >= s.routes.len() {
        Err(all_refused(s))
    } else {
        match route_run(definitions, templates, files, s.input, s.route(), s.hop, s.issues) {
            Ok(draft) => Ok(draft),
            Err(message) => routes_run(
                definitions,
                templates,
                files,
                source,
                s.refused(source, message),
            ),
        }
    }
}

/// What a step comes to, once everything it asks for is done.
pub open spec fn comes_to<T: TemplateSource>(
    definitions: ConversionDefinitions,
    templates: T,
    files: FileLayer,
    source: FileView,
    step: Result<StepView, Seq<char>>,
) -> Result<DraftView, Seq<char>> {
    match step {
        Err(message) => Err(message),
        Ok(StepView::Done(draft)) => Ok(draft),
        Ok(StepView::List { pending, state }) => routes_run(
            definitions,
            templates,
            files,
            source,
            state,
        ),
        Ok(StepView::Reopen { tag, state }) => {
            let from = state.route()[state.hop as int];
            let to = state.route()[state.hop as int + 1];
            match (files.save)(tag, to) {
                Err(fault) => routes_run(
                    definitions,
                    templates,
                    files,
                    source,
                    state.refused(source, fault_text(from, to, fault)),
                ),
                Ok(input) => routes_run(
                    definitions,
                    templates,
                    files,
                    source,
                    RoutedView { hop: state.hop + 1, input, ..state },
                ),
            }
        },
    }
}

// ---------------------------------------------------------------------------
// Laws
// ---------------------------------------------------------------------------
/// Whether a step hands out a place that can be gone on from.
pub open spec fn can_go_on(step: Result<StepView, Seq<char>>) -> bool {
    match step {
        Ok(StepView::List { state, .. }) => state.at < state.routes.len(),
        Ok(StepView::Reopen { state, .. }) => {
            &&& state.at < state.routes.len()
            &&& state.hop + 1 < state.route().len()
        },
        _ => true,
    }
}

/// Beginning a hop comes to what the routes from there on come to.
pub proof fn beginning_keeps_the_outcome<T: TemplateSource>(
    definitions: ConversionDefinitions,
    templates: T,
    files: FileLayer,
    source: FileView,
    s: RoutedView,
)
    ensures
        comes_to(
            definitions,
            templates,
            files,
            source,
            attempt(definitions, templates, source, s),
        ) == routes_run(definitions, templates, files, source, s),
        can_go_on(attempt(definitions, templates, source, s)),
        attempt(definitions, templates, source, s) matches Ok(step) ==> (step matches StepView::List {
            pending,
            state,
        } && hop_begun(definitions, templates, state.input, state.route(), state.hop) == Ok::<
            PendingView,
            Seq<char>,
        >(pending)),
    decreases s.routes.len() - s.at,
{
    if s.at < s.routes.len() {
        match hop_begun(definitions, templates, s.input, s.route(), s.hop) {
            Ok(_) => {},
            Err(message) => {
                beginning_keeps_the_outcome(
                    definitions,
                    templates,
                    files,
                    source,
                    s.refused(source, message),
                );
            },
        }
    }
}

/// Going on with the list of what a step handed out comes to what the step came to,
/// and can be gone on from.
pub proof fn listing_keeps_the_outcome<T: TemplateSource>(
    definitions: ConversionDefinitions,
    templates: T,
    files: FileLayer,
    source: FileView,
    s: RoutedView,
    pending: PendingView,
)
    requires
        s.at < s.routes.len(),
        hop_begun(definitions, templates, s.input, s.route(), s.hop) == Ok::<
            PendingView,
            Seq<char>,
        >(pending),
    ensures
        comes_to(
            definitions,
            templates,
            files,
            source,
            after_listing(
                definitions,
                templates,
                source,
                s,
                pending,
                (files.list)(pending.tag),
            ),
        ) == routes_run(definitions, templates, files, source, s),
        can_go_on(
            after_listing(
                definitions,
                templates,
                source,
                s,
                pending,
                (files.list)(pending.tag),
            ),
        ),
{
    match hop_finished(
        definitions,
        s.input,
        s.route(),
        s.hop,
        s.issues,
        pending,
        (files.list)(pending.tag),
    ) {
        Ok(HopOutcomeView::Done(_)) => {},
        Ok(HopOutcomeView::Reopen { .. }) => {},
        Err(message) => {
            beginning_keeps_the_outcome(
                definitions,
                templates,
                files,
                source,
                s.refused(source, message),
            );
        },
    }
}

/// Going on with what was saved and opened again comes to what the step came to, and
/// can be gone on from.
pub proof fn saving_keeps_the_outcome<T: TemplateSource>(
    definitions: ConversionDefinitions,
    templates: T,
    files: FileLayer,
    source: FileView,
    tag: FileView,
    s: RoutedView,
)
    requires
        can_go_on(Ok(StepView::Reopen { tag, state: s })),
    ensures
        ({
            let to = s.route()[s.hop as int + 1];
            let next = after_saving(definitions, templates, source, s, (files.save)(tag, to));
            &&& comes_to(definitions, templates, files, source, next) == comes_to(
                definitions,
                templates,
                files,
                source,
                Ok(StepView::Reopen { tag, state: s }),
            )
            &&& can_go_on(next)
        }),
{
    let from = s.route()[s.hop as int];
    let to = s.route()[s.hop as int + 1];
    match (files.save)(tag, to) {
        Ok(input) => {
            beginning_keeps_the_outcome(
                definitions,
                templates,
                files,
                source,
                RoutedView { hop: s.hop + 1, input, ..s },
            );
        },
        Err(fault) => {
            beginning_keeps_the_outcome(
                definitions,
                templates,
                files,
                source,
                s.refused(source, fault_text(from, to, fault)),
            );
        },
    }
}

/// A conversion that works directly is never routed: what comes out is the direct
/// draft, and its route is empty.
pub proof fn a_direct_conversion_is_never_routed<T: TemplateSource>(
    definitions: ConversionDefinitions,
    templates: T,
    files: FileLayer,
    source: FileView,
    source_game: Seq<char>,
    target_game: Seq<char>,
    p: PendingView,
)
    requires
        pair_supported(source_game, target_game),
        begun(definitions, templates.kit_of(target_game), source, source_game, target_game)
            == Ok::<PendingView, Seq<char>>(p),
        finished(definitions, source, source_game, target_game, p, (files.list)(p.tag)) is Ok,
    ensures
        comes_to(
            definitions,
            templates,
            files,
            source,
            routed(definitions, templates, source, source_game, target_game),
        ) == Ok::<DraftView, Seq<char>>(
            DraftView {
                route: Seq::empty(),
                ..finished(
                    definitions,
                    source,
                    source_game,
                    target_game,
                    p,
                    (files.list)(p.tag),
                )->Ok_0
            },
        ),
{
    pair_support_is_symmetric_and_irreflexive(source_game, target_game);
    let routes = routes_between(source_game, target_game);
    let direct = seq![source_game, target_game];
    assert(direct_routes(source_game, target_game)[0] == direct);
    assert(routes[0] == direct);
    let draft = finished(
        definitions,
        source,
        source_game,
        target_game,
        p,
        (files.list)(p.tag),
    )->Ok_0;
    assert(Seq::<IssueView>::empty() + draft.report.issues =~= draft.report.issues);
    let start = route_start(source, source_game, target_game);
    assert(start.route() == direct);
    beginning_keeps_the_outcome(definitions, templates, files, source, start);
    assert(route_run(definitions, templates, files, source, direct, 0, Seq::empty()) is Ok);
}

/// What did not survive being saved and opened again refuses the route there.
pub proof fn a_tag_that_does_not_survive_a_save_ends_its_route<T: TemplateSource>(
    definitions: ConversionDefinitions,
    templates: T,
    files: FileLayer,
    input: FileView,
    route: Seq<Seq<char>>,
    at: nat,
    earlier: Seq<IssueView>,
    p: PendingView,
    tag: FileView,
    issues: Seq<IssueView>,
    fault: HopFaultView,
)
    requires
        hop_begun(definitions, templates, input, route, at) == Ok::<PendingView, Seq<char>>(p),
        hop_finished(definitions, input, route, at, earlier, p, (files.list)(p.tag)) == Ok::<
            HopOutcomeView,
            Seq<char>,
        >(HopOutcomeView::Reopen { tag, issues }),
        (files.save)(tag, route[at as int + 1]) == Err::<FileView, HopFaultView>(fault),
    ensures
        route_run(definitions, templates, files, input, route, at, earlier) == Err::<
            DraftView,
            Seq<char>,
        >(fault_text(route[at as int], route[at as int + 1], fault)),
{
}

/// A pair with no route at all is refused with the reason of the pair, a game with
/// itself among them.
pub proof fn a_pair_without_routes_is_refused<T: TemplateSource>(
    definitions: ConversionDefinitions,
    templates: T,
    source: FileView,
    source_game: Seq<char>,
    target_game: Seq<char>,
)
    requires
        !pair_supported(source_game, target_game),
        chain_position(source_game) is None || chain_position(target_game) is None || source_game
            == CAMPAIGN_EVOLVED_GAME@ || target_game == CAMPAIGN_EVOLVED_GAME@ || source_game
            == target_game,
    ensures
        routed(definitions, templates, source, source_game, target_game) == Err::<
            StepView,
            Seq<char>,
        >(refusal_of_pair(source_game, target_game)),
{
}

/// No source in a wrong container, and no unsupported pair, is ever drafted.
pub proof fn a_refused_source_is_never_drafted(
    definitions: ConversionDefinitions,
    templates: Option<Map<u32, Seq<NativeTemplate>>>,
    source: FileView,
    source_game: Seq<char>,
    target_game: Seq<char>,
    listed: Result<Seq<u8>, Seq<char>>,
)
    requires
        (source.classic is None && source.big_endian) || (source.classic is Some
            && !classic_games().contains(source_game)) || !pair_supported(
            source_game,
            target_game,
        ),
    ensures
        analysis(definitions, templates, source, source_game, target_game, listed) is Err,
{
    reveal(begun);
}

/// What the hops of a route have found stays in the report of what comes out, oldest
/// first; the issues of a hop before the last say which hop it was.
pub proof fn no_hop_is_forgotten<T: TemplateSource>(
    definitions: ConversionDefinitions,
    templates: T,
    files: FileLayer,
    input: FileView,
    route: Seq<Seq<char>>,
    at: nat,
    earlier: Seq<IssueView>,
)
    requires
        route_run(definitions, templates, files, input, route, at, earlier) is Ok,
    ensures
        ({
            let draft = route_run(definitions, templates, files, input, route, at, earlier)->Ok_0;
            let p = hop_begun(definitions, templates, input, route, at)->Ok_0;
            let hop = finished(
                definitions,
                input,
                route[at as int],
                route[at as int + 1],
                p,
                (files.list)(p.tag),
            );
            let found = if at + 2 == route.len() {
                hop->Ok_0.report.issues
            } else {
                marked(hop->Ok_0.report.issues, route[at as int], route[at as int + 1])
            };
            &&& at + 1 < route.len()
            &&& hop is Ok
            &&& (earlier + found).is_prefix_of(draft.report.issues)
        }),
    decreases route.len() - at,
{
    let from = route[at as int];
    let to = route[at as int + 1];
    let p = hop_begun(definitions, templates, input, route, at)->Ok_0;
    let hop = finished(definitions, input, from, to, p, (files.list)(p.tag))->Ok_0;
    let draft = route_run(definitions, templates, files, input, route, at, earlier)->Ok_0;
    if at + 2 < route.len() {
        let kept = earlier + marked(hop.report.issues, from, to);
        let reopened = (files.save)(hop.tag, to)->Ok_0;
        no_hop_is_forgotten(definitions, templates, files, reopened, route, at + 1, kept);
        lemma_prefix(kept, draft.report.issues);
    }
}

proof fn lemma_prefix(a: Seq<IssueView>, c: Seq<IssueView>)
    requires
        exists|b: Seq<IssueView>| (a + b).is_prefix_of(c),
    ensures
        a.is_prefix_of(c),
{
    let b = choose|b: Seq<IssueView>| (a + b).is_prefix_of(c);
    assert(a =~= (a + b).take(a.len() as int));
    assert(a =~= c.take(a.len() as int));
}

}
