//! What a conversion reports, and what it gathers on its way.
use crate::fields::text_option;
use crate::file::{FileView, TagFile};
use crate::text::{copy, lemma_texts_push, texts};
use vstd::prelude::*;

verus! {

#[derive(Clone, Copy, Debug, PartialEq, Eq, Structural)]
pub enum ConversionIssueKind {
    Unsupported,
    Truncated,
    Warning,
}

/// Something that a reader of the converted tag should know.
#[derive(Clone, Debug, PartialEq, Eq)]
pub struct ConversionIssue {
    pub kind: ConversionIssueKind,
    pub path: String,
    pub message: String,
}

pub ghost struct IssueView {
    pub kind: ConversionIssueKind,
    pub path: Seq<char>,
    pub message: Seq<char>,
}

impl ConversionIssue {
    pub open spec fn view(&self) -> IssueView {
        IssueView { kind: self.kind, path: self.path@, message: self.message@ }
    }
}

/// The views of a list of issues.
pub open spec fn issue_views(v: Seq<ConversionIssue>) -> Seq<IssueView> {
    Seq::new(v.len(), |i: int| v[i]@)
}

/// What was carried and what was not. The counters stay at their greatest value
/// once they reach it.
#[derive(Debug, PartialEq, Eq, Default)]
pub struct TagConversionReport {
    pub copied_exact: usize,
    pub converted_semantic: usize,
    pub mapped_aliases: usize,
    pub defaulted_target: usize,
    pub unsupported_source: usize,
    pub truncated: usize,
    /// Pageable resources carried across whole.
    pub transferred_resources: usize,
    /// References left empty because the target game has no such tag class.
    pub dropped_references: usize,
    pub issues: Vec<ConversionIssue>,
}

pub ghost struct ReportView {
    pub copied_exact: usize,
    pub converted_semantic: usize,
    pub mapped_aliases: usize,
    pub defaulted_target: usize,
    pub unsupported_source: usize,
    pub truncated: usize,
    pub transferred_resources: usize,
    pub dropped_references: usize,
    pub issues: Seq<IssueView>,
}

/// `n` and `k` together, or the greatest count.
pub open spec fn plus(n: usize, k: int) -> usize {
    if n + k <= usize::MAX {
        (n + k) as usize
    } else {
        usize::MAX
    }
}

/// `n` less `k`, or zero.
pub open spec fn minus(n: usize, k: int) -> usize {
    if n >= k {
        (n - k) as usize
    } else {
        0
    }
}

pub fn plus_of(n: usize, k: usize) -> (r: usize)
    ensures
        r == plus(n, k as int),
{
    if n <= usize::MAX - k {
        n + k
    } else {
        usize::MAX
    }
}

pub fn minus_of(n: usize, k: usize) -> (r: usize)
    ensures
        r == minus(n, k as int),
{
    if n >= k {
        n - k
    } else {
        0
    }
}

impl ReportView {
    pub open spec fn empty() -> ReportView {
        ReportView {
            copied_exact: 0,
            converted_semantic: 0,
            mapped_aliases: 0,
            defaulted_target: 0,
            unsupported_source: 0,
            truncated: 0,
            transferred_resources: 0,
            dropped_references: 0,
            issues: Seq::empty(),
        }
    }

    pub open spec fn with_issue(
        self,
        kind: ConversionIssueKind,
        path: Seq<char>,
        message: Seq<char>,
    ) -> ReportView {
        ReportView { issues: self.issues.push(IssueView { kind, path, message }), ..self }
    }
}

impl TagConversionReport {
    pub open spec fn view(&self) -> ReportView {
        ReportView {
            copied_exact: self.copied_exact,
            converted_semantic: self.converted_semantic,
            mapped_aliases: self.mapped_aliases,
            defaulted_target: self.defaulted_target,
            unsupported_source: self.unsupported_source,
            truncated: self.truncated,
            transferred_resources: self.transferred_resources,
            dropped_references: self.dropped_references,
            issues: issue_views(self.issues@),
        }
    }

    /// An empty report.
    pub fn new() -> (r: TagConversionReport)
        ensures
            r@ == ReportView::empty(),
    {
        let issues: Vec<ConversionIssue> = Vec::new();
        assert(issue_views(issues@) =~= Seq::<IssueView>::empty());
        TagConversionReport {
            copied_exact: 0,
            converted_semantic: 0,
            mapped_aliases: 0,
            defaulted_target: 0,
            unsupported_source: 0,
            truncated: 0,
            transferred_resources: 0,
            dropped_references: 0,
            issues,
        }
    }

    /// Appends an issue.
    pub fn add_issue(&mut self, kind: ConversionIssueKind, path: &str, message: String)
        ensures
            final(self)@ == old(self)@.with_issue(kind, path@, message@),
    {
        let issue: ConversionIssue = ConversionIssue { kind, path: copy(path), message };
        let ghost before = self.issues@;
        self.issues.push(issue);
        assert(issue_views(self.issues@) =~= issue_views(before).push(issue@));
    }
}

/// A tag that a conversion makes beside the converted one.
#[derive(Debug, PartialEq, Eq)]
pub struct CompanionTagDraft {
    pub key: String,
    pub file_suffix: String,
    pub group_name: String,
    pub extension: String,
    pub tag: TagFile,
    pub native_layout_template: Option<String>,
}

pub ghost struct CompanionView {
    pub key: Seq<char>,
    pub file_suffix: Seq<char>,
    pub group_name: Seq<char>,
    pub extension: Seq<char>,
    pub tag: FileView,
    pub template: Option<Seq<char>>,
}

impl CompanionTagDraft {
    pub open spec fn view(&self) -> CompanionView {
        CompanionView {
            key: self.key@,
            file_suffix: self.file_suffix@,
            group_name: self.group_name@,
            extension: self.extension@,
            tag: self.tag@,
            template: text_option(self.native_layout_template),
        }
    }
}

/// The views of a list of companions.
pub open spec fn companion_views(v: Seq<CompanionTagDraft>) -> Seq<CompanionView> {
    Seq::new(v.len(), |i: int| v[i]@)
}

/// What a conversion gathers on its way.
#[derive(Debug, PartialEq, Eq)]
pub struct ConversionContext {
    pub report: TagConversionReport,
    pub companion_tags: Vec<CompanionTagDraft>,
    pub fatal_error: Option<String>,
    pub root_matches: usize,
    /// Paths of non-empty `data` blobs the conversion could not carry.
    pub payloads_left_behind: Vec<String>,
    /// Paths of non-null pageable resources the conversion could not carry.
    pub resources_left_behind: Vec<String>,
}

pub ghost struct ContextView {
    pub report: ReportView,
    pub companions: Seq<CompanionView>,
    pub fatal: Option<Seq<char>>,
    pub root_matches: usize,
    pub payloads_left: Seq<Seq<char>>,
    pub resources_left: Seq<Seq<char>>,
}

impl ContextView {
    pub open spec fn empty() -> ContextView {
        ContextView {
            report: ReportView::empty(),
            companions: Seq::empty(),
            fatal: None,
            root_matches: 0,
            payloads_left: Seq::empty(),
            resources_left: Seq::empty(),
        }
    }

    /// With an issue that counts as no loss of its own.
    pub open spec fn issue(
        self,
        kind: ConversionIssueKind,
        path: Seq<char>,
        message: Seq<char>,
    ) -> ContextView {
        ContextView { report: self.report.with_issue(kind, path, message), ..self }
    }

    /// With a source value that could not be carried.
    pub open spec fn unsupported(self, path: Seq<char>, message: Seq<char>) -> ContextView {
        ContextView {
            report: ReportView {
                unsupported_source: plus(self.report.unsupported_source, 1),
                ..self.report
            }.with_issue(ConversionIssueKind::Unsupported, path, message),
            ..self
        }
    }

    /// With `count` elements that the target had no room for.
    pub open spec fn omitted(self, count: int, path: Seq<char>, message: Seq<char>) -> ContextView {
        ContextView {
            report: ReportView { truncated: plus(self.report.truncated, count), ..self.report }.with_issue(
                ConversionIssueKind::Truncated,
                path,
                message,
            ),
            ..self
        }
    }

    /// With one more value copied as it is, or one more converted.
    pub open spec fn carried(self, exact: bool) -> ContextView {
        ContextView {
            report: if exact {
                ReportView { copied_exact: plus(self.report.copied_exact, 1), ..self.report }
            } else {
                ReportView {
                    converted_semantic: plus(self.report.converted_semantic, 1),
                    ..self.report
                }
            },
            ..self
        }
    }

    /// With one more name mapped to another.
    pub open spec fn aliased(self) -> ContextView {
        ContextView {
            report: ReportView {
                mapped_aliases: plus(self.report.mapped_aliases, 1),
                ..self.report
            },
            ..self
        }
    }

    /// With `count` more target fields left at their defaults.
    pub open spec fn defaulted(self, count: int) -> ContextView {
        ContextView {
            report: ReportView {
                defaulted_target: plus(self.report.defaulted_target, count),
                ..self.report
            },
            ..self
        }
    }

    /// With one more resource carried whole.
    pub open spec fn resource_carried(self) -> ContextView {
        ContextView {
            report: ReportView {
                transferred_resources: plus(self.report.transferred_resources, 1),
                ..self.report
            },
            ..self
        }
    }

    /// With one more field of the root struct matched.
    pub open spec fn matched_root(self) -> ContextView {
        ContextView { root_matches: plus(self.root_matches, 1), ..self }
    }

    /// With a `data` blob that was left behind.
    pub open spec fn payload_left(self, path: Seq<char>) -> ContextView {
        ContextView { payloads_left: self.payloads_left.push(path), ..self }
    }

    /// With a resource that was left behind.
    pub open spec fn resource_left(self, path: Seq<char>) -> ContextView {
        ContextView { resources_left: self.resources_left.push(path), ..self }
    }
}

impl ConversionContext {
    pub open spec fn view(&self) -> ContextView {
        ContextView {
            report: self.report@,
            companions: companion_views(self.companion_tags@),
            fatal: text_option(self.fatal_error),
            root_matches: self.root_matches,
            payloads_left: texts(self.payloads_left_behind@),
            resources_left: texts(self.resources_left_behind@),
        }
    }

    /// Nothing gathered yet.
    pub fn new() -> (r: ConversionContext)
        ensures
            r@ == ContextView::empty(),
    {
        let r: ConversionContext = ConversionContext {
            report: TagConversionReport::new(),
            companion_tags: Vec::new(),
            fatal_error: None,
            root_matches: 0,
            payloads_left_behind: Vec::new(),
            resources_left_behind: Vec::new(),
        };
        assert(r@.companions =~= Seq::<CompanionView>::empty());
        assert(r@.payloads_left =~= Seq::<Seq<char>>::empty());
        assert(r@.resources_left =~= Seq::<Seq<char>>::empty());
        r
    }

    /// Records an issue.
    pub fn record(&mut self, kind: ConversionIssueKind, path: &str, message: String)
        ensures
            final(self)@ == old(self)@.issue(kind, path@, message@),
    {
        self.report.add_issue(kind, path, message);
    }

    /// Records elements that the target had no room for.
    pub fn record_omitted(&mut self, count: usize, path: &str, message: String)
        ensures
            final(self)@ == old(self)@.omitted(count as int, path@, message@),
    {
        self.report.truncated = plus_of(self.report.truncated, count);
        self.report.add_issue(ConversionIssueKind::Truncated, path, message);
    }

    pub fn count_carried(&mut self, exact: bool)
        ensures
            final(self)@ == old(self)@.carried(exact),
    {
        if exact {
            self.report.copied_exact = plus_of(self.report.copied_exact, 1);
        } else {
            self.report.converted_semantic = plus_of(self.report.converted_semantic, 1);
        }
    }

    pub fn count_alias(&mut self)
        ensures
            final(self)@ == old(self)@.aliased(),
    {
        self.report.mapped_aliases = plus_of(self.report.mapped_aliases, 1);
    }

    pub fn count_defaulted(&mut self, count: usize)
        ensures
            final(self)@ == old(self)@.defaulted(count as int),
    {
        self.report.defaulted_target = plus_of(self.report.defaulted_target, count);
    }

    pub fn count_resource(&mut self)
        ensures
            final(self)@ == old(self)@.resource_carried(),
    {
        self.report.transferred_resources = plus_of(self.report.transferred_resources, 1);
    }

    pub fn count_root_match(&mut self)
        ensures
            final(self)@ == old(self)@.matched_root(),
    {
        self.root_matches = plus_of(self.root_matches, 1);
    }

    pub fn leave_payload(&mut self, path: &str)
        ensures
            final(self)@ == old(self)@.payload_left(path@),
    {
        let item: String = copy(path);
        proof {
            lemma_texts_push(self.payloads_left_behind@, item);
        }
        self.payloads_left_behind.push(item);
    }

    pub fn leave_resource(&mut self, path: &str)
        ensures
            final(self)@ == old(self)@.resource_left(path@),
    {
        let item: String = copy(path);
        proof {
            lemma_texts_push(self.resources_left_behind@, item);
        }
        self.resources_left_behind.push(item);
    }
}

/// Records a source value that could not be carried.
pub fn record_unsupported(context: &mut ConversionContext, path: &str, message: String)
    ensures
        final(context)@ == old(context)@.unsupported(path@, message@),
{
    context.report.unsupported_source = plus_of(context.report.unsupported_source, 1);
    context.report.add_issue(ConversionIssueKind::Unsupported, path, message);
}

}
