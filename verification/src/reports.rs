//! Diagnostics as data: labeled reports that point into registered
//! sources, and the context that collects them.

use vstd::prelude::*;

use crate::sourcemap::SourceKey;

verus! {

/// Anything that can turn itself into a report.
pub trait IntoReport {
    fn into_report(self) -> Report;
}

impl IntoReport for Report {
    fn into_report(self) -> (r: Report) {
        self
    }
}

/// A place in a registered source: a byte range and the source's key.
#[derive(Debug, PartialEq)]
pub struct Location {
    span: core::ops::Range<usize>,
    source_key: SourceKey,
}

impl Location {
    /// The byte range.
    pub closed spec fn spec_span(&self) -> core::ops::Range<usize> {
        self.span
    }

    /// The source's key.
    pub closed spec fn spec_source_key(&self) -> SourceKey {
        self.source_key
    }
}

/// One diagnostic: severity, place, title, optional description, and any
/// number of extra labels.
#[derive(Debug, PartialEq)]
pub struct Report {
    level: Level,
    span: core::ops::Range<usize>,
    source_key: SourceKey,
    title: String,
    description: Option<String>,
    infos: Vec<Label>,
}

impl Report {
    /// The severity.
    pub closed spec fn spec_level(&self) -> Level {
        self.level
    }

    /// The byte range the report points at.
    pub closed spec fn spec_span(&self) -> core::ops::Range<usize> {
        self.span
    }

    /// The key of the source the report points into.
    pub closed spec fn spec_source_key(&self) -> SourceKey {
        self.source_key
    }

    /// The title text.
    pub closed spec fn spec_title(&self) -> Seq<char> {
        self.title@
    }

    /// The description text, if one was given.
    pub closed spec fn spec_description(&self) -> Option<Seq<char>> {
        match self.description {
            Some(d) => Some(d@),
            None => None,
        }
    }

    /// The extra labels, in the order they were attached.
    pub closed spec fn spec_infos(&self) -> Seq<Label> {
        self.infos@
    }

    /// A new report with no labels yet.
    pub fn new(
        level: Level,
        location: core::ops::Range<usize>,
        source_key: SourceKey,
        title: String,
        description: Option<String>,
    ) -> (r: Report)
        ensures
            r.spec_level() == level,
            r.spec_span() == location,
            r.spec_source_key() == source_key,
            r.spec_title() == title@,
            r.spec_description() == (match description {
                Some(d) => Some(d@),
                None => None::<Seq<char>>,
            }),
            r.spec_infos() == Seq::<Label>::empty(),
    {
        let r = Report { level, span: location, source_key, title, description, infos: Vec::new() };
        proof {
            assert(r.spec_infos() =~= Seq::<Label>::empty());
        }
        r
    }

    /// The same report with one more label attached at the end.
    pub fn with_label(self, label: Label) -> (r: Report)
        ensures
            r.spec_level() == self.spec_level(),
            r.spec_span() == self.spec_span(),
            r.spec_source_key() == self.spec_source_key(),
            r.spec_title() == self.spec_title(),
            r.spec_description() == self.spec_description(),
            r.spec_infos() == self.spec_infos().push(label),
    {
        let mut this = self;
        this.infos.push(label);
        this
    }
}

/// One extra note on a report, optionally pointing at its own span.
#[derive(Debug, PartialEq)]
pub struct Label {
    pub info: String,
    pub span: Option<core::ops::Range<usize>>,
    pub src_key: SourceKey,
}

impl Label {
    /// A new label.
    pub fn new(info: String, span: Option<core::ops::Range<usize>>, src_key: SourceKey) -> (r:
        Label)
        ensures
            r.info@ == info@,
            r.span == span,
            r.src_key == src_key,
    {
        Label { info, span, src_key }
    }
}

/// Severity of a report.
#[derive(Debug, Clone, Copy, PartialEq, Eq, Structural)]
pub enum Level {
    Error,
    Warn,
    Advice,
}

/// A place given either as a byte range or as a line number.
#[derive(Debug, Hash, PartialEq)]
pub enum Position {
    Span(core::ops::Range<usize>),
    Line(usize),
}

/// The collector the front end pushes its reports into.
#[derive(Debug)]
pub struct ReportContext {
    reports: Vec<Report>,
}

impl ReportContext {
    /// The collected reports, in arrival order.
    pub closed spec fn reports_seq(&self) -> Seq<Report> {
        self.reports@
    }

    /// An empty collector.
    pub fn new() -> (c: ReportContext)
        ensures
            c.reports_seq() == Seq::<Report>::empty(),
    {
        let c = ReportContext { reports: Vec::new() };
        proof {
            assert(c.reports_seq() =~= Seq::<Report>::empty());
        }
        c
    }

    /// Collect one more report.
    pub fn push(&mut self, report: Report)
        ensures
            final(self).reports_seq() == old(self).reports_seq().push(report),
    {
        self.reports.push(report);
    }

    /// Whether any collected report is an error.
    pub fn has_errors(&self) -> (r: bool)
        ensures
            r == exists|i: int|
                0 <= i < self.reports_seq().len() && (#[trigger] self.reports_seq()[i]).spec_level()
                    is Error,
    {
        let n = self.reports.len();
        let mut i: usize = 0;
        while i < n
            invariant
                i <= n,
                n == self.reports@.len(),
                forall|k: int|
                    0 <= k < i ==> !((#[trigger] self.reports_seq()[k]).spec_level() is Error),
            decreases n - i,
        {
            if matches!(self.reports[i].level, Level::Error) {
                return true;
            }
            i += 1;
        }
        false
    }

    /// Whether anything was collected at all.
    pub fn has_reports(&self) -> (r: bool)
        ensures
            r == (self.reports_seq().len() != 0),
    {
        self.reports.len() != 0
    }
}

impl Default for ReportContext {
    /// An empty collector.
    fn default() -> (c: ReportContext)
        ensures
            c.reports_seq() == Seq::<Report>::empty(),
    {
        ReportContext::new()
    }
}

} // verus!
