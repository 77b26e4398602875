//! Going through the lines of a log: what each line is, and what is kept of it.

use crate::args::opt_text;
use crate::capped::{CappedLines, CappedView};
use crate::patterns::{
    asset_or_source_context, context_line, error_line, is_asset_or_source_context, is_context_line,
    is_error_line, is_progress_noise, is_summary_line, is_warning_line, progress_noise,
    summary_line, warning_line, LinePatterns,
};
use crate::text::{
    contains_text, eq_ignore_ascii_case, lines, lines_of, lower_contains, lower_of, slice_texts,
    trim, trim_end, trim_end_of, trim_of,
};
use vstd::prelude::*;

verus! {

/// How many distinct diagnostics a report shows.
pub const CAP_ERRORS: usize = 20;

/// How many distinct warnings a report shows.
pub const CAP_WARNINGS: usize = 10;

/// How many distinct summary lines a report shows.
pub const CAP_LIST: usize = 20;

/// How many context lines after an error are kept.
pub const ERROR_CONTEXT: usize = 4;

/// What a line of a log is.
#[derive(Debug, Clone, Copy, PartialEq, Eq, Structural)]
pub enum LineKind {
    Blank,
    Progress,
    Error,
    Warning,
    Summary,
    Other,
}

impl LineKind {
    /// The kind of a line to which these descriptions apply: the first of them decides.
    pub open spec fn first_of(
        blank: bool,
        progress: bool,
        error: bool,
        warning: bool,
        summary: bool,
    ) -> LineKind {
        if blank {
            LineKind::Blank
        } else if progress {
            LineKind::Progress
        } else if error {
            LineKind::Error
        } else if warning {
            LineKind::Warning
        } else if summary {
            LineKind::Summary
        } else {
            LineKind::Other
        }
    }

    /// The kind of a line to which these descriptions apply: the first of them decides.
    pub fn of(blank: bool, progress: bool, error: bool, warning: bool, summary: bool) -> (r: LineKind)
        ensures
            r == LineKind::first_of(blank, progress, error, warning, summary),
    {
        if blank {
            LineKind::Blank
        } else if progress {
            LineKind::Progress
        } else if error {
            LineKind::Error
        } else if warning {
            LineKind::Warning
        } else if summary {
            LineKind::Summary
        } else {
            LineKind::Other
        }
    }
}

/// What a [`LogLine`] stands for.
pub struct LineView {
    pub text: Seq<char>,
    pub kind: LineKind,
    pub context: bool,
    pub location: bool,
}

/// A line of a log and what is known of it.
#[derive(Debug)]
pub struct LogLine {
    /// The line without white space at its end.
    pub text: String,
    pub kind: LineKind,
    /// A warning or another line that may explain the error it stands next to.
    pub context: bool,
    /// Another line that names a source file or an asset.
    pub location: bool,
}

impl View for LogLine {
    type V = LineView;

    open spec fn view(&self) -> LineView {
        LineView {
            text: self.text@,
            kind: self.kind,
            context: self.context,
            location: self.location,
        }
    }
}

/// What a sequence of lines stands for.
pub open spec fn line_views(lines: Seq<LogLine>) -> Seq<LineView> {
    Seq::new(lines.len(), |i: int| lines[i]@)
}

/// The kind of a line with the text `t`.
pub open spec fn kind_of(t: Seq<char>) -> LineKind {
    let compact = trim_of(t);
    LineKind::first_of(
        compact.len() == 0,
        progress_noise(compact),
        error_line(compact),
        warning_line(compact),
        summary_line(compact),
    )
}

/// What is known of `line`.
pub open spec fn classified(line: Seq<char>) -> LineView {
    let text = trim_end_of(line);
    let kind = kind_of(text);
    LineView {
        text,
        kind,
        context: (kind is Warning || kind is Other) && context_line(text),
        location: kind is Other && asset_or_source_context(text),
    }
}

/// What is known of each line of `log`.
pub open spec fn classified_lines(log: Seq<char>) -> Seq<LineView> {
    Seq::new(lines_of(log).len(), |i: int| classified(lines_of(log)[i]))
}

/// Finds out what `line` is.
pub fn classify_line(patterns: &LinePatterns, line: &str) -> (r: LogLine)
    ensures
        r@ == classified(line@),
{
    let text = trim_end(line);
    let compact = trim(text);
    let blank = compact.is_empty();
    let progress = !blank && is_progress_noise(patterns, compact);
    let error = !blank && !progress && is_error_line(patterns, compact);
    let warning = !blank && !progress && !error && is_warning_line(patterns, compact);
    let summary = !blank && !progress && !error && !warning && is_summary_line(patterns, compact);
    let kind = LineKind::of(blank, progress, error, warning, summary);
    let context = (kind == LineKind::Warning || kind == LineKind::Other) && is_context_line(
        patterns,
        text,
    );
    let location = kind == LineKind::Other && is_asset_or_source_context(patterns, text);
    LogLine { text: text.to_owned(), kind, context, location }
}

/// Finds out what each line of `log` is.
pub fn classify_log(patterns: &LinePatterns, log: &str) -> (r: Vec<LogLine>)
    ensures
        line_views(r@) == classified_lines(log@),
{
    let all = lines(log);
    let mut r: Vec<LogLine> = Vec::new();
    let mut i: usize = 0;
    while i < all.len()
        invariant
            i <= all@.len(),
            slice_texts(all@) == lines_of(log@),
            line_views(r@) == classified_lines(log@).take(i as int),
        decreases all@.len() - i,
    {
        let ghost before = line_views(r@);
        assert(slice_texts(all@)[i as int] == all@[i as int]@);
        r.push(classify_line(patterns, all[i]));
        i = i + 1;
        assert(line_views(r@) =~= before.push(r@.last()@));
        assert(line_views(r@) =~= classified_lines(log@).take(i as int));
    }
    assert(slice_texts(all@).len() == all@.len());
    assert(classified_lines(log@).take(i as int) =~= classified_lines(log@));
    r
}

/// What a [`FilterState`] stands for.
pub struct StateView {
    pub failure_seen: bool,
    pub process_exit_code: Option<int>,
    pub progress_total: nat,
    pub packages_seen: Option<Seq<char>>,
}

/// What is known of a run besides the lines that are kept.
#[derive(Debug)]
pub struct FilterState {
    pub failure_seen: bool,
    pub process_exit_code: Option<i32>,
    pub progress_total: usize,
    pub packages_seen: Option<String>,
}

impl View for FilterState {
    type V = StateView;

    open spec fn view(&self) -> StateView {
        StateView {
            failure_seen: self.failure_seen,
            process_exit_code: match self.process_exit_code {
                Some(code) => Some(code as int),
                None => None,
            },
            progress_total: self.progress_total as nat,
            packages_seen: opt_text(self.packages_seen),
        }
    }
}

impl Default for FilterState {
    fn default() -> (r: FilterState)
        ensures
            r@ == StateView::start(),
    {
        FilterState {
            failure_seen: false,
            process_exit_code: None,
            progress_total: 0,
            packages_seen: None,
        }
    }
}

impl StateView {
    /// Before the first line.
    pub open spec fn start() -> StateView {
        StateView {
            failure_seen: false,
            process_exit_code: None,
            progress_total: 0,
            packages_seen: None,
        }
    }

    /// Once the process has ended with `exit_code`.
    pub open spec fn ended(self, exit_code: int) -> StateView {
        if exit_code != 0 {
            StateView { failure_seen: true, process_exit_code: Some(exit_code), ..self }
        } else {
            self
        }
    }
}

/// What a [`Scan`] stands for.
pub struct ScanView {
    pub diagnostics: CappedView,
    pub warnings: CappedView,
    pub summaries: CappedView,
    pub state: StateView,
    /// How many of the following lines may still belong to the last error or warning.
    pub context_remaining: nat,
    /// A line that may turn out to explain the next error, and whether it is a context line.
    pub previous: Option<(Seq<char>, bool)>,
}

impl ScanView {
    /// Before the first line.
    pub open spec fn start() -> ScanView {
        ScanView {
            diagnostics: CappedView::empty("diagnostics"@, CAP_ERRORS as nat),
            warnings: CappedView::empty("warnings"@, CAP_WARNINGS as nat),
            summaries: CappedView::empty("summary lines"@, CAP_LIST as nat),
            state: StateView::start(),
            context_remaining: 0,
            previous: None,
        }
    }

    /// A progress message is counted; the last one that tells how many packages were cooked is
    /// remembered.
    pub open spec fn progress(self, line: LineView) -> ScanView {
        let compact = trim_of(line.text);
        ScanView {
            state: StateView {
                progress_total: self.state.progress_total + 1,
                packages_seen: if contains_text(lower_of(compact), "cooked packages"@) {
                    Some(compact)
                } else {
                    self.state.packages_seen
                },
                ..self.state
            },
            ..self
        }
    }

    /// An error is kept, after the line that led up to it, and the lines after it may explain it.
    pub open spec fn error(self, line: LineView) -> ScanView {
        let led_up = match self.previous {
            Some((text, true)) => self.diagnostics.push(text),
            _ => self.diagnostics,
        };
        ScanView {
            diagnostics: led_up.push(line.text),
            state: StateView { failure_seen: true, ..self.state },
            context_remaining: ERROR_CONTEXT as nat,
            previous: None,
            ..self
        }
    }

    /// A warning is kept, the next line may explain it, and it may explain the next error.
    pub open spec fn warning(self, line: LineView) -> ScanView {
        ScanView {
            warnings: self.warnings.push(line.text),
            context_remaining: if self.context_remaining > 1 {
                self.context_remaining
            } else {
                1
            },
            previous: Some((line.text, line.context)),
            ..self
        }
    }

    /// A summary line is kept; it may say that the build failed.
    pub open spec fn summary(self, line: LineView) -> ScanView {
        ScanView {
            summaries: self.summaries.push(line.text),
            state: StateView {
                failure_seen: self.state.failure_seen || lower_of(trim_of(line.text)) == lower_of(
                    "build failed"@,
                ),
                ..self.state
            },
            ..self
        }
    }

    /// Any other line belongs to the error or warning before it, or may lead up to the next error,
    /// or is dropped.
    pub open spec fn other(self, line: LineView) -> ScanView {
        if self.context_remaining > 0 && line.context {
            ScanView {
                diagnostics: self.diagnostics.push(line.text),
                context_remaining: (self.context_remaining - 1) as nat,
                ..self
            }
        } else if line.location {
            ScanView { previous: Some((line.text, line.context)), ..self }
        } else {
            self
        }
    }

    /// After one more line.
    pub open spec fn step(self, line: LineView) -> ScanView {
        match line.kind {
            LineKind::Blank => self,
            LineKind::Progress => self.progress(line),
            LineKind::Error => self.error(line),
            LineKind::Warning => self.warning(line),
            LineKind::Summary => self.summary(line),
            LineKind::Other => self.other(line),
        }
    }
}

/// What is kept of a log with these lines.
pub open spec fn scanned(lines: Seq<LineView>) -> ScanView
    decreases lines.len(),
{
    if lines.len() == 0 {
        ScanView::start()
    } else {
        scanned(lines.drop_last()).step(lines.last())
    }
}

/// What is kept of the lines of a log that were read so far.
pub struct Scan {
    pub diagnostics: CappedLines,
    pub warnings: CappedLines,
    pub summaries: CappedLines,
    pub state: FilterState,
    pub context_remaining: usize,
    pub previous: Option<(String, bool)>,
}

impl View for Scan {
    type V = ScanView;

    open spec fn view(&self) -> ScanView {
        ScanView {
            diagnostics: self.diagnostics@,
            warnings: self.warnings@,
            summaries: self.summaries@,
            state: self.state@,
            context_remaining: self.context_remaining as nat,
            previous: match self.previous {
                Some((text, context)) => Some((text@, context)),
                None => None,
            },
        }
    }
}

impl Scan {
    /// The three lists are well-formed.
    pub open spec fn wf(&self) -> bool {
        self.diagnostics.wf() && self.warnings.wf() && self.summaries.wf()
    }

    /// Before the first line.
    pub fn new() -> (r: Scan)
        ensures
            r.wf(),
            r@ == ScanView::start(),
    {
        Scan {
            diagnostics: CappedLines::new("diagnostics", CAP_ERRORS),
            warnings: CappedLines::new("warnings", CAP_WARNINGS),
            summaries: CappedLines::new("summary lines", CAP_LIST),
            state: FilterState::default(),
            context_remaining: 0,
            previous: None,
        }
    }

    /// Takes one more line.
    pub fn step(&mut self, line: &LogLine)
        requires
            old(self).wf(),
            line.kind is Progress ==> old(self).state.progress_total < usize::MAX,
        ensures
            final(self).wf(),
            final(self)@ == old(self)@.step(line@),
    {
        let text = line.text.as_str();
        match line.kind {
            LineKind::Blank => {},
            LineKind::Progress => {
                let compact = trim(text);
                self.state.progress_total = self.state.progress_total + 1;
                if lower_contains(compact, "cooked packages") {
                    self.state.packages_seen = Some(compact.to_owned());
                }
            },
            LineKind::Error => {
                self.state.failure_seen = true;
                if let Some((led_up, context)) = self.previous.take() {
                    if context {
                        self.diagnostics.push(led_up.as_str());
                    }
                }
                self.diagnostics.push(text);
                self.context_remaining = ERROR_CONTEXT;
            },
            LineKind::Warning => {
                self.warnings.push(text);
                self.previous = Some((text.to_owned(), line.context));
                if self.context_remaining < 1 {
                    self.context_remaining = 1;
                }
            },
            LineKind::Summary => {
                if eq_ignore_ascii_case(trim(text), "build failed") {
                    self.state.failure_seen = true;
                }
                self.summaries.push(text);
            },
            LineKind::Other => {
                if self.context_remaining > 0 && line.context {
                    self.diagnostics.push(text);
                    self.context_remaining = self.context_remaining - 1;
                } else if line.location {
                    self.previous = Some((text.to_owned(), line.context));
                }
            },
        }
    }
}

/// Goes through the lines of a log.
pub fn scan_lines(lines: &Vec<LogLine>) -> (r: Scan)
    ensures
        r.wf(),
        r@ == scanned(line_views(lines@)),
{
    let mut scan = Scan::new();
    let mut i: usize = 0;
    assert(line_views(lines@).take(0) =~= Seq::<LineView>::empty());
    while i < lines.len()
        invariant
            i <= lines@.len(),
            scan.wf(),
            scan@ == scanned(line_views(lines@).take(i as int)),
            scan.state.progress_total <= i,
        decreases lines@.len() - i,
    {
        assert(line_views(lines@).take(i + 1).drop_last() =~= line_views(lines@).take(i as int));
        assert(scan@.step(lines@[i as int]@).state.progress_total <= i + 1);
        scan.step(&lines[i]);
        i = i + 1;
    }
    assert(line_views(lines@).take(i as int) =~= line_views(lines@));
    scan
}

} // verus!
