//! From a log to its report.

use crate::args::{is_project_name, uat_arg_summary, uat_summary};
use crate::mode::UnrealMode;
use crate::patterns::{without_ansi, LinePatterns};
use crate::report::{
    failure_lines, format_failure_output, format_success_output, report_text, success_lines,
};
use crate::scan::{
    classified_lines, classify_log, line_views, scan_lines, scanned, LineView, LogLine,
};
use crate::text::texts;
use vstd::prelude::*;

verus! {

/// The run counts as failed: the process says so, the log says so, or the log holds diagnostics.
pub open spec fn is_failure(lines: Seq<LineView>, exit_code: int) -> bool {
    let scan = scanned(lines);
    exit_code != 0 || scan.state.failure_seen || scan.diagnostics.shown().len() > 0
}

/// The lines of the report on a log, before blank and repeated ones are dropped.
pub open spec fn report_lines(
    lines: Seq<LineView>,
    mode: UnrealMode,
    args: Seq<Seq<char>>,
    uat_detail: Seq<char>,
    exit_code: int,
) -> Seq<Seq<char>> {
    let scan = scanned(lines);
    let state = scan.state.ended(exit_code);
    if is_failure(lines, exit_code) {
        failure_lines(mode, scan.diagnostics, scan.warnings, scan.summaries, state, lines)
    } else {
        success_lines(mode, args, uat_detail, scan.warnings, scan.summaries, state)
    }
}

/// The report on a log whose lines are known. `uat_detail` says what a UAT run worked on.
pub fn filter_lines(
    lines: &Vec<LogLine>,
    mode: UnrealMode,
    args: &[String],
    uat_detail: &str,
    exit_code: i32,
) -> (r: String)
    ensures
        r@ == report_text(
            report_lines(
                line_views(lines@),
                mode,
                texts(args@),
                uat_detail@,
                exit_code as int,
            ),
        ),
{
    let scan = scan_lines(lines);
    let mut state = scan.state;
    if exit_code != 0 {
        state.process_exit_code = Some(exit_code);
        state.failure_seen = true;
    }
    if state.failure_seen || !scan.diagnostics.is_empty() {
        format_failure_output(
            mode,
            &scan.diagnostics,
            &scan.warnings,
            &scan.summaries,
            &state,
            lines,
        )
    } else {
        format_success_output(mode, args, uat_detail, &scan.warnings, &scan.summaries, &state)
    }
}

/// The report on the log `raw` of a run whose project is called `project`.
pub open spec fn report_on(
    raw: Seq<char>,
    mode: UnrealMode,
    args: Seq<Seq<char>>,
    project: Option<Seq<char>>,
    exit_code: int,
) -> Seq<char> {
    report_text(
        report_lines(
            classified_lines(without_ansi(raw)),
            mode,
            args,
            uat_summary(project, args),
            exit_code,
        ),
    )
}

/// What the report on the log `raw` can be: the platform has a say in what the project is called.
pub open spec fn is_report(
    raw: Seq<char>,
    mode: UnrealMode,
    args: Seq<Seq<char>>,
    exit_code: int,
    report: Seq<char>,
) -> bool {
    exists|project: Option<Seq<char>>| #[trigger]
        is_project_name(args, project) && report == report_on(raw, mode, args, project, exit_code)
}

/// The report on the log `raw` of a run with the arguments `args` and the exit code `exit_code`.
pub fn filter_output_with_exit_code(
    patterns: &LinePatterns,
    raw: &str,
    mode: UnrealMode,
    args: &[String],
    exit_code: i32,
) -> (r: String)
    ensures
        is_report(raw@, mode, texts(args@), exit_code as int, r@),
{
    let cleaned = patterns.strip_ansi(raw);
    let lines = classify_log(patterns, cleaned.as_str());
    let uat_detail = uat_arg_summary(args);
    filter_lines(&lines, mode, args, uat_detail.as_str(), exit_code)
}

/// The report on the log `raw` of a run whose process succeeded: what
/// [`filter_output_with_exit_code`] gives for the exit code 0.
pub fn filter_output(
    patterns: &LinePatterns,
    raw: &str,
    mode: UnrealMode,
    args: &[String],
) -> (r: String)
    ensures
        is_report(raw@, mode, texts(args@), 0, r@),
        call_ensures(filter_output_with_exit_code, (patterns, raw, mode, args, 0i32), r),
{
    filter_output_with_exit_code(patterns, raw, mode, args, 0)
}

} // verus!
