//! The text of a report.

use crate::args::{arg_value, arg_value_of, build_arg_summary, build_summary};
use crate::capped::{push_all, CappedLines, CappedView};
use crate::mode::UnrealMode;
use crate::scan::{line_views, FilterState, LineKind, LineView, LogLine, StateView};
use crate::text::{
    contains, contains_text, decimal, join, joined, lower_contains, lower_of, push_decimal,
    push_signed_decimal, signed_decimal, texts, trim, trim_of,
};
use vstd::hash_set::StringHashSet;
use vstd::prelude::*;

verus! {

/// How many lines of the log stand in for diagnostics where a failed run has none.
pub const FALLBACK_LINES: usize = 12;

/// The lines that are not blank, each where it first comes.
pub open spec fn compacted(lines: Seq<Seq<char>>) -> Seq<Seq<char>>
    decreases lines.len(),
{
    if lines.len() == 0 {
        Seq::empty()
    } else {
        let before = compacted(lines.drop_last());
        let line = lines.last();
        if trim_of(line).len() == 0 || before.contains(line) {
            before
        } else {
            before.push(line)
        }
    }
}

/// The lines of a log that are neither blank nor progress messages.
pub open spec fn meaningful(lines: Seq<LineView>) -> Seq<Seq<char>>
    decreases lines.len(),
{
    if lines.len() == 0 {
        Seq::empty()
    } else {
        let before = meaningful(lines.drop_last());
        let line = lines.last();
        if line.kind is Blank || line.kind is Progress {
            before
        } else {
            before.push(line.text)
        }
    }
}

/// The last `n` of `lines`, or all of them where there are fewer.
pub open spec fn last_of(lines: Seq<Seq<char>>, n: nat) -> Seq<Seq<char>> {
    if lines.len() <= n {
        lines
    } else {
        lines.skip(lines.len() - n)
    }
}

/// The line that tells the exit code of a process that failed.
pub open spec fn exit_note(code: int) -> Seq<char> {
    "process exited with code "@ + signed_decimal(code)
}

/// The exit code of the process, where it is known to have failed.
pub open spec fn exit_lines(state: StateView) -> Seq<Seq<char>> {
    match state.process_exit_code {
        Some(code) => seq![exit_note(code)],
        None => Seq::empty(),
    }
}

/// How many progress messages were left out, if any.
pub open spec fn progress_lines(state: StateView) -> Seq<Seq<char>> {
    if state.progress_total > 0 {
        seq!["... omitted "@ + decimal(state.progress_total) + " Unreal progress/noise lines"@]
    } else {
        Seq::empty()
    }
}

/// The first line of the report on a failed run that left no diagnostics.
pub open spec fn failed_header(mode: UnrealMode) -> Seq<char> {
    "unreal "@ + mode.label_text() + ": failed"@
}

/// The parts of the report on a failed run. Without diagnostics, the last lines of the log stand in
/// for them.
pub open spec fn failure_lines(
    mode: UnrealMode,
    diagnostics: CappedView,
    warnings: CappedView,
    summaries: CappedView,
    state: StateView,
    lines: Seq<LineView>,
) -> Seq<Seq<char>> {
    if diagnostics.shown().len() == 0 {
        seq![failed_header(mode)] + exit_lines(state) + summaries.rendered() + last_of(
            meaningful(lines),
            FALLBACK_LINES as nat,
        ) + warnings.rendered() + progress_lines(state)
    } else {
        diagnostics.rendered() + exit_lines(state) + warnings.rendered() + summaries.rendered()
            + progress_lines(state)
    }
}

/// `prefix`, followed by `detail` where there is any.
pub open spec fn with_detail(prefix: Seq<char>, detail: Seq<char>) -> Seq<char> {
    if trim_of(detail).len() == 0 {
        prefix
    } else {
        prefix + "  "@ + trim_of(detail)
    }
}

/// The first of `lines` that tells how many tests completed.
pub open spec fn tests_completed(lines: Seq<Seq<char>>) -> Option<Seq<char>>
    decreases lines.len(),
{
    if lines.len() == 0 {
        None
    } else if contains_text(lower_of(lines[0]), "tests completed"@) {
        Some(lines[0])
    } else {
        tests_completed(lines.drop_first())
    }
}

/// The first line of the report on a run that succeeded. `uat_detail` says what a UAT run worked
/// on.
pub open spec fn header(
    mode: UnrealMode,
    args: Seq<Seq<char>>,
    uat_detail: Seq<char>,
    summaries: CappedView,
    state: StateView,
) -> Seq<char> {
    match mode {
        UnrealMode::Build => with_detail("unreal build: ok"@, build_summary(args)),
        UnrealMode::Cook => match state.packages_seen {
            Some(packages) => with_detail("unreal cook: ok"@, uat_detail + "  "@ + packages),
            None => with_detail("unreal cook: ok"@, uat_detail),
        },
        UnrealMode::Package => with_detail("unreal package: ok"@, uat_detail),
        UnrealMode::Uat => with_detail("unreal uat: ok"@, uat_detail),
        UnrealMode::Commandlet => with_detail(
            "unreal commandlet: ok"@,
            match arg_value_of(args, "-run="@) {
                Some(name) => name,
                None => "commandlet"@,
            },
        ),
        UnrealMode::Automation => "unreal automation: ok  "@ + match tests_completed(
            summaries.shown(),
        ) {
            Some(line) => line,
            None => "tests passed"@,
        },
    }
}

/// Some line of `out` holds the whole of `line`.
pub open spec fn is_mentioned(out: Seq<Seq<char>>, line: Seq<char>) -> bool {
    exists|i: int| 0 <= i < out.len() && contains_text(#[trigger] out[i], line)
}

/// `out` with those of `lines` at its end that nothing before them mentions.
pub open spec fn with_unmentioned(out: Seq<Seq<char>>, lines: Seq<Seq<char>>) -> Seq<Seq<char>>
    decreases lines.len(),
{
    if lines.len() == 0 {
        out
    } else {
        let before = with_unmentioned(out, lines.drop_last());
        if is_mentioned(before, lines.last()) {
            before
        } else {
            before.push(lines.last())
        }
    }
}

/// The line that tells how many warnings there were.
pub open spec fn warning_count(warnings: CappedView) -> Seq<char> {
    "warnings: "@ + decimal(warnings.distinct.len()) + " total (showing up to "@ + decimal(
        warnings.shown().len(),
    ) + ")"@
}

/// The warnings of a run that succeeded, if any, after their number.
pub open spec fn warning_lines(warnings: CappedView) -> Seq<Seq<char>> {
    if warnings.shown().len() == 0 {
        Seq::empty()
    } else {
        seq![warning_count(warnings)] + warnings.rendered()
    }
}

/// The parts of the report on a run that succeeded.
pub open spec fn success_lines(
    mode: UnrealMode,
    args: Seq<Seq<char>>,
    uat_detail: Seq<char>,
    warnings: CappedView,
    summaries: CappedView,
    state: StateView,
) -> Seq<Seq<char>> {
    let head = seq![header(mode, args, uat_detail, summaries, state)] + warning_lines(warnings);
    let body = if summaries.shown().len() > 1 {
        with_unmentioned(head, summaries.shown())
    } else {
        head
    };
    body + progress_lines(state)
}

/// A report with these lines.
pub open spec fn report_text(lines: Seq<Seq<char>>) -> Seq<char> {
    joined(compacted(lines), "\n"@)
}

/// Drops blank lines and repeated lines.
pub fn compact_lines(lines: Vec<String>) -> (r: Vec<String>)
    ensures
        texts(r@) == compacted(texts(lines@)),
{
    let mut out: Vec<String> = Vec::new();
    let mut seen = StringHashSet::new();
    let mut i: usize = 0;
    assert(texts(lines@).take(0) =~= Seq::<Seq<char>>::empty());
    assert(texts(out@) =~= Seq::<Seq<char>>::empty());
    while i < lines.len()
        invariant
            i <= lines@.len(),
            texts(out@) == compacted(texts(lines@).take(i as int)),
            forall|t: Seq<char>| #[trigger] seen@.contains(t) <==> texts(out@).contains(t),
        decreases lines@.len() - i,
    {
        let ghost before = texts(out@);
        assert(texts(lines@).take(i + 1).drop_last() =~= texts(lines@).take(i as int));
        let line = &lines[i];
        if !trim(line.as_str()).is_empty() {
            if seen.insert(line.clone()) {
                out.push(line.clone());
                assert(texts(out@) =~= before.push(line@));
                assert(texts(out@).last() == line@);
                assert forall|t: Seq<char>| before.contains(t) implies texts(out@).contains(t) by {
                    let k = choose|k: int| 0 <= k < before.len() && before[k] == t;
                    assert(texts(out@)[k] == t);
                }
            }
        }
        i = i + 1;
    }
    assert(texts(lines@).take(i as int) =~= texts(lines@));
    out
}

/// The last `count` lines of a log that are neither blank nor progress messages.
pub fn fallback_tail(lines: &Vec<LogLine>, count: usize) -> (r: Vec<String>)
    ensures
        texts(r@) == last_of(meaningful(line_views(lines@)), count as nat),
{
    let mut kept: Vec<String> = Vec::new();
    let mut i: usize = 0;
    assert(line_views(lines@).take(0) =~= Seq::<LineView>::empty());
    assert(texts(kept@) =~= Seq::<Seq<char>>::empty());
    while i < lines.len()
        invariant
            i <= lines@.len(),
            texts(kept@) == meaningful(line_views(lines@).take(i as int)),
        decreases lines@.len() - i,
    {
        let ghost before = texts(kept@);
        assert(line_views(lines@).take(i + 1).drop_last() =~= line_views(lines@).take(i as int));
        match lines[i].kind {
            LineKind::Blank | LineKind::Progress => {},
            _ => {
                kept.push(lines[i].text.clone());
                assert(texts(kept@) =~= before.push(lines@[i as int].text@));
            },
        }
        i = i + 1;
    }
    assert(line_views(lines@).take(i as int) =~= line_views(lines@));
    if kept.len() <= count {
        kept
    } else {
        let ghost all = texts(kept@);
        let start: usize = kept.len() - count;
        let tail = kept.split_off(start);
        assert(texts(tail@) =~= all.skip(start as int));
        tail
    }
}

/// Writes the exit code of the process at the end of `out`, where it is known to have failed.
pub fn append_process_exit(out: &mut Vec<String>, state: &FilterState)
    ensures
        texts(final(out)@) == texts(old(out)@) + exit_lines(state@),
{
    let ghost before = texts(out@);
    if let Some(exit_code) = state.process_exit_code {
        let mut note = String::new();
        note.append("process exited with code ");
        push_signed_decimal(&mut note, exit_code);
        assert(note@ =~= exit_note(exit_code as int));
        out.push(note);
    }
    assert(texts(out@) =~= before + exit_lines(state@));
}

/// Writes at the end of `out` how many progress messages were left out, if any.
fn append_progress(out: &mut Vec<String>, state: &FilterState)
    ensures
        texts(final(out)@) == texts(old(out)@) + progress_lines(state@),
{
    let ghost before = texts(out@);
    if state.progress_total > 0 {
        let mut note = String::new();
        note.append("... omitted ");
        push_decimal(&mut note, state.progress_total);
        note.append(" Unreal progress/noise lines");
        assert(note@ =~= progress_lines(state@)[0]);
        out.push(note);
    }
    assert(texts(out@) =~= before + progress_lines(state@));
}

/// The report on a run that failed, or that left diagnostics.
pub fn format_failure_output(
    mode: UnrealMode,
    diagnostics: &CappedLines,
    warnings: &CappedLines,
    summaries: &CappedLines,
    state: &FilterState,
    lines: &Vec<LogLine>,
) -> (r: String)
    requires
        diagnostics.wf(),
        warnings.wf(),
        summaries.wf(),
    ensures
        r@ == report_text(
            failure_lines(
                mode,
                diagnostics@,
                warnings@,
                summaries@,
                state@,
                line_views(lines@),
            ),
        ),
{
    let mut out: Vec<String> = Vec::new();
    let ghost expected = failure_lines(
        mode,
        diagnostics@,
        warnings@,
        summaries@,
        state@,
        line_views(lines@),
    );
    if diagnostics.is_empty() {
        let mut head = String::new();
        head.append("unreal ");
        head.append(mode.label());
        head.append(": failed");
        assert(head@ =~= failed_header(mode));
        out.push(head);
        assert(texts(out@) =~= seq![failed_header(mode)]);
        append_process_exit(&mut out, state);
        summaries.append_to(&mut out);
        push_all(&mut out, &fallback_tail(lines, FALLBACK_LINES));
        warnings.append_to(&mut out);
    } else {
        assert(texts(out@) =~= Seq::<Seq<char>>::empty());
        diagnostics.append_to(&mut out);
        append_process_exit(&mut out, state);
        warnings.append_to(&mut out);
        summaries.append_to(&mut out);
    }
    append_progress(&mut out, state);
    assert(texts(out@) =~= expected);
    join(&compact_lines(out), "\n")
}

/// `prefix`, followed by `detail` where there is any.
pub fn format_with_detail(prefix: &str, detail: &str) -> (r: String)
    ensures
        r@ == with_detail(prefix@, detail@),
{
    let trimmed = trim(detail);
    let mut r = prefix.to_owned();
    if !trimmed.is_empty() {
        r.append("  ");
        r.append(trimmed);
    }
    r
}

/// The first line of the report on a run that succeeded. `uat_detail` says what a UAT run worked
/// on.
pub fn success_header(
    mode: UnrealMode,
    args: &[String],
    uat_detail: &str,
    summaries: &CappedLines,
    state: &FilterState,
) -> (r: String)
    requires
        summaries.wf(),
    ensures
        r@ == header(mode, texts(args@), uat_detail@, summaries@, state@),
{
    match mode {
        UnrealMode::Build => format_with_detail(
            "unreal build: ok",
            build_arg_summary(args).as_str(),
        ),
        UnrealMode::Cook => {
            if let Some(packages) = &state.packages_seen {
                let mut detail = uat_detail.to_owned();
                detail.append("  ");
                detail.append(packages.as_str());
                format_with_detail("unreal cook: ok", detail.as_str())
            } else {
                format_with_detail("unreal cook: ok", uat_detail)
            }
        },
        UnrealMode::Package => format_with_detail("unreal package: ok", uat_detail),
        UnrealMode::Uat => format_with_detail("unreal uat: ok", uat_detail),
        UnrealMode::Commandlet => {
            let detail = match arg_value(args, "-run=") {
                Some(name) => name,
                None => "commandlet".to_owned(),
            };
            format_with_detail("unreal commandlet: ok", detail.as_str())
        },
        UnrealMode::Automation => {
            let mut r = "unreal automation: ok  ".to_owned();
            match find_tests_completed(summaries.lines()) {
                Some(line) => r.append(line.as_str()),
                None => r.append("tests passed"),
            }
            r
        },
    }
}

/// The first of `lines` that tells how many tests completed.
fn find_tests_completed(lines: &Vec<String>) -> (r: Option<&String>)
    ensures
        match r {
            Some(line) => tests_completed(texts(lines@)) == Some(line@),
            None => tests_completed(texts(lines@)) is None,
        },
{
    let mut i: usize = 0;
    assert(texts(lines@).skip(0) =~= texts(lines@));
    while i < lines.len()
        invariant
            i <= lines@.len(),
            tests_completed(texts(lines@)) == tests_completed(texts(lines@).skip(i as int)),
        decreases lines@.len() - i,
    {
        if lower_contains(lines[i].as_str(), "tests completed") {
            return Some(&lines[i]);
        }
        assert(texts(lines@).skip(i as int).drop_first() =~= texts(lines@).skip(i + 1));
        i = i + 1;
    }
    None
}

/// Whether some line of `out` holds the whole of `line`.
fn mentions(out: &Vec<String>, line: &str) -> (r: bool)
    ensures
        r == is_mentioned(texts(out@), line@),
{
    let mut i: usize = 0;
    while i < out.len()
        invariant
            i <= out@.len(),
            forall|k: int| 0 <= k < i ==> !contains_text(#[trigger] texts(out@)[k], line@),
        decreases out@.len() - i,
    {
        if contains(out[i].as_str(), line) {
            assert(contains_text(texts(out@)[i as int], line@));
            return true;
        }
        i = i + 1;
    }
    false
}

/// Writes those of `lines` at the end of `out` that nothing before them mentions.
fn push_unmentioned(out: &mut Vec<String>, lines: &Vec<String>)
    ensures
        texts(final(out)@) == with_unmentioned(texts(old(out)@), texts(lines@)),
{
    let mut i: usize = 0;
    assert(texts(lines@).take(0) =~= Seq::<Seq<char>>::empty());
    while i < lines.len()
        invariant
            i <= lines@.len(),
            texts(out@) == with_unmentioned(texts(old(out)@), texts(lines@).take(i as int)),
        decreases lines@.len() - i,
    {
        let ghost before = texts(out@);
        assert(texts(lines@).take(i + 1).drop_last() =~= texts(lines@).take(i as int));
        let line = &lines[i];
        if !mentions(out, line.as_str()) {
            out.push(line.clone());
            assert(texts(out@) =~= before.push(line@));
        }
        i = i + 1;
    }
    assert(texts(lines@).take(i as int) =~= texts(lines@));
}

/// The report on a run that succeeded. `uat_detail` says what a UAT run worked on.
pub fn format_success_output(
    mode: UnrealMode,
    args: &[String],
    uat_detail: &str,
    warnings: &CappedLines,
    summaries: &CappedLines,
    state: &FilterState,
) -> (r: String)
    requires
        warnings.wf(),
        summaries.wf(),
    ensures
        r@ == report_text(
            success_lines(mode, texts(args@), uat_detail@, warnings@, summaries@, state@),
        ),
{
    let mut out: Vec<String> = Vec::new();
    out.push(success_header(mode, args, uat_detail, summaries, state));
    assert(texts(out@) =~= seq![header(mode, texts(args@), uat_detail@, summaries@, state@)]);
    if !warnings.is_empty() {
        let mut count = "warnings: ".to_owned();
        push_decimal(&mut count, warnings.total());
        count.append(" total (showing up to ");
        let kept = warnings.lines();
        assert(texts(kept@).len() == kept@.len());
        push_decimal(&mut count, kept.len());
        count.append(")");
        assert(count@ =~= warning_count(warnings@));
        let ghost before = texts(out@);
        out.push(count);
        assert(texts(out@) =~= before.push(count@));
        warnings.append_to(&mut out);
    }
    assert(texts(out@) =~= seq![header(mode, texts(args@), uat_detail@, summaries@, state@)]
        + warning_lines(warnings@));
    let shown = summaries.lines();
    assert(texts(shown@).len() == shown@.len());
    if shown.len() > 1 {
        push_unmentioned(&mut out, shown);
    }
    append_progress(&mut out, state);
    join(&compact_lines(out), "\n")
}

} // verus!
