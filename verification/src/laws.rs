//! What holds of every report, whatever the log.

use crate::args::{
    arg_value_of, client_config, final_component, is_portable_path, is_project_name, is_share,
    is_uat_summary, is_verbatim, project_path, read_on_windows, target_platform, uat_summary,
};
use crate::capped::{with_line, CappedView};
use crate::filter::{is_failure, is_report, report_lines, report_on};
use crate::mode::UnrealMode;
use crate::patterns::without_ansi;
use crate::report::{
    compacted, exit_lines, exit_note, failed_header, failure_lines, header, is_mentioned, last_of,
    meaningful, progress_lines, warning_count, warning_lines, with_unmentioned, FALLBACK_LINES,
};
use crate::scan::{
    classified, classified_lines, kind_of, scanned, LineKind, LineView, ScanView, CAP_ERRORS,
    CAP_LIST, CAP_WARNINGS,
};
use crate::text::{
    contains_text, first_line_feed, is_white_space, lines_of, lower_of, occurs_at, trim_end_of,
    trim_of, trim_start_of,
};
use vstd::prelude::*;

verus! {

/// A character that is not white space survives trimming.
proof fn lemma_trim_start_keeps(t: Seq<char>, i: int)
    requires
        0 <= i < t.len(),
        !is_white_space(t[i]),
    ensures
        trim_start_of(t).len() > 0,
    decreases t.len(),
{
    if is_white_space(t[0]) {
        assert(t.drop_first()[i - 1] == t[i]);
        lemma_trim_start_keeps(t.drop_first(), i - 1);
    }
}

proof fn lemma_trim_end_keeps(t: Seq<char>, i: int)
    requires
        0 <= i < t.len(),
        !is_white_space(t[i]),
    ensures
        i < trim_end_of(t).len() <= t.len(),
        trim_end_of(t)[i] == t[i],
    decreases t.len(),
{
    if is_white_space(t.last()) {
        lemma_trim_end_keeps(t.drop_last(), i);
    }
}

/// A text with a character that is not white space is not blank.
proof fn lemma_not_blank(t: Seq<char>, i: int)
    requires
        0 <= i < t.len(),
        !is_white_space(t[i]),
    ensures
        trim_of(t).len() > 0,
{
    lemma_trim_end_keeps(t, i);
    lemma_trim_start_keeps(trim_end_of(t), i);
}

/// A text without white space at its end stays as it is, and is not blank unless it is empty.
pub proof fn lemma_trimmed(t: Seq<char>)
    ensures
        trim_end_of(trim_end_of(t)) == trim_end_of(t),
        trim_end_of(t).len() > 0 ==> trim_of(trim_end_of(t)).len() > 0,
    decreases t.len(),
{
    if t.len() > 0 && is_white_space(t.last()) {
        lemma_trimmed(t.drop_last());
    } else if t.len() > 0 {
        lemma_not_blank(t, t.len() - 1);
    }
}

/// Pushing keeps what is there.
pub proof fn lemma_push_contains<A>(s: Seq<A>, x: A, y: A)
    ensures
        s.push(x).contains(y) <==> s.contains(y) || x == y,
{
    if s.contains(y) {
        let i = choose|i: int| 0 <= i < s.len() && s[i] == y;
        assert(s.push(x)[i] == y);
    }
    if x == y {
        assert(s.push(x)[s.len() as int] == y);
    }
    if s.push(x).contains(y) {
        let i = choose|i: int| 0 <= i < s.push(x).len() && s.push(x)[i] == y;
        if i < s.len() {
            assert(s[i] == y);
        }
    }
}

/// Dropping blank and repeated lines leaves each other line exactly once, and adds none.
pub proof fn law_compaction_keeps_each_line_once(lines: Seq<Seq<char>>)
    ensures
        compacted(lines).no_duplicates(),
        forall|line: Seq<char>| #[trigger]
            compacted(lines).contains(line) <==> lines.contains(line) && trim_of(line).len() > 0,
        compacted(lines).len() <= lines.len(),
    decreases lines.len(),
{
    if lines.len() > 0 {
        let rest = lines.drop_last();
        let last = lines.last();
        law_compaction_keeps_each_line_once(rest);
        assert(lines =~= rest.push(last));
        assert forall|line: Seq<char>| #[trigger]
            compacted(lines).contains(line) <==> lines.contains(line) && trim_of(line).len() > 0 by {
            lemma_push_contains(rest, last, line);
            lemma_push_contains(compacted(rest), last, line);
        }
    }
}

/// Dropping blank and repeated lines a second time changes nothing.
pub proof fn law_compaction_is_idempotent(lines: Seq<Seq<char>>)
    ensures
        compacted(compacted(lines)) == compacted(lines),
    decreases lines.len(),
{
    if lines.len() > 0 {
        let before = compacted(lines.drop_last());
        law_compaction_is_idempotent(lines.drop_last());
        if compacted(lines) != before {
            assert(compacted(lines).drop_last() =~= before);
        }
    }
}

/// A line that is not blank, first in a report, stays first.
proof fn lemma_compacted_first(lines: Seq<Seq<char>>)
    requires
        lines.len() > 0,
        trim_of(lines[0]).len() > 0,
    ensures
        compacted(lines).len() > 0,
        compacted(lines)[0] == lines[0],
    decreases lines.len(),
{
    if lines.len() > 1 {
        lemma_compacted_first(lines.drop_last());
    } else {
        assert(compacted(lines.drop_last()) =~= Seq::<Seq<char>>::empty());
    }
}

/// A list accounts for every distinct line it was given: the lines that are shown and the number
/// of the others. Up to the cap nothing is left out.
pub proof fn law_list_accounts_for_every_line(list: CappedView)
    ensures
        list.shown().is_prefix_of(list.distinct),
        list.shown().len() + list.hidden() == list.distinct.len(),
        list.shown().len() <= list.cap,
        list.distinct.len() <= list.cap ==> list.rendered() == list.distinct,
        list.distinct.len() > list.cap ==> list.rendered() == list.shown().push(list.hidden_note()),
{
}

/// Giving a line to a list: nothing goes away, nothing comes twice, and the line is in it
/// afterwards, unless it is blank.
pub proof fn law_list_keeps_each_line_once(list: CappedView, line: Seq<char>)
    requires
        list.distinct.no_duplicates(),
    ensures
        list.push(line).distinct.no_duplicates(),
        list.distinct.is_prefix_of(list.push(line).distinct),
        trim_end_of(line).len() > 0 ==> list.push(line).distinct.contains(trim_end_of(line)),
        list.push(line).push(line) == list.push(line),
{
    lemma_push_contains(list.distinct, trim_end_of(line), trim_end_of(line));
    assert(list.distinct.is_prefix_of(list.push(line).distinct));
}

/// The distinct lines of one kind, in the order in which they first come.
pub open spec fn lines_of_kind(lines: Seq<LineView>, kind: LineKind) -> Seq<Seq<char>>
    decreases lines.len(),
{
    if lines.len() == 0 {
        Seq::empty()
    } else {
        let before = lines_of_kind(lines.drop_last(), kind);
        if lines.last().kind == kind {
            with_line(before, lines.last().text)
        } else {
            before
        }
    }
}

/// How many lines are of one kind.
pub open spec fn count_of_kind(lines: Seq<LineView>, kind: LineKind) -> nat {
    lines.filter(|line: LineView| line.kind == kind).len()
}

/// Warnings and summary lines are listed, progress messages are counted, each by itself and
/// whatever stands between them.
pub proof fn law_scan_sorts_lines_by_kind(lines: Seq<LineView>)
    ensures
        scanned(lines).warnings == (CappedView {
            distinct: lines_of_kind(lines, LineKind::Warning),
            ..ScanView::start().warnings
        }),
        scanned(lines).summaries == (CappedView {
            distinct: lines_of_kind(lines, LineKind::Summary),
            ..ScanView::start().summaries
        }),
        scanned(lines).state.progress_total == count_of_kind(lines, LineKind::Progress),
        scanned(lines).state.process_exit_code is None,
        scanned(lines).diagnostics.label == "diagnostics"@,
        scanned(lines).diagnostics.cap == CAP_ERRORS,
    decreases lines.len(),
{
    reveal(Seq::filter);
    if lines.len() > 0 {
        law_scan_sorts_lines_by_kind(lines.drop_last());
    }
}

/// The three lists hold no line twice and no empty line.
pub proof fn law_lists_are_distinct(lines: Seq<LineView>)
    ensures
        scanned(lines).diagnostics.distinct.no_duplicates(),
        scanned(lines).warnings.distinct.no_duplicates(),
        scanned(lines).summaries.distinct.no_duplicates(),
        forall|t: Seq<char>| #[trigger]
            scanned(lines).diagnostics.distinct.contains(t) ==> t.len() > 0,
        forall|t: Seq<char>| #[trigger]
            scanned(lines).warnings.distinct.contains(t) ==> t.len() > 0,
        forall|t: Seq<char>| #[trigger]
            scanned(lines).summaries.distinct.contains(t) ==> t.len() > 0,
    decreases lines.len(),
{
    lemma_kept_from(lines);
    if lines.len() > 0 {
        let before = scanned(lines.drop_last());
        let text = lines.last().text;
        law_lists_are_distinct(lines.drop_last());
        assert forall|t: Seq<char>| #[trigger]
            scanned(lines).warnings.distinct.contains(t) implies t.len() > 0 by {
            lemma_with_line_contains(before.warnings.distinct, text, t);
        }
        assert forall|t: Seq<char>| #[trigger]
            scanned(lines).summaries.distinct.contains(t) implies t.len() > 0 by {
            lemma_with_line_contains(before.summaries.distinct, text, t);
        }
    }
}

/// Further lines of a log take nothing away from the lists: they only grow at their ends.
pub proof fn law_lists_only_grow(lines: Seq<LineView>, n: int)
    requires
        0 <= n <= lines.len(),
    ensures
        scanned(lines.take(n)).diagnostics.distinct.is_prefix_of(
            scanned(lines).diagnostics.distinct,
        ),
        scanned(lines.take(n)).warnings.distinct.is_prefix_of(scanned(lines).warnings.distinct),
        scanned(lines.take(n)).summaries.distinct.is_prefix_of(scanned(lines).summaries.distinct),
        scanned(lines.take(n)).state.failure_seen ==> scanned(lines).state.failure_seen,
        scanned(lines.take(n)).state.progress_total <= scanned(lines).state.progress_total,
    decreases lines.len(),
{
    if n == lines.len() {
        assert(lines.take(n) =~= lines);
    } else {
        assert(lines.drop_last().take(n) =~= lines.take(n));
        law_lists_only_grow(lines.drop_last(), n);
    }
}

/// `line` may stand among the diagnostics: it is an error, or a line that explains one.
pub open spec fn is_diagnostic(line: LineView) -> bool {
    line.kind is Error || ((line.kind is Warning || line.kind is Other) && line.context)
}

/// What is known of the lines that a scan has kept.
spec fn kept_from(lines: Seq<LineView>, scan: ScanView) -> bool {
    &&& forall|t: Seq<char>| #[trigger]
        scan.diagnostics.distinct.contains(t) ==> exists|i: int|
            0 <= i < lines.len() && is_diagnostic(#[trigger] lines[i]) && trim_end_of(lines[i].text)
                == t && t.len() > 0
    &&& scan.previous matches Some((text, context)) ==> exists|i: int|
        0 <= i < lines.len() && (#[trigger] lines[i]).text == text && lines[i].context == context
            && (lines[i].kind is Warning || lines[i].kind is Other)
}

proof fn lemma_kept_from(lines: Seq<LineView>)
    ensures
        kept_from(lines, scanned(lines)),
    decreases lines.len(),
{
    if lines.len() > 0 {
        let rest = lines.drop_last();
        let last = lines.last();
        let before = scanned(rest);
        let after = scanned(lines);
        lemma_kept_from(rest);
        assert forall|t: Seq<char>| #[trigger] after.diagnostics.distinct.contains(t) implies exists|
            i: int,
        |
            0 <= i < lines.len() && is_diagnostic(#[trigger] lines[i]) && trim_end_of(lines[i].text)
                == t && t.len() > 0 by {
            if before.diagnostics.distinct.contains(t) {
                let i = choose|i: int|
                    0 <= i < rest.len() && is_diagnostic(#[trigger] rest[i]) && trim_end_of(
                        rest[i].text,
                    ) == t && t.len() > 0;
                assert(lines[i] == rest[i]);
            } else if t == trim_end_of(last.text) && is_diagnostic(last) {
                assert(lines[lines.len() - 1] == last);
                lemma_with_line_contains(before.diagnostics.distinct, last.text, t);
                if last.kind is Error {
                    match before.previous {
                        Some((text, true)) => {
                            lemma_with_line_contains(before.diagnostics.distinct, text, t);
                            lemma_with_line_contains(
                                with_line(before.diagnostics.distinct, text),
                                last.text,
                                t,
                            );
                        },
                        _ => {},
                    }
                }
            } else {
                lemma_with_line_contains(before.diagnostics.distinct, last.text, t);
                match before.previous {
                    Some((text, true)) => {
                        lemma_with_line_contains(before.diagnostics.distinct, text, t);
                        lemma_with_line_contains(
                            with_line(before.diagnostics.distinct, text),
                            last.text,
                            t,
                        );
                        let i = choose|i: int|
                            0 <= i < rest.len() && (#[trigger] rest[i]).text == text
                                && rest[i].context == true && (rest[i].kind is Warning
                                || rest[i].kind is Other);
                        assert(lines[i] == rest[i]);
                    },
                    _ => {},
                }
            }
        }
        if let Some((text, context)) = after.previous {
            if before.previous == after.previous {
                let i = choose|i: int|
                    0 <= i < rest.len() && (#[trigger] rest[i]).text == text && rest[i].context
                        == context && (rest[i].kind is Warning || rest[i].kind is Other);
                assert(lines[i] == rest[i]);
            } else {
                assert(lines[lines.len() - 1] == last);
            }
        }
    }
}

pub proof fn lemma_with_line_contains(list: Seq<Seq<char>>, line: Seq<char>, t: Seq<char>)
    ensures
        with_line(list, line).contains(t) <==> list.contains(t) || (t == trim_end_of(line)
            && t.len() > 0),
{
    lemma_push_contains(list, trim_end_of(line), t);
}

/// The diagnostics are lines of the log: errors, and context lines around errors and warnings.
pub proof fn law_diagnostics_come_from_the_log(lines: Seq<LineView>, t: Seq<char>)
    requires
        scanned(lines).diagnostics.distinct.contains(t),
    ensures
        t.len() > 0,
        exists|i: int|
            0 <= i < lines.len() && is_diagnostic(#[trigger] lines[i]) && trim_end_of(lines[i].text)
                == t,
{
    lemma_kept_from(lines);
}

/// No error, no warning and no summary line of a log goes missing: each is in its list, and an
/// error makes the run count as failed.
pub proof fn law_nothing_important_is_lost(lines: Seq<LineView>, i: int)
    requires
        0 <= i < lines.len(),
        trim_end_of(lines[i].text).len() > 0,
    ensures
        lines[i].kind is Error ==> scanned(lines).diagnostics.distinct.contains(
            trim_end_of(lines[i].text),
        ) && scanned(lines).state.failure_seen,
        lines[i].kind is Warning ==> scanned(lines).warnings.distinct.contains(
            trim_end_of(lines[i].text),
        ),
        lines[i].kind is Summary ==> scanned(lines).summaries.distinct.contains(
            trim_end_of(lines[i].text),
        ),
{
    let t = trim_end_of(lines[i].text);
    let upto = lines.take(i + 1);
    let before = scanned(lines.take(i));
    assert(upto.drop_last() =~= lines.take(i));
    assert(upto.last() == lines[i]);
    law_lists_only_grow(lines, i + 1);
    lemma_with_line_contains(before.diagnostics.distinct, lines[i].text, t);
    lemma_with_line_contains(before.warnings.distinct, lines[i].text, t);
    lemma_with_line_contains(before.summaries.distinct, lines[i].text, t);
    match before.previous {
        Some((text, true)) => {
            lemma_with_line_contains(
                with_line(before.diagnostics.distinct, text),
                lines[i].text,
                t,
            );
        },
        _ => {},
    }
    lemma_prefix_contains(
        scanned(upto).diagnostics.distinct,
        scanned(lines).diagnostics.distinct,
        t,
    );
    lemma_prefix_contains(scanned(upto).warnings.distinct, scanned(lines).warnings.distinct, t);
    lemma_prefix_contains(scanned(upto).summaries.distinct, scanned(lines).summaries.distinct, t);
}

proof fn lemma_prefix_contains(a: Seq<Seq<char>>, b: Seq<Seq<char>>, t: Seq<char>)
    requires
        a.is_prefix_of(b),
    ensures
        a.contains(t) ==> b.contains(t),
{
    if a.contains(t) {
        let i = choose|i: int| 0 <= i < a.len() && a[i] == t;
        assert(b.take(a.len() as int)[i] == t);
        assert(b[i] == t);
    }
}

/// A line of one of the lists of one kind is the text of a line of that kind.
pub proof fn lemma_lines_of_kind(lines: Seq<LineView>, kind: LineKind, t: Seq<char>)
    requires
        lines_of_kind(lines, kind).contains(t),
    ensures
        t.len() > 0,
        exists|i: int|
            0 <= i < lines.len() && (#[trigger] lines[i]).kind == kind && trim_end_of(lines[i].text)
                == t,
    decreases lines.len(),
{
    if lines.len() > 0 {
        let rest = lines.drop_last();
        lemma_with_line_contains(lines_of_kind(rest, kind), lines.last().text, t);
        if lines_of_kind(rest, kind).contains(t) {
            lemma_lines_of_kind(rest, kind, t);
            let i = choose|i: int|
                0 <= i < rest.len() && (#[trigger] rest[i]).kind == kind && trim_end_of(
                    rest[i].text,
                ) == t;
            assert(lines[i] == rest[i]);
        } else {
            assert(lines[lines.len() - 1] == lines.last());
        }
    }
}

/// A line that may stand among the last lines of a log is neither blank nor a progress message.
proof fn lemma_meaningful(lines: Seq<LineView>, t: Seq<char>)
    requires
        meaningful(lines).contains(t),
    ensures
        exists|i: int|
            0 <= i < lines.len() && (#[trigger] lines[i]).text == t && !(lines[i].kind is Blank)
                && !(lines[i].kind is Progress),
    decreases lines.len(),
{
    if lines.len() > 0 {
        let rest = lines.drop_last();
        lemma_push_contains(meaningful(rest), lines.last().text, t);
        if meaningful(rest).contains(t) {
            lemma_meaningful(rest, t);
            let i = choose|i: int|
                0 <= i < rest.len() && (#[trigger] rest[i]).text == t && !(rest[i].kind is Blank)
                    && !(rest[i].kind is Progress);
            assert(lines[i] == rest[i]);
        } else {
            assert(lines[lines.len() - 1] == lines.last());
        }
    }
}

/// Whatever a report takes over from a log is neither blank nor a progress message: no such line is
/// among the diagnostics, the warnings, the summary lines or the last lines of the log.
pub proof fn law_noise_is_left_out(log: Seq<char>, t: Seq<char>)
    requires
        ({
            let scan = scanned(classified_lines(log));
            ||| scan.diagnostics.distinct.contains(t)
            ||| scan.warnings.distinct.contains(t)
            ||| scan.summaries.distinct.contains(t)
            ||| meaningful(classified_lines(log)).contains(t)
        }),
    ensures
        !(kind_of(t) is Blank),
        !(kind_of(t) is Progress),
        exists|i: int| 0 <= i < lines_of(log).len() && trim_end_of(#[trigger] lines_of(log)[i]) == t,
{
    let lines = classified_lines(log);
    let scan = scanned(lines);
    law_scan_sorts_lines_by_kind(lines);
    lemma_kept_from(lines);
    let i = if scan.diagnostics.distinct.contains(t) {
        choose|i: int|
            0 <= i < lines.len() && is_diagnostic(#[trigger] lines[i]) && trim_end_of(lines[i].text)
                == t && t.len() > 0
    } else if scan.warnings.distinct.contains(t) {
        lemma_lines_of_kind(lines, LineKind::Warning, t);
        choose|i: int|
            0 <= i < lines.len() && (#[trigger] lines[i]).kind == LineKind::Warning && trim_end_of(
                lines[i].text,
            ) == t
    } else if scan.summaries.distinct.contains(t) {
        lemma_lines_of_kind(lines, LineKind::Summary, t);
        choose|i: int|
            0 <= i < lines.len() && (#[trigger] lines[i]).kind == LineKind::Summary && trim_end_of(
                lines[i].text,
            ) == t
    } else {
        lemma_meaningful(lines, t);
        choose|i: int|
            0 <= i < lines.len() && (#[trigger] lines[i]).text == t && !(lines[i].kind is Blank)
                && !(lines[i].kind is Progress)
    };
    assert(lines[i] == classified(lines_of(log)[i]));
    lemma_trimmed(lines_of(log)[i]);
}

/// A process that ends with another exit code than 0 has failed, whatever its log looks like: the
/// report is that on a failed run, and tells the exit code.
pub proof fn law_nonzero_exit_is_reported(
    lines: Seq<LineView>,
    mode: UnrealMode,
    args: Seq<Seq<char>>,
    uat_detail: Seq<char>,
    exit_code: int,
)
    requires
        exit_code != 0,
    ensures
        is_failure(lines, exit_code),
        report_lines(lines, mode, args, uat_detail, exit_code) == failure_lines(
            mode,
            scanned(lines).diagnostics,
            scanned(lines).warnings,
            scanned(lines).summaries,
            scanned(lines).state.ended(exit_code),
            lines,
        ),
        compacted(report_lines(lines, mode, args, uat_detail, exit_code)).contains(
            exit_note(exit_code),
        ),
{
    let state = scanned(lines).state.ended(exit_code);
    let all = report_lines(lines, mode, args, uat_detail, exit_code);
    let note = exit_note(exit_code);
    reveal_strlit("process exited with code ");
    assert(note[0] == 'p');
    lemma_not_blank(note, 0);
    let diagnostics = scanned(lines).diagnostics;
    let k = if diagnostics.shown().len() == 0 {
        1
    } else {
        diagnostics.rendered().len() as int
    };
    assert(exit_lines(state)[0] == note);
    assert(all[k] == note);
    law_compaction_keeps_each_line_once(all);
}

/// The report on a failed run without diagnostics begins by saying that the run failed.
pub proof fn law_failure_without_diagnostics_says_failed(
    lines: Seq<LineView>,
    mode: UnrealMode,
    args: Seq<Seq<char>>,
    uat_detail: Seq<char>,
    exit_code: int,
)
    requires
        is_failure(lines, exit_code),
        scanned(lines).diagnostics.shown().len() == 0,
    ensures
        compacted(report_lines(lines, mode, args, uat_detail, exit_code)).len() > 0,
        compacted(report_lines(lines, mode, args, uat_detail, exit_code))[0] == failed_header(mode),
{
    let all = report_lines(lines, mode, args, uat_detail, exit_code);
    reveal_strlit("unreal ");
    assert(failed_header(mode)[0] == 'u');
    lemma_not_blank(failed_header(mode), 0);
    assert(all[0] == failed_header(mode));
    lemma_compacted_first(all);
}

/// The report on a run that succeeded begins with its header.
pub proof fn law_success_begins_with_the_header(
    lines: Seq<LineView>,
    mode: UnrealMode,
    args: Seq<Seq<char>>,
    uat_detail: Seq<char>,
)
    requires
        !is_failure(lines, 0),
    ensures
        compacted(report_lines(lines, mode, args, uat_detail, 0)).len() > 0,
        compacted(report_lines(lines, mode, args, uat_detail, 0))[0] == header(
            mode,
            args,
            uat_detail,
            scanned(lines).summaries,
            scanned(lines).state,
        ),
{
    let scan = scanned(lines);
    let all = report_lines(lines, mode, args, uat_detail, 0);
    let first = header(mode, args, uat_detail, scan.summaries, scan.state);
    reveal_strlit("unreal build: ok");
    reveal_strlit("unreal uat: ok");
    reveal_strlit("unreal cook: ok");
    reveal_strlit("unreal package: ok");
    reveal_strlit("unreal commandlet: ok");
    reveal_strlit("unreal automation: ok  ");
    assert(first[0] == 'u');
    lemma_not_blank(first, 0);
    let head = seq![first] + warning_lines(scan.warnings);
    let body = with_unmentioned(head, scan.summaries.shown());
    lemma_unmentioned(head, scan.summaries.shown());
    assert(body.subrange(0, head.len() as int)[0] == head[0]);
    assert(all[0] == first);
    lemma_compacted_first(all);
}

/// Adding lines that nothing mentions yet leaves what is there, and adds no line twice.
proof fn lemma_unmentioned(out: Seq<Seq<char>>, lines: Seq<Seq<char>>)
    ensures
        out.is_prefix_of(with_unmentioned(out, lines)),
        with_unmentioned(out, lines).len() <= out.len() + lines.len(),
    decreases lines.len(),
{
    if lines.len() > 0 {
        lemma_unmentioned(out, lines.drop_last());
    }
}

/// A log without errors and warnings, in which no summary says that the build failed, counts as a
/// success where the process succeeded.
pub proof fn law_clean_log_is_a_success(lines: Seq<LineView>)
    requires
        forall|i: int|
            0 <= i < lines.len() ==> {
                &&& !((#[trigger] lines[i]).kind is Error)
                &&& !(lines[i].kind is Warning)
                &&& lines[i].kind is Summary ==> lower_of(trim_of(lines[i].text)) != lower_of(
                    "build failed"@,
                )
            },
    ensures
        !is_failure(lines, 0),
{
    lemma_clean_scan(lines);
}

proof fn lemma_clean_scan(lines: Seq<LineView>)
    requires
        forall|i: int|
            0 <= i < lines.len() ==> {
                &&& !((#[trigger] lines[i]).kind is Error)
                &&& !(lines[i].kind is Warning)
                &&& lines[i].kind is Summary ==> lower_of(trim_of(lines[i].text)) != lower_of(
                    "build failed"@,
                )
            },
    ensures
        !scanned(lines).state.failure_seen,
        scanned(lines).context_remaining == 0,
        scanned(lines).diagnostics.distinct.len() == 0,
    decreases lines.len(),
{
    if lines.len() > 0 {
        let rest = lines.drop_last();
        assert forall|i: int| 0 <= i < rest.len() implies {
            &&& !((#[trigger] rest[i]).kind is Error)
            &&& !(rest[i].kind is Warning)
            &&& rest[i].kind is Summary ==> lower_of(trim_of(rest[i].text)) != lower_of(
                "build failed"@,
            )
        } by {
            assert(rest[i] == lines[i]);
        }
        lemma_clean_scan(rest);
        assert(lines[lines.len() - 1] == lines.last());
    }
}

/// A report is short, however long the log.
pub proof fn law_report_is_bounded(
    lines: Seq<LineView>,
    mode: UnrealMode,
    args: Seq<Seq<char>>,
    uat_detail: Seq<char>,
    exit_code: int,
)
    ensures
        compacted(report_lines(lines, mode, args, uat_detail, exit_code)).len() <= CAP_ERRORS
            + CAP_WARNINGS + CAP_LIST + 5,
{
    let scan = scanned(lines);
    let all = report_lines(lines, mode, args, uat_detail, exit_code);
    law_scan_sorts_lines_by_kind(lines);
    law_compaction_keeps_each_line_once(all);
    let state = scan.state.ended(exit_code);
    if !is_failure(lines, exit_code) {
        lemma_unmentioned(
            seq![header(mode, args, uat_detail, scan.summaries, state)] + warning_lines(
                scan.warnings,
            ),
            scan.summaries.shown(),
        );
    }
}

/// Every diagnostic that is shown stands in the report.
pub proof fn law_shown_diagnostics_are_reported(
    lines: Seq<LineView>,
    mode: UnrealMode,
    args: Seq<Seq<char>>,
    uat_detail: Seq<char>,
    exit_code: int,
    t: Seq<char>,
)
    requires
        scanned(lines).diagnostics.shown().contains(t),
    ensures
        compacted(report_lines(lines, mode, args, uat_detail, exit_code)).contains(t),
{
    let diagnostics = scanned(lines).diagnostics;
    let all = report_lines(lines, mode, args, uat_detail, exit_code);
    let k = choose|k: int| 0 <= k < diagnostics.shown().len() && diagnostics.shown()[k] == t;
    assert(diagnostics.distinct[k] == t);
    assert(diagnostics.distinct.contains(t));
    lemma_kept_from(lines);
    let i = choose|i: int|
        0 <= i < lines.len() && is_diagnostic(#[trigger] lines[i]) && trim_end_of(lines[i].text)
            == t && t.len() > 0;
    lemma_trimmed(lines[i].text);
    assert(all[k] == t);
    law_compaction_keeps_each_line_once(all);
}

/// Where there are no more diagnostics than a report shows, every error of a log stands in its
/// report.
pub proof fn law_errors_are_reported(
    lines: Seq<LineView>,
    mode: UnrealMode,
    args: Seq<Seq<char>>,
    uat_detail: Seq<char>,
    exit_code: int,
    i: int,
)
    requires
        0 <= i < lines.len(),
        lines[i].kind is Error,
        trim_end_of(lines[i].text).len() > 0,
        scanned(lines).diagnostics.distinct.len() <= CAP_ERRORS,
    ensures
        compacted(report_lines(lines, mode, args, uat_detail, exit_code)).contains(
            trim_end_of(lines[i].text),
        ),
{
    law_nothing_important_is_lost(lines, i);
    law_scan_sorts_lines_by_kind(lines);
    law_shown_diagnostics_are_reported(
        lines,
        mode,
        args,
        uat_detail,
        exit_code,
        trim_end_of(lines[i].text),
    );
}

/// What stands in one of two sequences stands in both together.
pub proof fn lemma_add_contains(a: Seq<Seq<char>>, b: Seq<Seq<char>>, t: Seq<char>)
    ensures
        (a + b).contains(t) <==> a.contains(t) || b.contains(t),
{
    if a.contains(t) {
        let i = choose|i: int| 0 <= i < a.len() && a[i] == t;
        assert((a + b)[i] == t);
    }
    if b.contains(t) {
        let i = choose|i: int| 0 <= i < b.len() && b[i] == t;
        assert((a + b)[a.len() + i] == t);
    }
    if (a + b).contains(t) {
        let i = choose|i: int| 0 <= i < (a + b).len() && (a + b)[i] == t;
        if i < a.len() {
            assert(a[i] == t);
        } else {
            assert(b[i - a.len()] == t);
        }
    }
}

/// The lines that a list shows stand in the list as it is rendered.
proof fn lemma_rendered_contains(list: CappedView, t: Seq<char>)
    requires
        list.shown().contains(t),
    ensures
        list.rendered().contains(t),
        list.distinct.contains(t),
{
    let k = choose|k: int| 0 <= k < list.shown().len() && list.shown()[k] == t;
    assert(list.rendered()[k] == t);
    assert(list.distinct[k] == t);
}

/// A warning or a summary line that a list holds is not blank.
proof fn lemma_listed_is_not_blank(lines: Seq<LineView>, t: Seq<char>)
    requires
        scanned(lines).warnings.distinct.contains(t) || scanned(lines).summaries.distinct.contains(
            t,
        ),
    ensures
        t.len() > 0,
        !is_white_space(t.last()),
        trim_of(t).len() > 0,
{
    law_scan_sorts_lines_by_kind(lines);
    let kind = if scanned(lines).warnings.distinct.contains(t) {
        LineKind::Warning
    } else {
        LineKind::Summary
    };
    lemma_lines_of_kind(lines, kind, t);
    let i = choose|i: int|
        0 <= i < lines.len() && (#[trigger] lines[i]).kind == kind && trim_end_of(lines[i].text)
            == t;
    lemma_trimmed(lines[i].text);
    if is_white_space(t.last()) {
        lemma_shorter(t);
    }
}

/// Trimming never makes a text longer.
proof fn lemma_shorter(t: Seq<char>)
    ensures
        trim_end_of(t).len() <= t.len(),
        t.len() > 0 && is_white_space(t.last()) ==> trim_end_of(t).len() < t.len(),
    decreases t.len(),
{
    if t.len() > 0 && is_white_space(t.last()) {
        lemma_shorter(t.drop_last());
    }
}

/// Every warning that is shown stands in the report, whether the run failed or not.
pub proof fn law_shown_warnings_are_reported(
    lines: Seq<LineView>,
    mode: UnrealMode,
    args: Seq<Seq<char>>,
    uat_detail: Seq<char>,
    exit_code: int,
    t: Seq<char>,
)
    requires
        scanned(lines).warnings.shown().contains(t),
    ensures
        compacted(report_lines(lines, mode, args, uat_detail, exit_code)).contains(t),
{
    let scan = scanned(lines);
    let state = scan.state.ended(exit_code);
    let all = report_lines(lines, mode, args, uat_detail, exit_code);
    let warnings = scan.warnings.rendered();
    lemma_rendered_contains(scan.warnings, t);
    lemma_listed_is_not_blank(lines, t);
    if !is_failure(lines, exit_code) {
        let first = header(mode, args, uat_detail, scan.summaries, state);
        let head = seq![first] + warning_lines(scan.warnings);
        lemma_add_contains(seq![warning_count(scan.warnings)], warnings, t);
        lemma_add_contains(seq![first], warning_lines(scan.warnings), t);
        let body = with_unmentioned(head, scan.summaries.shown());
        lemma_unmentioned(head, scan.summaries.shown());
        lemma_prefix_contains(head, body, t);
        lemma_add_contains(head, progress_lines(state), t);
        lemma_add_contains(body, progress_lines(state), t);
    } else if scan.diagnostics.shown().len() == 0 {
        let before = seq![failed_header(mode)] + exit_lines(state) + scan.summaries.rendered()
            + last_of(meaningful(lines), FALLBACK_LINES as nat);
        lemma_add_contains(before, warnings, t);
        lemma_add_contains(before + warnings, progress_lines(state), t);
    } else {
        let before = scan.diagnostics.rendered() + exit_lines(state);
        lemma_add_contains(before, warnings, t);
        lemma_add_contains(before + warnings, scan.summaries.rendered(), t);
        lemma_add_contains(
            before + warnings + scan.summaries.rendered(),
            progress_lines(state),
            t,
        );
    }
    law_compaction_keeps_each_line_once(all);
}

/// Every summary line that is shown stands in the report on a failed run.
pub proof fn law_failure_reports_summaries(
    lines: Seq<LineView>,
    mode: UnrealMode,
    args: Seq<Seq<char>>,
    uat_detail: Seq<char>,
    exit_code: int,
    t: Seq<char>,
)
    requires
        is_failure(lines, exit_code),
        scanned(lines).summaries.shown().contains(t),
    ensures
        compacted(report_lines(lines, mode, args, uat_detail, exit_code)).contains(t),
{
    let scan = scanned(lines);
    let state = scan.state.ended(exit_code);
    let all = report_lines(lines, mode, args, uat_detail, exit_code);
    let summaries = scan.summaries.rendered();
    lemma_rendered_contains(scan.summaries, t);
    lemma_listed_is_not_blank(lines, t);
    if scan.diagnostics.shown().len() == 0 {
        let before = seq![failed_header(mode)] + exit_lines(state);
        let tail = last_of(meaningful(lines), FALLBACK_LINES as nat);
        lemma_add_contains(before, summaries, t);
        lemma_add_contains(before + summaries, tail, t);
        lemma_add_contains(before + summaries + tail, scan.warnings.rendered(), t);
        lemma_add_contains(
            before + summaries + tail + scan.warnings.rendered(),
            progress_lines(state),
            t,
        );
    } else {
        let before = scan.diagnostics.rendered() + exit_lines(state) + scan.warnings.rendered();
        lemma_add_contains(before, summaries, t);
        lemma_add_contains(before + summaries, progress_lines(state), t);
    }
    law_compaction_keeps_each_line_once(all);
}

/// A line of which `t` is a part is not blank where `t` ends in something else than white space.
proof fn lemma_holder_is_not_blank(line: Seq<char>, t: Seq<char>)
    requires
        contains_text(line, t),
        t.len() > 0,
        !is_white_space(t.last()),
    ensures
        trim_of(line).len() > 0,
{
    let i = choose|i: int| occurs_at(line, t, i);
    let k = i + t.len() - 1;
    assert(line.subrange(i, i + t.len())[t.len() - 1] == line[k]);
    lemma_not_blank(line, k);
}

/// What is mentioned in the beginning of a report is mentioned in the report.
proof fn lemma_mentioned_grows(a: Seq<Seq<char>>, b: Seq<Seq<char>>, t: Seq<char>)
    requires
        a.is_prefix_of(b),
        is_mentioned(a, t),
    ensures
        is_mentioned(b, t),
{
    let i = choose|i: int| 0 <= i < a.len() && contains_text(#[trigger] a[i], t);
    assert(b.subrange(0, a.len() as int)[i] == a[i]);
    assert(contains_text(b[i], t));
}

/// Each line is mentioned once it was added.
proof fn lemma_all_mentioned(out: Seq<Seq<char>>, lines: Seq<Seq<char>>, k: int)
    requires
        0 <= k < lines.len(),
    ensures
        is_mentioned(with_unmentioned(out, lines), lines[k]),
    decreases lines.len(),
{
    let rest = lines.drop_last();
    let before = with_unmentioned(out, rest);
    let after = with_unmentioned(out, lines);
    if k < rest.len() {
        lemma_all_mentioned(out, rest, k);
        lemma_mentioned_grows(before, after, lines[k]);
    } else if !is_mentioned(before, lines[k]) {
        assert(after[before.len() as int] == lines[k]);
        assert(lines[k].subrange(0, lines[k].len() as int) =~= lines[k]);
        assert(occurs_at(lines[k], lines[k], 0));
        assert(contains_text(after[before.len() as int], lines[k]));
    }
}

/// Where a run that succeeded has more than one summary line, the report mentions every one that
/// is shown.
pub proof fn law_success_mentions_summaries(
    lines: Seq<LineView>,
    mode: UnrealMode,
    args: Seq<Seq<char>>,
    uat_detail: Seq<char>,
    t: Seq<char>,
)
    requires
        !is_failure(lines, 0),
        scanned(lines).summaries.shown().len() > 1,
        scanned(lines).summaries.shown().contains(t),
    ensures
        is_mentioned(compacted(report_lines(lines, mode, args, uat_detail, 0)), t),
{
    let scan = scanned(lines);
    let shown = scan.summaries.shown();
    let all = report_lines(lines, mode, args, uat_detail, 0);
    let head = seq![header(mode, args, uat_detail, scan.summaries, scan.state)] + warning_lines(
        scan.warnings,
    );
    let body = with_unmentioned(head, shown);
    let k = choose|k: int| 0 <= k < shown.len() && shown[k] == t;
    lemma_rendered_contains(scan.summaries, t);
    lemma_listed_is_not_blank(lines, t);
    lemma_all_mentioned(head, shown, k);
    assert(body.is_prefix_of(all));
    lemma_mentioned_grows(body, all, t);
    let i = choose|i: int| 0 <= i < all.len() && contains_text(#[trigger] all[i], t);
    lemma_holder_is_not_blank(all[i], t);
    law_compaction_keeps_each_line_once(all);
    let kept = compacted(all);
    assert(all.contains(all[i]));
    assert(kept.contains(all[i]));
    let j = choose|j: int| 0 <= j < kept.len() && kept[j] == all[i];
    assert(contains_text(kept[j], t));
}

/// A cascade of more diagnostics than a report shows ends in a note that tells how many are left
/// out.
pub proof fn law_cascade_is_counted(
    lines: Seq<LineView>,
    mode: UnrealMode,
    args: Seq<Seq<char>>,
    uat_detail: Seq<char>,
    exit_code: int,
)
    requires
        scanned(lines).diagnostics.distinct.len() > CAP_ERRORS,
    ensures
        scanned(lines).diagnostics.hidden() == scanned(lines).diagnostics.distinct.len()
            - CAP_ERRORS,
        compacted(report_lines(lines, mode, args, uat_detail, exit_code)).contains(
            scanned(lines).diagnostics.hidden_note(),
        ),
{
    let diagnostics = scanned(lines).diagnostics;
    let all = report_lines(lines, mode, args, uat_detail, exit_code);
    law_scan_sorts_lines_by_kind(lines);
    reveal_strlit("... +");
    assert(diagnostics.hidden_note()[0] == '.');
    lemma_not_blank(diagnostics.hidden_note(), 0);
    assert(all[CAP_ERRORS as int] == diagnostics.hidden_note());
    law_compaction_keeps_each_line_once(all);
}

/// Only the reports on UAT, cook and package runs depend on what the run worked on.
pub proof fn law_uat_detail_is_for_uat_modes(
    lines: Seq<LineView>,
    mode: UnrealMode,
    args: Seq<Seq<char>>,
    one: Seq<char>,
    other: Seq<char>,
    exit_code: int,
)
    requires
        mode is Build || mode is Commandlet || mode is Automation || is_failure(lines, exit_code),
    ensures
        report_lines(lines, mode, args, one, exit_code) == report_lines(
            lines,
            mode,
            args,
            other,
            exit_code,
        ),
{
}

/// Where the arguments give the project by a portable path, or not at all, they alone decide what
/// the project is called.
pub proof fn law_portable_project_has_one_name(
    args: Seq<Seq<char>>,
    one: Option<Seq<char>>,
    other: Option<Seq<char>>,
)
    requires
        is_project_name(args, one),
        is_project_name(args, other),
        project_path(args) matches Some(path) ==> is_portable_path(path),
    ensures
        one == other,
{
}

/// Unix and Windows find the same final component in `path`.
pub open spec fn has_one_reading(path: Seq<char>) -> bool {
    !is_share(path) && final_component(path) == final_component(read_on_windows(path))
}

/// A portable path has one reading.
pub proof fn law_portable_path_has_one_reading(path: Seq<char>)
    requires
        is_portable_path(path),
    ensures
        has_one_reading(path),
{
    assert forall|i: int| 0 <= i < path.len() implies path[i] != '\\' by {
        assert(path.contains(path[i]));
    }
    assert(read_on_windows(path) =~= path);
}

/// Unless the path of the project has a verbatim prefix, the report is the one in which the project
/// goes by the final component of its path, as Unix reads the path or as Windows does, or, on a
/// network share alone, by no name.
pub proof fn law_report_follows_one_reading(
    raw: Seq<char>,
    mode: UnrealMode,
    args: Seq<Seq<char>>,
    exit_code: int,
    report: Seq<char>,
)
    requires
        is_report(raw, mode, args, exit_code, report),
        project_path(args) matches Some(path) ==> !is_verbatim(path),
    ensures
        match project_path(args) {
            Some(path) => {
                let unix = final_component(path);
                let windows = final_component(read_on_windows(path));
                ||| report == report_on(raw, mode, args, unix, exit_code)
                ||| report == report_on(raw, mode, args, windows, exit_code)
                ||| is_share(path) && report == report_on(raw, mode, args, None, exit_code)
            },
            None => report == report_on(raw, mode, args, None, exit_code),
        },
{
}

/// A log has one report, so that [`filter_output`] and [`filter_output_with_exit_code`] with the
/// exit code 0 give the same: where the project is given by a path that has one reading or not at
/// all, and where the report does not tell the project.
///
/// [`filter_output`]: crate::filter::filter_output
/// [`filter_output_with_exit_code`]: crate::filter::filter_output_with_exit_code
pub proof fn law_one_reading_gives_one_report(
    raw: Seq<char>,
    mode: UnrealMode,
    args: Seq<Seq<char>>,
    exit_code: int,
    one: Seq<char>,
    other: Seq<char>,
)
    requires
        is_report(raw, mode, args, exit_code, one),
        is_report(raw, mode, args, exit_code, other),
        ({
            ||| project_path(args) matches Some(path) ==> has_one_reading(path)
            ||| mode is Build || mode is Commandlet || mode is Automation
            ||| is_failure(classified_lines(without_ansi(raw)), exit_code)
        }),
    ensures
        one == other,
{
}

/// Escape sequences have no say in a report: logs that are the same without them have the same
/// reports.
pub proof fn law_escape_sequences_do_not_matter(
    raw: Seq<char>,
    other: Seq<char>,
    mode: UnrealMode,
    args: Seq<Seq<char>>,
    exit_code: int,
)
    requires
        without_ansi(raw) == without_ansi(other),
    ensures
        forall|project: Option<Seq<char>>| #[trigger]
            report_on(raw, mode, args, project, exit_code) == report_on(
                other,
                mode,
                args,
                project,
                exit_code,
            ),
        forall|report: Seq<char>| #[trigger]
            is_report(raw, mode, args, exit_code, report) == is_report(
                other,
                mode,
                args,
                exit_code,
                report,
            ),
{
}

/// Where a log has one report, a log that is the same without escape sequences has that report
/// too.
pub proof fn law_escape_sequences_change_no_report(
    raw: Seq<char>,
    other: Seq<char>,
    mode: UnrealMode,
    args: Seq<Seq<char>>,
    exit_code: int,
    report: Seq<char>,
    other_report: Seq<char>,
)
    requires
        without_ansi(raw) == without_ansi(other),
        is_report(raw, mode, args, exit_code, report),
        is_report(other, mode, args, exit_code, other_report),
        ({
            ||| project_path(args) matches Some(path) ==> has_one_reading(path)
            ||| mode is Build || mode is Commandlet || mode is Automation
            ||| is_failure(classified_lines(without_ansi(raw)), exit_code)
        }),
    ensures
        report == other_report,
{
    law_escape_sequences_do_not_matter(raw, other, mode, args, exit_code);
    law_one_reading_gives_one_report(raw, mode, args, exit_code, report, other_report);
}

/// At most one of `args` begins with `prefix`.
pub open spec fn is_given_once(args: Seq<Seq<char>>, prefix: Seq<char>) -> bool {
    forall|i: int, j: int|
        0 <= i < j < args.len() ==> !(prefix.is_prefix_of(#[trigger] args[i])
            && prefix.is_prefix_of(#[trigger] args[j]))
}

/// None of the options that a UAT summary looks for is given twice.
pub open spec fn are_uat_options_given_once(args: Seq<Seq<char>>) -> bool {
    &&& is_given_once(args, "-project="@)
    &&& is_given_once(args, "-Project="@)
    &&& is_given_once(args, "-targetplatform="@)
    &&& is_given_once(args, "-TargetPlatform="@)
    &&& is_given_once(args, "-clientconfig="@)
    &&& is_given_once(args, "-ClientConfig="@)
    &&& is_given_once(args, "-configuration="@)
}

/// The value of an option comes from the first argument that begins with its prefix.
proof fn lemma_arg_value_comes_from(args: Seq<Seq<char>>, prefix: Seq<char>) -> (k: int)
    ensures
        match arg_value_of(args, prefix) {
            Some(value) => 0 <= k < args.len() && prefix.is_prefix_of(args[k]) && value
                == args[k].skip(prefix.len() as int),
            None => forall|i: int| 0 <= i < args.len() ==> !prefix.is_prefix_of(#[trigger] args[i]),
        },
    decreases args.len(),
{
    if args.len() == 0 || prefix.is_prefix_of(args[0]) {
        0
    } else {
        let k = lemma_arg_value_comes_from(args.drop_first(), prefix);
        assert forall|i: int|
            arg_value_of(args, prefix) is None && 0 <= i < args.len() implies !prefix.is_prefix_of(
            #[trigger] args[i],
        ) by {
            if i > 0 {
                assert(args.drop_first()[i - 1] == args[i]);
            }
        }
        k + 1
    }
}

/// An option that is given once has the same value wherever it stands.
pub proof fn law_option_may_stand_anywhere(
    args: Seq<Seq<char>>,
    other: Seq<Seq<char>>,
    prefix: Seq<char>,
)
    requires
        args.to_multiset() == other.to_multiset(),
        is_given_once(args, prefix),
    ensures
        arg_value_of(args, prefix) == arg_value_of(other, prefix),
{
    args.to_multiset_ensures();
    other.to_multiset_ensures();
    let i = lemma_arg_value_comes_from(args, prefix);
    let j = lemma_arg_value_comes_from(other, prefix);
    if arg_value_of(args, prefix) is Some {
        assert(args.contains(args[i]));
        assert(other.to_multiset().count(args[i]) > 0);
        assert(other.contains(args[i]));
    }
    if arg_value_of(other, prefix) is Some {
        assert(other.contains(other[j]));
        assert(args.to_multiset().count(other[j]) > 0);
        let k = args.index_of(other[j]);
        assert(args[k] == other[j]);
    }
}

/// Project, platform and configuration of a UAT run do not depend on the order of its arguments,
/// where none of them is given twice.
pub proof fn law_argument_order_does_not_matter(args: Seq<Seq<char>>, other: Seq<Seq<char>>)
    requires
        args.to_multiset() == other.to_multiset(),
        are_uat_options_given_once(args),
    ensures
        project_path(args) == project_path(other),
        target_platform(args) == target_platform(other),
        client_config(args) == client_config(other),
        forall|name: Option<Seq<char>>| #[trigger]
            is_project_name(args, name) == is_project_name(other, name),
        forall|project: Option<Seq<char>>| #[trigger]
            uat_summary(project, args) == uat_summary(project, other),
        forall|summary: Seq<char>| #[trigger]
            is_uat_summary(args, summary) == is_uat_summary(other, summary),
{
    law_option_may_stand_anywhere(args, other, "-project="@);
    law_option_may_stand_anywhere(args, other, "-Project="@);
    law_option_may_stand_anywhere(args, other, "-targetplatform="@);
    law_option_may_stand_anywhere(args, other, "-TargetPlatform="@);
    law_option_may_stand_anywhere(args, other, "-clientconfig="@);
    law_option_may_stand_anywhere(args, other, "-ClientConfig="@);
    law_option_may_stand_anywhere(args, other, "-configuration="@);
    assert forall|summary: Seq<char>| #[trigger]
        is_uat_summary(args, summary) == is_uat_summary(other, summary) by {
        if is_uat_summary(args, summary) {
            let name = choose|name: Option<Seq<char>>| #[trigger]
                is_project_name(args, name) && summary == uat_summary(name, args);
            assert(is_project_name(other, name));
        }
        if is_uat_summary(other, summary) {
            let name = choose|name: Option<Seq<char>>| #[trigger]
                is_project_name(other, name) && summary == uat_summary(name, other);
            assert(is_project_name(args, name));
        }
    }
}

/// Where the path of the project has one reading, a UAT run has one summary, in whatever order its
/// arguments come.
pub proof fn law_argument_order_changes_no_summary(
    args: Seq<Seq<char>>,
    other: Seq<Seq<char>>,
    summary: Seq<char>,
    other_summary: Seq<char>,
)
    requires
        args.to_multiset() == other.to_multiset(),
        are_uat_options_given_once(args),
        is_uat_summary(args, summary),
        is_uat_summary(other, other_summary),
        project_path(args) matches Some(path) ==> has_one_reading(path),
    ensures
        summary == other_summary,
{
    law_argument_order_does_not_matter(args, other);
}

/// No line of a text holds a line feed.
pub proof fn law_lines_hold_no_line_feed(t: Seq<char>, i: int)
    requires
        0 <= i < lines_of(t).len(),
    ensures
        !lines_of(t)[i].contains('\n'),
    decreases t.len(),
{
    let k = first_line_feed(t);
    lemma_before_line_feed(t);
    if k < t.len() {
        if i == 0 {
            assert forall|j: int| 0 <= j < lines_of(t)[0].len() implies lines_of(t)[0][j] != '\n' by {
                assert(lines_of(t)[0][j] == t[j]);
            }
        } else {
            law_lines_hold_no_line_feed(t.skip(k as int + 1), i - 1);
        }
    }
}

proof fn lemma_before_line_feed(t: Seq<char>)
    ensures
        first_line_feed(t) <= t.len(),
        forall|j: int| 0 <= j < first_line_feed(t) ==> t[j] != '\n',
    decreases t.len(),
{
    if t.len() > 0 && t[0] != '\n' {
        lemma_before_line_feed(t.drop_first());
        assert forall|j: int| 0 <= j < first_line_feed(t) implies t[j] != '\n' by {
            if j > 0 {
                assert(t[j] == t.drop_first()[j - 1]);
            }
        }
    }
}

} // verus!
