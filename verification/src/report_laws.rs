//! How a report is laid out, in terms of what was kept of the log.

use crate::args::{is_project_name, uat_summary};
use crate::capped::CappedView;
use crate::filter::{is_failure, is_report, report_lines};
use crate::laws::{
    is_diagnostic, law_compaction_keeps_each_line_once, law_diagnostics_come_from_the_log,
    law_lists_are_distinct, law_nothing_important_is_lost, law_shown_diagnostics_are_reported,
    law_shown_warnings_are_reported, lemma_add_contains, lemma_push_contains, lemma_trimmed,
    lemma_with_line_contains,
};
use crate::layout::{are_single_lines, law_report_is_read_back_line_by_line};
use crate::line_laws::law_kind_of_a_line;
use crate::mode::UnrealMode;
use crate::patterns::{
    regex_is_match, regex_replace_all, ANSI, GCC_CLANG_DIAG, MSVC_DIAG, PROGRESS, UNREAL_ERROR,
    UNREAL_WARNING,
};
use crate::report::{
    compacted, exit_lines, failed_header, failure_lines, header, is_mentioned, last_of, meaningful,
    progress_lines, success_lines, warning_count, warning_lines, with_detail, with_unmentioned,
};
use crate::scan::{classified, classified_lines, scanned, LineView, StateView};
use crate::scan_laws::{
    context_between, is_context, law_lists_have_names_and_limits, law_what_counts_as_a_failed_run,
    says_build_failed,
};
use crate::text::{
    contains_text, decimal, joined, lines_of, occurs_at, signed_decimal, trim_end_of, trim_of,
};
use crate::text_laws::{
    is_blank, is_core, law_blank_text_trims_to_nothing, law_trimming_takes_white_space_away,
};
use vstd::prelude::*;

verus! {

/// `a` stands above `b` in `lines`.
pub open spec fn comes_before(lines: Seq<Seq<char>>, a: Seq<char>, b: Seq<char>) -> bool {
    exists|p: int, q: int|
        0 <= p < q < lines.len() && #[trigger] lines[p] == a && #[trigger] lines[q] == b
}

/// Dropping blank and repeated lines keeps the order in which the lines first come.
pub proof fn law_compaction_keeps_the_order(lines: Seq<Seq<char>>, i: int, j: int)
    requires
        0 <= i < j < lines.len(),
        trim_of(lines[i]).len() > 0,
        trim_of(lines[j]).len() > 0,
        forall|k: int| 0 <= k <= i ==> #[trigger] lines[k] != lines[j],
    ensures
        comes_before(compacted(lines), lines[i], lines[j]),
    decreases lines.len(),
{
    let rest = lines.drop_last();
    let kept = compacted(rest);
    let out = compacted(lines);
    law_compaction_keeps_each_line_once(rest);
    assert(rest[i] == lines[i]);
    assert(rest.contains(rest[i]));
    assert forall|k: int| 0 <= k <= i implies #[trigger] rest[k] != lines[j] by {
        assert(rest[k] == lines[k]);
    }
    if j < rest.len() || kept.contains(lines[j]) {
        let k = if j < rest.len() {
            j
        } else {
            rest.index_of(lines[j])
        };
        assert(rest[k] == lines[j]);
        if k <= i {
            assert(rest[k] != lines[j]);
        }
        law_compaction_keeps_the_order(rest, i, k);
        let (p, q) = choose|p: int, q: int|
            0 <= p < q < kept.len() && #[trigger] kept[p] == lines[i] && #[trigger] kept[q]
                == lines[j];
        assert(out[p] == lines[i] && out[q] == lines[j]);
    } else {
        assert(kept.contains(lines[i]));
        let p = kept.index_of(lines[i]);
        assert(out[p] == lines[i] && out[kept.len() as int] == lines[j]);
    }
}

/// In `out`, the lines of `upper` stand above those of `lower`, but for those that are in both.
pub open spec fn stands_above(
    out: Seq<Seq<char>>,
    upper: Seq<Seq<char>>,
    lower: Seq<Seq<char>>,
) -> bool {
    forall|x: Seq<char>, y: Seq<char>|
        {
            &&& #[trigger] upper.contains(x)
            &&& #[trigger] lower.contains(y)
            &&& !upper.contains(y)
            &&& out.contains(x)
            &&& out.contains(y)
        } ==> comes_before(out, x, y)
}

/// In `out`, the lines of `part` stand in their order, but for those that stand above already.
pub open spec fn keeps_order(
    out: Seq<Seq<char>>,
    above: Seq<Seq<char>>,
    part: Seq<Seq<char>>,
) -> bool {
    forall|i: int, j: int|
        {
            &&& 0 <= i < j < part.len()
            &&& !above.contains(part[j])
            &&& !part.take(j).contains(part[j])
            &&& out.contains(#[trigger] part[i])
            &&& out.contains(#[trigger] part[j])
        } ==> comes_before(out, part[i], part[j])
}

proof fn lemma_stands_above(upper: Seq<Seq<char>>, lower: Seq<Seq<char>>, after: Seq<Seq<char>>)
    ensures
        stands_above(compacted(upper + lower + after), upper, lower),
        keeps_order(compacted(upper + lower + after), upper, lower),
{
    let all = upper + lower + after;
    let out = compacted(all);
    law_compaction_keeps_each_line_once(all);
    assert forall|x: Seq<char>, y: Seq<char>|
        {
            &&& #[trigger] upper.contains(x)
            &&& #[trigger] lower.contains(y)
            &&& !upper.contains(y)
            &&& out.contains(x)
            &&& out.contains(y)
        } implies comes_before(out, x, y) by {
        let i = upper.index_of(x);
        let j = lower.index_of(y);
        assert(all[i] == x);
        assert(all[upper.len() + j] == y);
        assert forall|k: int| 0 <= k <= i implies #[trigger] all[k] != y by {
            assert(all[k] == upper[k]);
            assert(upper.contains(upper[k]));
        }
        law_compaction_keeps_the_order(all, i, upper.len() + j);
    }
    assert forall|i: int, j: int|
        {
            &&& 0 <= i < j < lower.len()
            &&& !upper.contains(lower[j])
            &&& !lower.take(j).contains(lower[j])
            &&& out.contains(#[trigger] lower[i])
            &&& out.contains(#[trigger] lower[j])
        } implies comes_before(out, lower[i], lower[j]) by {
        let p = upper.len() + i;
        let q = upper.len() + j;
        assert(all[p] == lower[i]);
        assert(all[q] == lower[j]);
        assert forall|k: int| 0 <= k <= p implies #[trigger] all[k] != all[q] by {
            if k < upper.len() {
                assert(all[k] == upper[k]);
                assert(upper.contains(upper[k]));
            } else {
                assert(all[k] == lower[k - upper.len()]);
                assert(lower.take(j)[k - upper.len()] == lower[k - upper.len()]);
            }
        }
        law_compaction_keeps_the_order(all, p, q);
    }
}

/// Giving a line to a list adds its text at the end, once, and changes nothing else.
pub proof fn law_list_takes_a_line(list: CappedView, line: Seq<char>, t: Seq<char>)
    ensures
        list.push(line).distinct.contains(t) <==> list.distinct.contains(t) || (t == trim_end_of(
            line,
        ) && t.len() > 0),
        list.distinct.is_prefix_of(list.push(line).distinct),
        list.push(line).distinct.len() <= list.distinct.len() + 1,
        list.push(line).label == list.label,
        list.push(line).cap == list.cap,
{
    lemma_with_line_contains(list.distinct, line, t);
}

/// A list shows as many lines as it may, and then tells how many more there were.
pub proof fn law_list_tells_what_it_hides(list: CappedView)
    ensures
        list.distinct.len() <= list.cap ==> list.shown() == list.distinct && list.rendered()
            == list.distinct,
        list.distinct.len() > list.cap ==> {
            &&& list.shown() == list.distinct.take(list.cap as int)
            &&& list.rendered() == list.distinct.take(list.cap as int).push(
                "... +"@ + decimal((list.distinct.len() - list.cap) as nat) + " more "@ + list.label,
            )
        },
{
}

/// A line that is neither blank nor a progress message.
pub open spec fn is_meaningful(line: LineView) -> bool {
    !(line.kind is Blank) && !(line.kind is Progress)
}

/// Line `i` is one of the last `n` that are neither blank nor progress messages.
pub open spec fn is_among_last(lines: Seq<LineView>, i: int, n: nat) -> bool {
    &&& 0 <= i < lines.len()
    &&& is_meaningful(lines[i])
    &&& lines.skip(i + 1).filter(|line: LineView| is_meaningful(line)).len() < n
}

/// The lines of a log that are neither blank nor progress messages come one by one, each as it is.
pub proof fn law_meaningful_lines_come_one_by_one(a: Seq<LineView>, line: LineView, b: Seq<LineView>)
    ensures
        meaningful(a + b) == meaningful(a) + meaningful(b),
        is_meaningful(line) ==> meaningful(seq![line]) == seq![line.text],
        !is_meaningful(line) ==> meaningful(seq![line]).len() == 0,
    decreases b.len(),
{
    assert(seq![line].drop_last() =~= Seq::<LineView>::empty());
    assert(meaningful(Seq::<LineView>::empty()) =~= Seq::<Seq<char>>::empty());
    if is_meaningful(line) {
        assert(meaningful(seq![line]) =~= seq![line.text]);
    }
    if b.len() == 0 {
        assert(a + b =~= a);
        assert(meaningful(a + b) =~= meaningful(a) + meaningful(b));
    } else {
        law_meaningful_lines_come_one_by_one(a, line, b.drop_last());
        assert((a + b).drop_last() =~= a + b.drop_last());
        assert((a + b).last() == b.last());
        assert(meaningful(a + b) =~= meaningful(a) + meaningful(b));
    }
}

proof fn lemma_meaningful_len(lines: Seq<LineView>)
    ensures
        meaningful(lines).len() == lines.filter(|line: LineView| is_meaningful(line)).len(),
    decreases lines.len(),
{
    reveal(Seq::filter);
    if lines.len() > 0 {
        lemma_meaningful_len(lines.drop_last());
    }
}

/// Where the text of a line stands among those that are neither blank nor progress messages.
proof fn lemma_meaningful_at(lines: Seq<LineView>, i: int)
    requires
        0 <= i < lines.len(),
        is_meaningful(lines[i]),
    ensures
        ({
            let all = meaningful(lines);
            let after = meaningful(lines.skip(i + 1)).len();
            after < all.len() && all[all.len() - 1 - after] == lines[i].text
        }),
{
    let a = lines.take(i);
    let m = seq![lines[i]];
    let b = lines.skip(i + 1);
    law_meaningful_lines_come_one_by_one(a, lines[i], m);
    law_meaningful_lines_come_one_by_one(a + m, lines[i], b);
    assert(lines =~= a + m + b);
}

proof fn lemma_meaningful_from(lines: Seq<LineView>, p: int) -> (i: int)
    requires
        0 <= p < meaningful(lines).len(),
    ensures
        0 <= i < lines.len(),
        is_meaningful(lines[i]),
        meaningful(lines.skip(i + 1)).len() == meaningful(lines).len() - 1 - p,
    decreases lines.len(),
{
    let rest = lines.drop_last();
    let last = seq![lines.last()];
    assert(lines =~= rest + last);
    law_meaningful_lines_come_one_by_one(rest, lines.last(), last);
    if p < meaningful(rest).len() {
        let i = lemma_meaningful_from(rest, p);
        assert(lines.skip(i + 1) =~= rest.skip(i + 1) + last);
        law_meaningful_lines_come_one_by_one(rest.skip(i + 1), lines.last(), last);
        i
    } else {
        let i = lines.len() - 1;
        assert(lines.skip(i + 1) =~= Seq::<LineView>::empty());
        i
    }
}

/// The last `n` lines of a log that are neither blank nor progress messages: all of those with
/// fewer than `n` such lines behind them, and nothing else, as many as there are up to `n`.
pub proof fn law_tail_holds_the_last_lines(lines: Seq<LineView>, n: nat, t: Seq<char>)
    ensures
        last_of(meaningful(lines), n).contains(t) <==> exists|i: int| #[trigger]
            is_among_last(lines, i, n) && lines[i].text == t,
        last_of(meaningful(lines), n).len() <= n,
        last_of(meaningful(lines), n).is_suffix_of(meaningful(lines)),
{
    let all = meaningful(lines);
    let tail = last_of(all, n);
    if tail.contains(t) {
        let k = tail.index_of(t);
        let p = all.len() - tail.len() + k;
        assert(all[p] == t);
        let i = lemma_meaningful_from(lines, p);
        lemma_meaningful_at(lines, i);
        lemma_meaningful_len(lines.skip(i + 1));
        assert(is_among_last(lines, i, n));
    }
    if exists|i: int| #[trigger] is_among_last(lines, i, n) && lines[i].text == t {
        let i = choose|i: int| #[trigger] is_among_last(lines, i, n) && lines[i].text == t;
        lemma_meaningful_at(lines, i);
        lemma_meaningful_len(lines.skip(i + 1));
        let p = all.len() - 1 - meaningful(lines.skip(i + 1)).len();
        assert(tail[p - (all.len() - tail.len())] == t);
    }
}

/// `t` tells the exit code of a process that failed.
pub open spec fn tells_exit_code(state: StateView, t: Seq<char>) -> bool {
    state.process_exit_code matches Some(code) && t == "process exited with code "@
        + signed_decimal(code)
}

/// `t` tells how many progress messages were left out.
pub open spec fn tells_progress(state: StateView, t: Seq<char>) -> bool {
    state.progress_total > 0 && t == "... omitted "@ + decimal(state.progress_total)
        + " Unreal progress/noise lines"@
}

/// The exit code is told by one line where it is known to have been another than 0, and progress
/// messages by one line where there were any.
pub proof fn law_notes_are_single_lines(state: StateView, code: int)
    ensures
        state.process_exit_code is None ==> exit_lines(state).len() == 0,
        state.process_exit_code == Some(code) ==> exit_lines(state).len() == 1 && tells_exit_code(
            state,
            exit_lines(state)[0],
        ),
        state.progress_total == 0 ==> progress_lines(state).len() == 0,
        state.progress_total > 0 ==> progress_lines(state).len() == 1 && tells_progress(
            state,
            progress_lines(state)[0],
        ),
{
}

/// A detail is told behind two spaces, without white space around it; one that is blank is not
/// told.
pub proof fn law_detail_is_told_without_white_space(
    prefix: Seq<char>,
    a: Seq<char>,
    m: Seq<char>,
    b: Seq<char>,
)
    requires
        is_blank(a),
        is_core(m) || m.len() == 0,
        is_blank(b),
    ensures
        m.len() > 0 ==> with_detail(prefix, a + m + b) == prefix + seq![' ', ' '] + m,
        m.len() == 0 ==> with_detail(prefix, a + m + b) == prefix,
{
    reveal_strlit("  ");
    assert("  "@ =~= seq![' ', ' ']);
    if m.len() > 0 {
        law_trimming_takes_white_space_away(a, m, b);
    } else {
        assert(a + m + b =~= a + b);
        law_blank_text_trims_to_nothing(a + b);
    }
}

proof fn lemma_notes(state: StateView, t: Seq<char>)
    ensures
        exit_lines(state).contains(t) <==> tells_exit_code(state, t),
        progress_lines(state).contains(t) <==> tells_progress(state, t),
{
    if let Some(code) = state.process_exit_code {
        assert(exit_lines(state)[0] == "process exited with code "@ + signed_decimal(code));
    }
    if state.progress_total > 0 {
        assert(progress_lines(state)[0] == "... omitted "@ + decimal(state.progress_total)
            + " Unreal progress/noise lines"@);
    }
}

/// The report on a failed run with diagnostics holds the diagnostics, the exit code, the warnings,
/// the summary lines and the number of progress messages, and nothing else. The diagnostics stand
/// at its head; the others follow in this order.
pub proof fn law_report_on_diagnostics(
    mode: UnrealMode,
    diagnostics: CappedView,
    warnings: CappedView,
    summaries: CappedView,
    state: StateView,
    lines: Seq<LineView>,
)
    requires
        diagnostics.shown().len() > 0,
    ensures
        ({
            let out = compacted(
                failure_lines(mode, diagnostics, warnings, summaries, state, lines),
            );
            let d = diagnostics.rendered();
            let w = warnings.rendered();
            let s = summaries.rendered();
            let e = exit_lines(state);
            &&& forall|t: Seq<char>| #[trigger]
                out.contains(t) <==> trim_of(t).len() > 0 && {
                    ||| d.contains(t)
                    ||| tells_exit_code(state, t)
                    ||| w.contains(t)
                    ||| s.contains(t)
                    ||| tells_progress(state, t)
                }
            &&& keeps_order(out, Seq::empty(), d)
            &&& stands_above(out, d, e)
            &&& stands_above(out, d + e, w)
            &&& keeps_order(out, d + e, w)
            &&& stands_above(out, d + e + w, s)
            &&& keeps_order(out, d + e + w, s)
            &&& stands_above(out, d + e + w + s, progress_lines(state))
        }),
{
    let all = failure_lines(mode, diagnostics, warnings, summaries, state, lines);
    let d = diagnostics.rendered();
    let w = warnings.rendered();
    let s = summaries.rendered();
    let e = exit_lines(state);
    let p = progress_lines(state);
    let none = Seq::<Seq<char>>::empty();
    assert(all =~= d + e + w + s + p);
    law_compaction_keeps_each_line_once(all);
    assert forall|t: Seq<char>| #[trigger]
        compacted(all).contains(t) <==> trim_of(t).len() > 0 && {
            ||| d.contains(t)
            ||| tells_exit_code(state, t)
            ||| w.contains(t)
            ||| s.contains(t)
            ||| tells_progress(state, t)
        } by {
        lemma_notes(state, t);
        lemma_add_contains(d, e, t);
        lemma_add_contains(d + e, w, t);
        lemma_add_contains(d + e + w, s, t);
        lemma_add_contains(d + e + w + s, p, t);
    }
    lemma_stands_above(none, d, e + w + s + p);
    assert(all =~= none + d + (e + w + s + p));
    lemma_stands_above(d, e, w + s + p);
    assert(all =~= d + e + (w + s + p));
    lemma_stands_above(d + e, w, s + p);
    assert(all =~= d + e + w + (s + p));
    lemma_stands_above(d + e + w, s, p);
    lemma_stands_above(d + e + w + s, p, none);
    assert(all =~= d + e + w + s + p + none);
}

/// The report on a failed run without diagnostics says that the run failed, and holds the exit
/// code, the summary lines, the last twelve lines of the log that are neither blank nor progress
/// messages, the warnings and the number of progress messages, in this order, and nothing else.
pub proof fn law_report_without_diagnostics(
    mode: UnrealMode,
    diagnostics: CappedView,
    warnings: CappedView,
    summaries: CappedView,
    state: StateView,
    lines: Seq<LineView>,
)
    requires
        diagnostics.shown().len() == 0,
    ensures
        ({
            let out = compacted(
                failure_lines(mode, diagnostics, warnings, summaries, state, lines),
            );
            let first = seq!["unreal "@ + mode.label_text() + ": failed"@];
            let w = warnings.rendered();
            let s = summaries.rendered();
            let e = exit_lines(state);
            let tail = last_of(meaningful(lines), 12);
            &&& forall|t: Seq<char>| #[trigger]
                out.contains(t) <==> trim_of(t).len() > 0 && {
                    ||| t == "unreal "@ + mode.label_text() + ": failed"@
                    ||| tells_exit_code(state, t)
                    ||| s.contains(t)
                    ||| exists|i: int| #[trigger] is_among_last(lines, i, 12) && lines[i].text == t
                    ||| w.contains(t)
                    ||| tells_progress(state, t)
                }
            &&& stands_above(out, first, e)
            &&& stands_above(out, first + e, s)
            &&& keeps_order(out, first + e, s)
            &&& stands_above(out, first + e + s, tail)
            &&& keeps_order(out, first + e + s, tail)
            &&& stands_above(out, first + e + s + tail, w)
            &&& keeps_order(out, first + e + s + tail, w)
            &&& stands_above(out, first + e + s + tail + w, progress_lines(state))
        }),
{
    let all = failure_lines(mode, diagnostics, warnings, summaries, state, lines);
    let title = "unreal "@ + mode.label_text() + ": failed"@;
    let first = seq![title];
    let w = warnings.rendered();
    let s = summaries.rendered();
    let e = exit_lines(state);
    let p = progress_lines(state);
    let tail = last_of(meaningful(lines), 12);
    let none = Seq::<Seq<char>>::empty();
    assert(failed_header(mode) =~= title);
    assert(all =~= first + e + s + tail + w + p);
    law_compaction_keeps_each_line_once(all);
    assert forall|t: Seq<char>| #[trigger]
        compacted(all).contains(t) <==> trim_of(t).len() > 0 && {
            ||| t == title
            ||| tells_exit_code(state, t)
            ||| s.contains(t)
            ||| exists|i: int| #[trigger] is_among_last(lines, i, 12) && lines[i].text == t
            ||| w.contains(t)
            ||| tells_progress(state, t)
        } by {
        lemma_notes(state, t);
        law_tail_holds_the_last_lines(lines, 12, t);
        assert(first[0] == title);
        assert(first.contains(t) <==> t == title);
        lemma_add_contains(first, e, t);
        lemma_add_contains(first + e, s, t);
        lemma_add_contains(first + e + s, tail, t);
        lemma_add_contains(first + e + s + tail, w, t);
        lemma_add_contains(first + e + s + tail + w, p, t);
    }
    lemma_stands_above(first, e, s + tail + w + p);
    assert(all =~= first + e + (s + tail + w + p));
    lemma_stands_above(first + e, s, tail + w + p);
    assert(all =~= first + e + s + (tail + w + p));
    lemma_stands_above(first + e + s, tail, w + p);
    assert(all =~= first + e + s + tail + (w + p));
    lemma_stands_above(first + e + s + tail, w, p);
    lemma_stands_above(first + e + s + tail + w, p, none);
    assert(all =~= first + e + s + tail + w + p + none);
}

/// Where a failed run left no diagnostics, every line of the log that is neither blank nor a
/// progress message, and has fewer than twelve such lines behind it, stands in the report.
pub proof fn law_last_lines_stand_in_for_diagnostics(
    lines: Seq<LineView>,
    mode: UnrealMode,
    args: Seq<Seq<char>>,
    uat_detail: Seq<char>,
    exit_code: int,
    i: int,
)
    requires
        is_failure(lines, exit_code),
        scanned(lines).diagnostics.distinct.len() == 0,
        0 <= i < lines.len(),
        !(lines[i].kind is Blank),
        !(lines[i].kind is Progress),
        trim_of(lines[i].text).len() > 0,
        lines.skip(i + 1).filter(
            |line: LineView| !(line.kind is Blank) && !(line.kind is Progress),
        ).len() < 12,
    ensures
        compacted(report_lines(lines, mode, args, uat_detail, exit_code)).contains(lines[i].text),
{
    let scan = scanned(lines);
    assert((|line: LineView| !(line.kind is Blank) && !(line.kind is Progress)) =~= (
    |line: LineView| is_meaningful(line)));
    assert(is_among_last(lines, i, 12));
    law_report_without_diagnostics(
        mode,
        scan.diagnostics,
        scan.warnings,
        scan.summaries,
        scan.state.ended(exit_code),
        lines,
    );
}

/// The line that tells how many warnings there were, and how many of them are shown.
pub open spec fn tells_warnings(warnings: CappedView, t: Seq<char>) -> bool {
    t == "warnings: "@ + decimal(warnings.distinct.len()) + " total (showing up to "@ + decimal(
        warnings.shown().len(),
    ) + ")"@
}

/// `t` is a line of `shown` that is no part of a line of `shown` before it, nor of one of `above`.
pub open spec fn is_news(above: Seq<Seq<char>>, shown: Seq<Seq<char>>, t: Seq<char>) -> bool {
    &&& forall|i: int| 0 <= i < above.len() ==> !contains_text(#[trigger] above[i], t)
    &&& exists|k: int|
        {
            &&& 0 <= k < shown.len()
            &&& #[trigger] shown[k] == t
            &&& forall|j: int| 0 <= j < k ==> !contains_text(#[trigger] shown[j], t)
        }
}

/// A part of a part is a part.
proof fn lemma_part_of_part(a: Seq<char>, b: Seq<char>, c: Seq<char>)
    requires
        contains_text(a, b),
        contains_text(b, c),
    ensures
        contains_text(a, c),
{
    let i = choose|i: int| occurs_at(a, b, i);
    let j = choose|j: int| occurs_at(b, c, j);
    assert(a.subrange(i + j, i + j + c.len()) =~= c) by {
        assert forall|k: int| 0 <= k < c.len() implies a[i + j + k] == c[k] by {
            assert(b.subrange(j, j + c.len())[k] == b[j + k]);
            assert(a.subrange(i, i + b.len())[j + k] == a[i + j + k]);
        }
    }
    assert(occurs_at(a, c, i + j));
}

/// What the lines that are added leave to be mentioned.
proof fn lemma_mentioned(above: Seq<Seq<char>>, shown: Seq<Seq<char>>, t: Seq<char>)
    ensures
        is_mentioned(with_unmentioned(above, shown), t) <==> is_mentioned(above, t) || is_mentioned(
            shown,
            t,
        ),
    decreases shown.len(),
{
    if shown.len() > 0 {
        let rest = shown.drop_last();
        let last = shown.last();
        let before = with_unmentioned(above, rest);
        let after = with_unmentioned(above, shown);
        lemma_mentioned(above, rest, t);
        lemma_mentioned(above, rest, last);
        assert(shown =~= rest.push(last));
        lemma_mentioned_push(rest, last, t);
        if is_mentioned(before, last) {
            if contains_text(last, t) {
                let i = choose|i: int|
                    0 <= i < before.len() && contains_text(#[trigger] before[i], last);
                lemma_part_of_part(before[i], last, t);
                assert(is_mentioned(before, t));
            }
        } else {
            lemma_mentioned_push(before, last, t);
        }
    }
}

proof fn lemma_mentioned_push(lines: Seq<Seq<char>>, line: Seq<char>, t: Seq<char>)
    ensures
        is_mentioned(lines.push(line), t) <==> is_mentioned(lines, t) || contains_text(line, t),
{
    let more = lines.push(line);
    if is_mentioned(lines, t) {
        let i = choose|i: int| 0 <= i < lines.len() && contains_text(#[trigger] lines[i], t);
        assert(contains_text(more[i], t));
    }
    if contains_text(line, t) {
        assert(contains_text(more[lines.len() as int], t));
    }
    if is_mentioned(more, t) {
        let i = choose|i: int| 0 <= i < more.len() && contains_text(#[trigger] more[i], t);
        if i < lines.len() {
            assert(contains_text(lines[i], t));
        }
    }
}

/// The lines that are added: those that nothing before them holds.
proof fn lemma_news(above: Seq<Seq<char>>, shown: Seq<Seq<char>>, t: Seq<char>)
    ensures
        with_unmentioned(above, shown).contains(t) <==> above.contains(t) || is_news(
            above,
            shown,
            t,
        ),
    decreases shown.len(),
{
    if shown.len() > 0 {
        let rest = shown.drop_last();
        let last = shown.last();
        let before = with_unmentioned(above, rest);
        lemma_news(above, rest, t);
        lemma_mentioned(above, rest, last);
        lemma_push_contains(before, last, t);
        if is_news(above, rest, t) {
            let k = choose|k: int|
                {
                    &&& 0 <= k < rest.len()
                    &&& #[trigger] rest[k] == t
                    &&& forall|j: int| 0 <= j < k ==> !contains_text(#[trigger] rest[j], t)
                };
            assert(shown[k] == t);
            assert forall|j: int| 0 <= j < k implies !contains_text(#[trigger] shown[j], t) by {
                assert(rest[j] == shown[j]);
            }
        }
        if !is_mentioned(before, last) && t == last {
            let k = shown.len() - 1;
            assert(shown[k] == t);
            assert forall|j: int| 0 <= j < k implies !contains_text(#[trigger] shown[j], t) by {
                assert(rest[j] == shown[j]);
            }
            assert forall|i: int| 0 <= i < above.len() implies !contains_text(
                #[trigger] above[i],
                t,
            ) by {
                assert(!is_mentioned(above, t));
            }
            assert(is_news(above, shown, t));
        }
        if is_news(above, shown, t) && !is_news(above, rest, t) {
            let k = choose|k: int|
                {
                    &&& 0 <= k < shown.len()
                    &&& #[trigger] shown[k] == t
                    &&& forall|j: int| 0 <= j < k ==> !contains_text(#[trigger] shown[j], t)
                };
            if k < rest.len() {
                assert(rest[k] == t);
                assert forall|j: int| 0 <= j < k implies !contains_text(#[trigger] rest[j], t) by {
                    assert(rest[j] == shown[j]);
                }
            }
            assert(k == rest.len());
            assert(t == last);
            assert(!is_mentioned(above, last));
            assert(!is_mentioned(rest, last)) by {
                if is_mentioned(rest, last) {
                    let j = choose|j: int|
                        0 <= j < rest.len() && contains_text(#[trigger] rest[j], last);
                    assert(contains_text(shown[j], t));
                }
            }
        }
    }
}

/// What is added stands behind what is there, in the order of the lines.
proof fn lemma_news_in_order(above: Seq<Seq<char>>, shown: Seq<Seq<char>>) -> (added: Seq<
    Seq<char>,
>)
    ensures
        with_unmentioned(above, shown) == above + added,
        forall|p: int| 0 <= p < added.len() ==> shown.contains(#[trigger] added[p]),
        forall|p: int, q: int|
            0 <= p < q < added.len() ==> comes_before(
                shown,
                #[trigger] added[p],
                #[trigger] added[q],
            ),
    decreases shown.len(),
{
    if shown.len() == 0 {
        assert(above =~= above + Seq::<Seq<char>>::empty());
        Seq::empty()
    } else {
        let rest = shown.drop_last();
        let last = shown.last();
        let before = lemma_news_in_order(above, rest);
        assert(shown =~= rest.push(last));
        let added = if is_mentioned(with_unmentioned(above, rest), last) {
            before
        } else {
            before.push(last)
        };
        assert(with_unmentioned(above, shown) =~= above + added);
        assert forall|p: int| 0 <= p < added.len() implies shown.contains(#[trigger] added[p]) by {
            if p < before.len() {
                assert(rest.contains(before[p]));
                let k = rest.index_of(before[p]);
                assert(shown[k] == added[p]);
            } else {
                assert(shown[rest.len() as int] == added[p]);
            }
        }
        assert forall|p: int, q: int| 0 <= p < q < added.len() implies comes_before(
            shown,
            #[trigger] added[p],
            #[trigger] added[q],
        ) by {
            if q < before.len() {
                assert(comes_before(rest, before[p], before[q]));
                let (i, j) = choose|i: int, j: int|
                    0 <= i < j < rest.len() && #[trigger] rest[i] == before[p] && #[trigger] rest[j]
                        == before[q];
                assert(shown[i] == added[p] && shown[j] == added[q]);
            } else {
                assert(rest.contains(before[p]));
                let i = rest.index_of(before[p]);
                assert(shown[i] == added[p] && shown[rest.len() as int] == added[q]);
            }
        }
        added
    }
}

/// The report on a run that succeeded holds its header, the number of the warnings and the warnings
/// where there are any, the summary lines that nothing above them tells already where there is more
/// than one, and the number of progress messages, in this order, and nothing else.
pub proof fn law_report_on_a_success(
    mode: UnrealMode,
    args: Seq<Seq<char>>,
    uat_detail: Seq<char>,
    warnings: CappedView,
    summaries: CappedView,
    state: StateView,
)
    ensures
        ({
            let out = compacted(
                success_lines(mode, args, uat_detail, warnings, summaries, state),
            );
            let first = seq![header(mode, args, uat_detail, summaries, state)];
            let head = first + warning_lines(warnings);
            let w = warnings.rendered();
            &&& forall|t: Seq<char>| #[trigger]
                warning_lines(warnings).contains(t) <==> warnings.shown().len() > 0 && (
                tells_warnings(warnings, t) || w.contains(t))
            &&& forall|t: Seq<char>| #[trigger]
                out.contains(t) <==> trim_of(t).len() > 0 && {
                    ||| t == header(mode, args, uat_detail, summaries, state)
                    ||| warnings.shown().len() > 0 && (tells_warnings(warnings, t) || w.contains(t))
                    ||| summaries.shown().len() > 1 && is_news(head, summaries.shown(), t)
                    ||| tells_progress(state, t)
                }
            &&& stands_above(out, first, warning_lines(warnings))
            &&& keeps_order(out, first, warning_lines(warnings))
            &&& warnings.shown().len() > 0 ==> {
                let count = warning_lines(warnings)[0];
                &&& tells_warnings(warnings, count)
                &&& stands_above(out, first + seq![count], w)
                &&& keeps_order(out, first + seq![count], w)
            }
            &&& stands_above(out, head, summaries.shown())
            &&& summaries.shown().no_duplicates() ==> forall|i: int, j: int|
                {
                    &&& 0 <= i < j < summaries.shown().len()
                    &&& is_news(head, summaries.shown(), #[trigger] summaries.shown()[i])
                    &&& is_news(head, summaries.shown(), #[trigger] summaries.shown()[j])
                    &&& trim_of(summaries.shown()[i]).len() > 0
                    &&& trim_of(summaries.shown()[j]).len() > 0
                } ==> comes_before(out, summaries.shown()[i], summaries.shown()[j])
            &&& stands_above(out, head + summaries.shown(), progress_lines(state))
        }),
{
    let all = success_lines(mode, args, uat_detail, warnings, summaries, state);
    let out = compacted(all);
    let title = header(mode, args, uat_detail, summaries, state);
    let first = seq![title];
    let count = warning_count(warnings);
    let w = warnings.rendered();
    let c = warning_lines(warnings);
    let head = first + c;
    let shown = summaries.shown();
    let p = progress_lines(state);
    let none = Seq::<Seq<char>>::empty();
    let news = lemma_news_in_order(head, shown);
    let added = if shown.len() > 1 {
        news
    } else {
        none
    };
    assert(count =~= "warnings: "@ + decimal(warnings.distinct.len()) + " total (showing up to "@
        + decimal(warnings.shown().len()) + ")"@);
    assert(all =~= head + added + p);
    law_compaction_keeps_each_line_once(all);
    assert forall|t: Seq<char>| #[trigger]
        c.contains(t) <==> warnings.shown().len() > 0 && (tells_warnings(warnings, t)
            || w.contains(t)) by {
        if warnings.shown().len() > 0 {
            assert(seq![count][0] == count);
            assert(seq![count].contains(t) <==> t == count);
            lemma_add_contains(seq![count], w, t);
        }
    }
    assert forall|t: Seq<char>| #[trigger]
        out.contains(t) <==> trim_of(t).len() > 0 && {
            ||| t == title
            ||| warnings.shown().len() > 0 && (tells_warnings(warnings, t) || w.contains(t))
            ||| shown.len() > 1 && is_news(head, shown, t)
            ||| tells_progress(state, t)
        } by {
        lemma_notes(state, t);
        assert(first[0] == title);
        assert(first.contains(t) <==> t == title);
        assert(c.contains(t) <==> warnings.shown().len() > 0 && (tells_warnings(warnings, t)
            || w.contains(t)));
        lemma_add_contains(first, c, t);
        lemma_news(head, shown, t);
        assert(head + none =~= head);
        lemma_add_contains(head + added, p, t);
    }
    lemma_stands_above(first, c, added + p);
    assert(all =~= first + c + (added + p));
    if warnings.shown().len() > 0 {
        lemma_stands_above(first + seq![count], w, added + p);
        assert(all =~= first + seq![count] + w + (added + p));
    }
    if shown.no_duplicates() {
        assert forall|i: int, j: int|
            {
                &&& 0 <= i < j < shown.len()
                &&& is_news(head, shown, #[trigger] shown[i])
                &&& is_news(head, shown, #[trigger] shown[j])
                &&& trim_of(shown[i]).len() > 0
                &&& trim_of(shown[j]).len() > 0
            } implies comes_before(out, shown[i], shown[j]) by {
            lemma_added_in_order(head, added, p, shown, i, j);
        }
    }
    lemma_stands_above(head, added + p, none);
    assert(all =~= head + (added + p) + none);
    assert forall|x: Seq<char>, y: Seq<char>|
        {
            &&& #[trigger] head.contains(x)
            &&& #[trigger] shown.contains(y)
            &&& !head.contains(y)
            &&& out.contains(x)
            &&& out.contains(y)
        } implies comes_before(out, x, y) by {
        lemma_add_contains(head, added, y);
        lemma_add_contains(head + added, p, y);
        lemma_add_contains(added, p, y);
    }
    lemma_stands_above(head + added, p, none);
    assert(all =~= head + added + p + none);
    assert forall|x: Seq<char>, y: Seq<char>|
        {
            &&& #[trigger] (head + shown).contains(x)
            &&& #[trigger] p.contains(y)
            &&& !(head + shown).contains(y)
            &&& out.contains(x)
            &&& out.contains(y)
        } implies comes_before(out, x, y) by {
        lemma_add_contains(head, shown, x);
        lemma_add_contains(head, shown, y);
        lemma_add_contains(head, added, x);
        lemma_add_contains(head, added, y);
        lemma_add_contains(head + added, p, x);
        if added.contains(y) {
            let k = added.index_of(y);
            assert(shown.contains(added[k]));
        }
        if p.contains(x) {
            assert(x == y);
        }
    }
}

/// The lines that were added stand in their order.
proof fn lemma_added_in_order(
    head: Seq<Seq<char>>,
    added: Seq<Seq<char>>,
    after: Seq<Seq<char>>,
    shown: Seq<Seq<char>>,
    i: int,
    j: int,
)
    requires
        with_unmentioned(head, shown) == head + added,
        forall|p: int, q: int|
            0 <= p < q < added.len() ==> comes_before(
                shown,
                #[trigger] added[p],
                #[trigger] added[q],
            ),
        shown.no_duplicates(),
        0 <= i < j < shown.len(),
        is_news(head, shown, shown[i]),
        is_news(head, shown, shown[j]),
        trim_of(shown[i]).len() > 0,
        trim_of(shown[j]).len() > 0,
    ensures
        comes_before(compacted(head + added + after), shown[i], shown[j]),
{
    let out = compacted(head + added + after);
    law_compaction_keeps_each_line_once(head + added + after);
    lemma_stands_above(head, added, after);
    lemma_is_added(head, added, shown, i);
    lemma_is_added(head, added, shown, j);
    let a = added.index_of(shown[i]);
    let b = added.index_of(shown[j]);
    if b < a {
        assert(comes_before(shown, added[b], added[a]));
    }
    assert(a < b);
    if added.take(b).contains(added[b]) {
        let c = added.take(b).index_of(added[b]);
        assert(added[c] == added[b]);
        assert(comes_before(shown, added[c], added[b]));
    }
    lemma_add_contains(head, added, shown[i]);
    lemma_add_contains(head, added, shown[j]);
    lemma_add_contains(head + added, after, shown[i]);
    lemma_add_contains(head + added, after, shown[j]);
    assert(out.contains(added[a]) && out.contains(added[b]));
}

proof fn lemma_is_added(
    head: Seq<Seq<char>>,
    added: Seq<Seq<char>>,
    shown: Seq<Seq<char>>,
    i: int,
)
    requires
        with_unmentioned(head, shown) == head + added,
        0 <= i < shown.len(),
        is_news(head, shown, shown[i]),
    ensures
        added.contains(shown[i]),
        !head.contains(shown[i]),
{
    let t = shown[i];
    lemma_news(head, shown, t);
    lemma_add_contains(head, added, t);
    if head.contains(t) {
        let k = head.index_of(t);
        assert(t.subrange(0, t.len() as int) =~= t);
        assert(occurs_at(head[k], t, 0));
        assert(contains_text(head[k], t));
    }
}

/// A run that counts as failed gets the report on a failed run, any other the report on a success,
/// with the exit code taken into account.
pub proof fn law_report_fits_the_outcome(
    lines: Seq<LineView>,
    mode: UnrealMode,
    args: Seq<Seq<char>>,
    uat_detail: Seq<char>,
    exit_code: int,
)
    ensures
        ({
            let scan = scanned(lines);
            let all = report_lines(lines, mode, args, uat_detail, exit_code);
            let failed = {
                ||| exit_code != 0
                ||| exists|i: int|
                    0 <= i < lines.len() && {
                        ||| (#[trigger] lines[i]).kind is Error
                        ||| says_build_failed(lines[i])
                    }
                ||| exists|i: int, j: int|
                    {
                        &&& 0 <= j < i < lines.len()
                        &&& (#[trigger] lines[j]).kind is Warning
                        &&& is_context(#[trigger] lines[i])
                        &&& context_between(lines, j, i) == 0
                        &&& trim_end_of(lines[i].text).len() > 0
                    }
            };
            &&& failed ==> all == failure_lines(
                mode,
                scan.diagnostics,
                scan.warnings,
                scan.summaries,
                scan.state.ended(exit_code),
                lines,
            )
            &&& !failed ==> all == success_lines(
                mode,
                args,
                uat_detail,
                scan.warnings,
                scan.summaries,
                scan.state,
            )
        }),
{
    law_what_counts_as_a_failed_run(lines, exit_code);
}

/// The text of a report is made of the lines that are left once blank and repeated ones are
/// dropped, with a line feed between each two, for the log without its escape sequences.
pub proof fn law_report_is_made_of_its_lines(
    raw: Seq<char>,
    mode: UnrealMode,
    args: Seq<Seq<char>>,
    exit_code: int,
    report: Seq<char>,
)
    requires
        is_report(raw, mode, args, exit_code, report),
    ensures
        exists|project: Option<Seq<char>>| #[trigger]
            is_project_name(args, project) && report == joined(
                compacted(
                    report_lines(
                        classified_lines(regex_replace_all(ANSI@, raw, ""@)),
                        mode,
                        args,
                        uat_summary(project, args),
                        exit_code,
                    ),
                ),
                "\n"@,
            ),
{
}

/// The first lines of the report on a failed run are the diagnostics that are shown, in their
/// order.
pub proof fn law_diagnostics_stand_at_the_head(
    lines: Seq<LineView>,
    mode: UnrealMode,
    args: Seq<Seq<char>>,
    uat_detail: Seq<char>,
    exit_code: int,
)
    ensures
        scanned(lines).diagnostics.shown().is_prefix_of(
            compacted(report_lines(lines, mode, args, uat_detail, exit_code)),
        ),
{
    let list = scanned(lines).diagnostics;
    let shown = list.shown();
    let all = report_lines(lines, mode, args, uat_detail, exit_code);
    law_lists_are_distinct(lines);
    if shown.len() > 0 {
        assert forall|i: int| 0 <= i < shown.len() implies trim_of(#[trigger] shown[i]).len() > 0 by {
            assert(shown[i] == list.distinct[i]);
            assert(list.distinct.contains(shown[i]));
            law_diagnostics_come_from_the_log(lines, shown[i]);
            let k = choose|k: int|
                0 <= k < lines.len() && is_diagnostic(#[trigger] lines[k]) && trim_end_of(
                    lines[k].text,
                ) == shown[i];
            lemma_trimmed(lines[k].text);
        }
        assert forall|i: int, j: int| 0 <= i < j < shown.len() implies #[trigger] shown[i]
            != #[trigger] shown[j] by {
            assert(shown[i] == list.distinct[i] && shown[j] == list.distinct[j]);
        }
        assert(shown.is_prefix_of(all)) by {
            assert(all.subrange(0, shown.len() as int) =~= shown);
        }
        lemma_compacted_prefix(all, shown.len() as int);
        assert(all.take(shown.len() as int) =~= shown);
    }
}

/// Lines at the beginning that are neither blank nor repeated stay there.
proof fn lemma_compacted_prefix(lines: Seq<Seq<char>>, n: int)
    requires
        0 <= n <= lines.len(),
        forall|i: int| 0 <= i < n ==> trim_of(#[trigger] lines[i]).len() > 0,
        forall|i: int, j: int| 0 <= i < j < n ==> #[trigger] lines[i] != #[trigger] lines[j],
    ensures
        lines.take(n).is_prefix_of(compacted(lines)),
        n == lines.len() ==> compacted(lines) == lines,
    decreases lines.len(),
{
    if lines.len() > 0 {
        let rest = lines.drop_last();
        if n < lines.len() {
            lemma_compacted_prefix(rest, n);
            assert(rest.take(n) =~= lines.take(n));
        } else {
            lemma_compacted_prefix(rest, n - 1);
            assert(!rest.contains(lines.last())) by {
                if rest.contains(lines.last()) {
                    let k = rest.index_of(lines.last());
                    assert(lines[k] == lines[n - 1]);
                }
            }
            assert(lines =~= rest.push(lines.last()));
            assert(lines.take(n) =~= lines);
        }
    } else {
        assert(compacted(lines) =~= lines);
        assert(lines.take(n) =~= lines);
    }
}

/// A line of the log that any of the three diagnostic patterns matches stands in the text of the
/// report, whatever the mode and the exit code, unless it is a progress message or there are more
/// diagnostics than are shown. Likewise a line that the pattern for warnings matches, and none of
/// those before it.
pub proof fn law_errors_and_warnings_reach_the_report(
    raw: Seq<char>,
    mode: UnrealMode,
    args: Seq<Seq<char>>,
    exit_code: int,
    report: Seq<char>,
    i: int,
    a: Seq<char>,
    m: Seq<char>,
    b: Seq<char>,
)
    requires
        are_single_lines(args),
        is_report(raw, mode, args, exit_code, report),
        0 <= i < lines_of(regex_replace_all(ANSI@, raw, ""@)).len(),
        lines_of(regex_replace_all(ANSI@, raw, ""@))[i] == a + m + b,
        is_blank(a),
        is_core(m),
        is_blank(b),
        !regex_is_match(PROGRESS@, m),
    ensures
        ({
            let scan = scanned(classified_lines(regex_replace_all(ANSI@, raw, ""@)));
            let error = {
                ||| regex_is_match(GCC_CLANG_DIAG@, m)
                ||| regex_is_match(MSVC_DIAG@, m)
                ||| regex_is_match(UNREAL_ERROR@, m)
            };
            let warning = !error && regex_is_match(UNREAL_WARNING@, m);
            &&& error && scan.diagnostics.distinct.len() <= 20 ==> lines_of(report).contains(a + m)
            &&& warning && scan.warnings.distinct.len() <= 10 ==> lines_of(report).contains(a + m)
        }),
{
    let log = regex_replace_all(ANSI@, raw, ""@);
    let lines = classified_lines(log);
    let scan = scanned(lines);
    let t = a + m;
    let none = Seq::<char>::empty();
    law_report_is_made_of_its_lines(raw, mode, args, exit_code, report);
    let project = choose|project: Option<Seq<char>>| #[trigger]
        is_project_name(args, project) && report == joined(
            compacted(report_lines(lines, mode, args, uat_summary(project, args), exit_code)),
            "\n"@,
        );
    let detail = uat_summary(project, args);
    law_report_is_read_back_line_by_line(log, mode, args, project, exit_code);
    assert(lines[i] == classified(a + m + b));
    law_kind_of_a_line(a, m, b);
    law_trimming_takes_white_space_away(a, m, none);
    assert(a + m + none =~= t);
    law_nothing_important_is_lost(lines, i);
    law_lists_have_names_and_limits(lines);
    law_list_tells_what_it_hides(scan.diagnostics);
    law_list_tells_what_it_hides(scan.warnings);
    if lines[i].kind is Error && scan.diagnostics.distinct.len() <= 20 {
        law_shown_diagnostics_are_reported(lines, mode, args, detail, exit_code, t);
    }
    if lines[i].kind is Warning && scan.warnings.distinct.len() <= 10 {
        law_shown_warnings_are_reported(lines, mode, args, detail, exit_code, t);
    }
}

} // verus!
