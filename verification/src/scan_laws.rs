//! What a scan keeps of a log, in terms of the lines of the log.

use crate::capped::with_line;
use crate::filter::is_failure;
use crate::laws::{
    law_lists_only_grow, law_nothing_important_is_lost, law_scan_sorts_lines_by_kind,
    lemma_lines_of_kind, lemma_with_line_contains,
};
use crate::line_laws::law_blank_lines;
use crate::scan::{
    classified, classified_lines, scanned, LineKind, LineView, StateView,
};
use crate::text::{contains_text, lines_of, lower_of, trim_end_of, trim_of};
use crate::text_laws::{
    is_blank, law_blank_text_trims_to_nothing, law_trimming_takes_white_space_away, lemma_core,
};
use vstd::prelude::*;

verus! {

/// A line that is nothing more than text, and may explain what it stands next to.
pub open spec fn is_context(line: LineView) -> bool {
    line.kind is Other && line.context
}

/// How many context lines stand between the lines `j` and `i`.
pub open spec fn context_between(lines: Seq<LineView>, j: int, i: int) -> nat {
    lines.subrange(j + 1, i).filter(|line: LineView| is_context(line)).len()
}

/// Line `i` explains line `j` before it: an error is explained by the four context lines that
/// follow, a warning by the one that follows.
pub open spec fn explains(lines: Seq<LineView>, i: int, j: int) -> bool {
    &&& 0 <= j < i < lines.len()
    &&& is_context(lines[i])
    &&& {
        ||| lines[j].kind is Error && context_between(lines, j, i) < 4
        ||| lines[j].kind is Warning && context_between(lines, j, i) == 0
    }
}

/// Line `i` explains an error or a warning before it.
pub open spec fn is_explanation(lines: Seq<LineView>, i: int) -> bool {
    exists|j: int| explains(lines, i, j)
}

/// Line `k` may lead up to an error: it is a warning, or it names a place and explains nothing
/// before it.
pub open spec fn is_lead(lines: Seq<LineView>, k: int) -> bool {
    &&& 0 <= k < lines.len()
    &&& {
        ||| lines[k].kind is Warning
        ||| lines[k].kind is Other && lines[k].location && !is_explanation(lines, k)
    }
}

/// Line `k` leads up to the error on line `i`: of the lines that may, it is the last one before the
/// error, there is no other error between them, and it looks like context.
pub open spec fn leads_up_to(lines: Seq<LineView>, k: int, i: int) -> bool {
    &&& 0 <= k < i < lines.len()
    &&& lines[i].kind is Error
    &&& is_lead(lines, k)
    &&& lines[k].context
    &&& forall|m: int| k < m < i ==> !((#[trigger] lines[m]).kind is Error) && !is_lead(lines, m)
}

/// Line `i` is a diagnostic, once the lines before `n` were read: an error, a line that explains
/// one or a warning, or a line that leads up to one.
pub open spec fn is_diagnosed_by(lines: Seq<LineView>, i: int, n: int) -> bool {
    &&& 0 <= i < n <= lines.len()
    &&& {
        ||| lines[i].kind is Error
        ||| is_explanation(lines, i)
        ||| exists|e: int| e < n && leads_up_to(lines, i, e)
    }
}

/// What is known of the window after the first `n` lines.
spec fn window_holds(lines: Seq<LineView>, n: int, remaining: nat) -> bool {
    &&& remaining <= 4
    &&& forall|j: int|
        0 <= j < n && (#[trigger] lines[j]).kind is Error ==> remaining + context_between(
            lines,
            j,
            n,
        ) >= 4
    &&& forall|j: int|
        0 <= j < n && (#[trigger] lines[j]).kind is Warning ==> remaining + context_between(
            lines,
            j,
            n,
        ) >= 1
    &&& remaining > 0 ==> exists|j: int|
        0 <= j < n && {
            ||| (#[trigger] lines[j]).kind is Error && remaining + context_between(lines, j, n) == 4
            ||| lines[j].kind is Warning && remaining + context_between(lines, j, n) == 1
        }
}

proof fn lemma_between_step(lines: Seq<LineView>, j: int, n: int)
    requires
        0 <= j < n < lines.len(),
    ensures
        context_between(lines, j, n + 1) == context_between(lines, j, n) + if is_context(lines[n]) {
            1nat
        } else {
            0
        },
{
    reveal(Seq::filter);
    assert(lines.subrange(j + 1, n + 1).drop_last() =~= lines.subrange(j + 1, n));
    assert(lines.subrange(j + 1, n + 1).last() == lines[n]);
}

proof fn lemma_between_none(lines: Seq<LineView>, j: int)
    requires
        0 <= j < lines.len(),
    ensures
        context_between(lines, j, j + 1) == 0,
{
    reveal(Seq::filter);
    assert(lines.subrange(j + 1, j + 1) =~= Seq::<LineView>::empty());
}

proof fn lemma_window(lines: Seq<LineView>, n: int)
    requires
        0 <= n <= lines.len(),
    ensures
        window_holds(lines, n, scanned(lines.take(n)).context_remaining),
    decreases n,
{
    if n > 0 {
        let k = n - 1;
        let line = lines[k];
        let before = scanned(lines.take(k)).context_remaining;
        let after = scanned(lines.take(n)).context_remaining;
        assert(lines.take(n).drop_last() =~= lines.take(k));
        assert(lines.take(n).last() == line);
        lemma_window(lines, k);
        lemma_between_none(lines, k);
        assert forall|j: int| 0 <= j < k implies #[trigger] context_between(lines, j, n)
            == context_between(lines, j, k) + if is_context(line) {
            1nat
        } else {
            0
        } by {
            lemma_between_step(lines, j, k);
        }
        assert forall|j: int| 0 <= j < n && (#[trigger] lines[j]).kind is Error implies after
            + context_between(lines, j, n) >= 4 by {
            if j < k {
                assert(before + context_between(lines, j, k) >= 4);
            }
        }
        assert forall|j: int| 0 <= j < n && (#[trigger] lines[j]).kind is Warning implies after
            + context_between(lines, j, n) >= 1 by {
            if j < k {
                assert(before + context_between(lines, j, k) >= 1);
            }
        }
        if after > 0 {
            if line.kind is Error || (line.kind is Warning && before <= 1) {
                assert(lines[k].kind is Error || lines[k].kind is Warning);
            } else {
                assert(before > 0);
                let j = choose|j: int|
                    0 <= j < k && {
                        ||| (#[trigger] lines[j]).kind is Error && before + context_between(
                            lines,
                            j,
                            k,
                        ) == 4
                        ||| lines[j].kind is Warning && before + context_between(lines, j, k) == 1
                    };
                assert(context_between(lines, j, n) == context_between(lines, j, k)
                    + if is_context(line) {
                    1nat
                } else {
                    0
                });
                assert(lines[j].kind is Error || lines[j].kind is Warning);
            }
        }
    }
}

/// A context line finds the window open exactly where it explains something.
proof fn lemma_open_window(lines: Seq<LineView>, i: int)
    requires
        0 <= i < lines.len(),
        is_context(lines[i]),
    ensures
        scanned(lines.take(i)).context_remaining > 0 <==> is_explanation(lines, i),
{
    lemma_window(lines, i);
    let remaining = scanned(lines.take(i)).context_remaining;
    if remaining > 0 {
        let j = choose|j: int|
            0 <= j < i && {
                ||| (#[trigger] lines[j]).kind is Error && remaining + context_between(lines, j, i)
                    == 4
                ||| lines[j].kind is Warning && remaining + context_between(lines, j, i) == 1
            };
        assert(explains(lines, i, j));
    }
    if is_explanation(lines, i) {
        let j = choose|j: int| explains(lines, i, j);
        assert(lines[j].kind is Error || lines[j].kind is Warning);
    }
}

/// What is known of the line that may lead up to the next error, after the first `n` lines.
spec fn lead_holds(lines: Seq<LineView>, n: int, previous: Option<(Seq<char>, bool)>) -> bool {
    match previous {
        Some((text, context)) => exists|k: int|
            {
                &&& 0 <= k < n
                &&& #[trigger] is_lead(lines, k)
                &&& lines[k].text == text
                &&& lines[k].context == context
                &&& forall|m: int|
                    k < m < n ==> !((#[trigger] lines[m]).kind is Error) && !is_lead(lines, m)
            },
        None => forall|k: int|
            0 <= k < n && #[trigger] is_lead(lines, k) ==> exists|m: int|
                k < m < n && (#[trigger] lines[m]).kind is Error,
    }
}

proof fn lemma_lead(lines: Seq<LineView>, n: int)
    requires
        0 <= n <= lines.len(),
    ensures
        lead_holds(lines, n, scanned(lines.take(n)).previous),
    decreases n,
{
    if n > 0 {
        let k = n - 1;
        let line = lines[k];
        let before = scanned(lines.take(k)).previous;
        let after = scanned(lines.take(n)).previous;
        assert(lines.take(n).drop_last() =~= lines.take(k));
        assert(lines.take(n).last() == line);
        lemma_lead(lines, k);
        if is_context(line) {
            lemma_open_window(lines, k);
        } else {
            assert(!is_explanation(lines, k));
        }
        if line.kind is Error {
            assert(after is None);
            assert forall|i: int| 0 <= i < n && #[trigger] is_lead(lines, i) implies exists|m: int|
                i < m < n && (#[trigger] lines[m]).kind is Error by {
                assert(lines[k].kind is Error);
            }
        } else if is_lead(lines, k) {
            assert(after == Some((line.text, line.context)));
            assert(is_lead(lines, k));
        } else {
            assert(after == before);
            match before {
                Some((text, context)) => {
                    let j = choose|j: int|
                        {
                            &&& 0 <= j < k
                            &&& #[trigger] is_lead(lines, j)
                            &&& lines[j].text == text
                            &&& lines[j].context == context
                            &&& forall|m: int|
                                j < m < k ==> !((#[trigger] lines[m]).kind is Error) && !is_lead(
                                    lines,
                                    m,
                                )
                        };
                    assert(is_lead(lines, j));
                },
                None => {
                    assert forall|i: int| 0 <= i < n && #[trigger] is_lead(lines, i) implies exists|
                        m: int,
                    |
                        i < m < n && (#[trigger] lines[m]).kind is Error by {
                        let m = choose|m: int| i < m < k && (#[trigger] lines[m]).kind is Error;
                        assert(lines[m].kind is Error);
                    }
                },
            }
        }
    }
}

/// The diagnostics after the first `n` lines.
proof fn lemma_diagnosed(lines: Seq<LineView>, n: int, t: Seq<char>)
    requires
        0 <= n <= lines.len(),
    ensures
        scanned(lines.take(n)).diagnostics.distinct.contains(t) <==> exists|i: int| #[trigger]
            is_diagnosed_by(lines, i, n) && trim_end_of(lines[i].text) == t && t.len() > 0,
    decreases n,
{
    if n > 0 {
        let k = n - 1;
        let line = lines[k];
        let before = scanned(lines.take(k));
        let list = before.diagnostics.distinct;
        let after = scanned(lines.take(n));
        assert(lines.take(n).drop_last() =~= lines.take(k));
        assert(lines.take(n).last() == line);
        lemma_diagnosed(lines, k, t);
        lemma_lead(lines, k);
        if is_context(line) {
            lemma_open_window(lines, k);
        } else {
            assert(!is_explanation(lines, k));
        }
        lemma_with_line_contains(list, line.text, t);
        if let Some((text, true)) = before.previous {
            lemma_with_line_contains(list, text, t);
            lemma_with_line_contains(with_line(list, text), line.text, t);
        }
        if after.diagnostics.distinct.contains(t) {
            if list.contains(t) {
                let i = choose|i: int| #[trigger]
                    is_diagnosed_by(lines, i, k) && trim_end_of(lines[i].text) == t && t.len() > 0;
                assert(is_diagnosed_by(lines, i, n));
            } else if t == trim_end_of(line.text) && (line.kind is Error || is_explanation(
                lines,
                k,
            )) {
                assert(is_diagnosed_by(lines, k, n));
            } else {
                assert(line.kind is Error);
                let (text, context) = before.previous->0;
                let j = choose|j: int|
                    {
                        &&& 0 <= j < k
                        &&& #[trigger] is_lead(lines, j)
                        &&& lines[j].text == text
                        &&& lines[j].context == context
                        &&& forall|m: int|
                            j < m < k ==> !((#[trigger] lines[m]).kind is Error) && !is_lead(
                                lines,
                                m,
                            )
                    };
                assert(leads_up_to(lines, j, k));
                assert(is_diagnosed_by(lines, j, n));
            }
        }
        if exists|i: int| #[trigger]
            is_diagnosed_by(lines, i, n) && trim_end_of(lines[i].text) == t && t.len() > 0 {
            let i = choose|i: int| #[trigger]
                is_diagnosed_by(lines, i, n) && trim_end_of(lines[i].text) == t && t.len() > 0;
            if is_diagnosed_by(lines, i, k) {
                assert(list.contains(t));
            } else if i < k {
                let e = choose|e: int| e < n && leads_up_to(lines, i, e);
                assert(e == k);
                match before.previous {
                    Some((text, context)) => {
                        let j = choose|j: int|
                            {
                                &&& 0 <= j < k
                                &&& #[trigger] is_lead(lines, j)
                                &&& lines[j].text == text
                                &&& lines[j].context == context
                                &&& forall|m: int|
                                    j < m < k ==> !((#[trigger] lines[m]).kind is Error)
                                        && !is_lead(lines, m)
                            };
                        if j < i {
                            assert(!((lines[i]).kind is Error) && !is_lead(lines, i));
                        }
                        if i < j {
                            assert(!((lines[j]).kind is Error) && !is_lead(lines, j));
                        }
                        assert(i == j);
                    },
                    None => {
                        let m = choose|m: int| i < m < k && (#[trigger] lines[m]).kind is Error;
                        assert(!(lines[m].kind is Error));
                    },
                }
            }
        }
    }
}

/// The diagnostics of a log are its errors, the lines that explain an error or a warning, and the
/// lines that lead up to an error: all of them, and nothing else.
pub proof fn law_diagnostics_are_errors_and_what_is_around_them(lines: Seq<LineView>, t: Seq<char>)
    ensures
        scanned(lines).diagnostics.distinct.contains(t) <==> t.len() > 0 && exists|i: int|
            {
                &&& 0 <= i < lines.len()
                &&& trim_end_of((#[trigger] lines[i]).text) == t
                &&& {
                    ||| lines[i].kind is Error
                    ||| is_explanation(lines, i)
                    ||| exists|e: int| leads_up_to(lines, i, e)
                }
            },
{
    let n = lines.len() as int;
    assert(lines.take(n) =~= lines);
    lemma_diagnosed(lines, n, t);
    if scanned(lines).diagnostics.distinct.contains(t) {
        let i = choose|i: int| #[trigger]
            is_diagnosed_by(lines, i, n) && trim_end_of(lines[i].text) == t && t.len() > 0;
        assert(trim_end_of(lines[i].text) == t);
    }
    if t.len() > 0 && exists|i: int|
        {
            &&& 0 <= i < lines.len()
            &&& trim_end_of((#[trigger] lines[i]).text) == t
            &&& {
                ||| lines[i].kind is Error
                ||| is_explanation(lines, i)
                ||| exists|e: int| leads_up_to(lines, i, e)
            }
        } {
        let i = choose|i: int|
            {
                &&& 0 <= i < lines.len()
                &&& trim_end_of((#[trigger] lines[i]).text) == t
                &&& {
                    ||| lines[i].kind is Error
                    ||| is_explanation(lines, i)
                    ||| exists|e: int| leads_up_to(lines, i, e)
                }
            };
        assert(is_diagnosed_by(lines, i, n));
    }
}

/// Each error takes the next four context lines with it, whatever stands before it: how many errors
/// there were does not matter.
pub proof fn law_errors_keep_the_lines_that_explain_them(lines: Seq<LineView>, j: int, i: int)
    requires
        0 <= j < i < lines.len(),
        lines[j].kind is Error,
        lines[i].kind is Other,
        lines[i].context,
        lines.subrange(j + 1, i).filter(|line: LineView| line.kind is Other && line.context).len()
            < 4,
        trim_end_of(lines[i].text).len() > 0,
    ensures
        scanned(lines).diagnostics.distinct.contains(trim_end_of(lines[i].text)),
{
    assert((|line: LineView| line.kind is Other && line.context) =~= (|line: LineView|
        is_context(line)));
    assert(explains(lines, i, j));
    law_diagnostics_are_errors_and_what_is_around_them(lines, trim_end_of(lines[i].text));
}

/// A warning takes the next context line with it.
pub proof fn law_warnings_keep_the_line_that_explains_them(lines: Seq<LineView>, j: int, i: int)
    requires
        0 <= j < i < lines.len(),
        lines[j].kind is Warning,
        lines[i].kind is Other,
        lines[i].context,
        forall|k: int| j < k < i ==> !((#[trigger] lines[k]).kind is Other && lines[k].context),
        trim_end_of(lines[i].text).len() > 0,
    ensures
        scanned(lines).diagnostics.distinct.contains(trim_end_of(lines[i].text)),
{
    lemma_none_between(lines, j, i);
    assert(explains(lines, i, j));
    law_diagnostics_are_errors_and_what_is_around_them(lines, trim_end_of(lines[i].text));
}

/// Where no context line stands between two lines, their number is 0.
proof fn lemma_none_between(lines: Seq<LineView>, j: int, i: int)
    requires
        0 <= j < i <= lines.len(),
        forall|k: int| j < k < i ==> !((#[trigger] lines[k]).kind is Other && lines[k].context),
    ensures
        context_between(lines, j, i) == 0,
    decreases i - j,
{
    if i == j + 1 {
        lemma_between_none(lines, j);
    } else {
        lemma_none_between(lines, j, i - 1);
        lemma_between_step(lines, j, i - 1);
        assert(!(lines[i - 1].kind is Other && lines[i - 1].context));
    }
}

/// Diagnostics come in the order of the log: what the first lines brought stands before what the
/// following ones bring, and a line that leads up to an error directly before it.
pub proof fn law_diagnostics_come_in_order(lines: Seq<LineView>, n: int)
    requires
        0 <= n < lines.len(),
    ensures
        ({
            let before = scanned(lines.take(n)).diagnostics.distinct;
            let after = scanned(lines.take(n + 1)).diagnostics.distinct;
            let own = trim_end_of(lines[n].text);
            &&& before.is_prefix_of(after)
            &&& after.is_prefix_of(scanned(lines).diagnostics.distinct)
            &&& after.len() <= before.len() + 2
            &&& after.len() == before.len() + 2 ==> after.last() == own
            &&& after.len() == before.len() + 1 && !before.contains(own) && own.len() > 0
                ==> after.last() == own
        }),
{
    let line = lines[n];
    let list = scanned(lines.take(n)).diagnostics.distinct;
    assert(lines.take(n + 1).drop_last() =~= lines.take(n));
    assert(lines.take(n + 1).last() == line);
    law_lists_only_grow(lines, n + 1);
    law_lists_only_grow(lines.take(n + 1), n);
    assert(lines.take(n + 1).take(n) =~= lines.take(n));
    if let Some((text, true)) = scanned(lines.take(n)).previous {
        lemma_with_line_contains(list, text, trim_end_of(line.text));
    }
}

/// The warnings of a log, and its summary lines, are the texts of the lines of that kind: all of
/// them, and nothing else.
pub proof fn law_lists_hold_the_lines_of_their_kind(lines: Seq<LineView>, t: Seq<char>)
    ensures
        scanned(lines).warnings.distinct.contains(t) <==> t.len() > 0 && exists|i: int|
            0 <= i < lines.len() && (#[trigger] lines[i]).kind is Warning && trim_end_of(
                lines[i].text,
            ) == t,
        scanned(lines).summaries.distinct.contains(t) <==> t.len() > 0 && exists|i: int|
            0 <= i < lines.len() && (#[trigger] lines[i]).kind is Summary && trim_end_of(
                lines[i].text,
            ) == t,
{
    law_scan_sorts_lines_by_kind(lines);
    if scanned(lines).warnings.distinct.contains(t) {
        lemma_lines_of_kind(lines, LineKind::Warning, t);
    }
    if scanned(lines).summaries.distinct.contains(t) {
        lemma_lines_of_kind(lines, LineKind::Summary, t);
    }
    if t.len() > 0 {
        if exists|i: int|
            0 <= i < lines.len() && (#[trigger] lines[i]).kind is Warning && trim_end_of(
                lines[i].text,
            ) == t {
            let i = choose|i: int|
                0 <= i < lines.len() && (#[trigger] lines[i]).kind is Warning && trim_end_of(
                    lines[i].text,
                ) == t;
            law_nothing_important_is_lost(lines, i);
        }
        if exists|i: int|
            0 <= i < lines.len() && (#[trigger] lines[i]).kind is Summary && trim_end_of(
                lines[i].text,
            ) == t {
            let i = choose|i: int|
                0 <= i < lines.len() && (#[trigger] lines[i]).kind is Summary && trim_end_of(
                    lines[i].text,
                ) == t;
            law_nothing_important_is_lost(lines, i);
        }
    }
}

/// A line adds at most one line to the warnings and to the summary lines, at the end.
pub proof fn law_warnings_and_summaries_come_in_order(lines: Seq<LineView>, n: int)
    requires
        0 <= n < lines.len(),
    ensures
        ({
            let before = scanned(lines.take(n));
            let after = scanned(lines.take(n + 1));
            &&& before.warnings.distinct.is_prefix_of(after.warnings.distinct)
            &&& after.warnings.distinct.is_prefix_of(scanned(lines).warnings.distinct)
            &&& after.warnings.distinct.len() <= before.warnings.distinct.len() + 1
            &&& before.summaries.distinct.is_prefix_of(after.summaries.distinct)
            &&& after.summaries.distinct.is_prefix_of(scanned(lines).summaries.distinct)
            &&& after.summaries.distinct.len() <= before.summaries.distinct.len() + 1
        }),
{
    assert(lines.take(n + 1).drop_last() =~= lines.take(n));
    law_lists_only_grow(lines, n + 1);
    law_lists_only_grow(lines.take(n + 1), n);
    assert(lines.take(n + 1).take(n) =~= lines.take(n));
}

/// A summary line that says that the build failed, in whatever case.
pub open spec fn says_build_failed(line: LineView) -> bool {
    line.kind is Summary && lower_of(trim_of(line.text)) == "build failed"@
}

/// A log tells of a failure by an error, or by a summary line that says that the build failed, and
/// by nothing else.
pub proof fn law_what_counts_as_a_failure_seen(lines: Seq<LineView>)
    ensures
        scanned(lines).state.failure_seen <==> exists|i: int|
            0 <= i < lines.len() && {
                ||| (#[trigger] lines[i]).kind is Error
                ||| says_build_failed(lines[i])
            },
    decreases lines.len(),
{
    reveal_strlit("build failed");
    assert(lower_of("build failed"@) =~= "build failed"@);
    if lines.len() > 0 {
        let rest = lines.drop_last();
        law_what_counts_as_a_failure_seen(rest);
        if scanned(rest).state.failure_seen {
            let i = choose|i: int|
                0 <= i < rest.len() && {
                    ||| (#[trigger] rest[i]).kind is Error
                    ||| says_build_failed(rest[i])
                };
            assert(lines[i] == rest[i]);
        }
        assert(lines[lines.len() - 1] == lines.last());
        if exists|i: int|
            0 <= i < lines.len() && {
                ||| (#[trigger] lines[i]).kind is Error
                ||| says_build_failed(lines[i])
            } {
            let i = choose|i: int|
                0 <= i < lines.len() && {
                    ||| (#[trigger] lines[i]).kind is Error
                    ||| says_build_failed(lines[i])
                };
            if i < rest.len() {
                assert(rest[i] == lines[i]);
            }
        }
    }
}

/// The lines of a log are kept without white space at their ends, and none but a blank one has
/// nothing to tell.
pub proof fn law_lines_of_a_log_have_texts(log: Seq<char>)
    ensures
        forall|i: int|
            0 <= i < classified_lines(log).len() && !((#[trigger] classified_lines(log)[i]).kind
                is Blank) ==> trim_of(classified_lines(log)[i].text).len() > 0,
        forall|i: int|
            0 <= i < classified_lines(log).len() ==> trim_end_of(
                (#[trigger] classified_lines(log)[i]).text,
            ) == classified_lines(log)[i].text,
{
    let lines = classified_lines(log);
    assert forall|i: int| 0 <= i < lines.len() implies trim_end_of((#[trigger] lines[i]).text)
        == lines[i].text && (!(lines[i].kind is Blank) ==> lines[i].text.len() > 0 && trim_of(
        lines[i].text,
    ).len() > 0) by {
        let t = lines_of(log)[i];
        assert(lines[i] == classified(t));
        law_blank_lines(t);
        if is_blank(t) {
            law_blank_text_trims_to_nothing(t);
        } else {
            let r = lemma_core(t);
            let none = Seq::<char>::empty();
            law_trimming_takes_white_space_away(r.0, r.1, r.2);
            law_trimming_takes_white_space_away(r.0, r.1, none);
            assert(r.0 + r.1 + none =~= r.0 + r.1);
        }
    }
}

/// A run has failed exactly where its process says so, the log holds an error, a summary line says
/// that the build failed, or a context line explains a warning. How many warnings there are does
/// not matter.
pub proof fn law_what_counts_as_a_failed_run(lines: Seq<LineView>, exit_code: int)
    ensures
        is_failure(lines, exit_code) <==> {
            ||| exit_code != 0
            ||| exists|i: int|
                0 <= i < lines.len() && {
                    ||| (#[trigger] lines[i]).kind is Error
                    ||| says_build_failed(lines[i])
                }
            ||| exists|i: int, j: int|
                {
                    &&& 0 <= j < i < lines.len()
                    &&& (#[trigger] lines[j]).kind is Warning
                    &&& is_context(#[trigger] lines[i])
                    &&& context_between(lines, j, i) == 0
                    &&& trim_end_of(lines[i].text).len() > 0
                }
        },
{
    let list = scanned(lines).diagnostics;
    law_what_counts_as_a_failure_seen(lines);
    law_scan_sorts_lines_by_kind(lines);
    if list.shown().len() > 0 {
        let t = list.distinct[0];
        assert(list.distinct.contains(t));
        law_diagnostics_are_errors_and_what_is_around_them(lines, t);
        let i = choose|i: int|
            {
                &&& 0 <= i < lines.len()
                &&& trim_end_of((#[trigger] lines[i]).text) == t
                &&& {
                    ||| lines[i].kind is Error
                    ||| is_explanation(lines, i)
                    ||| exists|e: int| leads_up_to(lines, i, e)
                }
            };
        if lines[i].kind is Error {
        } else if is_explanation(lines, i) {
            let j = choose|j: int| explains(lines, i, j);
            assert(lines[j].kind is Error || lines[j].kind is Warning);
        } else {
            let e = choose|e: int| leads_up_to(lines, i, e);
            assert(lines[e].kind is Error);
        }
    }
    if exists|i: int, j: int|
        {
            &&& 0 <= j < i < lines.len()
            &&& (#[trigger] lines[j]).kind is Warning
            &&& is_context(#[trigger] lines[i])
            &&& context_between(lines, j, i) == 0
            &&& trim_end_of(lines[i].text).len() > 0
        } {
        let (i, j) = choose|i: int, j: int|
            {
                &&& 0 <= j < i < lines.len()
                &&& (#[trigger] lines[j]).kind is Warning
                &&& is_context(#[trigger] lines[i])
                &&& context_between(lines, j, i) == 0
                &&& trim_end_of(lines[i].text).len() > 0
            };
        assert(explains(lines, i, j));
        law_diagnostics_are_errors_and_what_is_around_them(lines, trim_end_of(lines[i].text));
        assert(list.distinct.len() > 0);
    }
}

/// A run that ended with the exit code 0 counts as a success where the log holds no error, no
/// summary line says that the build failed, and no context line follows a warning, however many
/// warnings the log holds.
pub proof fn law_warnings_alone_are_no_failure(lines: Seq<LineView>)
    requires
        forall|i: int|
            0 <= i < lines.len() ==> {
                &&& !((#[trigger] lines[i]).kind is Error)
                &&& lines[i].kind is Summary ==> lower_of(trim_of(lines[i].text))
                    != "build failed"@
            },
        forall|i: int, j: int|
            0 <= j < i < lines.len() && (#[trigger] lines[j]).kind is Warning ==> !((
            #[trigger] lines[i]).kind is Other && lines[i].context),
    ensures
        !is_failure(lines, 0),
{
    let list = scanned(lines).diagnostics;
    law_what_counts_as_a_failure_seen(lines);
    if list.shown().len() > 0 {
        let t = list.distinct[0];
        assert(list.distinct.contains(t));
        law_diagnostics_are_errors_and_what_is_around_them(lines, t);
        let i = choose|i: int|
            {
                &&& 0 <= i < lines.len()
                &&& trim_end_of((#[trigger] lines[i]).text) == t
                &&& {
                    ||| lines[i].kind is Error
                    ||| is_explanation(lines, i)
                    ||| exists|e: int| leads_up_to(lines, i, e)
                }
            };
        if is_explanation(lines, i) {
            let j = choose|j: int| explains(lines, i, j);
            assert(!(lines[j].kind is Error));
        } else {
            let e = choose|e: int| leads_up_to(lines, i, e);
            assert(!(lines[e].kind is Error));
        }
    }
}

/// A progress message that tells how many packages were cooked.
pub open spec fn tells_packages(line: LineView) -> bool {
    line.kind is Progress && contains_text(lower_of(trim_of(line.text)), "cooked packages"@)
}

/// What is remembered of the packages is the last progress message that tells their number.
pub proof fn law_last_package_count_is_remembered(lines: Seq<LineView>)
    ensures
        match scanned(lines).state.packages_seen {
            Some(text) => exists|i: int|
                {
                    &&& 0 <= i < lines.len()
                    &&& tells_packages(#[trigger] lines[i])
                    &&& trim_of(lines[i].text) == text
                    &&& forall|j: int| i < j < lines.len() ==> !tells_packages(#[trigger] lines[j])
                },
            None => forall|i: int| 0 <= i < lines.len() ==> !tells_packages(#[trigger] lines[i]),
        },
    decreases lines.len(),
{
    if lines.len() > 0 {
        let rest = lines.drop_last();
        law_last_package_count_is_remembered(rest);
        assert(lines[lines.len() - 1] == lines.last());
        assert forall|j: int| 0 <= j < rest.len() implies rest[j] == #[trigger] lines[j] by {
        }
        if !tells_packages(lines.last()) {
            if let Some(text) = scanned(rest).state.packages_seen {
                let i = choose|i: int|
                    {
                        &&& 0 <= i < rest.len()
                        &&& tells_packages(#[trigger] rest[i])
                        &&& trim_of(rest[i].text) == text
                        &&& forall|j: int|
                            i < j < rest.len() ==> !tells_packages(#[trigger] rest[j])
                    };
                assert(tells_packages(lines[i]));
            }
        }
    }
}

/// Progress messages are counted one by one, and no other line is.
pub proof fn law_progress_is_counted(lines: Seq<LineView>, line: LineView)
    ensures
        scanned(Seq::empty()).state.progress_total == 0,
        scanned(lines.push(line)).state.progress_total == scanned(lines).state.progress_total + if
            line.kind is Progress {
            1nat
        } else {
            0
        },
{
    assert(lines.push(line).drop_last() =~= lines);
}

/// Ending with an exit code other than 0 is remembered as a failure with that code; nothing else
/// that is known of the run changes.
pub proof fn law_exit_code_is_remembered(state: StateView, exit_code: int)
    ensures
        state.ended(0) == state,
        exit_code != 0 ==> {
            &&& state.ended(exit_code).failure_seen
            &&& state.ended(exit_code).process_exit_code == Some(exit_code)
        },
        state.ended(exit_code).progress_total == state.progress_total,
        state.ended(exit_code).packages_seen == state.packages_seen,
{
}

/// The lists are called by what they hold, and show up to twenty diagnostics, ten warnings and
/// twenty summary lines.
pub proof fn law_lists_have_names_and_limits(lines: Seq<LineView>)
    ensures
        scanned(lines).diagnostics.cap == 20,
        scanned(lines).warnings.cap == 10,
        scanned(lines).summaries.cap == 20,
        scanned(lines).diagnostics.label == "diagnostics"@,
        scanned(lines).warnings.label == "warnings"@,
        scanned(lines).summaries.label == "summary lines"@,
{
    law_scan_sorts_lines_by_kind(lines);
}

} // verus!
