//! A report is read back line by line as it was written.

use crate::args::{
    arg_value_of, build_summary, client_config, is_project_name, or_empty, project_path,
    target_platform, target_words, uat_summary,
};
use crate::capped::CappedView;
use crate::filter::{is_report, report_lines, report_on};
use crate::laws::{
    law_compaction_keeps_each_line_once, law_lines_hold_no_line_feed, law_lists_are_distinct,
    law_noise_is_left_out, law_nonzero_exit_is_reported, law_report_is_bounded,
    law_scan_sorts_lines_by_kind,
};
use crate::mode::UnrealMode;
use crate::patterns::without_ansi;
use crate::report::{
    compacted, exit_lines, exit_note, failed_header, failure_lines, header, last_of, meaningful,
    progress_lines, report_text, success_lines, tests_completed, warning_count, warning_lines,
    with_detail, with_unmentioned, FALLBACK_LINES,
};
use crate::scan::{
    classified, classified_lines, scanned, LineView, CAP_ERRORS, CAP_LIST, CAP_WARNINGS,
};
use crate::text::{
    at_most, decimal, digit_char, is_white_space, joined, joined_prefix, lemma_first_line_feed,
    lemma_no_line_feed, lines_of, occurs_at, signed_decimal, trim_end_of, trim_of, trim_start_of,
};
use vstd::prelude::*;

verus! {

/// `t` holds no line feed.
pub open spec fn is_one_line(t: Seq<char>) -> bool {
    !t.contains('\n')
}

/// None of `lines` holds a line feed.
pub open spec fn are_single_lines(lines: Seq<Seq<char>>) -> bool {
    forall|i: int| 0 <= i < lines.len() ==> is_one_line(#[trigger] lines[i])
}

/// `t` can stand in a report: it holds no line feed, and no white space at its end.
spec fn is_tidy(t: Seq<char>) -> bool {
    is_one_line(t) && (t.len() > 0 ==> !is_white_space(t.last()))
}

spec fn are_tidy(lines: Seq<Seq<char>>) -> bool {
    forall|i: int| 0 <= i < lines.len() ==> is_tidy(#[trigger] lines[i])
}

/// A part of a line is a line.
proof fn lemma_part_is_one_line(t: Seq<char>, from: int, to: int)
    requires
        is_one_line(t),
        0 <= from <= to <= t.len(),
    ensures
        is_one_line(t.subrange(from, to)),
{
    assert forall|i: int| 0 <= i < to - from implies t.subrange(from, to)[i] != '\n' by {
        assert(t.contains(t[from + i]));
    }
}

/// Two texts on one line are one line.
proof fn lemma_one_line_add(a: Seq<char>, b: Seq<char>)
    requires
        is_one_line(a),
        is_one_line(b),
    ensures
        is_one_line(a + b),
{
    assert forall|i: int| 0 <= i < (a + b).len() implies (a + b)[i] != '\n' by {
        if i < a.len() {
            assert(a.contains(a[i]));
        } else {
            assert(b.contains(b[i - a.len()]));
        }
    }
}

/// A tidy text behind a text on the same line.
proof fn lemma_tidy_add(a: Seq<char>, b: Seq<char>)
    requires
        is_one_line(a),
        is_tidy(b),
        b.len() > 0,
    ensures
        is_tidy(a + b),
{
    lemma_one_line_add(a, b);
    assert((a + b).last() == b.last());
}

proof fn lemma_trim_end_is_tidy(t: Seq<char>)
    requires
        is_one_line(t),
    ensures
        is_tidy(trim_end_of(t)),
    decreases t.len(),
{
    if t.len() > 0 && is_white_space(t.last()) {
        lemma_part_is_one_line(t, 0, t.len() - 1);
        lemma_trim_end_is_tidy(t.drop_last());
    }
}

proof fn lemma_trim_start_is_tidy(t: Seq<char>)
    requires
        is_tidy(t),
    ensures
        is_tidy(trim_start_of(t)),
    decreases t.len(),
{
    if t.len() > 0 && is_white_space(t[0]) {
        lemma_part_is_one_line(t, 1, t.len() as int);
        lemma_trim_start_is_tidy(t.drop_first());
    }
}

proof fn lemma_trim_is_tidy(t: Seq<char>)
    requires
        is_one_line(t),
    ensures
        is_tidy(trim_of(t)),
{
    lemma_trim_end_is_tidy(t);
    lemma_trim_start_is_tidy(trim_end_of(t));
}

proof fn lemma_decimal_is_tidy(n: nat)
    ensures
        is_tidy(decimal(n)),
        decimal(n).len() > 0,
    decreases n,
{
    let last = seq![digit_char(n % 10)];
    assert(!last.contains('\n'));
    if n >= 10 {
        lemma_decimal_is_tidy(n / 10);
        lemma_tidy_add(decimal(n / 10), last);
        assert(decimal(n) =~= decimal(n / 10) + last);
    }
}

/// Lines with a separator on the same line are one line.
proof fn lemma_joined_is_one_line(parts: Seq<Seq<char>>, sep: Seq<char>, n: nat)
    requires
        are_single_lines(parts),
        is_one_line(sep),
        n <= parts.len(),
    ensures
        is_one_line(joined_prefix(parts, sep, n)),
    decreases n,
{
    if n > 1 {
        let before = joined_prefix(parts, sep, (n - 1) as nat);
        lemma_joined_is_one_line(parts, sep, (n - 1) as nat);
        lemma_one_line_add(before, sep);
        lemma_one_line_add(before + sep, parts[n - 1]);
    }
}

/// Joining puts the first part before the others joined.
proof fn lemma_joined_first(parts: Seq<Seq<char>>, sep: Seq<char>, n: nat)
    requires
        2 <= n <= parts.len(),
    ensures
        joined_prefix(parts, sep, n) == parts[0] + sep + joined_prefix(
            parts.drop_first(),
            sep,
            (n - 1) as nat,
        ),
    decreases n,
{
    let rest = parts.drop_first();
    if n == 2 {
        assert(joined_prefix(parts, sep, 1) == parts[0]);
        assert(joined_prefix(rest, sep, 1) == parts[1]);
    } else {
        lemma_joined_first(parts, sep, (n - 1) as nat);
        assert(rest[n - 2] == parts[n - 1]);
        assert(joined_prefix(parts, sep, n) =~= parts[0] + sep + joined_prefix(
            rest,
            sep,
            (n - 1) as nat,
        ));
    }
}

/// Tidy lines joined by line feeds are read back as they were.
proof fn lemma_lines_of_joined(parts: Seq<Seq<char>>)
    requires
        are_tidy(parts),
        forall|i: int| 0 <= i < parts.len() ==> (#[trigger] parts[i]).len() > 0,
    ensures
        lines_of(joined(parts, "\n"@)) == parts,
    decreases parts.len(),
{
    reveal_strlit("\n");
    assert("\n"@ =~= seq!['\n']);
    let t = joined(parts, "\n"@);
    if parts.len() == 1 {
        lemma_no_line_feed(t);
        assert(lines_of(t) =~= parts);
    } else if parts.len() > 1 {
        let rest = parts.drop_first();
        let after = joined(rest, "\n"@);
        lemma_joined_first(parts, "\n"@, parts.len());
        lemma_first_line_feed(t, parts[0], after);
        lemma_lines_of_joined(rest);
        assert(lines_of(t) =~= parts);
    }
}

proof fn lemma_arg_value_is_one_line(args: Seq<Seq<char>>, prefix: Seq<char>)
    requires
        are_single_lines(args),
    ensures
        is_one_line(or_empty(arg_value_of(args, prefix))),
    decreases args.len(),
{
    if args.len() > 0 {
        if prefix.is_prefix_of(args[0]) {
            lemma_part_is_one_line(args[0], prefix.len() as int, args[0].len() as int);
        } else {
            lemma_arg_value_is_one_line(args.drop_first(), prefix);
        }
    }
}

proof fn lemma_filter_are_single_lines(
    lines: Seq<Seq<char>>,
    pred: spec_fn(Seq<char>) -> bool,
)
    requires
        are_single_lines(lines),
    ensures
        are_single_lines(lines.filter(pred)),
{
    assert forall|i: int| 0 <= i < lines.filter(pred).len() implies is_one_line(
        #[trigger] lines.filter(pred)[i],
    ) by {
        lines.lemma_filter_contains_rev(pred, lines.filter(pred)[i]);
    }
}

proof fn lemma_build_summary_is_one_line(args: Seq<Seq<char>>)
    requires
        are_single_lines(args),
    ensures
        is_one_line(build_summary(args)),
{
    reveal_strlit(" ");
    if args.len() > 0 {
        assert(are_single_lines(args.skip(1)));
        lemma_filter_are_single_lines(
            args.skip(1),
            |arg: Seq<char>| crate::args::is_target_word(arg),
        );
    }
    let words = at_most(target_words(args), 3);
    assert(are_single_lines(words));
    lemma_joined_is_one_line(words, " "@, words.len());
}

/// The project's name is a part of an argument.
proof fn lemma_project_is_one_line(args: Seq<Seq<char>>, project: Option<Seq<char>>)
    requires
        are_single_lines(args),
        is_project_name(args, project),
    ensures
        is_one_line(or_empty(project)),
{
    lemma_arg_value_is_one_line(args, "-project="@);
    lemma_arg_value_is_one_line(args, "-Project="@);
    if let Some(name) = project {
        let path = project_path(args)->0;
        let i = choose|i: int| occurs_at(path, name, i);
        lemma_part_is_one_line(path, i, i + name.len());
    }
}

proof fn lemma_uat_summary_is_one_line(args: Seq<Seq<char>>, project: Option<Seq<char>>)
    requires
        are_single_lines(args),
        is_project_name(args, project),
    ensures
        is_one_line(uat_summary(project, args)),
{
    reveal_strlit(" ");
    lemma_project_is_one_line(args, project);
    lemma_arg_value_is_one_line(args, "-targetplatform="@);
    lemma_arg_value_is_one_line(args, "-TargetPlatform="@);
    lemma_arg_value_is_one_line(args, "-clientconfig="@);
    lemma_arg_value_is_one_line(args, "-ClientConfig="@);
    lemma_arg_value_is_one_line(args, "-configuration="@);
    let parts = seq![
        or_empty(project),
        or_empty(target_platform(args)),
        or_empty(client_config(args)),
    ];
    let pred = |part: Seq<char>| part.len() > 0;
    lemma_filter_are_single_lines(parts, pred);
    lemma_joined_is_one_line(parts.filter(pred), " "@, parts.filter(pred).len());
}

/// What a report takes over from a log is tidy.
proof fn lemma_listed_is_tidy(log: Seq<char>, t: Seq<char>)
    requires
        ({
            let scan = scanned(classified_lines(log));
            ||| scan.diagnostics.distinct.contains(t)
            ||| scan.warnings.distinct.contains(t)
            ||| scan.summaries.distinct.contains(t)
            ||| meaningful(classified_lines(log)).contains(t)
        }),
    ensures
        is_tidy(t),
{
    law_noise_is_left_out(log, t);
    let i = choose|i: int|
        0 <= i < lines_of(log).len() && trim_end_of(#[trigger] lines_of(log)[i]) == t;
    law_lines_hold_no_line_feed(log, i);
    lemma_trim_end_is_tidy(lines_of(log)[i]);
}

/// What a progress message says of the packages stands on one line.
proof fn lemma_packages_are_one_line(lines: Seq<LineView>)
    requires
        forall|i: int| 0 <= i < lines.len() ==> is_one_line((#[trigger] lines[i]).text),
    ensures
        is_one_line(or_empty(scanned(lines).state.packages_seen)),
    decreases lines.len(),
{
    if lines.len() > 0 {
        lemma_packages_are_one_line(lines.drop_last());
        assert(lines.last() == lines[lines.len() - 1]);
        lemma_trim_is_tidy(lines.last().text);
    }
}

proof fn lemma_texts_are_single_lines(log: Seq<char>)
    ensures
        forall|i: int|
            0 <= i < classified_lines(log).len() ==> is_one_line(
                (#[trigger] classified_lines(log)[i]).text,
            ),
{
    assert forall|i: int| 0 <= i < classified_lines(log).len() implies is_one_line(
        (#[trigger] classified_lines(log)[i]).text,
    ) by {
        law_lines_hold_no_line_feed(log, i);
        lemma_trim_end_is_tidy(lines_of(log)[i]);
        assert(classified_lines(log)[i] == classified(lines_of(log)[i]));
    }
}

proof fn lemma_with_detail_is_tidy(prefix: Seq<char>, detail: Seq<char>)
    requires
        is_tidy(prefix),
        is_one_line(detail),
    ensures
        is_tidy(with_detail(prefix, detail)),
{
    reveal_strlit("  ");
    lemma_trim_is_tidy(detail);
    if trim_of(detail).len() > 0 {
        lemma_one_line_add(prefix, "  "@);
        lemma_tidy_add(prefix + "  "@, trim_of(detail));
    }
}

/// The line that tells how many tests completed is one of the lines.
proof fn lemma_tests_completed(lines: Seq<Seq<char>>)
    requires
        are_tidy(lines),
    ensures
        tests_completed(lines) matches Some(line) ==> is_tidy(line) && lines.contains(line),
    decreases lines.len(),
{
    if lines.len() > 0 {
        let rest = lines.drop_first();
        lemma_tests_completed(rest);
        if let Some(line) = tests_completed(rest) {
            let i = rest.index_of(line);
            assert(lines[i + 1] == line);
        }
    }
}

proof fn lemma_header_is_tidy(
    mode: UnrealMode,
    args: Seq<Seq<char>>,
    uat_detail: Seq<char>,
    log: Seq<char>,
)
    requires
        are_single_lines(args),
        is_one_line(uat_detail),
    ensures
        ({
            let scan = scanned(classified_lines(log));
            is_tidy(header(mode, args, uat_detail, scan.summaries, scan.state))
        }),
{
    let scan = scanned(classified_lines(log));
    reveal_strlit("  ");
    match mode {
        UnrealMode::Build => {
            reveal_strlit("unreal build: ok");
            lemma_build_summary_is_one_line(args);
            lemma_with_detail_is_tidy("unreal build: ok"@, build_summary(args));
        },
        UnrealMode::Cook => {
            reveal_strlit("unreal cook: ok");
            lemma_texts_are_single_lines(log);
            lemma_packages_are_one_line(classified_lines(log));
            lemma_with_detail_is_tidy("unreal cook: ok"@, uat_detail);
            if let Some(packages) = scan.state.packages_seen {
                lemma_one_line_add(uat_detail, "  "@);
                lemma_one_line_add(uat_detail + "  "@, packages);
                lemma_with_detail_is_tidy("unreal cook: ok"@, uat_detail + "  "@ + packages);
            }
        },
        UnrealMode::Package => {
            reveal_strlit("unreal package: ok");
            lemma_with_detail_is_tidy("unreal package: ok"@, uat_detail);
        },
        UnrealMode::Uat => {
            reveal_strlit("unreal uat: ok");
            lemma_with_detail_is_tidy("unreal uat: ok"@, uat_detail);
        },
        UnrealMode::Commandlet => {
            reveal_strlit("unreal commandlet: ok");
            reveal_strlit("commandlet");
            lemma_arg_value_is_one_line(args, "-run="@);
            let name = match arg_value_of(args, "-run="@) {
                Some(name) => name,
                None => "commandlet"@,
            };
            lemma_with_detail_is_tidy("unreal commandlet: ok"@, name);
        },
        UnrealMode::Automation => {
            reveal_strlit("unreal automation: ok  ");
            reveal_strlit("tests passed");
            lemma_shown_are_tidy(log);
            lemma_tests_completed(scan.summaries.shown());
            let line = match tests_completed(scan.summaries.shown()) {
                Some(line) => line,
                None => "tests passed"@,
            };
            lemma_tidy_add("unreal automation: ok  "@, line);
        },
    }
}

/// The lines that the three lists show are tidy, and none is empty.
proof fn lemma_shown_are_tidy(log: Seq<char>)
    ensures
        ({
            let scan = scanned(classified_lines(log));
            &&& are_tidy(scan.diagnostics.shown())
            &&& are_tidy(scan.warnings.shown())
            &&& are_tidy(scan.summaries.shown())
            &&& forall|i: int|
                0 <= i < scan.summaries.shown().len() ==> (#[trigger] scan.summaries.shown()[i]).len()
                    > 0
        }),
{
    let lines = classified_lines(log);
    let scan = scanned(lines);
    law_lists_are_distinct(lines);
    assert forall|i: int| 0 <= i < scan.diagnostics.shown().len() implies is_tidy(
        #[trigger] scan.diagnostics.shown()[i],
    ) by {
        assert(scan.diagnostics.shown()[i] == scan.diagnostics.distinct[i]);
        lemma_listed_is_tidy(log, scan.diagnostics.distinct[i]);
    }
    assert forall|i: int| 0 <= i < scan.warnings.shown().len() implies is_tidy(
        #[trigger] scan.warnings.shown()[i],
    ) by {
        assert(scan.warnings.shown()[i] == scan.warnings.distinct[i]);
        lemma_listed_is_tidy(log, scan.warnings.distinct[i]);
    }
    assert forall|i: int| 0 <= i < scan.summaries.shown().len() implies is_tidy(
        #[trigger] scan.summaries.shown()[i],
    ) && scan.summaries.shown()[i].len() > 0 by {
        assert(scan.summaries.shown()[i] == scan.summaries.distinct[i]);
        assert(scan.summaries.distinct.contains(scan.summaries.distinct[i]));
        lemma_listed_is_tidy(log, scan.summaries.distinct[i]);
    }
}

/// A list of tidy lines is tidy as it stands in a report.
proof fn lemma_rendered_are_tidy(list: CappedView)
    requires
        are_tidy(list.shown()),
        is_tidy(list.label),
        list.label.len() > 0,
    ensures
        are_tidy(list.rendered()),
{
    reveal_strlit("... +");
    reveal_strlit(" more ");
    let number = decimal(list.hidden());
    lemma_decimal_is_tidy(list.hidden());
    lemma_one_line_add("... +"@, number);
    lemma_one_line_add("... +"@ + number, " more "@);
    lemma_tidy_add("... +"@ + number + " more "@, list.label);
}

/// The notes that a report adds of its own are tidy.
proof fn lemma_notes_are_tidy(
    mode: UnrealMode,
    lines: Seq<LineView>,
    exit_code: int,
)
    ensures
        ({
            let state = scanned(lines).state.ended(exit_code);
            &&& are_tidy(exit_lines(state))
            &&& are_tidy(progress_lines(state))
            &&& is_tidy(failed_header(mode))
            &&& is_tidy(warning_count(scanned(lines).warnings))
        }),
{
    let state = scanned(lines).state.ended(exit_code);
    law_scan_sorts_lines_by_kind(lines);
    reveal_strlit("process exited with code ");
    reveal_strlit("-");
    if let Some(code) = state.process_exit_code {
        let size = if code < 0 {
            (-code) as nat
        } else {
            code as nat
        };
        lemma_decimal_is_tidy(size);
        if code < 0 {
            lemma_tidy_add("-"@, decimal(size));
        }
        lemma_tidy_add("process exited with code "@, signed_decimal(code));
        assert(exit_lines(state) =~= seq![exit_note(code)]);
    }
    reveal_strlit("... omitted ");
    reveal_strlit(" Unreal progress/noise lines");
    lemma_decimal_is_tidy(state.progress_total);
    lemma_one_line_add("... omitted "@, decimal(state.progress_total));
    lemma_tidy_add(
        "... omitted "@ + decimal(state.progress_total),
        " Unreal progress/noise lines"@,
    );
    reveal_strlit("unreal ");
    reveal_strlit(": failed");
    reveal_strlit("build");
    reveal_strlit("uat");
    reveal_strlit("cook");
    reveal_strlit("package");
    reveal_strlit("commandlet");
    reveal_strlit("automation");
    lemma_one_line_add("unreal "@, mode.label_text());
    lemma_tidy_add("unreal "@ + mode.label_text(), ": failed"@);
    reveal_strlit("warnings: ");
    reveal_strlit(" total (showing up to ");
    reveal_strlit(")");
    let warnings = scanned(lines).warnings;
    let total = "warnings: "@ + decimal(warnings.distinct.len());
    let upto = total + " total (showing up to "@;
    lemma_decimal_is_tidy(warnings.distinct.len());
    lemma_decimal_is_tidy(warnings.shown().len());
    lemma_one_line_add("warnings: "@, decimal(warnings.distinct.len()));
    lemma_one_line_add(total, " total (showing up to "@);
    lemma_one_line_add(upto, decimal(warnings.shown().len()));
    lemma_tidy_add(upto + decimal(warnings.shown().len()), ")"@);
}

proof fn lemma_unmentioned_are_tidy(out: Seq<Seq<char>>, lines: Seq<Seq<char>>)
    requires
        are_tidy(out),
        are_tidy(lines),
    ensures
        are_tidy(with_unmentioned(out, lines)),
    decreases lines.len(),
{
    if lines.len() > 0 {
        lemma_unmentioned_are_tidy(out, lines.drop_last());
    }
}

proof fn lemma_are_tidy_add(a: Seq<Seq<char>>, b: Seq<Seq<char>>)
    requires
        are_tidy(a),
        are_tidy(b),
    ensures
        are_tidy(a + b),
{
}

/// The three lists are tidy as they stand in a report.
proof fn lemma_lists_are_tidy(log: Seq<char>)
    ensures
        ({
            let scan = scanned(classified_lines(log));
            &&& are_tidy(scan.diagnostics.rendered())
            &&& are_tidy(scan.warnings.rendered())
            &&& are_tidy(scan.summaries.rendered())
        }),
{
    let scan = scanned(classified_lines(log));
    law_scan_sorts_lines_by_kind(classified_lines(log));
    lemma_shown_are_tidy(log);
    reveal_strlit("diagnostics");
    reveal_strlit("warnings");
    reveal_strlit("summary lines");
    lemma_rendered_are_tidy(scan.diagnostics);
    lemma_rendered_are_tidy(scan.warnings);
    lemma_rendered_are_tidy(scan.summaries);
}

/// Every line of the report on a failed run is tidy.
proof fn lemma_failure_is_tidy(log: Seq<char>, mode: UnrealMode, exit_code: int)
    ensures
        ({
            let lines = classified_lines(log);
            let scan = scanned(lines);
            are_tidy(
                failure_lines(
                    mode,
                    scan.diagnostics,
                    scan.warnings,
                    scan.summaries,
                    scan.state.ended(exit_code),
                    lines,
                ),
            )
        }),
{
    let lines = classified_lines(log);
    let scan = scanned(lines);
    let state = scan.state.ended(exit_code);
    lemma_notes_are_tidy(mode, lines, exit_code);
    lemma_lists_are_tidy(log);
    let exit = exit_lines(state);
    let warnings = scan.warnings.rendered();
    let summaries = scan.summaries.rendered();
    if scan.diagnostics.shown().len() == 0 {
        let tail = last_of(meaningful(lines), FALLBACK_LINES as nat);
        assert forall|i: int| 0 <= i < tail.len() implies is_tidy(#[trigger] tail[i]) by {
            assert(meaningful(lines).contains(tail[i]));
            lemma_listed_is_tidy(log, tail[i]);
        }
        let first = seq![failed_header(mode)];
        lemma_are_tidy_add(first, exit);
        lemma_are_tidy_add(first + exit, summaries);
        lemma_are_tidy_add(first + exit + summaries, tail);
        lemma_are_tidy_add(first + exit + summaries + tail, warnings);
        lemma_are_tidy_add(
            first + exit + summaries + tail + warnings,
            progress_lines(state),
        );
    } else {
        let first = scan.diagnostics.rendered();
        lemma_are_tidy_add(first, exit);
        lemma_are_tidy_add(first + exit, warnings);
        lemma_are_tidy_add(first + exit + warnings, summaries);
        lemma_are_tidy_add(first + exit + warnings + summaries, progress_lines(state));
    }
}

/// Every line of the report on a run that succeeded is tidy.
proof fn lemma_success_is_tidy(
    log: Seq<char>,
    mode: UnrealMode,
    args: Seq<Seq<char>>,
    uat_detail: Seq<char>,
)
    requires
        are_single_lines(args),
        is_one_line(uat_detail),
    ensures
        ({
            let scan = scanned(classified_lines(log));
            are_tidy(
                success_lines(mode, args, uat_detail, scan.warnings, scan.summaries, scan.state),
            )
        }),
{
    let lines = classified_lines(log);
    let scan = scanned(lines);
    lemma_notes_are_tidy(mode, lines, 0);
    lemma_lists_are_tidy(log);
    lemma_shown_are_tidy(log);
    lemma_header_is_tidy(mode, args, uat_detail, log);
    let first = seq![header(mode, args, uat_detail, scan.summaries, scan.state)];
    let head = first + warning_lines(scan.warnings);
    lemma_are_tidy_add(seq![warning_count(scan.warnings)], scan.warnings.rendered());
    lemma_are_tidy_add(first, warning_lines(scan.warnings));
    lemma_unmentioned_are_tidy(head, scan.summaries.shown());
    lemma_are_tidy_add(head, progress_lines(scan.state));
    lemma_are_tidy_add(
        with_unmentioned(head, scan.summaries.shown()),
        progress_lines(scan.state),
    );
}

/// Where no argument holds a line feed, the lines of a report are the lines that were written: none
/// falls apart, none runs into the next, and none ends in white space.
pub proof fn law_report_is_read_back_line_by_line(
    log: Seq<char>,
    mode: UnrealMode,
    args: Seq<Seq<char>>,
    project: Option<Seq<char>>,
    exit_code: int,
)
    requires
        are_single_lines(args),
        is_project_name(args, project),
    ensures
        ({
            let all = report_lines(
                classified_lines(log),
                mode,
                args,
                uat_summary(project, args),
                exit_code,
            );
            &&& lines_of(report_text(all)) == compacted(all)
            &&& forall|i: int|
                0 <= i < compacted(all).len() ==> trim_end_of(#[trigger] compacted(all)[i])
                    == compacted(all)[i] && is_one_line(compacted(all)[i])
        }),
{
    let all = report_lines(
        classified_lines(log),
        mode,
        args,
        uat_summary(project, args),
        exit_code,
    );
    let kept = compacted(all);
    lemma_uat_summary_is_one_line(args, project);
    lemma_failure_is_tidy(log, mode, exit_code);
    lemma_success_is_tidy(log, mode, args, uat_summary(project, args));
    assert(are_tidy(all));
    law_compaction_keeps_each_line_once(all);
    assert forall|i: int| 0 <= i < kept.len() implies is_tidy(#[trigger] kept[i]) && kept[i].len()
        > 0 by {
        assert(kept.contains(kept[i]));
        let k = all.index_of(kept[i]);
        assert(is_tidy(all[k]));
    }
    lemma_lines_of_joined(kept);
}

/// The lines of a report, read off its text: no line is blank or ends in white space, no line comes
/// twice, there are not many, and one tells the exit code where the process failed.
pub proof fn law_lines_of_a_report(
    raw: Seq<char>,
    mode: UnrealMode,
    args: Seq<Seq<char>>,
    exit_code: int,
    report: Seq<char>,
)
    requires
        are_single_lines(args),
        is_report(raw, mode, args, exit_code, report),
    ensures
        lines_of(report).no_duplicates(),
        lines_of(report).len() <= CAP_ERRORS + CAP_WARNINGS + CAP_LIST + 5,
        forall|i: int|
            0 <= i < lines_of(report).len() ==> {
                let line = #[trigger] lines_of(report)[i];
                trim_end_of(line) == line && trim_of(line).len() > 0
            },
        exit_code != 0 ==> lines_of(report).contains(exit_note(exit_code)),
{
    let log = without_ansi(raw);
    let lines = classified_lines(log);
    let project = choose|project: Option<Seq<char>>| #[trigger]
        is_project_name(args, project) && report == report_on(raw, mode, args, project, exit_code);
    let detail = uat_summary(project, args);
    let all = report_lines(lines, mode, args, detail, exit_code);
    law_report_is_read_back_line_by_line(log, mode, args, project, exit_code);
    law_compaction_keeps_each_line_once(all);
    law_report_is_bounded(lines, mode, args, detail, exit_code);
    if exit_code != 0 {
        law_nonzero_exit_is_reported(lines, mode, args, detail, exit_code);
    }
    assert forall|i: int| 0 <= i < compacted(all).len() implies trim_of(
        #[trigger] compacted(all)[i],
    ).len() > 0 by {
        assert(compacted(all).contains(compacted(all)[i]));
    }
}

} // verus!
