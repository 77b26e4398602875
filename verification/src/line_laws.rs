//! Which kind each line of a log is, in terms of what the patterns match.

use crate::patterns::{
    asset_or_source_context, context_line, error_line, progress_noise, regex_is_match,
    regex_replace_all, summary_line, warning_line, without_ansi, ANSI, ASSET_PATH, GCC_CLANG_DIAG,
    MSVC_DIAG, PROGRESS, SOURCE_CONTEXT, STACK, SUMMARY, UNREAL_ERROR, UNREAL_WARNING,
};
use crate::scan::{classified, classified_lines};
use crate::text::{is_white_space, trim_start_of};
use crate::text_laws::{
    is_blank, is_core, law_blank_text_trims_to_nothing, law_contained_text_is_a_part,
    law_line_feeds_end_lines, law_trimming_takes_white_space_away, lemma_core,
    lemma_trim_start,
};
use vstd::prelude::*;

verus! {

/// The patterns, spelled out.
pub proof fn law_patterns_spelled_out()
    ensures
        ANSI@ == r"\x1b\[[0-9;]*[a-zA-Z]"@,
        GCC_CLANG_DIAG@ == r"^[^:\s].*:\d+:\d+:\s+(?:error|warning|note|fatal error):"@,
        MSVC_DIAG@ == r"^.+\(\d+\):\s+(?:error|warning|fatal error)\s+[A-Z]+\d+:"@,
        UNREAL_ERROR@ == r"(?i)(\berror:|fatal error|assertion failed|ensure condition failed|automation test failed|packagingresults:\s*error|automationtool:\s*error|runuat error|unrealbuildtool failed|build failed|result=\{fail\}|unknown cook failure|undefined reference|linker command failed|lnk\d+)"@,
        UNREAL_WARNING@ == r"(?i)(\bwarning:|packagingresults:\s*warning|log\w+:\s*warning:)"@,
        SUMMARY@ == r"(?i)(^result:\s|^total execution time:|^total time in|automationtool exiting|build successful|build failed|\*{5,} .+ command (completed|failed) \*{5,}|tests? completed|execution of commandlet took|exiting staticshutdownaftererror)"@,
        PROGRESS@ == r"(?i)(^\[\d+/\d+\]\s+(compile|link|write|copy)|^creating makefile|^parsing headers|^reflection code generated|^determining max actions|^executing up to|cooked packages \d+ packages remain|finished savepackage|resaving package|worker \d+: \d+ shaders|asset registry cache written|^initializing script modules|^using bundled dotnet|^running automationtool|^automationtool executed|^parsing command line:|^loginit:\s*display:|^logassetregistry:\s*display:|^logsourcecontrol:\s*display:|^logstreaming:\s*display:|^logautomationcontroller:\s*display:\s*running test|result=\{success\})"@,
        ASSET_PATH@ == r"(/Game/[A-Za-z0-9_./-]+|/[A-Za-z0-9_./-]+\.uasset|/[A-Za-z0-9_./-]+\.umap)"@,
        SOURCE_CONTEXT@ == r"^\s*(\d+\s*\||\||\^|~|\w|UnrealEditor-|Module\.|/|\[File:)"@,
        STACK@ == r"(?i)^(stack:|\s+unrealeditor-|.+\.so!|.+\.dll!)"@,
{
}

/// Each of the three diagnostic patterns makes a line an error by itself, and nothing else does.
pub proof fn law_each_diagnostic_pattern_makes_an_error(line: Seq<char>)
    ensures
        regex_is_match(GCC_CLANG_DIAG@, line) ==> error_line(line),
        regex_is_match(MSVC_DIAG@, line) ==> error_line(line),
        regex_is_match(UNREAL_ERROR@, line) ==> error_line(line),
        error_line(line) ==> regex_is_match(GCC_CLANG_DIAG@, line) || regex_is_match(
            MSVC_DIAG@,
            line,
        ) || regex_is_match(UNREAL_ERROR@, line),
{
}

/// A line is a warning, a summary line or a progress message exactly where the pattern for it
/// matches, whatever else stands in the line.
pub proof fn law_one_pattern_decides(line: Seq<char>)
    ensures
        warning_line(line) <==> regex_is_match(UNREAL_WARNING@, line),
        summary_line(line) <==> regex_is_match(SUMMARY@, line),
        progress_noise(line) <==> regex_is_match(PROGRESS@, line),
{
}

/// None of the three diagnostic patterns matches.
pub open spec fn matches_no_diagnostic(line: Seq<char>) -> bool {
    &&& !regex_is_match(GCC_CLANG_DIAG@, line)
    &&& !regex_is_match(MSVC_DIAG@, line)
    &&& !regex_is_match(UNREAL_ERROR@, line)
}

/// The kind of a line that reads `m`, with white space around it: a progress message before all
/// else, then an error by any of the three diagnostic patterns, a warning, a summary line. The line
/// is kept without the white space behind it.
pub proof fn law_kind_of_a_line(a: Seq<char>, m: Seq<char>, b: Seq<char>)
    requires
        is_blank(a),
        is_core(m),
        is_blank(b),
    ensures
        classified(a + m + b).text == a + m,
        regex_is_match(PROGRESS@, m) ==> classified(a + m + b).kind is Progress,
        !regex_is_match(PROGRESS@, m) ==> {
            let kind = classified(a + m + b).kind;
            &&& regex_is_match(GCC_CLANG_DIAG@, m) ==> kind is Error
            &&& regex_is_match(MSVC_DIAG@, m) ==> kind is Error
            &&& regex_is_match(UNREAL_ERROR@, m) ==> kind is Error
            &&& matches_no_diagnostic(m) ==> {
                &&& regex_is_match(UNREAL_WARNING@, m) ==> kind is Warning
                &&& !regex_is_match(UNREAL_WARNING@, m) ==> {
                    &&& regex_is_match(SUMMARY@, m) ==> kind is Summary
                    &&& !regex_is_match(SUMMARY@, m) ==> kind is Other
                }
            }
        },
{
    law_trimming_takes_white_space_away(a, m, b);
    law_trimming_takes_white_space_away(a, m, Seq::empty());
    assert(a + m + Seq::<char>::empty() =~= a + m);
}

/// A line of white space is blank, and no other line is.
pub proof fn law_blank_lines(line: Seq<char>)
    ensures
        classified(line).kind is Blank <==> is_blank(line),
        is_blank(line) ==> classified(line).text.len() == 0,
{
    if is_blank(line) {
        law_blank_text_trims_to_nothing(line);
        law_blank_text_trims_to_nothing(Seq::<char>::empty());
        assert(classified(line).text =~= Seq::<char>::empty());
    } else {
        let r = lemma_core(line);
        law_kind_of_a_line(r.0, r.1, r.2);
    }
}

/// A line that reads `m` behind the white space `a` looks like context by any one of these: source
/// text, a call stack, the path of an asset, the name of a compiler driver, a linker or a build
/// module in front.
pub proof fn law_each_sign_makes_a_context_line(a: Seq<char>, m: Seq<char>)
    requires
        is_blank(a),
        m.len() == 0 || !is_white_space(m[0]),
    ensures
        regex_is_match(SOURCE_CONTEXT@, a + m) ==> context_line(a + m),
        regex_is_match(STACK@, m) ==> context_line(a + m),
        regex_is_match(ASSET_PATH@, a + m) ==> context_line(a + m),
        forall|rest: Seq<char>| m == #[trigger] ("clang++:"@ + rest) ==> context_line(a + m),
        forall|rest: Seq<char>| m == #[trigger] ("ld:"@ + rest) ==> context_line(a + m),
        forall|rest: Seq<char>| m == #[trigger] ("Module."@ + rest) ==> context_line(a + m),
        context_line(a + m) ==> {
            ||| regex_is_match(SOURCE_CONTEXT@, a + m)
            ||| regex_is_match(STACK@, m)
            ||| regex_is_match(ASSET_PATH@, a + m)
            ||| exists|rest: Seq<char>| m == #[trigger] ("clang++:"@ + rest)
            ||| exists|rest: Seq<char>| m == #[trigger] ("ld:"@ + rest)
            ||| exists|rest: Seq<char>| m == #[trigger] ("Module."@ + rest)
        },
{
    if m.len() == 0 {
        assert(a + m =~= a);
        law_blank_text_trims_to_nothing(a);
        assert(trim_start_of(a + m) =~= m);
    } else {
        lemma_trim_start(a, m);
    }
    lemma_prefix(m, "clang++:"@);
    lemma_prefix(m, "ld:"@);
    lemma_prefix(m, "Module."@);
}

/// A line names a place by any one of these: the path of an asset, or the extension of a source
/// file, a header, a build script, an asset or a map.
pub proof fn law_each_name_makes_a_location(line: Seq<char>)
    ensures
        regex_is_match(ASSET_PATH@, line) ==> asset_or_source_context(line),
        has_part(line, ".cpp"@) ==> asset_or_source_context(line),
        has_part(line, ".h"@) ==> asset_or_source_context(line),
        has_part(line, ".cs"@) ==> asset_or_source_context(line),
        has_part(line, ".uasset"@) ==> asset_or_source_context(line),
        has_part(line, ".umap"@) ==> asset_or_source_context(line),
        asset_or_source_context(line) ==> {
            ||| regex_is_match(ASSET_PATH@, line)
            ||| has_part(line, ".cpp"@)
            ||| has_part(line, ".h"@)
            ||| has_part(line, ".cs"@)
            ||| has_part(line, ".uasset"@)
            ||| has_part(line, ".umap"@)
        },
{
    law_contained_text_is_a_part(line, ".cpp"@);
    law_contained_text_is_a_part(line, ".h"@);
    law_contained_text_is_a_part(line, ".cs"@);
    law_contained_text_is_a_part(line, ".uasset"@);
    law_contained_text_is_a_part(line, ".umap"@);
}

/// A line that reads `m` behind the white space `a` may explain an error or a warning next to it
/// exactly where it looks like source text, like a call stack or names an asset, or where `m`
/// begins with the name of a compiler driver, a linker or a build module.
pub proof fn law_context_of_a_line(a: Seq<char>, m: Seq<char>, b: Seq<char>)
    requires
        is_blank(a),
        is_core(m),
        is_blank(b),
    ensures
        ({
            let line = classified(a + m + b);
            let explains = {
                ||| regex_is_match(SOURCE_CONTEXT@, a + m)
                ||| regex_is_match(STACK@, m)
                ||| regex_is_match(ASSET_PATH@, a + m)
                ||| exists|rest: Seq<char>| m == #[trigger] ("clang++:"@ + rest)
                ||| exists|rest: Seq<char>| m == #[trigger] ("ld:"@ + rest)
                ||| exists|rest: Seq<char>| m == #[trigger] ("Module."@ + rest)
            };
            &&& line.kind is Warning || line.kind is Other ==> line.context == explains
            &&& !(line.kind is Warning || line.kind is Other) ==> !line.context
        }),
{
    law_trimming_takes_white_space_away(a, m, b);
    law_trimming_takes_white_space_away(a, m, Seq::empty());
    assert(a + m + Seq::<char>::empty() =~= a + m);
    assert(m + Seq::<char>::empty() =~= m);
    lemma_prefix(m, "clang++:"@);
    lemma_prefix(m, "ld:"@);
    lemma_prefix(m, "Module."@);
}

proof fn lemma_prefix(t: Seq<char>, prefix: Seq<char>)
    ensures
        prefix.is_prefix_of(t) <==> exists|rest: Seq<char>| t == #[trigger] (prefix + rest),
{
    if prefix.is_prefix_of(t) {
        assert(t =~= prefix + t.skip(prefix.len() as int));
    }
    if exists|rest: Seq<char>| t == #[trigger] (prefix + rest) {
        let rest = choose|rest: Seq<char>| t == #[trigger] (prefix + rest);
        assert(t.take(prefix.len() as int) =~= prefix);
        assert(prefix =~= t.subrange(0, prefix.len() as int));
    }
}

/// `part` stands somewhere in `t`.
pub open spec fn has_part(t: Seq<char>, part: Seq<char>) -> bool {
    exists|before: Seq<char>, after: Seq<char>| t == #[trigger] (before + part + after)
}

/// A line that is nothing more than text may lead up to an error exactly where it names an asset
/// by its path, or a source file, header, build script, asset or map by its extension.
pub proof fn law_location_of_a_line(a: Seq<char>, m: Seq<char>, b: Seq<char>)
    requires
        is_blank(a),
        is_core(m),
        is_blank(b),
    ensures
        ({
            let line = classified(a + m + b);
            let names = {
                ||| regex_is_match(ASSET_PATH@, a + m)
                ||| has_part(a + m, ".cpp"@)
                ||| has_part(a + m, ".h"@)
                ||| has_part(a + m, ".cs"@)
                ||| has_part(a + m, ".uasset"@)
                ||| has_part(a + m, ".umap"@)
            };
            &&& line.kind is Other ==> line.location == names
            &&& !(line.kind is Other) ==> !line.location
        }),
{
    law_trimming_takes_white_space_away(a, m, b);
    law_contained_text_is_a_part(a + m, ".cpp"@);
    law_contained_text_is_a_part(a + m, ".h"@);
    law_contained_text_is_a_part(a + m, ".cs"@);
    law_contained_text_is_a_part(a + m, ".uasset"@);
    law_contained_text_is_a_part(a + m, ".umap"@);
}

/// The lines of a log are those of its text, each classified by itself, whatever stands around it.
pub proof fn law_lines_are_classified_one_by_one(a: Seq<char>, log: Seq<char>)
    requires
        !a.contains('\n'),
        a.len() == 0 || a.last() != '\r',
    ensures
        classified_lines(a + seq!['\n'] + log) == seq![classified(a)] + classified_lines(log),
        classified_lines(a + seq!['\r', '\n'] + log) == seq![classified(a)] + classified_lines(log),
        a.len() > 0 ==> classified_lines(a) == seq![classified(a)],
        classified_lines(Seq::empty()).len() == 0,
{
    law_line_feeds_end_lines(a, log);
    assert(classified_lines(a + seq!['\n'] + log) =~= seq![classified(a)] + classified_lines(log));
    assert(classified_lines(a + seq!['\r', '\n'] + log) =~= seq![classified(a)]
        + classified_lines(log));
    if a.len() > 0 {
        assert(classified_lines(a) =~= seq![classified(a)]);
    }
}

/// Terminal escape sequences are what the pattern for them matches, and nothing takes their place.
pub proof fn law_escape_sequences_are_replaced_by_nothing(raw: Seq<char>)
    ensures
        without_ansi(raw) == regex_replace_all(ANSI@, raw, Seq::empty()),
{
    reveal_strlit("");
    assert(""@ =~= Seq::<char>::empty());
}

} // verus!
