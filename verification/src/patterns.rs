//! The regular expressions that tell the kinds of log lines apart.

use crate::text::{contains, contains_text, starts_with, trim_start, trim_start_of};
use regex::Regex;
use vstd::prelude::*;

verus! {

/// A compiled regular expression, opaque to the verifier.
#[verifier::external_type_specification]
#[verifier::external_body]
pub struct ExRegex(regex::Regex);

/// Why a regular expression was refused, opaque to the verifier.
#[verifier::external_type_specification]
#[verifier::external_body]
pub struct ExRegexError(regex::Error);

/// What [`regex::Regex::new`] compiles `pattern` to; `None` where it refuses the pattern.
pub uninterp spec fn regex_new(pattern: Seq<char>) -> Option<Regex>;

/// What [`regex::Regex::is_match`] answers for `text`, asked of the compiled `pattern`.
pub uninterp spec fn regex_is_match(pattern: Seq<char>, text: Seq<char>) -> bool;

/// What [`regex::Regex::replace_all`] makes of `text` with the replacement string `with`, asked of
/// the compiled `pattern`.
pub uninterp spec fn regex_replace_all(
    pattern: Seq<char>,
    text: Seq<char>,
    with: Seq<char>,
) -> Seq<char>;

/// [`regex::Regex::new`] compiles a pattern. Claimed: whether it succeeds, and the regular
/// expression that comes out, are determined by the pattern.
pub assume_specification[ regex::Regex::new ](re: &str) -> (r: Result<regex::Regex, regex::Error>)
    ensures
        match r {
            Ok(compiled) => regex_new(re@) == Some(compiled),
            Err(_) => regex_new(re@) is None,
        },
;

/// [`regex::Regex::is_match`] searches a text. Claimed: the answer is determined by the pattern
/// that [`regex::Regex::new`] compiled the regular expression from, and the text. Which texts a
/// pattern matches is left to the syntax of the `regex` crate.
pub assume_specification[ regex::Regex::is_match ](re: &regex::Regex, haystack: &str) -> (r: bool)
    ensures
        forall|pattern: Seq<char>| #[trigger]
            regex_new(pattern) == Some(*re) ==> r == regex_is_match(pattern, haystack@),
;

/// Calls [`regex::Regex::replace_all`] with a string as the replacement. Claimed: the result is
/// determined by the pattern that [`regex::Regex::new`] compiled the regular expression from, the
/// text and the replacement; and a text without a match comes back unchanged.
#[verifier::external_body]
fn replace_all(re: &Regex, text: &str, with: &str) -> (r: String)
    ensures
        forall|pattern: Seq<char>| #[trigger]
            regex_new(pattern) == Some(*re) ==> {
                &&& r@ == regex_replace_all(pattern, text@, with@)
                &&& !regex_is_match(pattern, text@) ==> r@ == text@
            },
{
    re.replace_all(text, with).into_owned()
}

/// Colour and cursor escape sequences of a terminal.
pub const ANSI: &'static str = r"\x1b\[[0-9;]*[a-zA-Z]";

/// Diagnostics as GCC and Clang write them: `file:line:column: error: ...`.
pub const GCC_CLANG_DIAG: &'static str =
    r"^[^:\s].*:\d+:\d+:\s+(?:error|warning|note|fatal error):";

/// Diagnostics as MSVC writes them: `file(line): error C2065: ...`.
pub const MSVC_DIAG: &'static str =
    r"^.+\(\d+\):\s+(?:error|warning|fatal error)\s+[A-Z]+\d+:";

/// Errors of the Unreal tools and of linkers.
pub const UNREAL_ERROR: &'static str =
    r"(?i)(\berror:|fatal error|assertion failed|ensure condition failed|automation test failed|packagingresults:\s*error|automationtool:\s*error|runuat error|unrealbuildtool failed|build failed|result=\{fail\}|unknown cook failure|undefined reference|linker command failed|lnk\d+)";

/// Warnings of compilers and of the Unreal tools.
pub const UNREAL_WARNING: &'static str =
    r"(?i)(\bwarning:|packagingresults:\s*warning|log\w+:\s*warning:)";

/// Closing lines that sum up a run.
pub const SUMMARY: &'static str =
    r"(?i)(^result:\s|^total execution time:|^total time in|automationtool exiting|build successful|build failed|\*{5,} .+ command (completed|failed) \*{5,}|tests? completed|execution of commandlet took|exiting staticshutdownaftererror)";

/// Progress messages and other noise.
pub const PROGRESS: &'static str =
    r"(?i)(^\[\d+/\d+\]\s+(compile|link|write|copy)|^creating makefile|^parsing headers|^reflection code generated|^determining max actions|^executing up to|cooked packages \d+ packages remain|finished savepackage|resaving package|worker \d+: \d+ shaders|asset registry cache written|^initializing script modules|^using bundled dotnet|^running automationtool|^automationtool executed|^parsing command line:|^loginit:\s*display:|^logassetregistry:\s*display:|^logsourcecontrol:\s*display:|^logstreaming:\s*display:|^logautomationcontroller:\s*display:\s*running test|result=\{success\})";

/// Paths of Unreal assets.
pub const ASSET_PATH: &'static str =
    r"(/Game/[A-Za-z0-9_./-]+|/[A-Za-z0-9_./-]+\.uasset|/[A-Za-z0-9_./-]+\.umap)";

/// Lines that may explain the line before them.
pub const SOURCE_CONTEXT: &'static str =
    r"^\s*(\d+\s*\||\||\^|~|\w|UnrealEditor-|Module\.|/|\[File:)";

/// Lines of a call stack.
pub const STACK: &'static str =
    r"(?i)^(stack:|\s+unrealeditor-|.+\.so!|.+\.dll!)";

/// All patterns, in the order in which they are compiled.
pub open spec fn line_patterns() -> Seq<Seq<char>> {
    seq![
        ANSI@,
        GCC_CLANG_DIAG@,
        MSVC_DIAG@,
        UNREAL_ERROR@,
        UNREAL_WARNING@,
        SUMMARY@,
        PROGRESS@,
        ASSET_PATH@,
        SOURCE_CONTEXT@,
        STACK@,
    ]
}

/// A pattern that the regular-expression compiler refused.
#[derive(Debug, Clone, Copy, PartialEq, Eq)]
pub struct PatternError {
    pub pattern: &'static str,
}

/// Compiles one pattern.
fn compile(pattern: &'static str) -> (r: Result<Regex, PatternError>)
    ensures
        match r {
            Ok(re) => regex_new(pattern@) == Some(re),
            Err(e) => regex_new(pattern@) is None && e.pattern == pattern,
        },
{
    match Regex::new(pattern) {
        Ok(re) => Ok(re),
        Err(_) => Err(PatternError { pattern }),
    }
}

/// The compiled patterns. One value serves any number of logs.
pub struct LinePatterns {
    ansi: Regex,
    gcc_clang_diag: Regex,
    msvc_diag: Regex,
    unreal_error: Regex,
    unreal_warning: Regex,
    summary: Regex,
    progress: Regex,
    asset_path: Regex,
    source_context: Regex,
    stack: Regex,
}

impl LinePatterns {
    /// Each field is compiled from its own pattern.
    #[verifier::type_invariant]
    spec fn compiled(self) -> bool {
        &&& regex_new(ANSI@) == Some(self.ansi)
        &&& regex_new(GCC_CLANG_DIAG@) == Some(self.gcc_clang_diag)
        &&& regex_new(MSVC_DIAG@) == Some(self.msvc_diag)
        &&& regex_new(UNREAL_ERROR@) == Some(self.unreal_error)
        &&& regex_new(UNREAL_WARNING@) == Some(self.unreal_warning)
        &&& regex_new(SUMMARY@) == Some(self.summary)
        &&& regex_new(PROGRESS@) == Some(self.progress)
        &&& regex_new(ASSET_PATH@) == Some(self.asset_path)
        &&& regex_new(SOURCE_CONTEXT@) == Some(self.source_context)
        &&& regex_new(STACK@) == Some(self.stack)
    }

    /// Compiles all patterns. Fails with the first one that is refused.
    pub fn new() -> (r: Result<LinePatterns, PatternError>)
        ensures
            match r {
                Ok(_) => forall|i: int|
                    0 <= i < line_patterns().len() ==> regex_new(#[trigger] line_patterns()[i]) is Some,
                Err(e) => exists|i: int|
                    0 <= i < line_patterns().len() && e.pattern@ == #[trigger] line_patterns()[i]
                        && regex_new(line_patterns()[i]) is None && (forall|j: int|
                        0 <= j < i ==> regex_new(#[trigger] line_patterns()[j]) is Some),
            },
    {
        let ghost all = line_patterns();

        assert(all[0] == ANSI@);
        let ansi = compile(ANSI)?;

        assert(all[1] == GCC_CLANG_DIAG@);
        let gcc_clang_diag = compile(GCC_CLANG_DIAG)?;

        assert(all[2] == MSVC_DIAG@);
        let msvc_diag = compile(MSVC_DIAG)?;

        assert(all[3] == UNREAL_ERROR@);
        let unreal_error = compile(UNREAL_ERROR)?;

        assert(all[4] == UNREAL_WARNING@);
        let unreal_warning = compile(UNREAL_WARNING)?;

        assert(all[5] == SUMMARY@);
        let summary = compile(SUMMARY)?;

        assert(all[6] == PROGRESS@);
        let progress = compile(PROGRESS)?;

        assert(all[7] == ASSET_PATH@);
        let asset_path = compile(ASSET_PATH)?;

        assert(all[8] == SOURCE_CONTEXT@);
        let source_context = compile(SOURCE_CONTEXT)?;

        assert(all[9] == STACK@);
        let stack = compile(STACK)?;

        Ok(LinePatterns {
            ansi,
            gcc_clang_diag,
            msvc_diag,
            unreal_error,
            unreal_warning,
            summary,
            progress,
            asset_path,
            source_context,
            stack,
        })
    }

    /// `raw` without terminal escape sequences.
    pub fn strip_ansi(&self, raw: &str) -> (r: String)
        ensures
            r@ == without_ansi(raw@),
            !regex_is_match(ANSI@, raw@) ==> r@ == raw@,
    {
        proof {
            use_type_invariant(self);
        }
        replace_all(&self.ansi, raw, "")
    }
}

/// `raw` with each terminal escape sequence replaced by nothing.
pub open spec fn without_ansi(raw: Seq<char>) -> Seq<char> {
    regex_replace_all(ANSI@, raw, ""@)
}

/// A compiler diagnostic or an error of the Unreal tools.
pub open spec fn error_line(line: Seq<char>) -> bool {
    regex_is_match(GCC_CLANG_DIAG@, line) || regex_is_match(MSVC_DIAG@, line) || regex_is_match(
        UNREAL_ERROR@,
        line,
    )
}

/// A warning.
pub open spec fn warning_line(line: Seq<char>) -> bool {
    regex_is_match(UNREAL_WARNING@, line)
}

/// A line that sums up a run.
pub open spec fn summary_line(line: Seq<char>) -> bool {
    regex_is_match(SUMMARY@, line)
}

/// A progress message or other noise.
pub open spec fn progress_noise(line: Seq<char>) -> bool {
    regex_is_match(PROGRESS@, line)
}

/// A line that a compiler driver, a linker or a build module begins with its name.
pub open spec fn tool_prefixed(line: Seq<char>) -> bool {
    let t = trim_start_of(line);
    "clang++:"@.is_prefix_of(t) || "ld:"@.is_prefix_of(t) || "Module."@.is_prefix_of(t)
}

/// A line that may explain the error or warning it stands next to.
pub open spec fn context_line(line: Seq<char>) -> bool {
    regex_is_match(SOURCE_CONTEXT@, line) || regex_is_match(STACK@, trim_start_of(line))
        || regex_is_match(ASSET_PATH@, line) || tool_prefixed(line)
}

/// A line that names a source file or an asset file by its extension.
pub open spec fn names_file(line: Seq<char>) -> bool {
    contains_text(line, ".cpp"@) || contains_text(line, ".h"@) || contains_text(line, ".cs"@)
        || contains_text(line, ".uasset"@) || contains_text(line, ".umap"@)
}

/// A line that names a source file or an asset.
pub open spec fn asset_or_source_context(line: Seq<char>) -> bool {
    regex_is_match(ASSET_PATH@, line) || names_file(line)
}

/// Whether `line` is a compiler diagnostic or an error of the Unreal tools.
pub fn is_error_line(patterns: &LinePatterns, line: &str) -> (r: bool)
    ensures
        r == error_line(line@),
{
    proof {
        use_type_invariant(patterns);
    }
    patterns.gcc_clang_diag.is_match(line) || patterns.msvc_diag.is_match(line)
        || patterns.unreal_error.is_match(line)
}

/// Whether `line` is a warning.
pub fn is_warning_line(patterns: &LinePatterns, line: &str) -> (r: bool)
    ensures
        r == warning_line(line@),
{
    proof {
        use_type_invariant(patterns);
    }
    patterns.unreal_warning.is_match(line)
}

/// Whether `line` sums up a run.
pub fn is_summary_line(patterns: &LinePatterns, line: &str) -> (r: bool)
    ensures
        r == summary_line(line@),
{
    proof {
        use_type_invariant(patterns);
    }
    patterns.summary.is_match(line)
}

/// Whether `line` is a progress message or other noise.
pub fn is_progress_noise(patterns: &LinePatterns, line: &str) -> (r: bool)
    ensures
        r == progress_noise(line@),
{
    proof {
        use_type_invariant(patterns);
    }
    patterns.progress.is_match(line)
}

/// Whether `line` begins with the name of a compiler driver, a linker or a build module.
pub fn is_tool_prefixed(line: &str) -> (r: bool)
    ensures
        r == tool_prefixed(line@),
{
    let trimmed = trim_start(line);
    starts_with(trimmed, "clang++:") || starts_with(trimmed, "ld:") || starts_with(
        trimmed,
        "Module.",
    )
}

/// Whether `line` may explain the error or warning it stands next to.
pub fn is_context_line(patterns: &LinePatterns, line: &str) -> (r: bool)
    ensures
        r == context_line(line@),
{
    proof {
        use_type_invariant(patterns);
    }
    patterns.source_context.is_match(line) || patterns.stack.is_match(trim_start(line))
        || patterns.asset_path.is_match(line) || is_tool_prefixed(line)
}

/// Whether `line` names a source file or an asset file by its extension.
pub fn does_name_file(line: &str) -> (r: bool)
    ensures
        r == names_file(line@),
{
    contains(line, ".cpp") || contains(line, ".h") || contains(line, ".cs") || contains(
        line,
        ".uasset",
    ) || contains(line, ".umap")
}

/// Whether `line` names a source file or an asset.
pub fn is_asset_or_source_context(patterns: &LinePatterns, line: &str) -> (r: bool)
    ensures
        r == asset_or_source_context(line@),
{
    proof {
        use_type_invariant(patterns);
    }
    patterns.asset_path.is_match(line) || does_name_file(line)
}

} // verus!
