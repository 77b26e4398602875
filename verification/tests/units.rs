//! The parts of the filter, one by one.

use rtk_unreal::args::{
    arg_value, build_arg_summary, project_name, uat_arg_summary, uat_summary_with,
};
use rtk_unreal::capped::CappedLines;
use rtk_unreal::command::{is_explicit_path, plan_run};
use rtk_unreal::filter::{filter_lines, filter_output, filter_output_with_exit_code};
use rtk_unreal::mode::UnrealMode;
use rtk_unreal::patterns::{
    does_name_file, is_asset_or_source_context, is_context_line, is_error_line, is_progress_noise,
    is_summary_line, is_tool_prefixed, is_warning_line, LinePatterns, PatternError,
};
use rtk_unreal::report::{
    append_process_exit, compact_lines, fallback_tail, format_failure_output, format_success_output,
    format_with_detail, success_header,
};
use rtk_unreal::scan::{
    classify_line, classify_log, scan_lines, FilterState, LineKind, LogLine, Scan, CAP_ERRORS,
    CAP_LIST, CAP_WARNINGS,
};
use rtk_unreal::text::{
    contains, contains_char, ends_with, eq_ignore_ascii_case, join, lines, lower_contains,
    push_decimal, push_signed_decimal, starts_with, strip_prefix, trim, trim_end, trim_start,
    white_space,
};

fn patterns() -> LinePatterns {
    match LinePatterns::new() {
        Ok(patterns) => patterns,
        Err(e) => panic!("pattern refused: {}", e.pattern),
    }
}

fn strings(texts: &[&str]) -> Vec<String> {
    texts.iter().map(|t| t.to_string()).collect()
}

fn line(kind: LineKind, text: &str) -> LogLine {
    LogLine { text: text.to_string(), kind, context: false, location: false }
}

fn context(text: &str) -> LogLine {
    LogLine { text: text.to_string(), kind: LineKind::Other, context: true, location: false }
}

fn location(text: &str, context: bool) -> LogLine {
    LogLine { text: text.to_string(), kind: LineKind::Other, context, location: true }
}

fn list(label: &'static str, cap: usize, given: &[&str]) -> CappedLines {
    let mut list = CappedLines::new(label, cap);
    for text in given {
        list.push(text);
    }
    list
}

#[test]
fn white_space_is_the_unicode_property() {
    for code in 0..=0x10ffffu32 {
        if let Some(c) = char::from_u32(code) {
            assert_eq!(white_space(c), c.is_whitespace(), "{:x}", code);
        }
    }
}

#[test]
fn trimming_agrees_with_str() {
    for s in ["", " ", "a", " a ", "\u{3000}\u{e9} b\t\r\n", "\u{200b}x\u{200b} ", "  \u{85}"] {
        assert_eq!(trim(s), s.trim());
        assert_eq!(trim_end(s), s.trim_end());
        assert_eq!(trim_start(s), s.trim_start());
    }
}

#[test]
fn searching_agrees_with_str() {
    for s in ["", "a", "ab", "aab", "h\u{e9}llo.cpp", ".h", "x.cppx"] {
        for p in ["", "a", "ab", ".cpp", "\u{e9}", ".h", "x"] {
            assert_eq!(contains(s, p), s.contains(p));
            assert_eq!(starts_with(s, p), s.starts_with(p));
            assert_eq!(ends_with(s, p), s.ends_with(p));
            assert_eq!(strip_prefix(s, p), s.strip_prefix(p));
        }
        assert_eq!(contains_char(s, '\u{e9}'), s.contains('\u{e9}'));
    }
}

#[test]
fn case_is_ignored_for_ascii_letters_only() {
    assert!(lower_contains("LogCook: COOKED Packages 7", "cooked packages"));
    assert!(!lower_contains("cooked", "COOKED"));
    assert!(eq_ignore_ascii_case("Build Failed", "build failed"));
    assert!(!eq_ignore_ascii_case("build failed!", "build failed"));
    assert!(!eq_ignore_ascii_case("\u{c9}", "\u{e9}"));
}

#[test]
fn numbers_are_written_in_decimal() {
    for n in [0usize, 7, 10, 99, 100, 12345, usize::MAX] {
        let mut s = "n=".to_string();
        push_decimal(&mut s, n);
        assert_eq!(s, format!("n={}", n));
    }
    for n in [0i32, -1, 134, i32::MAX, i32::MIN] {
        let mut s = String::new();
        push_signed_decimal(&mut s, n);
        assert_eq!(s, n.to_string());
    }
}

#[test]
fn lines_end_at_line_feeds() {
    assert_eq!(lines("a\r\nb\n\nc\r"), vec!["a", "b", "", "c\r"]);
    assert_eq!(
        lines("\u{e9}\r\n\u{10a}\u{6f22}\n\n\u{1f642}"),
        vec!["\u{e9}", "\u{10a}\u{6f22}", "", "\u{1f642}"]
    );
    for s in ["", "\n", "a", "a\n", "a\n\n", "\r\n", "\r", "a\rb\n", "\u{e9}\n\u{3000}\r\r\nz"] {
        assert_eq!(lines(s), s.lines().collect::<Vec<_>>());
    }
}

#[test]
fn join_puts_the_separator_between() {
    assert_eq!(join(&strings(&[]), ", "), "");
    assert_eq!(join(&strings(&["a"]), ", "), "a");
    assert_eq!(join(&strings(&["a", "", "c"]), ", "), "a, , c");
}

#[test]
fn modes_have_labels() {
    let modes = [
        (UnrealMode::Build, "build"),
        (UnrealMode::Uat, "uat"),
        (UnrealMode::Cook, "cook"),
        (UnrealMode::Package, "package"),
        (UnrealMode::Commandlet, "commandlet"),
        (UnrealMode::Automation, "automation"),
    ];
    for (mode, label) in modes {
        assert_eq!(mode.label(), label);
        assert_eq!(mode.tee_label(), format!("unreal_{}", label));
    }
}

#[test]
fn pattern_errors_name_the_pattern() {
    let error = PatternError { pattern: "(" };
    assert_eq!(format!("{:?}", error), "PatternError { pattern: \"(\" }");
    assert!(LinePatterns::new().is_ok());
}

#[test]
fn escape_sequences_are_removed() {
    let p = patterns();
    assert_eq!(p.strip_ansi("\x1b[31;1merror:\x1b[0m x"), "error: x");
    assert_eq!(p.strip_ansi("plain [31m text"), "plain [31m text");
}

#[test]
fn error_lines_are_recognised() {
    let p = patterns();
    assert!(is_error_line(&p, "a/b.cpp:3:4: error: x"));
    assert!(is_error_line(&p, "a/b.cpp:3:4: note: x"));
    assert!(is_error_line(&p, "C:\\a.cpp(12): warning C4189: x"));
    assert!(is_error_line(&p, "LogCook: Error: x"));
    assert!(is_error_line(&p, "x.obj : error LNK2019: y"));
    assert!(!is_error_line(&p, "terror: x"));
    assert!(!is_error_line(&p, "a.cpp: 3 errors"));
}

#[test]
fn warning_summary_and_progress_lines_are_recognised() {
    let p = patterns();
    assert!(is_warning_line(&p, "LogTemp: Warning: x"));
    assert!(!is_warning_line(&p, "no warnings"));
    assert!(is_summary_line(&p, "Result: Succeeded"));
    assert!(is_summary_line(&p, "***** STAGE COMMAND COMPLETED *****"));
    assert!(is_summary_line(&p, "1 test completed"));
    assert!(!is_summary_line(&p, "The Result: x"));
    assert!(is_progress_noise(&p, "[12/40] Compile x.cpp"));
    assert!(is_progress_noise(&p, "Worker 3: 120 shaders"));
    assert!(!is_progress_noise(&p, "x [12/40] Compile"));
}

#[test]
fn context_lines_are_recognised() {
    let p = patterns();
    assert!(is_context_line(&p, "   42 |   x();"));
    assert!(is_context_line(&p, "     ^~~~"));
    assert!(is_context_line(&p, "(in /Game/Maps/A)"));
    assert!(is_context_line(&p, "  ld: symbol not found"));
    assert!(is_context_line(&p, "> lib.dll!f()"));
    assert!(!is_context_line(&p, "> see above"));
    assert!(is_tool_prefixed("  clang++: x"));
    assert!(is_tool_prefixed("ld: x"));
    assert!(is_tool_prefixed("Module.A"));
    assert!(!is_tool_prefixed("clang: x"));
}

#[test]
fn locations_are_recognised() {
    let p = patterns();
    for text in ["a.cpp", "a.h", "a.cs", "a.uasset", "a.umap"] {
        assert!(does_name_file(text));
        assert!(is_asset_or_source_context(&p, text));
    }
    assert!(!does_name_file("/Game/Maps/A"));
    assert!(is_asset_or_source_context(&p, "/Game/Maps/A"));
    assert!(!is_asset_or_source_context(&p, "Game/Maps/A"));
}

#[test]
fn the_first_description_decides_the_kind() {
    assert_eq!(LineKind::of(true, true, true, true, true), LineKind::Blank);
    assert_eq!(LineKind::of(false, true, true, true, true), LineKind::Progress);
    assert_eq!(LineKind::of(false, false, true, true, true), LineKind::Error);
    assert_eq!(LineKind::of(false, false, false, true, true), LineKind::Warning);
    assert_eq!(LineKind::of(false, false, false, false, true), LineKind::Summary);
    assert_eq!(LineKind::of(false, false, false, false, false), LineKind::Other);
}

#[test]
fn lines_are_classified() {
    let p = patterns();
    let kinds = [
        ("  \t", LineKind::Blank),
        ("[1/2] Compile error: x", LineKind::Progress),
        ("BUILD FAILED", LineKind::Error),
        ("  warning: x  ", LineKind::Warning),
        ("BUILD SUCCESSFUL", LineKind::Summary),
        ("hello", LineKind::Other),
    ];
    for (text, kind) in kinds {
        assert_eq!(classify_line(&p, text).kind, kind, "{}", text);
    }
    let warned = classify_line(&p, "  a.cpp warning: x  ");
    assert_eq!(warned.text, "  a.cpp warning: x");
    assert!(warned.context && !warned.location);
    let named = classify_line(&p, "  Cooking /Game/A");
    assert!(named.context && named.location);
    let log = classify_log(&p, "one\r\n\nResult: ok\n");
    assert_eq!(log.len(), 3);
    assert_eq!(log[0].text, "one");
    assert_eq!(log[1].kind, LineKind::Blank);
    assert_eq!(log[2].kind, LineKind::Summary);
}

#[test]
fn capped_lines_show_the_first_and_count_the_rest() {
    let list = list("things", 2, &["a ", "", "b", "a", "  ", "c", "d", "b"]);
    assert!(!list.is_empty());
    assert_eq!(list.total(), 4);
    assert_eq!(list.lines(), &strings(&["a", "b"]));
    let mut out = strings(&["x"]);
    list.append_to(&mut out);
    assert_eq!(out, strings(&["x", "a", "b", "... +2 more things"]));
}

#[test]
fn capped_lines_up_to_the_cap_have_no_note() {
    let full = list("things", 2, &["a", "b"]);
    let mut out = Vec::new();
    full.append_to(&mut out);
    assert_eq!(out, strings(&["a", "b"]));
    let none = list("things", 0, &["a"]);
    assert!(none.is_empty());
    let mut out = Vec::new();
    none.append_to(&mut out);
    assert_eq!(out, strings(&["... +1 more things"]));
}

#[test]
fn build_arguments_are_summed_up() {
    let args = strings(&[
        "Build.sh",
        "-waitmutex",
        "Lyra",
        "/p/x",
        "a\\b",
        "Lyra.uproject",
        "Linux",
        "Shipping",
        "Extra",
    ]);
    assert_eq!(build_arg_summary(&args), "Lyra Linux Shipping");
    assert_eq!(build_arg_summary(&strings(&["Build.sh", "Lyra"])), "Lyra");
    assert_eq!(build_arg_summary(&strings(&["Build.sh"])), "");
    assert_eq!(build_arg_summary(&[]), "");
}

#[test]
fn argument_values_come_from_the_first_match() {
    let args = strings(&["x", "-run=A", "-run=B", "-Run=C"]);
    assert_eq!(arg_value(&args, "-run="), Some("A".to_string()));
    assert_eq!(arg_value(&args, "-Run="), Some("C".to_string()));
    assert_eq!(arg_value(&args, "-map="), None);
    assert_eq!(arg_value(&strings(&["-run="]), "-run="), Some(String::new()));
}

#[test]
fn project_names_are_final_path_components() {
    let name = |path: &str| project_name(&[format!("-project={}", path)]);
    assert_eq!(name("/work/Lyra/Lyra.uproject"), Some("Lyra.uproject".to_string()));
    assert_eq!(name("Lyra.uproject"), Some("Lyra.uproject".to_string()));
    assert_eq!(name("/work/Lyra/"), Some("Lyra".to_string()));
    assert_eq!(name("Lyra/."), Some("Lyra".to_string()));
    assert_eq!(name("Lyra/.//"), Some("Lyra".to_string()));
    assert_eq!(name("./."), None);
    assert_eq!(name("Lyra/.."), None);
    assert_eq!(name("/"), None);
    assert_eq!(name(""), None);
    assert_eq!(project_name(&strings(&["-Project=/a/B", "-x"])), Some("B".to_string()));
    assert_eq!(project_name(&strings(&["-Project=/a/B", "-project=/c/D"])), Some("D".to_string()));
    assert_eq!(project_name(&[]), None);
}

#[test]
fn project_paths_of_windows_have_two_readings() {
    let name = |path: &str| match project_name(&[format!("-project={}", path)]) {
        Some(name) => name,
        None => String::new(),
    };
    let either = |path: &str, unix: &str, windows: &str| {
        let found = name(path);
        assert!(found == unix || found == windows, "{} for {}", found, path);
        let args = [format!("-project={}", path), "-targetplatform=Win64".to_string()];
        let summary = uat_arg_summary(&args);
        assert!(
            summary == uat_summary_with(Some(unix.to_string()), &args)
                || summary == uat_summary_with(Some(windows.to_string()), &args),
            "{} for {}",
            summary,
            path
        );
    };
    either("C:\\Lyra\\Lyra.uproject", "C:\\Lyra\\Lyra.uproject", "Lyra.uproject");
    either("Lyra\\Lyra.uproject", "Lyra\\Lyra.uproject", "Lyra.uproject");
    either("C:/Games\\Lyra/Lyra.uproject", "Lyra.uproject", "Lyra.uproject");
    either("c:Lyra.uproject", "c:Lyra.uproject", "Lyra.uproject");
    either("/work/Lyra\\..", "Lyra\\..", "");
    either("C:\\", "C:\\", "");
    either("1:\\Lyra", "1:\\Lyra", "Lyra");
}

#[test]
fn projects_on_network_shares_have_two_readings_or_no_name() {
    let check = |path: &str, readings: &[&str]| {
        let found = project_name(&[format!("-project={}", path)]);
        assert!(
            found.is_none() || readings.iter().any(|r| found == Some(r.to_string())),
            "{:?} for {}",
            found,
            path
        );
    };
    check(
        "\\\\server\\games\\Lyra.uproject",
        &["\\\\server\\games\\Lyra.uproject", "Lyra.uproject"],
    );
    check("//server/games/Lyra.uproject", &["Lyra.uproject"]);
    check("//server/games", &["games"]);
    check("\\\\.\\COM1", &["\\\\.\\COM1", "COM1"]);
    check("//", &[]);
    let verbatim = project_name(&strings(&["-project=\\\\?\\C:\\Lyra"]));
    assert!(verbatim.is_some_and(|name| "\\\\?\\C:\\Lyra".contains(name.as_str())));
}

#[test]
fn the_order_of_uat_arguments_does_not_matter() {
    let args = strings(&[
        "-project=/w/Lyra.uproject",
        "-TargetPlatform=Win64",
        "-clientconfig=Test",
        "-configuration=Shipping",
    ]);
    for [a, b, c, d] in [[3, 2, 1, 0], [1, 0, 3, 2], [2, 3, 0, 1], [0, 2, 1, 3]] {
        let other: Vec<String> = [a, b, c, d].iter().map(|i: &usize| args[*i].clone()).collect();
        assert_eq!(uat_arg_summary(&other), "Lyra.uproject Win64 Test");
        assert_eq!(uat_summary_with(Some("P".to_string()), &other), "P Win64 Test");
    }
}

#[test]
fn uat_arguments_are_summed_up() {
    let args = strings(&[
        "RunUAT.sh",
        "-project=/w/Lyra.uproject",
        "-TargetPlatform=Win64",
        "-configuration=Test",
    ]);
    assert_eq!(uat_arg_summary(&args), "Lyra.uproject Win64 Test");
    assert_eq!(uat_summary_with(None, &args), "Win64 Test");
    assert_eq!(uat_summary_with(Some("P".to_string()), &[]), "P");
    assert_eq!(uat_summary_with(Some(String::new()), &[]), "");
    let preferred = strings(&["-configuration=A", "-ClientConfig=B", "-clientconfig=C"]);
    assert_eq!(uat_arg_summary(&preferred), "C");
}

#[test]
fn errors_take_the_lines_around_them() {
    let log = vec![
        location("Cooking /Game/A", true),
        line(LineKind::Progress, "[1/2] Compile"),
        line(LineKind::Error, "error: x"),
        context("1"),
        line(LineKind::Blank, ""),
        context("2"),
        line(LineKind::Other, "no context"),
        context("3"),
        context("4"),
        context("5"),
    ];
    let scan = scan_lines(&log);
    assert_eq!(
        scan.diagnostics.lines(),
        &strings(&["Cooking /Game/A", "error: x", "1", "2", "3", "4"])
    );
    assert!(scan.state.failure_seen);
    assert_eq!(scan.state.progress_total, 1);
    assert_eq!(scan.context_remaining, 0);
    assert!(scan.previous.is_none());
}

#[test]
fn a_line_that_is_no_context_does_not_lead_up_to_an_error() {
    let log = vec![location("see x.cpp", false), line(LineKind::Error, "error: x")];
    let scan = scan_lines(&log);
    assert_eq!(scan.diagnostics.lines(), &strings(&["error: x"]));
    assert!(scan.previous.is_none());
}

#[test]
fn a_warning_takes_one_line_and_leads_up_to_an_error() {
    let warning = LogLine {
        text: "w warning: x".to_string(),
        kind: LineKind::Warning,
        context: true,
        location: false,
    };
    let log = vec![warning, context("1"), context("2"), line(LineKind::Error, "error: y")];
    let scan = scan_lines(&log);
    assert_eq!(scan.warnings.lines(), &strings(&["w warning: x"]));
    assert_eq!(scan.diagnostics.lines(), &strings(&["1", "w warning: x", "error: y"]));
    assert_eq!(scan.context_remaining, 4);
}

#[test]
fn a_warning_does_not_shorten_the_context_of_an_error() {
    let mut scan = Scan::new();
    scan.step(&line(LineKind::Error, "error: x"));
    scan.step(&context("1"));
    scan.step(&line(LineKind::Warning, "warning: y"));
    assert_eq!(scan.context_remaining, 3);
    scan.step(&line(LineKind::Summary, " Build Failed"));
    assert_eq!(scan.context_remaining, 3);
    assert_eq!(scan.summaries.lines(), &strings(&[" Build Failed"]));
}

#[test]
fn a_summary_can_say_that_the_build_failed() {
    let scan = scan_lines(&vec![line(LineKind::Summary, " Build Failed")]);
    assert!(scan.state.failure_seen);
    let scan = scan_lines(&vec![line(LineKind::Summary, "build failed today")]);
    assert!(!scan.state.failure_seen);
}

#[test]
fn the_last_package_count_is_remembered() {
    let log = vec![
        line(LineKind::Progress, " Cooked packages 1 "),
        line(LineKind::Progress, " Cooked Packages 2"),
        line(LineKind::Progress, "Creating makefile"),
    ];
    let scan = scan_lines(&log);
    assert_eq!(scan.state.packages_seen, Some("Cooked Packages 2".to_string()));
    assert_eq!(scan.state.progress_total, 3);
}

#[test]
fn compaction_drops_blank_and_repeated_lines() {
    let given = strings(&["", "a", " ", "b", "a", " a", "", "b"]);
    let once = compact_lines(given);
    assert_eq!(once, strings(&["a", "b", " a"]));
    assert_eq!(compact_lines(once), strings(&["a", "b", " a"]));
}

#[test]
fn the_tail_skips_noise() {
    let log = vec![
        line(LineKind::Other, "1"),
        line(LineKind::Progress, "p"),
        line(LineKind::Warning, "2"),
        line(LineKind::Blank, ""),
        line(LineKind::Summary, "3"),
    ];
    assert_eq!(fallback_tail(&log, 2), strings(&["2", "3"]));
    assert_eq!(fallback_tail(&log, 9), strings(&["1", "2", "3"]));
    assert_eq!(fallback_tail(&log, 0), strings(&[]));
}

#[test]
fn exit_codes_and_details_are_written() {
    let mut out = strings(&["x"]);
    let mut state = FilterState::default();
    append_process_exit(&mut out, &state);
    assert_eq!(out, strings(&["x"]));
    state.process_exit_code = Some(-7);
    append_process_exit(&mut out, &state);
    assert_eq!(out, strings(&["x", "process exited with code -7"]));
    assert_eq!(format_with_detail("p", "  d e "), "p  d e");
    assert_eq!(format_with_detail("p", "  "), "p");
}

#[test]
fn success_headers_depend_on_the_mode() {
    let args = strings(&["x", "Lyra", "-run=Resave"]);
    let summaries = list("summary lines", 9, &["Result: ok", "2 Tests Completed", "3 tests completed"]);
    let empty = list("summary lines", 9, &[]);
    let mut state = FilterState::default();
    let head = |mode, state: &FilterState| success_header(mode, &args, "P Linux", &summaries, state);
    assert_eq!(head(UnrealMode::Build, &state), "unreal build: ok  Lyra");
    assert_eq!(head(UnrealMode::Uat, &state), "unreal uat: ok  P Linux");
    assert_eq!(head(UnrealMode::Package, &state), "unreal package: ok  P Linux");
    assert_eq!(head(UnrealMode::Cook, &state), "unreal cook: ok  P Linux");
    assert_eq!(head(UnrealMode::Commandlet, &state), "unreal commandlet: ok  Resave");
    assert_eq!(head(UnrealMode::Automation, &state), "unreal automation: ok  2 Tests Completed");
    state.packages_seen = Some("Cooked packages 4".to_string());
    assert_eq!(head(UnrealMode::Cook, &state), "unreal cook: ok  P Linux  Cooked packages 4");
    assert_eq!(
        success_header(UnrealMode::Cook, &args, "", &empty, &state),
        "unreal cook: ok  Cooked packages 4"
    );
    assert_eq!(
        success_header(UnrealMode::Automation, &args, "", &empty, &state),
        "unreal automation: ok  tests passed"
    );
    assert_eq!(
        success_header(UnrealMode::Commandlet, &[], "", &empty, &state),
        "unreal commandlet: ok  commandlet"
    );
}

#[test]
fn failure_reports_have_a_fixed_order() {
    let none = list("diagnostics", 2, &[]);
    let some = list("diagnostics", 1, &["d1", "d2"]);
    let warnings = list("warnings", 2, &["w"]);
    let summaries = list("summary lines", 2, &["s"]);
    let mut state = FilterState::default();
    state.process_exit_code = Some(3);
    state.progress_total = 5;
    let log = vec![line(LineKind::Other, "l"), line(LineKind::Summary, "s")];
    assert_eq!(
        format_failure_output(UnrealMode::Uat, &none, &warnings, &summaries, &state, &log),
        "unreal uat: failed\nprocess exited with code 3\ns\nl\nw\n... omitted 5 Unreal progress/noise lines"
    );
    assert_eq!(
        format_failure_output(UnrealMode::Uat, &some, &warnings, &summaries, &state, &log),
        "d1\n... +1 more diagnostics\nprocess exited with code 3\nw\ns\n... omitted 5 Unreal progress/noise lines"
    );
}

#[test]
fn success_reports_have_a_fixed_order() {
    let warnings = list("warnings", 1, &["w1", "w2"]);
    let summaries = list("summary lines", 9, &["s1", "unreal uat", "s2"]);
    let single = list("summary lines", 9, &["s1"]);
    let mut state = FilterState::default();
    state.progress_total = 2;
    assert_eq!(
        format_success_output(UnrealMode::Uat, &[], "P", &warnings, &summaries, &state),
        "unreal uat: ok  P\nwarnings: 2 total (showing up to 1)\nw1\n... +1 more warnings\ns1\ns2\n... omitted 2 Unreal progress/noise lines"
    );
    let quiet = list("warnings", 1, &[]);
    state.progress_total = 0;
    assert_eq!(
        format_success_output(UnrealMode::Uat, &[], "", &quiet, &single, &state),
        "unreal uat: ok"
    );
}

#[test]
fn classified_lines_make_a_report() {
    let log = vec![
        line(LineKind::Progress, "[1/1] Compile"),
        line(LineKind::Summary, "Result: Succeeded"),
    ];
    let args = strings(&["Build.sh", "Lyra"]);
    assert_eq!(
        filter_lines(&log, UnrealMode::Build, &args, "", 0),
        "unreal build: ok  Lyra\n... omitted 1 Unreal progress/noise lines"
    );
    assert_eq!(
        filter_lines(&log, UnrealMode::Build, &args, "", -1),
        "unreal build: failed\nprocess exited with code -1\nResult: Succeeded\n... omitted 1 Unreal progress/noise lines"
    );
}

#[test]
fn an_empty_log_has_a_report() {
    let p = patterns();
    assert_eq!(filter_output(&p, "", UnrealMode::Uat, &[]), "unreal uat: ok");
    assert_eq!(
        filter_output_with_exit_code(&p, "", UnrealMode::Uat, &[], 9),
        "unreal uat: failed\nprocess exited with code 9"
    );
}

#[test]
fn coloured_logs_read_like_plain_ones() {
    let p = patterns();
    let plain = "a.cpp:1:2: error: x\n  1 | y\nResult: Failed\n";
    let coloured = "\x1b[1ma.cpp:1:2: \x1b[31merror:\x1b[0m x\n  1 | y\nResult: Failed\n";
    let report = "a.cpp:1:2: error: x\n  1 | y\nResult: Failed";
    assert_eq!(filter_output(&p, plain, UnrealMode::Build, &[]), report);
    assert_eq!(filter_output(&p, coloured, UnrealMode::Build, &[]), report);
}

#[test]
fn escape_sequences_change_no_report() {
    let p = patterns();
    let plain = "LogX: Warning: w\nA.cpp(1): error C1: x\nBUILD FAILED\n";
    let coloured = [
        "\u{1b}[33mLogX: Warning: w\u{1b}[0m\nA.cpp(1): \u{1b}[1;31merror\u{1b}[m C1: x\nBUILD FAILED\n",
        "LogX: Warning: w\n\u{1b}[2KA.cpp(1): error C1: x\nBUILD \u{1b}[HFAILED\u{1b}[0m\n",
    ];
    let args = strings(&["x", "-project=/w/Lyra.uproject"]);
    for raw in coloured {
        for mode in [UnrealMode::Build, UnrealMode::Cook, UnrealMode::Automation] {
            for exit_code in [0, 6] {
                assert_eq!(
                    filter_output_with_exit_code(&p, raw, mode, &args, exit_code),
                    filter_output_with_exit_code(&p, plain, mode, &args, exit_code)
                );
            }
        }
    }
}

#[test]
fn reports_are_bounded_and_hold_each_line_once() {
    let p = patterns();
    let mut raw = String::new();
    for start in ["LogA: Error: e", "LogB: Warning: w", "Result: r"] {
        for i in 0..200 {
            raw.push_str(&format!("{}{}\n", start, i));
        }
    }
    let out = filter_output_with_exit_code(&p, &raw, UnrealMode::Uat, &[], 1);
    let all: Vec<&str> = out.lines().collect();
    assert_eq!(all.len(), CAP_ERRORS + 1 + 1 + CAP_WARNINGS + 1 + CAP_LIST + 1);
    for (i, text) in all.iter().enumerate() {
        assert!(!text.trim().is_empty());
        assert!(!all[..i].contains(text));
    }
    assert!(all.contains(&"LogA: Error: e0"));
    assert!(all.contains(&"... +190 more warnings"));
    assert!(all.contains(&"process exited with code 1"));
}

#[test]
fn a_clean_log_is_a_success_with_its_summaries() {
    let p = patterns();
    let raw = "hello\nTotal execution time: 3 s\nResult: Succeeded\nhello.cpp\n";
    assert_eq!(
        filter_output(&p, raw, UnrealMode::Commandlet, &strings(&["x", "-run=Y"])),
        "unreal commandlet: ok  Y\nTotal execution time: 3 s\nResult: Succeeded"
    );
}

#[test]
fn reports_are_read_back_line_by_line() {
    let p = patterns();
    let mut log = vec![line(LineKind::Warning, "W warning: a"), line(LineKind::Summary, "Done")];
    log.push(line(LineKind::Summary, "Total time: 1.00 seconds"));
    log.push(line(LineKind::Progress, "[1/2] Compile"));
    let args = strings(&["Build.sh", "Game", "Linux"]);
    let out = filter_lines(&log, UnrealMode::Build, &args, "", 0);
    let expected = vec![
        "unreal build: ok  Game Linux",
        "warnings: 1 total (showing up to 1)",
        "W warning: a",
        "Done",
        "Total time: 1.00 seconds",
        "... omitted 1 Unreal progress/noise lines",
    ];
    assert_eq!(lines(&out), expected);
    let raw = "x\r\rBuild.cs(1): error CS1: a \t\r\nBuild.cs(1): error CS1: a\n\u{2028}\n";
    for exit_code in [0, -7] {
        let out = filter_output_with_exit_code(&p, raw, UnrealMode::Cook, &args, exit_code);
        for piece in out.split('\n') {
            assert_eq!(piece, piece.trim_end());
            assert_ne!(piece.trim(), "");
        }
    }
}

#[test]
fn a_run_that_succeeded_has_the_exit_code_zero() {
    let p = patterns();
    let raw = "LogCook: Display: Cooked packages 3 Packages Remain 0 Total 3\nBUILD SUCCESSFUL\n";
    for project in ["/w/Lyra.uproject", "C:\\Lyra\\Lyra.uproject", "\\\\server\\games\\Lyra"] {
        let args = [format!("-project={}", project)];
        for mode in [UnrealMode::Build, UnrealMode::Uat, UnrealMode::Cook, UnrealMode::Package] {
            assert_eq!(
                filter_output(&p, raw, mode, &args),
                filter_output_with_exit_code(&p, raw, mode, &args, 0)
            );
        }
    }
    let args = strings(&["-project=C:\\Lyra\\Lyra.uproject"]);
    let out = filter_output(&p, raw, UnrealMode::Package, &args);
    let header = out.lines().next().map(|line| line.to_string());
    assert!(
        header == Some("unreal package: ok  C:\\Lyra\\Lyra.uproject".to_string())
            || header == Some("unreal package: ok  Lyra.uproject".to_string())
    );
}

#[test]
fn commands_are_paths_or_names() {
    for path in ["./Build.sh", "Engine/Build.sh", "C:\\RunUAT.bat", ".hidden"] {
        assert!(is_explicit_path(path));
    }
    for name in ["cat", "RunUAT.bat", ""] {
        assert!(!is_explicit_path(name));
    }
}

#[test]
fn command_lines_are_taken_apart() {
    let args = strings(&["cat", "Saved/Logs/Lyra.log", "-n"]);
    match plan_run(UnrealMode::Automation, &args, 0) {
        Ok(plan) => {
            assert_eq!(plan.executable, "cat");
            assert_eq!(plan.native_args, strings(&["Saved/Logs/Lyra.log", "-n"]));
            assert_eq!(plan.arguments, "Saved/Logs/Lyra.log -n");
            assert!(!plan.explicit_path);
            assert_eq!(plan.tee_label, "unreal_automation");
            assert_eq!(plan.announcement, None);
        }
        Err(message) => panic!("{}", message),
    }
    match plan_run(UnrealMode::Build, &strings(&["./Build.sh"]), 1) {
        Ok(plan) => {
            assert!(plan.explicit_path);
            assert_eq!(plan.announcement, Some("Running: ./Build.sh ".to_string()));
        }
        Err(message) => panic!("{}", message),
    }
}

#[test]
fn a_command_line_needs_a_command() {
    match plan_run(UnrealMode::Cook, &[], 2) {
        Ok(_) => panic!("nothing to run"),
        Err(message) => assert_eq!(
            message,
            "rtk unreal cook: expected native Unreal command path followed by arguments"
        ),
    }
}
