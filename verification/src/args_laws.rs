//! What a report and a run take from the arguments of a command.

use crate::args::{
    arg_value_of, build_summary, client_config, final_component, is_target_word, last_part,
    last_part_len, or_empty, project_path, read_on_windows, target_platform, target_words,
    uat_summary,
};
use crate::capped::CappedView;
use crate::command::{is_path, missing_command, RunPlan};
use crate::mode::UnrealMode;
use crate::report::{header, tests_completed};
use crate::scan::StateView;
use crate::text::{at_most, contains_text, joined, joined_prefix, lower_of, texts};
use crate::text_laws::{
    is_blank, is_core, law_blank_text_trims_to_nothing, law_joining_puts_one_separator_between,
    law_trimming_takes_white_space_away,
};
use vstd::prelude::*;

verus! {

/// The value of an option is what follows its prefix in the first argument that begins with it.
pub proof fn law_option_has_the_value_it_was_given(
    args: Seq<Seq<char>>,
    prefix: Seq<char>,
    i: int,
    value: Seq<char>,
)
    requires
        0 <= i < args.len(),
        args[i] == prefix + value,
        forall|j: int| 0 <= j < i ==> !prefix.is_prefix_of(#[trigger] args[j]),
    ensures
        arg_value_of(args, prefix) == Some(value),
    decreases i,
{
    if i == 0 {
        assert(args[0].subrange(0, prefix.len() as int) =~= prefix);
        assert(args[0].skip(prefix.len() as int) =~= value);
    } else {
        let rest = args.drop_first();
        assert(!prefix.is_prefix_of(args[0]));
        assert forall|j: int| 0 <= j < i - 1 implies !prefix.is_prefix_of(#[trigger] rest[j]) by {
            assert(rest[j] == args[j + 1]);
        }
        law_option_has_the_value_it_was_given(rest, prefix, i - 1, value);
    }
}

/// An option that no argument begins with has no value.
pub proof fn law_option_that_is_not_given_has_no_value(args: Seq<Seq<char>>, prefix: Seq<char>)
    requires
        forall|j: int| 0 <= j < args.len() ==> !prefix.is_prefix_of(#[trigger] args[j]),
    ensures
        arg_value_of(args, prefix) is None,
    decreases args.len(),
{
    if args.len() > 0 {
        let rest = args.drop_first();
        assert(!prefix.is_prefix_of(args[0]));
        assert forall|j: int| 0 <= j < rest.len() implies !prefix.is_prefix_of(
            #[trigger] rest[j],
        ) by {
            assert(rest[j] == args[j + 1]);
        }
        law_option_that_is_not_given_has_no_value(rest, prefix);
    }
}

/// Project, platform and configuration are looked up by their options, the first of which that is
/// given decides.
pub proof fn law_first_option_decides(args: Seq<Seq<char>>, value: Seq<char>)
    ensures
        arg_value_of(args, "-project="@) == Some(value) ==> project_path(args) == Some(value),
        arg_value_of(args, "-project="@) is None ==> project_path(args) == arg_value_of(
            args,
            "-Project="@,
        ),
        arg_value_of(args, "-targetplatform="@) == Some(value) ==> target_platform(args) == Some(
            value,
        ),
        arg_value_of(args, "-targetplatform="@) is None ==> target_platform(args) == arg_value_of(
            args,
            "-TargetPlatform="@,
        ),
        arg_value_of(args, "-clientconfig="@) == Some(value) ==> client_config(args) == Some(value),
        arg_value_of(args, "-clientconfig="@) is None ==> {
            &&& arg_value_of(args, "-ClientConfig="@) == Some(value) ==> client_config(args) == Some(
                value,
            )
            &&& arg_value_of(args, "-ClientConfig="@) is None ==> client_config(args)
                == arg_value_of(args, "-configuration="@)
        },
{
}

/// Two texts with a space between them, or the other where one is empty.
pub open spec fn spaced(a: Seq<char>, b: Seq<char>) -> Seq<char> {
    if a.len() == 0 {
        b
    } else if b.len() == 0 {
        a
    } else {
        a + seq![' '] + b
    }
}

/// A UAT summary is the project, the platform and the configuration, in this order, with a space
/// between those that are there.
pub proof fn law_uat_summary_tells_what_is_there(project: Option<Seq<char>>, args: Seq<Seq<char>>)
    ensures
        ({
            let p = match project {
                Some(name) => name,
                None => Seq::empty(),
            };
            let t = match target_platform(args) {
                Some(name) => name,
                None => Seq::empty(),
            };
            let c = match client_config(args) {
                Some(name) => name,
                None => Seq::empty(),
            };
            uat_summary(project, args) == spaced(p, spaced(t, c))
        }),
{
    lemma_three_parts(
        or_empty(project),
        or_empty(target_platform(args)),
        or_empty(client_config(args)),
    );
}

/// Three parts, those that are empty left out, with a space between those that are left.
proof fn lemma_three_parts(p: Seq<char>, t: Seq<char>, c: Seq<char>)
    ensures
        joined(seq![p, t, c].filter(|part: Seq<char>| part.len() > 0), " "@) == spaced(
            p,
            spaced(t, c),
        ),
{
    lemma_filter_three(p, t, c);
    lemma_joined_spaced(present(t), t, present(c), c);
    lemma_joined_spaced(present(p), p, present(t) + present(c), spaced(t, c));
}

proof fn lemma_filter_three(p: Seq<char>, t: Seq<char>, c: Seq<char>)
    ensures
        seq![p, t, c].filter(|part: Seq<char>| part.len() > 0) == present(p) + (present(t)
            + present(c)),
{
    let pred = |part: Seq<char>| part.len() > 0;
    let a = seq![p];
    let b = seq![t];
    let d = seq![c];
    lemma_filter_one(p, pred);
    lemma_filter_one(t, pred);
    lemma_filter_one(c, pred);
    Seq::filter_distributes_over_add(a, b, pred);
    Seq::filter_distributes_over_add(a + b, d, pred);
    assert(seq![p, t, c] =~= a + b + d);
    assert(present(p) + present(t) + present(c) =~= present(p) + (present(t) + present(c)));
}

/// The text as a list of one, or none where it is empty.
spec fn present(t: Seq<char>) -> Seq<Seq<char>> {
    if t.len() > 0 {
        seq![t]
    } else {
        Seq::empty()
    }
}

proof fn lemma_filter_one(x: Seq<char>, pred: spec_fn(Seq<char>) -> bool)
    ensures
        pred(x) ==> seq![x].filter(pred) == seq![x],
        !pred(x) ==> seq![x].filter(pred) == Seq::<Seq<char>>::empty(),
{
    reveal(Seq::filter);
    assert(seq![x].drop_last() =~= Seq::<Seq<char>>::empty());
    assert(Seq::<Seq<char>>::empty().filter(pred) =~= Seq::<Seq<char>>::empty());
    if pred(x) {
        assert(seq![x].filter(pred) =~= seq![x]);
    }
}

proof fn lemma_joined_spaced(
    xs: Seq<Seq<char>>,
    x: Seq<char>,
    ys: Seq<Seq<char>>,
    y: Seq<char>,
)
    requires
        xs.len() == 0 <==> x.len() == 0,
        xs.len() > 0 ==> xs == seq![x],
        ys.len() == 0 <==> y.len() == 0,
        ys.len() > 0 ==> joined(ys, " "@) == y || ys == seq![y],
    ensures
        joined(xs + ys, " "@) == spaced(x, y),
{
    reveal_strlit(" ");
    assert(" "@ =~= seq![' ']);
    law_joining_puts_one_separator_between(xs, ys, x, " "@);
    law_joining_puts_one_separator_between(xs, ys, y, " "@);
    if xs.len() == 0 {
        assert(xs + ys =~= ys);
    }
    if ys.len() == 0 {
        assert(xs + ys =~= xs);
    }
    if xs.len() == 0 && ys.len() == 0 {
        assert(xs + ys =~= Seq::<Seq<char>>::empty());
        assert(x =~= Seq::<char>::empty());
        assert(y =~= Seq::<char>::empty());
    }
}

/// An argument of a build that is an option, a project file or a path.
pub open spec fn is_no_target(arg: Seq<char>) -> bool {
    ||| arg.len() > 0 && arg[0] == '-'
    ||| exists|name: Seq<char>| arg == #[trigger] (name + ".uproject"@)
    ||| arg.contains('/')
    ||| arg.contains('\\')
}

proof fn lemma_target_word(arg: Seq<char>)
    ensures
        is_target_word(arg) <==> !is_no_target(arg),
{
    let end = ".uproject"@;
    reveal_strlit("-");
    if arg.len() > 0 && arg[0] == '-' {
        assert("-"@ =~= arg.subrange(0, 1));
    }
    if "-"@.is_prefix_of(arg) {
        assert(arg.subrange(0, 1)[0] == arg[0]);
    }
    if end.is_suffix_of(arg) {
        let name = arg.take(arg.len() - end.len());
        assert(arg =~= name + end);
    }
    if exists|name: Seq<char>| arg == #[trigger] (name + end) {
        let name = choose|name: Seq<char>| arg == #[trigger] (name + end);
        assert(arg.subrange(arg.len() - end.len(), arg.len() as int) =~= end);
    }
}

/// Options, project files and paths have no say in a build summary, wherever they stand, nor has
/// the command itself.
pub proof fn law_build_summary_passes_over_options_and_paths(
    command: Seq<char>,
    other: Seq<char>,
    a: Seq<Seq<char>>,
    arg: Seq<char>,
    b: Seq<Seq<char>>,
)
    requires
        is_no_target(arg),
    ensures
        build_summary(seq![command] + a + seq![arg] + b) == build_summary(seq![other] + a + b),
{
    let pred = |arg: Seq<char>| is_target_word(arg);
    lemma_target_word(arg);
    lemma_filter_one(arg, pred);
    assert((seq![command] + a + seq![arg] + b).skip(1) =~= a + seq![arg] + b);
    assert((seq![other] + a + b).skip(1) =~= a + b);
    Seq::filter_distributes_over_add(a + seq![arg], b, pred);
    Seq::filter_distributes_over_add(a, seq![arg], pred);
    Seq::filter_distributes_over_add(a, b, pred);
    assert(target_words(seq![command] + a + seq![arg] + b) =~= target_words(seq![other] + a + b));
}

/// A build summary tells the first three of the other arguments, with a space between them, and
/// all of them where there are fewer.
pub proof fn law_build_summary_tells_the_first_three_targets(
    command: Seq<char>,
    words: Seq<Seq<char>>,
)
    requires
        forall|i: int| 0 <= i < words.len() ==> !is_no_target(#[trigger] words[i]),
    ensures
        words.len() == 0 ==> build_summary(seq![command] + words).len() == 0,
        words.len() == 1 ==> build_summary(seq![command] + words) == words[0],
        words.len() == 2 ==> build_summary(seq![command] + words) == words[0] + seq![' '] + words[1],
        words.len() >= 3 ==> build_summary(seq![command] + words) == words[0] + seq![' '] + words[1]
            + seq![' '] + words[2],
        build_summary(Seq::empty()).len() == 0,
{
    let pred = |arg: Seq<char>| is_target_word(arg);
    let args = seq![command] + words;
    reveal_strlit(" ");
    assert(" "@ =~= seq![' ']);
    assert(args.skip(1) =~= words);
    lemma_all_targets(words);
    assert(target_words(args) =~= words);
    let kept = at_most(words, 3);
    assert(at_most(Seq::<Seq<char>>::empty(), 3) =~= Seq::<Seq<char>>::empty());
    reveal_with_fuel(joined_prefix, 4);
    if words.len() >= 3 {
        assert(kept =~= seq![words[0], words[1], words[2]]);
    }
}

proof fn lemma_all_targets(words: Seq<Seq<char>>)
    requires
        forall|i: int| 0 <= i < words.len() ==> !is_no_target(#[trigger] words[i]),
    ensures
        words.filter(|arg: Seq<char>| is_target_word(arg)) == words,
    decreases words.len(),
{
    reveal(Seq::filter);
    if words.len() > 0 {
        let rest = words.drop_last();
        assert forall|i: int| 0 <= i < rest.len() implies !is_no_target(#[trigger] rest[i]) by {
            assert(rest[i] == words[i]);
        }
        lemma_all_targets(rest);
        assert(!is_no_target(words[words.len() - 1]));
        lemma_target_word(words.last());
        assert(words =~= rest.push(words.last()));
    }
}

proof fn lemma_last_part(before: Seq<char>, name: Seq<char>)
    requires
        !name.contains('/'),
        before.len() == 0 || before.last() == '/',
    ensures
        last_part_len(before + name) == name.len(),
        last_part(before + name) == name,
    decreases name.len(),
{
    if name.len() == 0 {
        assert(before + name =~= before);
    } else {
        let rest = name.drop_last();
        assert(name.contains(name.last()));
        assert((before + name).last() == name.last());
        assert((before + name).drop_last() =~= before + rest);
        assert forall|i: int| 0 <= i < rest.len() implies rest[i] != '/' by {
            assert(name.contains(name[i]));
        }
        lemma_last_part(before, rest);
    }
    assert(last_part(before + name) =~= name);
}

/// The final component of a path is what follows its last `/`; there is none where that is `..`,
/// and a `/` or `/.` at the end of the path does not count.
pub proof fn law_final_component_is_the_last_name(dir: Seq<char>, name: Seq<char>)
    requires
        !name.contains('/'),
        name.len() > 0,
        name != seq!['.'],
        name != seq!['.', '.'],
    ensures
        final_component(name) == Some(name),
        final_component(dir + seq!['/'] + name) == Some(name),
        final_component(dir + seq!['/']) == final_component(dir),
        final_component(dir + seq!['/', '.']) == final_component(dir),
        final_component(dir + seq!['/', '.', '.']) is None,
        final_component(seq!['.', '.']) is None,
        final_component(seq!['.']) is None,
        final_component(Seq::empty()) is None,
{
    let none = Seq::<char>::empty();
    let slash = dir + seq!['/'];
    let dot = seq!['.'];
    let dots = seq!['.', '.'];
    assert(slash.last() == '/');
    lemma_last_part(none, name);
    assert(none + name =~= name);
    lemma_last_part(slash, name);
    lemma_last_part(slash, none);
    assert(slash + none =~= slash);
    assert(slash.drop_last() =~= dir);
    lemma_last_part(slash, dot);
    assert(dir + seq!['/', '.'] =~= slash + dot);
    assert((slash + dot).take(dir.len() as int) =~= dir);
    assert(dot.len() == 1 && dots.len() == 2);
    lemma_last_part(slash, dots);
    assert(dir + seq!['/', '.', '.'] =~= slash + dots);
    lemma_last_part(none, dots);
    assert(none + dots =~= dots);
    lemma_last_part(none, dot);
    assert(none + dot =~= dot);
}

/// Windows reads a path like Unix does once `\` is replaced by `/` and a drive letter, with the
/// colon behind it, is taken from the front.
pub proof fn law_how_windows_reads_a_path(drive: char, rest: Seq<char>)
    ensures
        ({
            let path = seq![drive, ':'] + rest;
            let letter = 'a' <= drive <= 'z' || 'A' <= drive <= 'Z';
            &&& letter ==> read_on_windows(path) == rest.map_values(
                |c: char|
                    if c == '\\' {
                        '/'
                    } else {
                        c
                    },
            )
            &&& !letter ==> read_on_windows(path) == path.map_values(
                |c: char|
                    if c == '\\' {
                        '/'
                    } else {
                        c
                    },
            )
            &&& rest.len() < 2 || rest[1] != ':' ==> read_on_windows(rest) == rest.map_values(
                |c: char|
                    if c == '\\' {
                        '/'
                    } else {
                        c
                    },
            )
        }),
{
    let path = seq![drive, ':'] + rest;
    assert(path.skip(2) =~= rest);
    let swap = |c: char|
        if c == '\\' {
            '/'
        } else {
            c
        };
    if 'a' <= drive <= 'z' || 'A' <= drive <= 'Z' {
        assert(read_on_windows(path) =~= rest.map_values(swap));
    } else {
        assert(read_on_windows(path) =~= path.map_values(swap));
    }
    if rest.len() < 2 || rest[1] != ':' {
        assert(read_on_windows(rest) =~= rest.map_values(swap));
    }
}

/// The name under which the log of a run is kept tells the kind of the run.
pub proof fn law_log_is_kept_under_the_name_of_the_mode(mode: UnrealMode)
    ensures
        mode.tee_text() == "unreal_"@ + mode.label_text(),
{
    reveal_strlit("unreal_");
    reveal_strlit("build");
    reveal_strlit("uat");
    reveal_strlit("cook");
    reveal_strlit("package");
    reveal_strlit("commandlet");
    reveal_strlit("automation");
    reveal_strlit("unreal_build");
    reveal_strlit("unreal_uat");
    reveal_strlit("unreal_cook");
    reveal_strlit("unreal_package");
    reveal_strlit("unreal_commandlet");
    reveal_strlit("unreal_automation");
    assert(mode.tee_text() =~= "unreal_"@ + mode.label_text());
}

/// A plan takes the command line apart without loss: the command, its arguments, and both in one
/// text where the user is to be told.
pub proof fn law_plan_is_the_command_line(
    plan: &RunPlan,
    mode: UnrealMode,
    args: Seq<Seq<char>>,
    verbose: u8,
)
    requires
        args.len() > 0,
        plan.is_for(mode, args, verbose),
    ensures
        seq![plan.executable@] + texts(plan.native_args@) == args,
        args.len() > 1 ==> plan.executable@ + seq![' '] + plan.arguments@ == joined(args, " "@),
        args.len() == 1 ==> plan.arguments@.len() == 0,
        verbose == 0 ==> plan.announcement is None,
        verbose > 0 ==> plan.announcement is Some && plan.announcement->0@ == "Running: "@
            + plan.executable@ + seq![' '] + plan.arguments@,
        plan.tee_label@ == "unreal_"@ + mode.label_text(),
        plan.explicit_path <==> {
            ||| exists|i: int|
                0 <= i < args[0].len() && (#[trigger] args[0][i] == '/' || args[0][i] == '\\')
            ||| args[0].len() > 0 && args[0][0] == '.'
        },
{
    let rest = args.skip(1);
    reveal_strlit(" ");
    assert(" "@ =~= seq![' ']);
    assert(seq![args[0]] + rest =~= args);
    law_joining_puts_one_separator_between(seq![args[0]], rest, args[0], " "@);
    law_log_is_kept_under_the_name_of_the_mode(mode);
    if args.len() == 1 {
        assert(rest =~= Seq::<Seq<char>>::empty());
    }
    if verbose > 0 {
        assert(plan.announcement is Some);
    }
    lemma_is_path(args[0]);
}

proof fn lemma_is_path(executable: Seq<char>)
    ensures
        is_path(executable) <==> {
            ||| exists|i: int|
                0 <= i < executable.len() && (#[trigger] executable[i] == '/' || executable[i]
                    == '\\')
            ||| executable.len() > 0 && executable[0] == '.'
        },
{
    reveal_strlit(".");
    if executable.contains('/') {
        let i = executable.index_of('/');
        assert(executable[i] == '/');
    }
    if executable.contains('\\') {
        let i = executable.index_of('\\');
        assert(executable[i] == '\\');
    }
    if "."@.is_prefix_of(executable) {
        assert(executable.subrange(0, 1)[0] == executable[0]);
    }
    if executable.len() > 0 && executable[0] == '.' {
        assert("."@ =~= executable.subrange(0, 1));
    }
}

/// What is said where the command is missing names the mode.
pub proof fn law_missing_command_names_the_mode(mode: UnrealMode)
    ensures
        missing_command(mode) == "rtk unreal "@ + mode.label_text()
            + ": expected native Unreal command path followed by arguments"@,
{
}

/// What the header of every report on a success begins with.
pub open spec fn success_title(mode: UnrealMode) -> Seq<char> {
    "unreal "@ + mode.label_text() + ": ok"@
}

proof fn lemma_success_title(mode: UnrealMode)
    ensures
        success_title(mode) == match mode {
            UnrealMode::Build => "unreal build: ok"@,
            UnrealMode::Uat => "unreal uat: ok"@,
            UnrealMode::Cook => "unreal cook: ok"@,
            UnrealMode::Package => "unreal package: ok"@,
            UnrealMode::Commandlet => "unreal commandlet: ok"@,
            UnrealMode::Automation => success_title(mode),
        },
        success_title(UnrealMode::Automation) + seq![' ', ' '] == "unreal automation: ok  "@,
        "  "@ == seq![' ', ' '],
{
    reveal_strlit("unreal ");
    reveal_strlit(": ok");
    reveal_strlit("  ");
    reveal_strlit("build");
    reveal_strlit("uat");
    reveal_strlit("cook");
    reveal_strlit("package");
    reveal_strlit("commandlet");
    reveal_strlit("automation");
    reveal_strlit("unreal build: ok");
    reveal_strlit("unreal uat: ok");
    reveal_strlit("unreal cook: ok");
    reveal_strlit("unreal package: ok");
    reveal_strlit("unreal commandlet: ok");
    reveal_strlit("unreal automation: ok  ");
    assert("  "@ =~= seq![' ', ' ']);
    assert(success_title(UnrealMode::Automation) + seq![' ', ' '] =~= "unreal automation: ok  "@);
    match mode {
        UnrealMode::Build => assert(success_title(mode) =~= "unreal build: ok"@),
        UnrealMode::Uat => assert(success_title(mode) =~= "unreal uat: ok"@),
        UnrealMode::Cook => assert(success_title(mode) =~= "unreal cook: ok"@),
        UnrealMode::Package => assert(success_title(mode) =~= "unreal package: ok"@),
        UnrealMode::Commandlet => assert(success_title(mode) =~= "unreal commandlet: ok"@),
        UnrealMode::Automation => {},
    }
}

/// The header of a report on a success names the mode, and then tells what the run worked on,
/// without white space around it, where there is anything to tell.
///
/// What a run worked on is told by `a + m + b`, where `m` has no white space at its ends: for a
/// build its targets, for a UAT, package or cook run its UAT summary (the packages of a cook
/// aside), for a commandlet the value of its `-run=` option.
pub proof fn law_header_tells_what_the_run_worked_on(
    mode: UnrealMode,
    args: Seq<Seq<char>>,
    uat_detail: Seq<char>,
    summaries: CappedView,
    state: StateView,
    a: Seq<char>,
    m: Seq<char>,
    b: Seq<char>,
)
    requires
        is_blank(a),
        is_blank(b),
        is_core(m) || m.len() == 0,
        mode is Build ==> build_summary(args) == a + m + b,
        mode is Uat || mode is Package || mode is Cook ==> uat_detail == a + m + b,
        mode is Cook ==> state.packages_seen is None,
        mode is Commandlet ==> arg_value_of(args, "-run="@) == Some(a + m + b),
        !(mode is Automation),
    ensures
        m.len() > 0 ==> header(mode, args, uat_detail, summaries, state) == success_title(mode)
            + seq![' ', ' '] + m,
        m.len() == 0 ==> header(mode, args, uat_detail, summaries, state) == success_title(mode),
{
    lemma_success_title(mode);
    if m.len() > 0 {
        law_trimming_takes_white_space_away(a, m, b);
    } else {
        assert(a + m + b =~= a + b);
        law_blank_text_trims_to_nothing(a + b);
    }
}

/// A commandlet that the arguments do not name is called a commandlet.
pub proof fn law_header_of_an_unnamed_commandlet(
    args: Seq<Seq<char>>,
    uat_detail: Seq<char>,
    summaries: CappedView,
    state: StateView,
)
    requires
        arg_value_of(args, "-run="@) is None,
    ensures
        header(UnrealMode::Commandlet, args, uat_detail, summaries, state) == success_title(
            UnrealMode::Commandlet,
        ) + seq![' ', ' '] + "commandlet"@,
{
    let name = "commandlet"@;
    let none = Seq::<char>::empty();
    lemma_success_title(UnrealMode::Commandlet);
    reveal_strlit("commandlet");
    law_trimming_takes_white_space_away(none, name, none);
    assert(none + name + none =~= name);
}

/// The header of a cook tells the packages behind what the run worked on, with two spaces between
/// them where both are there.
pub proof fn law_header_of_a_cook_tells_the_packages(
    args: Seq<Seq<char>>,
    uat_detail: Seq<char>,
    summaries: CappedView,
    state: StateView,
    packages: Seq<char>,
)
    requires
        state.packages_seen == Some(packages),
        is_core(packages),
        is_core(uat_detail) || uat_detail.len() == 0,
    ensures
        uat_detail.len() > 0 ==> header(UnrealMode::Cook, args, uat_detail, summaries, state)
            == success_title(UnrealMode::Cook) + seq![' ', ' '] + uat_detail + seq![' ', ' ']
            + packages,
        uat_detail.len() == 0 ==> header(UnrealMode::Cook, args, uat_detail, summaries, state)
            == success_title(UnrealMode::Cook) + seq![' ', ' '] + packages,
{
    let gap = seq![' ', ' '];
    let none = Seq::<char>::empty();
    lemma_success_title(UnrealMode::Cook);
    let detail = uat_detail + gap + packages;
    if uat_detail.len() > 0 {
        law_trimming_takes_white_space_away(none, detail, none);
        assert(none + detail + none =~= detail);
        assert(success_title(UnrealMode::Cook) + gap + detail =~= success_title(UnrealMode::Cook)
            + gap + uat_detail + gap + packages);
    } else {
        law_trimming_takes_white_space_away(gap, packages, none);
        assert(gap + packages + none =~= detail);
    }
}

/// The packages of a cook are told like a part of what the run worked on, behind two spaces.
pub proof fn law_packages_are_a_part_of_the_detail(
    args: Seq<Seq<char>>,
    uat_detail: Seq<char>,
    summaries: CappedView,
    state: StateView,
    other: StateView,
    packages: Seq<char>,
)
    requires
        state.packages_seen == Some(packages),
        other.packages_seen is None,
    ensures
        header(UnrealMode::Cook, args, uat_detail, summaries, state) == header(
            UnrealMode::Cook,
            args,
            uat_detail + seq![' ', ' '] + packages,
            summaries,
            other,
        ),
{
    lemma_success_title(UnrealMode::Cook);
}

/// `line` tells how many tests completed, in whatever case.
pub open spec fn tells_tests(line: Seq<char>) -> bool {
    contains_text(lower_of(line), "tests completed"@)
}

/// The header of an automation run tells the first summary line that says how many tests completed,
/// and that the tests passed where none does.
pub proof fn law_header_of_an_automation_run_tells_the_tests(
    args: Seq<Seq<char>>,
    uat_detail: Seq<char>,
    summaries: CappedView,
    state: StateView,
    k: int,
)
    ensures
        0 <= k < summaries.shown().len() && tells_tests(summaries.shown()[k]) && (forall|j: int|
            0 <= j < k ==> !tells_tests(#[trigger] summaries.shown()[j])) ==> header(
            UnrealMode::Automation,
            args,
            uat_detail,
            summaries,
            state,
        ) == success_title(UnrealMode::Automation) + seq![' ', ' '] + summaries.shown()[k],
        (forall|j: int|
            0 <= j < summaries.shown().len() ==> !tells_tests(#[trigger] summaries.shown()[j]))
            ==> header(UnrealMode::Automation, args, uat_detail, summaries, state)
            == success_title(UnrealMode::Automation) + seq![' ', ' '] + "tests passed"@,
{
    lemma_success_title(UnrealMode::Automation);
    let shown = summaries.shown();
    if 0 <= k < shown.len() && tells_tests(shown[k]) && (forall|j: int|
        0 <= j < k ==> !tells_tests(#[trigger] shown[j])) {
        lemma_tests_completed_at(shown, k);
    }
    if forall|j: int| 0 <= j < shown.len() ==> !tells_tests(#[trigger] shown[j]) {
        lemma_no_tests_completed(shown);
    }
}

proof fn lemma_tests_completed_at(lines: Seq<Seq<char>>, k: int)
    requires
        0 <= k < lines.len(),
        tells_tests(lines[k]),
        forall|j: int| 0 <= j < k ==> !tells_tests(#[trigger] lines[j]),
    ensures
        tests_completed(lines) == Some(lines[k]),
    decreases k,
{
    if k > 0 {
        let rest = lines.drop_first();
        assert(!tells_tests(lines[0]));
        assert forall|j: int| 0 <= j < k - 1 implies !tells_tests(#[trigger] rest[j]) by {
            assert(rest[j] == lines[j + 1]);
        }
        lemma_tests_completed_at(rest, k - 1);
    }
}

proof fn lemma_no_tests_completed(lines: Seq<Seq<char>>)
    requires
        forall|j: int| 0 <= j < lines.len() ==> !tells_tests(#[trigger] lines[j]),
    ensures
        tests_completed(lines) is None,
    decreases lines.len(),
{
    if lines.len() > 0 {
        let rest = lines.drop_first();
        assert(!tells_tests(lines[0]));
        assert forall|j: int| 0 <= j < rest.len() implies !tells_tests(#[trigger] rest[j]) by {
            assert(rest[j] == lines[j + 1]);
        }
        lemma_no_tests_completed(rest);
    }
}

} // verus!
