//! What the arguments of an Unreal command say about the run.

use crate::text::{
    at_most, contains_char, ends_with, join, joined, occurs_at, starts_with, strip_prefix, texts,
};
use std::path::Path;
use vstd::prelude::*;

verus! {

/// The text that an optional string holds.
pub open spec fn opt_text(s: Option<String>) -> Option<Seq<char>> {
    match s {
        Some(s) => Some(s@),
        None => None,
    }
}

/// What follows `prefix` in the first argument that begins with it.
pub open spec fn arg_value_of(args: Seq<Seq<char>>, prefix: Seq<char>) -> Option<Seq<char>>
    decreases args.len(),
{
    if args.len() == 0 {
        None
    } else if prefix.is_prefix_of(args[0]) {
        Some(args[0].skip(prefix.len() as int))
    } else {
        arg_value_of(args.drop_first(), prefix)
    }
}

/// `first`, or `second` where there is no first.
pub open spec fn or_else(
    first: Option<Seq<char>>,
    second: Option<Seq<char>>,
) -> Option<Seq<char>> {
    if first is Some {
        first
    } else {
        second
    }
}

/// The value, or the empty text where there is none.
pub open spec fn or_empty(value: Option<Seq<char>>) -> Seq<char> {
    match value {
        Some(t) => t,
        None => Seq::empty(),
    }
}

/// An argument of a build that names a target, a platform or a configuration: neither an option
/// nor a path.
pub open spec fn is_target_word(arg: Seq<char>) -> bool {
    &&& !"-"@.is_prefix_of(arg)
    &&& !".uproject"@.is_suffix_of(arg)
    &&& !arg.contains('/')
    &&& !arg.contains('\\')
}

/// The target words that follow the command itself.
pub open spec fn target_words(args: Seq<Seq<char>>) -> Seq<Seq<char>> {
    if args.len() == 0 {
        Seq::empty()
    } else {
        args.skip(1).filter(|arg: Seq<char>| is_target_word(arg))
    }
}

/// The first three target words of a build.
pub open spec fn build_summary(args: Seq<Seq<char>>) -> Seq<char> {
    joined(at_most(target_words(args), 3), " "@)
}

/// Where the arguments of a UAT run say that the project file is.
pub open spec fn project_path(args: Seq<Seq<char>>) -> Option<Seq<char>> {
    or_else(arg_value_of(args, "-project="@), arg_value_of(args, "-Project="@))
}

/// The target platform of a UAT run.
pub open spec fn target_platform(args: Seq<Seq<char>>) -> Option<Seq<char>> {
    or_else(arg_value_of(args, "-targetplatform="@), arg_value_of(args, "-TargetPlatform="@))
}

/// The build configuration of a UAT run.
pub open spec fn client_config(args: Seq<Seq<char>>) -> Option<Seq<char>> {
    or_else(
        or_else(arg_value_of(args, "-clientconfig="@), arg_value_of(args, "-ClientConfig="@)),
        arg_value_of(args, "-configuration="@),
    )
}

/// Project, platform and configuration of a UAT run, as far as they are known.
pub open spec fn uat_summary(project: Option<Seq<char>>, args: Seq<Seq<char>>) -> Seq<char> {
    let parts = seq![
        or_empty(project),
        or_empty(target_platform(args)),
        or_empty(client_config(args)),
    ];
    joined(parts.filter(|part: Seq<char>| part.len() > 0), " "@)
}

/// A path that every platform reads alike: `/` is its only separator, and it begins neither with
/// a drive letter nor with a network share.
pub open spec fn is_portable_path(path: Seq<char>) -> bool {
    &&& !path.contains('\\')
    &&& path.len() >= 2 ==> path[1] != ':' && !(path[0] == '/' && path[1] == '/')
}

/// How many characters follow the last `/` of `path`.
pub open spec fn last_part_len(path: Seq<char>) -> nat
    decreases path.len(),
{
    if path.len() == 0 || path.last() == '/' {
        0
    } else {
        1 + last_part_len(path.drop_last())
    }
}

/// What follows the last `/` of `path`.
pub open spec fn last_part(path: Seq<char>) -> Seq<char> {
    path.skip(path.len() - last_part_len(path))
}

/// The final component of a portable path. Separators and `.` components at its end are passed
/// over; there is none where the path is empty, is the root or the current directory, or ends in
/// `..`.
pub open spec fn final_component(path: Seq<char>) -> Option<Seq<char>>
    decreases path.len(),
{
    let part = last_part(path);
    if path.len() == 0 || part == seq!['.', '.'] {
        None
    } else if part.len() == 0 {
        final_component(path.drop_last())
    } else if part == seq!['.'] {
        if path.len() >= 2 {
            final_component(path.take(path.len() - 2))
        } else {
            None
        }
    } else {
        Some(part)
    }
}

/// Whether `path` begins like a network share or a device, with two separators of Windows.
pub open spec fn is_share(path: Seq<char>) -> bool {
    path.len() >= 2 && (path[0] == '/' || path[0] == '\\') && (path[1] == '/' || path[1] == '\\')
}

/// Whether `path` may begin with a verbatim prefix of Windows, behind which `/` is an ordinary
/// character.
pub open spec fn is_verbatim(path: Seq<char>) -> bool {
    is_share(path) && path.len() > 2 && path[2] == '?'
}

/// `path` as Windows reads it, written with `/` alone: a drive letter in front is no part of any
/// component, and `\` separates components as `/` does.
pub open spec fn read_on_windows(path: Seq<char>) -> Seq<char> {
    let drive = path.len() >= 2 && path[1] == ':' && ('a' <= path[0] <= 'z' || 'A' <= path[0]
        <= 'Z');
    let rest = if drive {
        path.skip(2)
    } else {
        path
    };
    Seq::new(
        rest.len(),
        |i: int|
            if rest[i] == '\\' {
                '/'
            } else {
                rest[i]
            },
    )
}

/// `name` is the final component of `path` as Unix or as Windows reads it.
pub open spec fn is_final_component(path: Seq<char>, name: Option<Seq<char>>) -> bool {
    name == final_component(path) || name == final_component(read_on_windows(path))
}

/// What the file name of `path` can be: the final component of `path` as Unix or as Windows reads
/// it, which are one on a portable path. On a network share it can also be missing, since Windows
/// keeps the server and the share apart from the components. Behind a verbatim prefix it is a
/// non-empty part of `path`, or nothing.
pub open spec fn is_file_name(path: Seq<char>, name: Option<Seq<char>>) -> bool {
    &&& is_portable_path(path) ==> name == final_component(path)
    &&& !is_share(path) ==> is_final_component(path, name)
    &&& !is_verbatim(path) ==> name is None || is_final_component(path, name)
    &&& name matches Some(n) ==> n.len() > 0 && exists|i: int| occurs_at(path, n, i)
}

/// Calls [`Path::file_name`]. Claimed: it is the final component of the path, read with `/` as
/// the separator or, as Windows does, with `/` and `\` behind a drive letter; which of the two is
/// the platform's choice and is left unsaid. On a network share or a device there may be none,
/// where Windows takes the rest of the path for the share or the device. Behind a verbatim prefix
/// it is a non-empty part of the path or nothing. Holds on Unix and on Windows.
#[verifier::external_body]
fn file_name(path: &str) -> (r: Option<String>)
    ensures
        is_file_name(path@, opt_text(r)),
{
    Path::new(path).file_name().map(|name| name.to_string_lossy().into_owned())
}

/// What the project name of a UAT run can be, given its arguments.
pub open spec fn is_project_name(args: Seq<Seq<char>>, name: Option<Seq<char>>) -> bool {
    match project_path(args) {
        Some(path) => is_file_name(path, name),
        None => name is None,
    }
}

/// What the summary of a UAT run can be, given its arguments.
pub open spec fn is_uat_summary(args: Seq<Seq<char>>, summary: Seq<char>) -> bool {
    exists|name: Option<Seq<char>>| #[trigger]
        is_project_name(args, name) && summary == uat_summary(name, args)
}

/// What follows `prefix` in the first argument that begins with it.
pub fn arg_value(args: &[String], prefix: &str) -> (r: Option<String>)
    ensures
        opt_text(r) == arg_value_of(texts(args@), prefix@),
{
    let mut i: usize = 0;
    assert(texts(args@).skip(0) == texts(args@));
    while i < args.len()
        invariant
            i <= args@.len(),
            arg_value_of(texts(args@), prefix@) == arg_value_of(
                texts(args@).skip(i as int),
                prefix@,
            ),
        decreases args@.len() - i,
    {
        if let Some(rest) = strip_prefix(args[i].as_str(), prefix) {
            return Some(rest.to_owned());
        }
        assert(texts(args@).skip(i as int).drop_first() == texts(args@).skip(i + 1));
        i = i + 1;
    }
    None
}

/// The value of the first argument that begins with `first`; failing that, with `second`.
fn either_arg(args: &[String], first: &str, second: &str) -> (r: Option<String>)
    ensures
        opt_text(r) == or_else(
            arg_value_of(texts(args@), first@),
            arg_value_of(texts(args@), second@),
        ),
{
    match arg_value(args, first) {
        Some(value) => Some(value),
        None => arg_value(args, second),
    }
}

/// What a UAT run calls its project: the file name of the path that its arguments give.
pub fn project_name(args: &[String]) -> (r: Option<String>)
    ensures
        is_project_name(texts(args@), opt_text(r)),
{
    match either_arg(args, "-project=", "-Project=") {
        Some(path) => file_name(path.as_str()),
        None => None,
    }
}

/// The first three arguments of a build that are neither options nor paths.
pub fn build_arg_summary(args: &[String]) -> (r: String)
    ensures
        r@ == build_summary(texts(args@)),
{
    let mut words: Vec<String> = Vec::new();
    let mut i: usize = 1;
    let ghost all = texts(args@);
    let ghost pred = |arg: Seq<char>| is_target_word(arg);
    if args.len() > 0 {
        reveal(Seq::filter);
        assert(all.subrange(1, 1).filter(pred) =~= texts(words@));
        while i < args.len() && words.len() < 3
            invariant
                1 <= i <= args@.len(),
                all == texts(args@),
                pred == |arg: Seq<char>| is_target_word(arg),
                words@.len() <= 3,
                texts(words@) == all.subrange(1, i as int).filter(pred),
            decreases args@.len() - i,
        {
            let arg = args[i].as_str();
            let ghost before = texts(words@);
            assert(all.subrange(1, i + 1).drop_last() =~= all.subrange(1, i as int));
            reveal(Seq::filter);
            if !starts_with(arg, "-") && !ends_with(arg, ".uproject") && !contains_char(arg, '/')
                && !contains_char(arg, '\\') {
                words.push(arg.to_owned());
                assert(texts(words@) =~= before.push(arg@));
            }
            i = i + 1;
        }
        proof {
            Seq::filter_distributes_over_add(
                all.subrange(1, i as int),
                all.skip(i as int),
                pred,
            );
            assert(all.skip(1) =~= all.subrange(1, i as int) + all.skip(i as int));
            if i == args@.len() {
                assert(all.skip(1) =~= all.subrange(1, i as int));
            } else {
                assert(at_most(target_words(all), 3) =~= texts(words@));
            }
        }
    } else {
        assert(texts(words@) =~= target_words(all));
    }
    join(&words, " ")
}

/// Project, platform and configuration of a UAT run whose project is called `project`.
pub fn uat_summary_with(project: Option<String>, args: &[String]) -> (r: String)
    ensures
        r@ == uat_summary(opt_text(project), texts(args@)),
{
    let platform = either_arg(args, "-targetplatform=", "-TargetPlatform=");
    let config = match either_arg(args, "-clientconfig=", "-ClientConfig=") {
        Some(value) => Some(value),
        None => arg_value(args, "-configuration="),
    };
    let ghost p = or_empty(opt_text(project));
    let ghost t = or_empty(opt_text(platform));
    let ghost c = or_empty(opt_text(config));
    let mut parts: Vec<String> = Vec::new();
    push_present(&mut parts, project);
    push_present(&mut parts, platform);
    push_present(&mut parts, config);
    proof {
        let pred = |part: Seq<char>| part.len() > 0;
        reveal_with_fuel(Seq::filter, 4);
        assert(seq![p, t, c].drop_last() =~= seq![p, t]);
        assert(seq![p, t].drop_last() =~= seq![p]);
        assert(seq![p].drop_last() =~= Seq::<Seq<char>>::empty());
        assert(texts(parts@) =~= seq![p, t, c].filter(pred));
    }
    join(&parts, " ")
}

/// Writes the value at the end of `parts`, unless it is missing or empty.
fn push_present(parts: &mut Vec<String>, value: Option<String>)
    ensures
        texts(final(parts)@) == if or_empty(opt_text(value)).len() > 0 {
            texts(old(parts)@).push(or_empty(opt_text(value)))
        } else {
            texts(old(parts)@)
        },
{
    if let Some(text) = value {
        if !text.as_str().is_empty() {
            let ghost before = texts(parts@);
            parts.push(text);
            assert(texts(parts@) =~= before.push(text@));
        }
    }
}

/// Project, platform and configuration of a UAT run.
pub fn uat_arg_summary(args: &[String]) -> (r: String)
    ensures
        is_uat_summary(texts(args@), r@),
{
    uat_summary_with(project_name(args), args)
}

} // verus!
