//! What to run for a command line, before anything is run.

use crate::args::opt_text;
use crate::mode::UnrealMode;
use crate::text::{contains_char, join, joined, starts_with, texts};
use vstd::prelude::*;

verus! {

/// The command and its arguments, apart.
pub struct RunPlan {
    /// The native Unreal command.
    pub executable: String,
    /// The arguments of the command.
    pub native_args: Vec<String>,
    /// The arguments in one text, for display.
    pub arguments: String,
    /// The command is a path, not a name to be looked up.
    pub explicit_path: bool,
    /// The name under which the raw log is kept.
    pub tee_label: &'static str,
    /// What to tell the user before the run, if anything.
    pub announcement: Option<String>,
}

/// An executable that is given by its path, not by a name to be looked up.
pub open spec fn is_path(executable: Seq<char>) -> bool {
    executable.contains('/') || executable.contains('\\') || "."@.is_prefix_of(executable)
}

/// What is said where the command itself is missing.
pub open spec fn missing_command(mode: UnrealMode) -> Seq<char> {
    "rtk unreal "@ + mode.label_text()
        + ": expected native Unreal command path followed by arguments"@
}

/// What the user is told before the run, if `verbose` asks for it.
pub open spec fn announcement_text(args: Seq<Seq<char>>, verbose: u8) -> Option<Seq<char>> {
    if verbose > 0 {
        Some("Running: "@ + args[0] + " "@ + joined(args.skip(1), " "@))
    } else {
        None
    }
}

impl RunPlan {
    /// The plan for the command line `args`, which is not empty.
    pub open spec fn is_for(&self, mode: UnrealMode, args: Seq<Seq<char>>, verbose: u8) -> bool {
        &&& self.executable@ == args[0]
        &&& texts(self.native_args@) == args.skip(1)
        &&& self.arguments@ == joined(args.skip(1), " "@)
        &&& self.explicit_path == is_path(args[0])
        &&& self.tee_label@ == mode.tee_text()
        &&& opt_text(self.announcement) == announcement_text(args, verbose)
    }
}

/// Whether `executable` is given by its path, not by a name to be looked up.
pub fn is_explicit_path(executable: &str) -> (r: bool)
    ensures
        r == is_path(executable@),
{
    contains_char(executable, '/') || contains_char(executable, '\\') || starts_with(
        executable,
        ".",
    )
}

/// Takes the command line of a run apart: the native command, then its arguments.
pub fn plan_run(mode: UnrealMode, args: &[String], verbose: u8) -> (r: Result<RunPlan, String>)
    ensures
        match r {
            Ok(plan) => args@.len() > 0 && plan.is_for(mode, texts(args@), verbose),
            Err(message) => args@.len() == 0 && message@ == missing_command(mode),
        },
{
    if args.len() == 0 {
        let mut message = "rtk unreal ".to_owned();
        message.append(mode.label());
        message.append(": expected native Unreal command path followed by arguments");
        return Err(message);
    }
    let executable = args[0].clone();
    let mut native_args: Vec<String> = Vec::new();
    let mut i: usize = 1;
    assert(texts(native_args@) =~= texts(args@).subrange(1, 1));
    while i < args.len()
        invariant
            1 <= i <= args@.len(),
            texts(native_args@) == texts(args@).subrange(1, i as int),
        decreases args@.len() - i,
    {
        let ghost before = texts(native_args@);
        native_args.push(args[i].clone());
        i = i + 1;
        assert(texts(native_args@) =~= before.push(args@[i - 1]@));
        assert(texts(native_args@) =~= texts(args@).subrange(1, i as int));
    }
    assert(texts(native_args@) =~= texts(args@).skip(1));
    let arguments = join(&native_args, " ");
    let announcement = if verbose > 0 {
        let mut text = "Running: ".to_owned();
        text.append(executable.as_str());
        text.append(" ");
        text.append(arguments.as_str());
        Some(text)
    } else {
        None
    };
    let explicit_path = is_explicit_path(executable.as_str());
    Ok(
        RunPlan {
            executable,
            native_args,
            arguments,
            explicit_path,
            tee_label: mode.tee_label(),
            announcement,
        },
    )
}

} // verus!
