//! What the program does with its command line.
use crate::text::same_text;
use vstd::prelude::*;
use vstd::string::*;

verus! {

/// What the program does once it has seen its arguments.
#[derive(Debug, PartialEq, Eq)]
pub enum StartupAction {
    Run,
    PrintVersion,
    Error(String),
}

/// Whether an argument asks for the version.
pub open spec fn asks_version(arg: Seq<char>) -> bool {
    arg == "-v"@ || arg == "--version"@
}

/// What is said of an argument that is not supported.
pub open spec fn unsupported_text(arg: Seq<char>) -> Seq<char> {
    "unsupported command-line argument: "@ + arg
        + ". Use environment variables to configure op-batcher-collector; command-line arguments are not supported."@
}

/// Whether `at` is the first argument that is not supported.
pub open spec fn first_unsupported(args: Seq<String>, at: int) -> bool {
    &&& 0 <= at < args.len()
    &&& !asks_version(args[at]@)
    &&& forall|i: int| 0 <= i < at ==> asks_version(#[trigger] args[i]@)
}

/// Decides what to do from the arguments after the program's name: run without any, print
/// the version where all ask for it, and otherwise refuse the first that is not supported.
pub fn startup_action(args: &Vec<String>) -> (action: StartupAction)
    ensures
        match action {
            StartupAction::Run => args@.len() == 0,
            StartupAction::PrintVersion => args@.len() > 0 && forall|i: int|
                0 <= i < args@.len() ==> asks_version(#[trigger] args@[i]@),
            StartupAction::Error(message) => exists|at: int| #[trigger]
                first_unsupported(args@, at) && message@ == unsupported_text(args@[at]@),
        },
{
    let mut i: usize = 0;
    while i < args.len()
        invariant
            0 <= i <= args@.len(),
            forall|j: int| 0 <= j < i ==> asks_version(#[trigger] args@[j]@),
        decreases args@.len() - i,
    {
        let arg = args[i].as_str();
        if !same_text(arg, "-v") && !same_text(arg, "--version") {
            let mut message = "unsupported command-line argument: ".to_owned();
            message.append(arg);
            message.append(
                ". Use environment variables to configure op-batcher-collector; command-line arguments are not supported.",
            );
            assert(first_unsupported(args@, i as int));
            return StartupAction::Error(message);
        }
        i += 1;
    }
    if args.len() > 0 {
        StartupAction::PrintVersion
    } else {
        StartupAction::Run
    }
}

} // verus!
