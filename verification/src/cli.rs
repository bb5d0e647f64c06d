//! How a run is carried out, as the command line asks for it.

use vstd::prelude::*;

verus! {

/// How a run is carried out and reported.
#[derive(Debug, Clone, Copy, PartialEq, Eq, Structural)]
pub enum Mode {
    /// Install, showing the plan as a tree that updates in place.
    Tree,
    /// Install, streaming every command's output behind a prefix naming its step.
    Log,
    /// Print the plan without running it.
    DryRun,
}

/// The refusal of a command line that asks for a dry run and a streamed run at
/// once.
pub open spec fn conflict_message() -> Seq<char> {
    "--dry-run cannot be used with 'log'"@
}

/// The mode that `--dry-run` and the `log` subcommand select. The two exclude
/// each other, a conflict that the argument parser cannot express because the
/// directory option is accepted on either side of the subcommand.
pub fn mode(dry_run: bool, log: bool) -> (r: Result<Mode, String>)
    ensures
        dry_run && log <==> r is Err,
        match r {
            Ok(m) => m == if dry_run {
                Mode::DryRun
            } else if log {
                Mode::Log
            } else {
                Mode::Tree
            },
            Err(message) => message@ == conflict_message(),
        },
{
    if dry_run && log {
        Err(String::from_str("--dry-run cannot be used with 'log'"))
    } else if dry_run {
        Ok(Mode::DryRun)
    } else if log {
        Ok(Mode::Log)
    } else {
        Ok(Mode::Tree)
    }
}

} // verus!
