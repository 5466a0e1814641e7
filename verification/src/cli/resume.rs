//! Going on with an experiment.
use vstd::prelude::*;

use crate::cli::run::LoopArgs;

verus! {

/// What resuming takes.
#[derive(Debug)]
pub struct ResumeArgs {
    pub name: String,
    /// Go on even with uncommitted changes.
    pub allow_dirty: bool,
}

/// The loop that resuming runs: it takes up an iteration that was in progress
/// and never starts afresh.
pub fn run(args: ResumeArgs) -> (r: LoopArgs)
    ensures
        r == (LoopArgs {
            name: args.name,
            allow_dirty: args.allow_dirty,
            recover_iter: true,
            fresh: false,
        }),
{
    LoopArgs { name: args.name, allow_dirty: args.allow_dirty, recover_iter: true, fresh: false }
}

} // verus!
