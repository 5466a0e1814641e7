//! Making up for missing summaries.
use vstd::prelude::*;

verus! {

/// What making up for summaries takes.
#[derive(Debug)]
pub struct BackfillArgs {
    pub name: String,
    /// Make the summaries that are there anew.
    pub force: bool,
}

/// What is told at the end: summaries are off, some were written, or none was
/// missing.
pub fn report(enabled: bool, changed: bool) -> (r: &'static str)
    ensures
        r@ == if !enabled {
            "summarize is disabled in config; nothing to backfill"@
        } else if changed {
            "backfilled missing summaries"@
        } else {
            "no missing summaries to backfill"@
        },
{
    if !enabled {
        "summarize is disabled in config; nothing to backfill"
    } else if changed {
        "backfilled missing summaries"
    } else {
        "no missing summaries to backfill"
    }
}

} // verus!
