//! Looking for a newer version.

use vstd::prelude::*;

verus! {

#[derive(Debug)]
pub struct UpdateCheckResult {
    pub available: bool,
    pub version: Option<String>,
    pub notes: Option<String>,
}

/// A newer version that was found.
#[derive(Debug)]
pub struct FoundUpdate {
    pub version: String,
    pub notes: Option<String>,
}

/// What is done about it.
#[derive(Debug)]
pub enum UpdateStep {
    /// The version is installed and the program starts anew.
    Install(FoundUpdate),
    /// There is nothing to do, and this is told.
    Tell(UpdateCheckResult),
}

pub fn check_for_updates(found: Option<FoundUpdate>) -> (r: UpdateStep)
    ensures
        match found {
            Some(update) => r == UpdateStep::Install(update),
            None => r matches UpdateStep::Tell(result) && !result.available
                && result.version is None && result.notes is None,
        },
{
    match found {
        Some(update) => UpdateStep::Install(update),
        None => UpdateStep::Tell(
            UpdateCheckResult { available: false, version: None, notes: None },
        ),
    }
}

}
