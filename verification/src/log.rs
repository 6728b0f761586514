//! How much the program says.
//!
//! Progress is told unless the user wants quiet, and diagnostics are told only
//! where the user wants them. Warnings and errors are always told.

use vstd::prelude::*;

verus! {

/// How much the user wants to be told.
#[derive(Debug, Clone, Copy, PartialEq, Eq)]
pub struct Verbosity {
    pub verbose: bool,
    pub quiet: bool,
}

impl Default for Verbosity {
    /// Progress is told, diagnostics are not.
    fn default() -> (r: Self)
        ensures
            !r.verbose,
            !r.quiet,
    {
        Verbosity { verbose: false, quiet: false }
    }
}

/// Turns diagnostics on or off.
pub fn set_verbose(level: &mut Verbosity, verbose: bool)
    ensures
        *final(level) == (Verbosity { verbose, ..*old(level) }),
{
    level.verbose = verbose;
}

/// Whether diagnostics are told.
pub fn is_verbose(level: &Verbosity) -> (r: bool)
    ensures
        r == level.verbose,
{
    level.verbose
}

/// Turns quiet on or off.
pub fn set_quiet(level: &mut Verbosity, quiet: bool)
    ensures
        *final(level) == (Verbosity { quiet, ..*old(level) }),
{
    level.quiet = quiet;
}

/// Whether progress is kept quiet.
pub fn is_quiet(level: &Verbosity) -> (r: bool)
    ensures
        r == level.quiet,
{
    level.quiet
}

} // verus!
