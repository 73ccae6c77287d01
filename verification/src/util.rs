//! Constants shared by the stages of the pipeline.

use vstd::prelude::*;

verus! {

/// Exit code for a wrong command line.
pub const EX_USAGE: i32 = 64;

/// Exit code after a scan, parse or resolve error.
pub const EX_DATAERR: i32 = 65;

/// Exit code after a runtime error.
pub const EX_SOFTWARE: i32 = 70;

/// The largest number of parameters or arguments that is not reported.
pub const MAXIMUM_PARAMETER_COUNT: usize = 255;

/// The exit code of a run that read a file, from the two flags of the
/// reporter: a compile-time error takes precedence over a runtime error.
pub open spec fn exit_code_of(had_error: bool, had_runtime_error: bool) -> i32 {
    if had_error {
        EX_DATAERR
    } else if had_runtime_error {
        EX_SOFTWARE
    } else {
        0
    }
}

/// Computes the exit code of a run from the two flags of the reporter.
pub fn exit_code(had_error: bool, had_runtime_error: bool) -> (code: i32)
    ensures
        code == exit_code_of(had_error, had_runtime_error),
{
    if had_error {
        EX_DATAERR
    } else if had_runtime_error {
        EX_SOFTWARE
    } else {
        0
    }
}

} // verus!
