//! Stable process exit codes of the command-line tool.

use vstd::prelude::*;

verus! {

/// No findings reached the failure threshold.
pub const OK: i32 = 0;
/// Lint findings reached the failure threshold.
pub const FINDINGS: i32 = 1;
/// Invalid command usage or configuration.
pub const USAGE: i32 = 2;
/// Store access or internal execution failure.
pub const FAILURE: i32 = 3;

} // verus!
