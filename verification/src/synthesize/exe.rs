//! Executable files.

pub mod mac;

use vstd::prelude::*;

verus! {

/// Why a program cannot be run.
#[derive(Debug, Clone, Copy, PartialEq, Eq, Structural)]
pub enum ExecutableError {
    /// It was not built.
    NoBuildPath,
}

} // verus!
