pub mod fragments;
pub mod json_stream;
pub mod json_stringify;
pub mod laws;
pub mod types;

use vstd::prelude::*;

verus! {

use crate::types::ToonError;

/// Runs the command-line entry point.
///
/// # Errors
///
/// Returns `ToonError::Unimplemented` until the command-line wiring exists.
pub fn run() -> (r: Result<(), ToonError>)
    ensures
        r == Err::<(), ToonError>(ToonError::Unimplemented),
{
    Err(ToonError::Unimplemented)
}

} // verus!
