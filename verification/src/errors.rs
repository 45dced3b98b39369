//! Argument errors that the binding layer reports as `ValueError`.

use vstd::prelude::*;

verus! {

/// Why an argument was refused before any frame work was done.
#[derive(Debug, Clone, Copy, PartialEq, Eq, Structural)]
pub enum ArgError {
    /// A buffer had `got` elements where exactly `expected` are needed.
    Length { expected: usize, got: usize },
    /// An info word `û₀` was not a 12-bit value.
    InfoWordRange { value: u16 },
    /// A dibit count was not a multiple of four.
    DibitCount { count: usize },
}

/// Accept a buffer of exactly `expected` elements.
pub fn require_len(got: usize, expected: usize) -> (res: Result<(), ArgError>)
    ensures
        got == expected ==> res is Ok,
        got != expected ==> res == Err::<(), ArgError>(ArgError::Length { expected, got }),
{
    if got != expected {
        return Err(ArgError::Length { expected, got });
    }
    Ok(())
}

} // verus!
