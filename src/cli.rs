//! Command-line values the library checks.
use crate::text::{digits_value, is_unsigned_text, parse_u64, unsigned_digits};
use vstd::prelude::*;

verus! {

/// Why a thread count is refused.
#[derive(Clone, Copy, Debug, PartialEq, Eq)]
pub enum ThreadCountError {
    Invalid,
    Zero,
}

/// Parses a worker thread count: a positive decimal number.
pub fn parse_threads(value: &str) -> (r: Result<usize, ThreadCountError>)
    ensures
        !(is_unsigned_text(value@) && digits_value(unsigned_digits(value@)) <= usize::MAX) ==> r == Err::<usize, ThreadCountError>(ThreadCountError::Invalid),
        is_unsigned_text(value@) && digits_value(unsigned_digits(value@)) == 0 ==> r == Err::<usize, ThreadCountError>(ThreadCountError::Zero),
        is_unsigned_text(value@) && 0 < digits_value(unsigned_digits(value@)) <= usize::MAX ==> r == Ok::<usize, ThreadCountError>(digits_value(unsigned_digits(value@)) as usize),
{
    match parse_u64(value) {
        None => Err(ThreadCountError::Invalid),
        Some(v) => {
            if v > usize::MAX as u64 {
                Err(ThreadCountError::Invalid)
            } else if v == 0 {
                Err(ThreadCountError::Zero)
            } else {
                Ok(v as usize)
            }
        },
    }
}

/// Arguments of the `bounds` command.
#[derive(Debug)]
pub struct BoundsConfig {
    pub input: String,
}

} // verus!
