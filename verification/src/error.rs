//! Why an instruction fails.

use vstd::prelude::*;

verus! {

/// The configuration is outside the caps.
pub const E_BAD_PARAMS: u32 = 1;

/// The curve account is not the one the mint derives.
pub const E_BAD_PDA: u32 = 2;

/// The mint is not a usable SPL mint.
pub const E_BAD_MINT: u32 = 3;

/// The creator account is not the recorded one.
pub const E_BAD_CREATOR: u32 = 4;

/// The trade would pay less than the caller asked for.
pub const E_SLIPPAGE: u32 = 5;

/// The buy is too large for the pool.
pub const E_BUY_TOO_LARGE: u32 = 6;

/// The vault would be left below its rent.
pub const E_INSUFFICIENT_VAULT: u32 = 7;

/// A number does not fit.
pub const E_OVERFLOW: u32 = 8;

/// The curve exists already.
pub const E_ALREADY_INIT: u32 = 9;

/// Nothing is traded.
pub const E_ZERO_AMOUNT: u32 = 10;

/// The token account is not one of the curve's mint.
pub const E_BAD_TOKEN_ACCOUNT: u32 = 11;

/// The price has reached its cap.
pub const E_CURVE_SATURATED: u32 = 12;

/// Why an instruction fails.
#[derive(Clone, Copy, PartialEq, Eq, Structural, Debug)]
pub enum ProgramError {
    /// One of the codes above.
    Custom(u32),
    MissingRequiredSignature,
    IncorrectProgramId,
    NotEnoughAccountKeys,
    /// Bytes could not be read or written as the value they should hold.
    BorshIoError,
    /// An error of the runtime, by its number.
    Runtime(u64),
}

/// The error with the given code.
pub fn err(code: u32) -> (r: ProgramError)
    ensures
        r == ProgramError::Custom(code),
{
    ProgramError::Custom(code)
}

} // verus!
