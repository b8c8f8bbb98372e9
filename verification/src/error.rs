use vstd::prelude::*;

verus! {

/// Everything that can go wrong while encoding or decoding a frame.
#[derive(Debug, Clone, Copy, PartialEq, Eq, Structural)]
pub enum Error {
    /// A tare value does not fit the seven digits of the wire format.
    TareValue,
    /// The input does not have the length that its field requires.
    MessageLength,
    /// The input holds a byte outside the ASCII range.
    NonAsciiStr,
    /// The id field is not a non-negative integer.
    BalanceId,
    /// The weight field is not a number.
    BalanceValue,
    /// A status flag is neither `0` nor `1`.
    ParseBoolean,
}

} // verus!
