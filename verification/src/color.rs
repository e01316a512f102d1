//! Colours as three channels, each an IEEE-754 binary64 number held as its bit
//! pattern.

use vstd::prelude::*;

verus! {

/// A colour. Each channel is the bit pattern of a binary64 number; its range
/// is not constrained. Two colours are equal when their bit patterns are.
#[derive(Clone, Copy, Debug, PartialEq, Eq, Structural)]
pub struct Color {
    pub red: u64,
    pub green: u64,
    pub blue: u64,
}

/// Black: all three channels are positive zero.
pub open spec fn black() -> Color {
    Color { red: 0, green: 0, blue: 0 }
}

/// Builds a colour from the bit patterns of its three channels.
pub fn color(red: u64, green: u64, blue: u64) -> (c: Color)
    ensures
        c == (Color { red, green, blue }),
{
    Color { red, green, blue }
}

} // verus!
