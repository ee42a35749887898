//! Conversion of raw 24-bit patterns and the chip's operating modes.

use vstd::prelude::*;

verus! {

/// Maximum ADC value.
pub const MAX_VALUE: i32 = 8388607;

/// Minimum ADC value.
pub const MIN_VALUE: i32 = -8388608;

/// The signed value of a 24-bit two's-complement pattern.
pub open spec fn sign_extend(x: int) -> int {
    if x >= 0x800000 {
        x - 0x1000000
    } else {
        x
    }
}

/// Converts a 24-bit two's-complement pattern to a signed integer.
pub fn i24_to_i32(x: i32) -> (r: i32)
    requires
        0 <= x <= 0xFFFFFF,
    ensures
        r == sign_extend(x as int),
        x <= 0x7FFFFF ==> r == x,
        x >= 0x800000 ==> r == x - 0x1000000,
        MIN_VALUE <= r <= MAX_VALUE,
{
    if x >= 0x800000 {
        assert(x | !0xFFFFFFi32 == x - 0x1000000) by (bit_vector)
            requires
                0x800000 <= x <= 0xFFFFFF,
        ;
        x | !0xFFFFFF
    } else {
        x
    }
}

/// The three operating modes of the chip (channel and gain).
///
/// Each mode is selected by the number of clock pulses that follow the 24 data
/// bits of a read.
#[derive(Clone, Copy, Debug, PartialEq, Eq, Structural)]
pub enum Mode {
    /// Channel A with gain 128 (one trailing pulse); the chip's default.
    ChAGain128,
    /// Channel B with gain 32 (two trailing pulses).
    ChBGain32,
    /// Channel A with gain 64 (three trailing pulses).
    ChAGain64,
}

/// The number of trailing clock pulses that select a mode.
pub open spec fn pulses(m: Mode) -> nat {
    match m {
        Mode::ChAGain128 => 1,
        Mode::ChBGain32 => 2,
        Mode::ChAGain64 => 3,
    }
}

impl Mode {
    /// The number of trailing clock pulses that select this mode.
    pub fn pulse_count(self) -> (r: u16)
        ensures
            r == pulses(self),
    {
        match self {
            Mode::ChAGain128 => 1,
            Mode::ChBGain32 => 2,
            Mode::ChAGain64 => 3,
        }
    }
}

} // verus!
