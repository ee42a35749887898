//! What the driver needs from its environment: a data line to read, a clock
//! line to drive and a way to wait for a number of microseconds.

use vstd::prelude::*;

verus! {

/// A digital input line that can be sampled.
pub trait InputLine {
    /// What a failed read reports.
    type Error;

    /// Reads the line level: `true` when it is high.
    fn is_high(&mut self) -> Result<bool, Self::Error>;
}

/// A digital output line that can be driven high or low.
pub trait OutputLine {
    /// What a failed write reports.
    type Error;

    /// Drives the line high.
    fn set_high(&mut self) -> Result<(), Self::Error>;

    /// Drives the line low.
    fn set_low(&mut self) -> Result<(), Self::Error>;
}

/// A blocking delay with microsecond resolution.
pub trait DelayUs {
    /// Blocks for at least `us` microseconds.
    fn delay_us(&mut self, us: u32);
}

} // verus!
