//! A platform agnostic driver for the HX711, a 24-bit ADC for load cells.
//!
//! The driver talks to the chip over two lines: a data line that it reads and
//! a clock line that it drives. Every pin operation is recorded in a ghost
//! history, and the contracts describe exactly which operations a call makes
//! and what it returns for every answer the pins give.

pub mod driver;
pub mod lines;
pub mod protocol;
pub mod sample;

pub use driver::Hx711;
pub use lines::{DelayUs, InputLine, OutputLine};
pub use protocol::Error;
pub use sample::{i24_to_i32, Mode, MAX_VALUE, MIN_VALUE};
