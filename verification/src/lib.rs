//! Recovery of digital packets from a demodulated radio bit stream.
//!
//! The library covers the bit-level half of a short-range wireless link
//! receiver: hard-decision bit slicing, a sliding preamble scanner, bit-exact
//! packet field extraction, and CRC-16 validation.  The floating-point front
//! end (quadrature demodulation, fractional-delay interpolation and symbol
//! timing recovery) hands the library one hard decision per interpolated
//! sample; everything from there to a validated packet is verified.

pub mod bitfield;
pub mod crc;
pub mod packet;
pub mod scanner;
pub mod slicer;
