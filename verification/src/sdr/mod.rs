//! Software-defined-radio front end for 1090 MHz Mode-S: I/Q magnitude
//! conversion, preamble detection, bit slicing and frame validation.
pub mod ais_demod;
pub mod mag;
pub mod preamble;
pub mod slicer;
pub mod demod1090;
