//! The core of a live audio spectrum analyzer.
//!
//! Audio arrives from an input device in buffers of native samples. The
//! samples are normalized (`sample`), collected into windows of `FFT_SIZE`
//! samples (`frame`), and each completed window is published together with
//! its magnitude spectrum (`spectrum`) as the latest snapshot (`snapshot`).
//! The capture driver (`driver`) ties these together and follows the life
//! cycle of the input stream.
//!
//! Numbers with a fractional part never appear here as such: a sample or a
//! spectrum bin is the 32-bit pattern of an IEEE 754 single-precision number.
//! Device access and the Fourier transform are the caller's part.

use vstd::prelude::*;

pub mod frame;
pub mod sample;
pub mod spectrum;
pub mod snapshot;
pub mod driver;

verus! {

/// Number of samples in one analysis window.
pub const FFT_SIZE: usize = 1024;

/// Number of frequency bins in one spectrum: the lower half of the transform.
pub const SPECTRUM_SIZE: usize = FFT_SIZE / 2;

} // verus!
