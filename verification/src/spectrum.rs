//! The magnitude spectrum of one window.
//!
//! The transform itself is floating-point work and is done by the caller.
//! What comes back is checked here before it may be published: one bin per
//! frequency from zero up to, not including, the Nyquist frequency, each
//! bin a finite number that is not negative.

use vstd::prelude::*;
use crate::SPECTRUM_SIZE;
use crate::frame::zeros;
use crate::sample::{is_finite, sign_bit};

verus! {

/// The pattern of a finite single that is not negative (negative zero
/// counts as negative): what a scaled magnitude can be.
pub open spec fn is_magnitude(bits: u32) -> bool {
    !sign_bit(bits) && is_finite(bits)
}

/// Exactly `SPECTRUM_SIZE` bins, each a magnitude.
pub open spec fn is_spectrum(bins: Seq<u32>) -> bool {
    &&& bins.len() == SPECTRUM_SIZE
    &&& forall|i: int| 0 <= i < bins.len() ==> is_magnitude(#[trigger] bins[i])
}

/// Tells whether `bits` is the pattern of a finite single that is not
/// negative.
pub fn check_magnitude(bits: u32) -> (ok: bool)
    ensures
        ok == is_magnitude(bits),
{
    bits < 0x7f80_0000
}

/// A log-scaled magnitude spectrum: `SPECTRUM_SIZE` bins, lowest frequency
/// first.
pub struct Spectrum {
    bins: Vec<u32>,
}

impl View for Spectrum {
    type V = Seq<u32>;

    closed spec fn view(&self) -> Seq<u32> {
        self.bins@
    }
}

impl Clone for Spectrum {
    fn clone(&self) -> (copy: Spectrum)
        ensures
            copy@ == self@,
    {
        Spectrum { bins: self.bins.clone() }
    }
}

impl Spectrum {
    /// A spectrum is valid when its bins are.
    pub open spec fn wf(&self) -> bool {
        is_spectrum(self@)
    }

    /// The spectrum of silence, and the floor of the scale: every bin
    /// positive zero.
    pub fn floor() -> (s: Spectrum)
        ensures
            s.wf(),
            s@ == zeros(SPECTRUM_SIZE as nat),
    {
        let bins: Vec<u32> = vec![0u32; SPECTRUM_SIZE];
        assert(bins@ =~= zeros(SPECTRUM_SIZE as nat));
        Spectrum { bins }
    }

    /// Makes a spectrum of `bins` if there are exactly `SPECTRUM_SIZE` of
    /// them and each is a magnitude.
    pub fn from_bins(bins: Vec<u32>) -> (r: Option<Spectrum>)
        ensures
            r is Some <==> is_spectrum(bins@),
            r matches Some(s) ==> s.wf() && s@ == bins@,
    {
        if bins.len() != SPECTRUM_SIZE {
            return None;
        }
        let mut i: usize = 0;
        while i < SPECTRUM_SIZE
            invariant
                bins@.len() == SPECTRUM_SIZE,
                i <= SPECTRUM_SIZE,
                forall|j: int| 0 <= j < i ==> is_magnitude(#[trigger] bins@[j]),
            decreases SPECTRUM_SIZE - i,
        {
            if !check_magnitude(bins[i]) {
                return None;
            }
            i = i + 1;
        }
        Some(Spectrum { bins })
    }

    /// The bins, lowest frequency first.
    pub fn bins(&self) -> (b: &Vec<u32>)
        ensures
            b@ == self@,
    {
        &self.bins
    }

    /// The bin at position `i`.
    pub fn bin(&self, i: usize) -> (b: u32)
        requires
            i < self@.len(),
        ensures
            b == self@[i as int],
    {
        self.bins[i]
    }
}

} // verus!
