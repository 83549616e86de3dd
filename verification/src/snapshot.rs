//! The latest waveform and spectrum, kept and replaced as one pair.

use vstd::prelude::*;
use crate::{FFT_SIZE, SPECTRUM_SIZE};
use crate::frame::{zeros, Window};
use crate::spectrum::{is_spectrum, Spectrum};

verus! {

/// What a snapshot holds, as two sequences of patterns.
pub struct SnapshotView {
    pub waveform: Seq<u32>,
    pub spectrum: Seq<u32>,
}

/// The snapshot that is in place before any window has been completed:
/// a window of zeros and a spectrum of zeros.
pub open spec fn initial_snapshot() -> SnapshotView {
    SnapshotView { waveform: zeros(FFT_SIZE as nat), spectrum: zeros(SPECTRUM_SIZE as nat) }
}

/// A whole window, and a valid spectrum beside it.
pub open spec fn is_snapshot(v: SnapshotView) -> bool {
    &&& v.waveform.len() == FFT_SIZE
    &&& is_spectrum(v.spectrum)
}

/// One waveform window together with the spectrum that belongs to it.
pub struct Snapshot {
    waveform: Window,
    spectrum: Spectrum,
}

impl View for Snapshot {
    type V = SnapshotView;

    closed spec fn view(&self) -> SnapshotView {
        SnapshotView { waveform: self.waveform@, spectrum: self.spectrum@ }
    }
}

impl Clone for Snapshot {
    fn clone(&self) -> (copy: Snapshot)
        ensures
            copy@ == self@,
    {
        Snapshot { waveform: self.waveform.clone(), spectrum: self.spectrum.clone() }
    }
}

impl Snapshot {
    /// A snapshot is valid when both of its parts are.
    pub open spec fn wf(&self) -> bool {
        is_snapshot(self@)
    }

    /// Pairs a window with its spectrum.
    pub fn new(waveform: Window, spectrum: Spectrum) -> (s: Snapshot)
        requires
            waveform.wf(),
            spectrum.wf(),
        ensures
            s.wf(),
            s@ == (SnapshotView { waveform: waveform@, spectrum: spectrum@ }),
    {
        Snapshot { waveform, spectrum }
    }

    /// The all-zero snapshot.
    pub fn initial() -> (s: Snapshot)
        ensures
            s.wf(),
            s@ == initial_snapshot(),
    {
        Snapshot { waveform: Window::silence(), spectrum: Spectrum::floor() }
    }

    /// The waveform window.
    pub fn waveform(&self) -> (w: &Window)
        ensures
            w@ == self@.waveform,
    {
        &self.waveform
    }

    /// The spectrum of the waveform window.
    pub fn spectrum(&self) -> (s: &Spectrum)
        ensures
            s@ == self@.spectrum,
    {
        &self.spectrum
    }
}

/// Holds the most recent snapshot. The producer replaces it, consumers copy
/// it out; both parts change together or not at all.
pub struct SnapshotStore {
    current: Snapshot,
}

impl View for SnapshotStore {
    type V = SnapshotView;

    closed spec fn view(&self) -> SnapshotView {
        self.current@
    }
}

impl SnapshotStore {
    /// The store always holds a valid snapshot.
    pub open spec fn wf(&self) -> bool {
        is_snapshot(self@)
    }

    /// A store that holds the all-zero snapshot.
    pub fn new() -> (store: SnapshotStore)
        ensures
            store.wf(),
            store@ == initial_snapshot(),
    {
        SnapshotStore { current: Snapshot::initial() }
    }

    /// Replaces waveform and spectrum together.
    pub fn publish(&mut self, waveform: Window, spectrum: Spectrum)
        requires
            waveform.wf(),
            spectrum.wf(),
        ensures
            final(self).wf(),
            final(self)@ == (SnapshotView { waveform: waveform@, spectrum: spectrum@ }),
    {
        self.current = Snapshot::new(waveform, spectrum);
    }

    /// A copy of the current snapshot.
    pub fn read(&self) -> (s: Snapshot)
        ensures
            s@ == self@,
    {
        self.current.clone()
    }
}

} // verus!
