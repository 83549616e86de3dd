//! The capture driver: the life cycle of the input stream, and the path of
//! every delivered buffer into the accumulator and of every analyzed window
//! into the snapshot store.
//!
//! The driver does no input or output itself. Its caller talks to the audio
//! device and runs the transform; it reports what happened as events, and
//! does what the returned action says. Each window that the driver hands
//! out for analysis it also keeps, until the caller answers with the
//! spectrum: so the waveform of every snapshot is a window that was really
//! captured, and windows are published in the order of their completion.

use vstd::prelude::*;
use crate::FFT_SIZE;
use crate::frame::{
    complete_windows,
    lemma_feed_in_parts,
    lemma_frame_boundaries,
    unfinished_tail,
    FrameAccumulator,
    Window,
};
use crate::sample::{SampleBuffer, SampleEncoding};
use crate::snapshot::{initial_snapshot, is_snapshot, Snapshot, SnapshotStore, SnapshotView};
use crate::spectrum::{is_spectrum, Spectrum};

verus! {

/// How long opening the stream may wait for the device, in seconds.
pub const STREAM_TIMEOUT_SECS: u64 = 4;

/// What the device negotiated: fixed for the life of the stream.
#[derive(Clone, Copy, Debug, PartialEq, Eq, Structural)]
pub struct StreamConfig {
    /// Samples per second.
    pub sample_rate: u32,
    /// Number of interleaved channels.
    pub channels: u16,
    /// Encoding of the delivered samples.
    pub encoding: SampleEncoding,
}

/// Why capture could not start, or why it ended.
#[derive(Clone, Copy, Debug, PartialEq, Eq, Structural)]
pub enum CaptureError {
    /// No input device is available.
    NoInputDevice,
    /// The device reports no default input configuration.
    UnsupportedConfig,
    /// The stream could not be opened, or the encoding has no
    /// normalization path.
    StreamOpen,
    /// The stream was opened but did not start.
    StreamStart,
    /// The device failed while streaming.
    StreamRuntime,
}

impl CaptureError {
    /// The text of the message for this error.
    pub open spec fn message_text(self) -> Seq<char> {
        match self {
            CaptureError::NoInputDevice => "No input device"@,
            CaptureError::UnsupportedConfig => "No default input configuration"@,
            CaptureError::StreamOpen => "Could not open input stream"@,
            CaptureError::StreamStart => "Could not start input stream"@,
            CaptureError::StreamRuntime => "Stream error"@,
        }
    }

    /// A message for the operator.
    pub fn message(self) -> (text: &'static str)
        ensures
            text@ == self.message_text(),
    {
        match self {
            CaptureError::NoInputDevice => "No input device",
            CaptureError::UnsupportedConfig => "No default input configuration",
            CaptureError::StreamOpen => "Could not open input stream",
            CaptureError::StreamStart => "Could not start input stream",
            CaptureError::StreamRuntime => "Stream error",
        }
    }
}

/// Where the driver is in the life of the stream.
#[derive(Clone, Copy, Debug, PartialEq, Eq, Structural)]
pub enum DriverState {
    /// Nothing has been done yet.
    Uninitialized,
    /// An input device was found.
    DeviceSelected,
    /// The device reported its configuration.
    StreamConfigured(StreamConfig),
    /// The stream is open and delivers buffers.
    Streaming(StreamConfig),
    /// The stream has ended, for good.
    Stopped,
}

/// What the caller observed.
#[derive(Clone, Copy, Debug, PartialEq, Eq, Structural)]
pub enum DriverEvent {
    /// A default input device exists.
    DeviceFound,
    /// There is no input device.
    NoDevice,
    /// The device reported this default input configuration.
    ConfigReported(StreamConfig),
    /// The device reported no default input configuration.
    NoConfig,
    /// The stream was opened and started.
    Launched,
    /// The device refused to open the stream.
    OpenRejected,
    /// The stream was opened but refused to start.
    StartRejected,
    /// The device reported an error it cannot recover from.
    StreamFailed,
    /// The operator asked for capture to end.
    Shutdown,
}

/// What the caller has to do next.
#[derive(Clone, Copy, Debug, PartialEq, Eq, Structural)]
pub enum DriverAction {
    /// Ask the device for its default input configuration.
    QueryConfig,
    /// Open a stream that delivers samples in this encoding, and start it.
    OpenStream(SampleEncoding),
    /// Deliver every buffer of the stream to the driver.
    Capture,
    /// Release the stream.
    Release,
    /// Report the error to the operator and release the stream.
    Halt(CaptureError),
    /// Give up starting: return the error to whoever asked for capture.
    Fail(CaptureError),
    /// The event does not apply in this state: do nothing.
    Ignore,
}

/// The life cycle as a table: the state and the action that follow from a
/// state and an event.
pub open spec fn transition(state: DriverState, event: DriverEvent) -> (DriverState, DriverAction) {
    match state {
        DriverState::Uninitialized => match event {
            DriverEvent::DeviceFound => (DriverState::DeviceSelected, DriverAction::QueryConfig),
            DriverEvent::NoDevice => (state, DriverAction::Fail(CaptureError::NoInputDevice)),
            _ => (state, DriverAction::Ignore),
        },
        DriverState::DeviceSelected => match event {
            DriverEvent::ConfigReported(config) => (
                DriverState::StreamConfigured(config),
                if config.encoding.supported() {
                    DriverAction::OpenStream(config.encoding)
                } else {
                    DriverAction::Fail(CaptureError::StreamOpen)
                },
            ),
            DriverEvent::NoConfig => (state, DriverAction::Fail(CaptureError::UnsupportedConfig)),
            _ => (state, DriverAction::Ignore),
        },
        DriverState::StreamConfigured(config) => match event {
            DriverEvent::Launched => if config.encoding.supported() {
                (DriverState::Streaming(config), DriverAction::Capture)
            } else {
                (state, DriverAction::Fail(CaptureError::StreamOpen))
            },
            DriverEvent::OpenRejected => (state, DriverAction::Fail(CaptureError::StreamOpen)),
            DriverEvent::StartRejected => (state, DriverAction::Fail(CaptureError::StreamStart)),
            _ => (state, DriverAction::Ignore),
        },
        DriverState::Streaming(_) => match event {
            DriverEvent::StreamFailed => (
                DriverState::Stopped,
                DriverAction::Halt(CaptureError::StreamRuntime),
            ),
            DriverEvent::Shutdown => (DriverState::Stopped, DriverAction::Release),
            _ => (state, DriverAction::Ignore),
        },
        DriverState::Stopped => (state, DriverAction::Ignore),
    }
}

/// How far a state is along the life cycle.
pub open spec fn progress(state: DriverState) -> nat {
    match state {
        DriverState::Uninitialized => 0,
        DriverState::DeviceSelected => 1,
        DriverState::StreamConfigured(_) => 2,
        DriverState::Streaming(_) => 3,
        DriverState::Stopped => 4,
    }
}

/// Computes one step of the life cycle.
pub fn step(state: DriverState, event: DriverEvent) -> (next: (DriverState, DriverAction))
    ensures
        next == transition(state, event),
{
    match (state, event) {
        (DriverState::Uninitialized, DriverEvent::DeviceFound) => (
            DriverState::DeviceSelected,
            DriverAction::QueryConfig,
        ),
        (DriverState::Uninitialized, DriverEvent::NoDevice) => (
            state,
            DriverAction::Fail(CaptureError::NoInputDevice),
        ),
        (DriverState::DeviceSelected, DriverEvent::ConfigReported(config)) => {
            if config.encoding.is_supported() {
                (DriverState::StreamConfigured(config), DriverAction::OpenStream(config.encoding))
            } else {
                (DriverState::StreamConfigured(config), DriverAction::Fail(CaptureError::StreamOpen))
            }
        },
        (DriverState::DeviceSelected, DriverEvent::NoConfig) => (
            state,
            DriverAction::Fail(CaptureError::UnsupportedConfig),
        ),
        (DriverState::StreamConfigured(config), DriverEvent::Launched) => {
            if config.encoding.is_supported() {
                (DriverState::Streaming(config), DriverAction::Capture)
            } else {
                (state, DriverAction::Fail(CaptureError::StreamOpen))
            }
        },
        (DriverState::StreamConfigured(_), DriverEvent::OpenRejected) => (
            state,
            DriverAction::Fail(CaptureError::StreamOpen),
        ),
        (DriverState::StreamConfigured(_), DriverEvent::StartRejected) => (
            state,
            DriverAction::Fail(CaptureError::StreamStart),
        ),
        (DriverState::Streaming(_), DriverEvent::StreamFailed) => (
            DriverState::Stopped,
            DriverAction::Halt(CaptureError::StreamRuntime),
        ),
        (DriverState::Streaming(_), DriverEvent::Shutdown) => (
            DriverState::Stopped,
            DriverAction::Release,
        ),
        _ => (state, DriverAction::Ignore),
    }
}

/// What a driver holds: its place in the life cycle, the samples of the
/// unfinished window, the completed windows that await their spectrum
/// (oldest first), and the published snapshot.
pub struct DriverView {
    pub state: DriverState,
    pub pending: Seq<u32>,
    pub awaiting: Seq<Seq<u32>>,
    pub snapshot: SnapshotView,
}

/// One call on a driver, with what it was given.
pub enum DriverOp {
    /// An event was handled.
    Event(DriverEvent),
    /// A buffer was delivered; these are its samples after normalization.
    Samples(Seq<u32>),
    /// The spectrum of the oldest awaiting window was offered.
    Publish(Seq<u32>),
    /// The oldest awaiting window was given up.
    Discard,
}

impl DriverView {
    /// A driver that has done nothing yet.
    pub open spec fn fresh() -> DriverView {
        DriverView {
            state: DriverState::Uninitialized,
            pending: Seq::empty(),
            awaiting: Seq::empty(),
            snapshot: initial_snapshot(),
        }
    }

    /// The driver after an event: only the state moves.
    pub open spec fn after_event(self, event: DriverEvent) -> DriverView {
        DriverView {
            state: transition(self.state, event).0,
            pending: self.pending,
            awaiting: self.awaiting,
            snapshot: self.snapshot,
        }
    }

    /// The windows that a delivered buffer completes: none unless the
    /// driver is streaming.
    pub open spec fn windows_from(self, samples: Seq<u32>) -> Seq<Seq<u32>> {
        if self.state is Streaming {
            complete_windows(self.pending + samples)
        } else {
            Seq::empty()
        }
    }

    /// The driver after a delivered buffer: while streaming, the completed
    /// windows join those that await their spectrum, and the samples that
    /// follow the last completed window stay pending.
    pub open spec fn after_samples(self, samples: Seq<u32>) -> DriverView {
        if self.state is Streaming {
            DriverView {
                state: self.state,
                pending: unfinished_tail(self.pending + samples),
                awaiting: self.awaiting + complete_windows(self.pending + samples),
                snapshot: self.snapshot,
            }
        } else {
            self
        }
    }

    /// The driver is streaming and a window awaits its spectrum.
    pub open spec fn expects_spectrum(self) -> bool {
        self.state is Streaming && self.awaiting.len() > 0
    }

    /// The driver after a spectrum was offered: if one was expected, the
    /// oldest awaiting window and the spectrum are the new snapshot.
    pub open spec fn after_publish(self, spectrum: Seq<u32>) -> DriverView {
        if self.expects_spectrum() {
            DriverView {
                state: self.state,
                pending: self.pending,
                awaiting: self.awaiting.drop_first(),
                snapshot: SnapshotView { waveform: self.awaiting.first(), spectrum },
            }
        } else {
            self
        }
    }

    /// The driver after the oldest awaiting window was given up.
    pub open spec fn after_discard(self) -> DriverView {
        if self.expects_spectrum() {
            DriverView {
                state: self.state,
                pending: self.pending,
                awaiting: self.awaiting.drop_first(),
                snapshot: self.snapshot,
            }
        } else {
            self
        }
    }

    /// The driver after one call.
    pub open spec fn after(self, op: DriverOp) -> DriverView {
        match op {
            DriverOp::Event(event) => self.after_event(event),
            DriverOp::Samples(samples) => self.after_samples(samples),
            DriverOp::Publish(spectrum) => self.after_publish(spectrum),
            DriverOp::Discard => self.after_discard(),
        }
    }

    /// The driver after a run of calls, first to last.
    pub open spec fn after_all(self, ops: Seq<DriverOp>) -> DriverView
        decreases ops.len(),
    {
        if ops.len() == 0 {
            self
        } else {
            self.after_all(ops.drop_last()).after(ops.last())
        }
    }

    /// The samples that the driver took in during a run of calls: those of
    /// every buffer that was delivered while it was streaming, in order.
    pub open spec fn captured(self, ops: Seq<DriverOp>) -> Seq<u32>
        decreases ops.len(),
    {
        if ops.len() == 0 {
            Seq::empty()
        } else {
            let earlier = self.captured(ops.drop_last());
            match ops.last() {
                DriverOp::Samples(samples) => if self.after_all(ops.drop_last()).state is Streaming {
                    earlier + samples
                } else {
                    earlier
                },
                _ => earlier,
            }
        }
    }

    /// How many awaiting windows were answered during a run of calls, by a
    /// spectrum or by giving them up.
    pub open spec fn answered(self, ops: Seq<DriverOp>) -> nat
        decreases ops.len(),
    {
        if ops.len() == 0 {
            0
        } else {
            let earlier = self.answered(ops.drop_last());
            let expected = self.after_all(ops.drop_last()).expects_spectrum();
            match ops.last() {
                DriverOp::Publish(_) => if expected { earlier + 1 } else { earlier },
                DriverOp::Discard => if expected { earlier + 1 } else { earlier },
                _ => earlier,
            }
        }
    }
}

/// The producer side of the analyzer.
pub struct CaptureDriver {
    state: DriverState,
    accumulator: FrameAccumulator,
    awaiting: Vec<Window>,
    store: SnapshotStore,
}

impl View for CaptureDriver {
    type V = DriverView;

    closed spec fn view(&self) -> DriverView {
        DriverView {
            state: self.state,
            pending: self.accumulator@,
            awaiting: Seq::new(self.awaiting@.len(), |i: int| self.awaiting@[i]@),
            snapshot: self.store@,
        }
    }
}

impl CaptureDriver {
    /// The accumulator, the awaiting windows and the store are well formed.
    pub closed spec fn wf(&self) -> bool {
        &&& self.accumulator.wf()
        &&& self.store.wf()
        &&& forall|i: int| 0 <= i < self.awaiting@.len() ==> (#[trigger] self.awaiting@[i]).wf()
    }

    /// A well-formed driver holds less than a window of pending samples,
    /// whole windows awaiting their spectrum, and a valid snapshot.
    pub proof fn lemma_wf(&self)
        requires
            self.wf(),
        ensures
            self@.pending.len() < FFT_SIZE,
            forall|i: int|
                0 <= i < self@.awaiting.len() ==> (#[trigger] self@.awaiting[i]).len() == FFT_SIZE,
            is_snapshot(self@.snapshot),
    {
        self.accumulator.lemma_partial();
    }

    /// A driver that has done nothing yet: no samples, and the all-zero
    /// snapshot in place.
    pub fn new() -> (driver: CaptureDriver)
        ensures
            driver.wf(),
            driver@ == DriverView::fresh(),
    {
        let driver = CaptureDriver {
            state: DriverState::Uninitialized,
            accumulator: FrameAccumulator::new(),
            awaiting: Vec::new(),
            store: SnapshotStore::new(),
        };
        assert(driver@.awaiting =~= Seq::<Seq<u32>>::empty());
        driver
    }

    /// The current state.
    pub fn state(&self) -> (s: DriverState)
        ensures
            s == self@.state,
    {
        self.state
    }

    /// Tells whether the stream is delivering buffers.
    pub fn is_streaming(&self) -> (b: bool)
        ensures
            b == (self@.state is Streaming),
    {
        match self.state {
            DriverState::Streaming(_) => true,
            _ => false,
        }
    }

    /// The number of completed windows that await their spectrum.
    pub fn awaiting(&self) -> (n: usize)
        ensures
            n == self@.awaiting.len(),
    {
        self.awaiting.len()
    }

    /// Takes note of an event and says what to do next. Nothing but the
    /// state changes.
    pub fn handle(&mut self, event: DriverEvent) -> (action: DriverAction)
        requires
            old(self).wf(),
        ensures
            final(self).wf(),
            action == transition(old(self)@.state, event).1,
            final(self)@ == old(self)@.after_event(event),
    {
        let (next, action) = step(self.state, event);
        self.state = next;
        assert(self@.awaiting =~= old(self)@.awaiting);
        action
    }

    /// Takes one delivered buffer. While streaming, every sample is
    /// normalized and stored, and the windows completed on the way are
    /// returned for analysis, oldest first; the driver keeps each of them
    /// until its spectrum is offered. In any other state the buffer is
    /// dropped. The snapshot does not change.
    pub fn on_samples(&mut self, buffer: &SampleBuffer) -> (windows: Vec<Window>)
        requires
            old(self).wf(),
        ensures
            final(self).wf(),
            final(self)@ == old(self)@.after_samples(buffer.normalized()),
            windows@.len() == old(self)@.windows_from(buffer.normalized()).len(),
            forall|k: int|
                0 <= k < windows@.len() ==> (#[trigger] windows@[k]).wf() && windows@[k]@
                    == old(self)@.windows_from(buffer.normalized())[k],
    {
        if !self.is_streaming() {
            return Vec::new();
        }
        let samples: Vec<u32> = buffer.normalize();
        let windows: Vec<Window> = self.accumulator.feed(samples.as_slice());
        let ghost completed: Seq<Seq<u32>> = complete_windows(
            old(self)@.pending + buffer.normalized(),
        );
        let mut i: usize = 0;
        while i < windows.len()
            invariant
                i <= windows@.len(),
                self.accumulator.wf(),
                self.store.wf(),
                self.state == old(self).state,
                self.accumulator@ == unfinished_tail(old(self)@.pending + buffer.normalized()),
                self.store@ == old(self).store@,
                windows@.len() == completed.len(),
                forall|k: int|
                    0 <= k < windows@.len() ==> (#[trigger] windows@[k]).wf() && windows@[k]@
                        == completed[k],
                self.awaiting@.len() == old(self).awaiting@.len() + i,
                forall|k: int|
                    0 <= k < self.awaiting@.len() ==> (#[trigger] self.awaiting@[k]).wf(),
                forall|k: int|
                    0 <= k < old(self).awaiting@.len() ==> (#[trigger] self.awaiting@[k])@ == old(
                        self,
                    ).awaiting@[k]@,
                forall|k: int|
                    old(self).awaiting@.len() <= k < self.awaiting@.len() ==> (
                    #[trigger] self.awaiting@[k])@ == completed[k - old(self).awaiting@.len()],
            decreases windows@.len() - i,
        {
            self.awaiting.push(windows[i].clone());
            i = i + 1;
        }
        assert(self@.awaiting =~= old(self)@.awaiting + completed);
        windows
    }

    /// Offers the spectrum of the oldest awaiting window. If the driver is
    /// streaming and a window awaits its spectrum, the two replace the
    /// snapshot together; otherwise the spectrum is dropped and nothing
    /// changes.
    pub fn publish(&mut self, spectrum: Spectrum) -> (published: bool)
        requires
            old(self).wf(),
            spectrum.wf(),
        ensures
            final(self).wf(),
            published == old(self)@.expects_spectrum(),
            final(self)@ == old(self)@.after_publish(spectrum@),
    {
        if self.is_streaming() && self.awaiting.len() > 0 {
            let waveform: Window = self.awaiting.remove(0);
            self.store.publish(waveform, spectrum);
            assert(self@.awaiting =~= old(self)@.awaiting.drop_first());
            true
        } else {
            false
        }
    }

    /// Gives up the oldest awaiting window, for which no valid spectrum
    /// could be had: the next spectrum offered belongs to the window after
    /// it. The snapshot does not change.
    pub fn discard(&mut self) -> (discarded: bool)
        requires
            old(self).wf(),
        ensures
            final(self).wf(),
            discarded == old(self)@.expects_spectrum(),
            final(self)@ == old(self)@.after_discard(),
    {
        if self.is_streaming() && self.awaiting.len() > 0 {
            let _ = self.awaiting.remove(0);
            assert(self@.awaiting =~= old(self)@.awaiting.drop_first());
            true
        } else {
            false
        }
    }

    /// A copy of the latest snapshot.
    pub fn snapshot(&self) -> (s: Snapshot)
        requires
            self.wf(),
        ensures
            s.wf(),
            s@ == self@.snapshot,
    {
        self.store.read()
    }
}

/// Once stopped, always stopped: no event moves the life cycle again.
pub proof fn lemma_stopped_is_final(event: DriverEvent)
    ensures
        transition(DriverState::Stopped, event) == (DriverState::Stopped, DriverAction::Ignore),
{
}

/// The life cycle only moves forward: an event leaves the state where it
/// is or takes it further along, never back.
pub proof fn lemma_life_cycle_moves_forward(state: DriverState, event: DriverEvent)
    ensures
        progress(state) <= progress(transition(state, event).0),
        transition(state, event).0 != state ==> progress(state) < progress(
            transition(state, event).0,
        ),
{
}

/// There is one way into streaming: a configured stream with a supported
/// encoding is launched. A step that fails does not stream.
pub proof fn lemma_streaming_entry(state: DriverState, event: DriverEvent)
    ensures
        !(state is Streaming) && transition(state, event).0 is Streaming ==> {
            &&& event == DriverEvent::Launched
            &&& state matches DriverState::StreamConfigured(config)
            &&& config.encoding.supported()
            &&& transition(state, event) == (DriverState::Streaming(config), DriverAction::Capture)
        },
        transition(state, event).1 is Fail ==> !(transition(state, event).0 is Streaming),
{
}

/// The negotiated configuration is fixed for the life of the stream: a
/// streaming driver keeps streaming with the same configuration until it
/// stops.
pub proof fn lemma_config_is_fixed(config: StreamConfig, event: DriverEvent)
    ensures
        transition(DriverState::Streaming(config), event).0 == DriverState::Streaming(config)
            || transition(DriverState::Streaming(config), event).0 == DriverState::Stopped,
        transition(DriverState::StreamConfigured(config), event).0 == DriverState::StreamConfigured(
            config,
        ) || transition(DriverState::StreamConfigured(config), event).0 == DriverState::Streaming(
            config,
        ),
{
}

/// Each error comes from exactly these states and events.
pub proof fn lemma_errors(state: DriverState, event: DriverEvent)
    ensures
        transition(state, event).1 == DriverAction::Fail(CaptureError::NoInputDevice) <==> state
            == DriverState::Uninitialized && event == DriverEvent::NoDevice,
        transition(state, event).1 == DriverAction::Fail(CaptureError::UnsupportedConfig) <==> state
            == DriverState::DeviceSelected && event == DriverEvent::NoConfig,
        transition(state, event).1 == DriverAction::Fail(CaptureError::StreamOpen) <==> {
            ||| state == DriverState::DeviceSelected && (event matches DriverEvent::ConfigReported(
                config,
            ) && !config.encoding.supported())
            ||| (state matches DriverState::StreamConfigured(config) && (event
                == DriverEvent::OpenRejected || (event == DriverEvent::Launched
                && !config.encoding.supported())))
        },
        transition(state, event).1 == DriverAction::Fail(CaptureError::StreamStart) <==> state is StreamConfigured
            && event == DriverEvent::StartRejected,
        transition(state, event).1 == DriverAction::Halt(CaptureError::StreamRuntime) <==> state is Streaming
            && event == DriverEvent::StreamFailed,
        transition(state, event).1 is Fail ==> transition(state, event).1 != DriverAction::Fail(
            CaptureError::StreamRuntime,
        ),
        transition(state, event).1 is Halt ==> transition(state, event).1 == DriverAction::Halt(
            CaptureError::StreamRuntime,
        ),
{
}

/// A stopped driver is frozen: whatever is called on it afterwards, its
/// state, its samples, its awaiting windows and its snapshot stay as they
/// were.
pub proof fn lemma_stopped_is_frozen(before: DriverView, ops: Seq<DriverOp>)
    requires
        before.state == DriverState::Stopped,
    ensures
        before.after_all(ops) == before,
    decreases ops.len(),
{
    if ops.len() > 0 {
        lemma_stopped_is_frozen(before, ops.drop_last());
    }
}

/// The snapshot changes by publication only: after a run of calls none of
/// which offers a spectrum, the snapshot is the one from before.
pub proof fn lemma_snapshot_needs_publication(before: DriverView, ops: Seq<DriverOp>)
    requires
        forall|i: int| 0 <= i < ops.len() ==> !(#[trigger] ops[i] is Publish),
    ensures
        before.after_all(ops).snapshot == before.snapshot,
    decreases ops.len(),
{
    if ops.len() > 0 {
        lemma_snapshot_needs_publication(before, ops.drop_last());
    }
}

/// The driver stays valid: if the snapshot is a whole pair, the awaiting
/// windows are whole and less than a window is pending before a run of
/// calls, and every spectrum offered is valid, the same holds after it.
pub proof fn lemma_driver_stays_valid(before: DriverView, ops: Seq<DriverOp>)
    requires
        is_snapshot(before.snapshot),
        before.pending.len() < FFT_SIZE,
        forall|i: int|
            0 <= i < before.awaiting.len() ==> (#[trigger] before.awaiting[i]).len() == FFT_SIZE,
        forall|i: int|
            0 <= i < ops.len() ==> (#[trigger] ops[i] matches DriverOp::Publish(spectrum)
                ==> is_spectrum(spectrum)),
    ensures
        is_snapshot(before.after_all(ops).snapshot),
        before.after_all(ops).pending.len() < FFT_SIZE,
        forall|i: int|
            0 <= i < before.after_all(ops).awaiting.len() ==> (#[trigger] before.after_all(
                ops,
            ).awaiting[i]).len() == FFT_SIZE,
    decreases ops.len(),
{
    if ops.len() > 0 {
        lemma_driver_stays_valid(before, ops.drop_last());
        let earlier = before.after_all(ops.drop_last());
        match ops.last() {
            DriverOp::Samples(samples) => {
                lemma_frame_boundaries(earlier.pending + samples);
            },
            _ => {},
        }
    }
}

/// Windows are answered in the order of their completion, and nothing but
/// a captured window is ever published. For a driver that starts at a
/// window boundary with no window awaiting, after any run of calls:
/// the pending samples are what follows the last complete window of the
/// captured samples; the awaiting windows are the complete windows of the
/// captured samples but for the first `answered` of them; and the
/// waveform of the snapshot is the one from before, or one of the windows
/// answered.
pub proof fn lemma_published_windows_were_captured(before: DriverView, ops: Seq<DriverOp>)
    requires
        before.pending.len() == 0,
        before.awaiting.len() == 0,
    ensures
        before.after_all(ops).pending == unfinished_tail(before.captured(ops)),
        before.answered(ops) <= complete_windows(before.captured(ops)).len(),
        before.after_all(ops).awaiting == complete_windows(before.captured(ops)).skip(
            before.answered(ops) as int,
        ),
        before.after_all(ops).snapshot == before.snapshot || exists|k: int|
            0 <= k < before.answered(ops) && before.after_all(ops).snapshot.waveform
                == #[trigger] complete_windows(before.captured(ops))[k],
    decreases ops.len(),
{
    let after = before.after_all(ops);
    let stream = before.captured(ops);
    let windows = complete_windows(stream);
    let count = before.answered(ops) as int;
    if ops.len() == 0 {
        assert(before.pending =~= unfinished_tail(stream));
        assert(before.awaiting =~= windows.skip(0));
    } else {
        lemma_published_windows_were_captured(before, ops.drop_last());
        let earlier = before.after_all(ops.drop_last());
        let earlier_stream = before.captured(ops.drop_last());
        let earlier_windows = complete_windows(earlier_stream);
        let earlier_count = before.answered(ops.drop_last()) as int;
        match ops.last() {
            DriverOp::Event(_) => {},
            DriverOp::Samples(samples) => {
                if earlier.state is Streaming {
                    lemma_frame_boundaries(earlier_stream);
                    lemma_feed_in_parts(Seq::empty(), earlier_stream, samples);
                    assert(Seq::<u32>::empty() + earlier_stream =~= earlier_stream);
                    assert(Seq::<u32>::empty() + (earlier_stream + samples) =~= stream);
                    assert(windows == earlier_windows + complete_windows(
                        earlier.pending + samples,
                    ));
                    assert(after.awaiting =~= windows.skip(count));
                    if earlier.snapshot != before.snapshot {
                        let k = choose|k: int|
                            0 <= k < earlier_count && earlier.snapshot.waveform
                                == #[trigger] earlier_windows[k];
                        assert(after.snapshot.waveform == windows[k]);
                    }
                }
            },
            DriverOp::Publish(_) => {
                if earlier.expects_spectrum() {
                    assert(earlier.awaiting.first() == windows[earlier_count]);
                    assert(after.awaiting =~= windows.skip(count));
                    assert(after.snapshot.waveform == windows[count - 1]);
                }
            },
            DriverOp::Discard => {
                if earlier.expects_spectrum() {
                    assert(after.awaiting =~= windows.skip(count));
                    if earlier.snapshot != before.snapshot {
                        let k = choose|k: int|
                            0 <= k < earlier_count && earlier.snapshot.waveform
                                == #[trigger] earlier_windows[k];
                        assert(after.snapshot.waveform == windows[k]);
                    }
                }
            },
        }
    }
}

/// Until the first window is complete the snapshot is not touched: after a
/// run of calls in which a driver that started at a window boundary, with
/// no window awaiting, captured less than a window of samples, the
/// snapshot is the one from before. For a new driver that is the all-zero
/// snapshot.
pub proof fn lemma_nothing_is_published_before_the_first_window(
    before: DriverView,
    ops: Seq<DriverOp>,
)
    requires
        before.pending.len() == 0,
        before.awaiting.len() == 0,
        before.captured(ops).len() < FFT_SIZE,
    ensures
        before.after_all(ops).snapshot == before.snapshot,
        before.after_all(ops).awaiting.len() == 0,
        before.after_all(ops).pending == before.captured(ops),
{
    lemma_published_windows_were_captured(before, ops);
    lemma_frame_boundaries(before.captured(ops));
}

} // verus!
