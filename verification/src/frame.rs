//! Fixed-size analysis windows and the accumulator that fills them.
//!
//! A sample is carried as the bit pattern of an IEEE 754 single-precision
//! number. Nothing in this module looks inside a sample: it only counts and
//! orders them.

use vstd::prelude::*;
use crate::FFT_SIZE;

verus! {

/// A sequence of `n` samples that are all positive zero.
pub open spec fn zeros(n: nat) -> Seq<u32> {
    Seq::new(n, |i: int| 0u32)
}

/// The windows that a run of samples completes, in order, when the run starts
/// at a window boundary: consecutive blocks of `FFT_SIZE` samples.
pub open spec fn complete_windows(stream: Seq<u32>) -> Seq<Seq<u32>> {
    Seq::new(
        stream.len() / (FFT_SIZE as nat),
        |k: int| stream.subrange(k * FFT_SIZE, (k + 1) * FFT_SIZE),
    )
}

/// The samples of `stream` that follow its last complete window.
pub open spec fn unfinished_tail(stream: Seq<u32>) -> Seq<u32> {
    stream.subrange((stream.len() / (FFT_SIZE as nat)) * FFT_SIZE, stream.len() as int)
}

/// One analysis unit: exactly `FFT_SIZE` samples in capture order.
pub struct Window {
    samples: Vec<u32>,
}

impl View for Window {
    type V = Seq<u32>;

    closed spec fn view(&self) -> Seq<u32> {
        self.samples@
    }
}

impl Clone for Window {
    fn clone(&self) -> (copy: Window)
        ensures
            copy@ == self@,
    {
        Window { samples: self.samples.clone() }
    }
}

impl Window {
    /// A window is valid when it holds exactly `FFT_SIZE` samples.
    pub open spec fn wf(&self) -> bool {
        self@.len() == FFT_SIZE
    }

    /// The window of silence: every sample positive zero.
    pub fn silence() -> (w: Window)
        ensures
            w.wf(),
            w@ == zeros(FFT_SIZE as nat),
    {
        let samples: Vec<u32> = vec![0u32; FFT_SIZE];
        assert(samples@ =~= zeros(FFT_SIZE as nat));
        Window { samples }
    }

    /// Makes a window of `samples` if there are exactly `FFT_SIZE` of them.
    pub fn from_samples(samples: Vec<u32>) -> (r: Option<Window>)
        ensures
            r is Some <==> samples@.len() == FFT_SIZE,
            r matches Some(w) ==> w.wf() && w@ == samples@,
    {
        if samples.len() == FFT_SIZE {
            Some(Window { samples })
        } else {
            None
        }
    }

    /// The samples, oldest first.
    pub fn samples(&self) -> (s: &Vec<u32>)
        ensures
            s@ == self@,
    {
        &self.samples
    }

    /// The sample at position `i`.
    pub fn sample(&self, i: usize) -> (s: u32)
        requires
            i < self@.len(),
        ensures
            s == self@[i as int],
    {
        self.samples[i]
    }
}

/// Collects samples into windows.
///
/// The backing storage always has room for one window. The view is the run
/// of samples written since the last window was completed; what the storage
/// holds beyond the cursor is left over from earlier windows and is not part
/// of the view.
pub struct FrameAccumulator {
    buffer: Vec<u32>,
    cursor: usize,
}

impl View for FrameAccumulator {
    type V = Seq<u32>;

    closed spec fn view(&self) -> Seq<u32> {
        self.buffer@.take(self.cursor as int)
    }
}

impl FrameAccumulator {
    /// Storage for one window, and a cursor inside it.
    pub closed spec fn wf(&self) -> bool {
        &&& self.buffer@.len() == FFT_SIZE
        &&& self.cursor < FFT_SIZE
    }

    /// A well-formed accumulator never holds a whole window.
    pub proof fn lemma_partial(&self)
        requires
            self.wf(),
        ensures
            self@.len() < FFT_SIZE,
    {
    }

    /// An accumulator at a window boundary.
    pub fn new() -> (acc: FrameAccumulator)
        ensures
            acc.wf(),
            acc@ == Seq::<u32>::empty(),
    {
        let buffer: Vec<u32> = vec![0u32; FFT_SIZE];
        let acc = FrameAccumulator { buffer, cursor: 0 };
        assert(acc@ =~= Seq::<u32>::empty());
        acc
    }

    /// The write cursor: how many samples the unfinished window holds.
    pub fn cursor(&self) -> (c: usize)
        requires
            self.wf(),
        ensures
            c == self@.len(),
            c < FFT_SIZE,
    {
        self.cursor
    }

    /// Stores one sample. When it is the last of a window, the window is
    /// handed out and the cursor goes back to the start.
    pub fn push(&mut self, sample: u32) -> (completed: Option<Window>)
        requires
            old(self).wf(),
        ensures
            final(self).wf(),
            completed is Some <==> old(self)@.len() + 1 == FFT_SIZE,
            completed matches Some(w) ==> w.wf() && w@ == old(self)@.push(sample),
            final(self)@ == if completed is Some {
                Seq::<u32>::empty()
            } else {
                old(self)@.push(sample)
            },
    {
        self.buffer.set(self.cursor, sample);
        let next: usize = self.cursor + 1;
        if next == FFT_SIZE {
            let samples: Vec<u32> = self.buffer.clone();
            self.cursor = 0;
            assert(samples@ =~= old(self)@.push(sample));
            assert(self@ =~= Seq::<u32>::empty());
            Some(Window { samples })
        } else {
            self.cursor = next;
            assert(self@ =~= old(self)@.push(sample));
            None
        }
    }

    /// Stores every sample of a delivered buffer, in order, and returns the
    /// windows that were completed on the way. A buffer longer than a window
    /// completes several.
    pub fn feed(&mut self, samples: &[u32]) -> (windows: Vec<Window>)
        requires
            old(self).wf(),
        ensures
            final(self).wf(),
            windows@.len() == complete_windows(old(self)@ + samples@).len(),
            forall|k: int|
                0 <= k < windows@.len() ==> (#[trigger] windows@[k]).wf() && windows@[k]@
                    == complete_windows(old(self)@ + samples@)[k],
            final(self)@ == unfinished_tail(old(self)@ + samples@),
    {
        let ghost stream: Seq<u32> = old(self)@ + samples@;
        let ghost start: int = old(self)@.len() as int;
        let mut windows: Vec<Window> = Vec::new();
        let n: usize = samples.len();
        let mut i: usize = 0;
        assert(self@ =~= stream.subrange(0, start));
        while i < n
            invariant
                self.wf(),
                n == samples@.len(),
                i <= n,
                stream == old(self)@ + samples@,
                start == old(self)@.len(),
                windows@.len() * FFT_SIZE + self@.len() == start + i,
                self@.len() < FFT_SIZE,
                self@ == stream.subrange(windows@.len() * FFT_SIZE, start + i),
                forall|k: int|
                    0 <= k < windows@.len() ==> (#[trigger] windows@[k]).wf() && windows@[k]@
                        == stream.subrange(k * FFT_SIZE, (k + 1) * FFT_SIZE),
            decreases n - i,
        {
            let sample: u32 = samples[i];
            let ghost before: Seq<u32> = self@;
            let ghost base: int = windows@.len() * FFT_SIZE;
            assert(before.push(sample) =~= stream.subrange(base, start + i + 1));
            match self.push(sample) {
                Some(w) => {
                    windows.push(w);
                    assert(self@ =~= stream.subrange(windows@.len() * FFT_SIZE, start + i + 1));
                },
                None => {},
            }
            i = i + 1;
        }
        windows
    }
}

/// Frame boundaries fall every `FFT_SIZE` samples: a run that starts at a
/// boundary completes one window for each full `FFT_SIZE` samples in it and
/// leaves the rest unfinished. One sample short of a window completes
/// nothing; exactly one or two windows' worth completes one or two windows
/// and leaves nothing behind.
pub proof fn lemma_frame_boundaries(stream: Seq<u32>)
    ensures
        complete_windows(stream).len() == stream.len() / (FFT_SIZE as nat),
        unfinished_tail(stream).len() == stream.len() % (FFT_SIZE as nat),
        forall|k: int|
            0 <= k < complete_windows(stream).len() ==> (#[trigger] complete_windows(
                stream,
            )[k]).len() == FFT_SIZE,
        stream.len() < FFT_SIZE ==> complete_windows(stream).len() == 0 && unfinished_tail(stream)
            == stream,
        stream.len() == FFT_SIZE ==> complete_windows(stream).len() == 1 && complete_windows(
            stream,
        )[0] == stream && unfinished_tail(stream).len() == 0,
        stream.len() == 2 * FFT_SIZE ==> complete_windows(stream).len() == 2 && unfinished_tail(
            stream,
        ).len() == 0,
{
    if stream.len() < FFT_SIZE {
        assert(unfinished_tail(stream) =~= stream);
    }
    if stream.len() == FFT_SIZE {
        assert(complete_windows(stream)[0] =~= stream);
    }
}

/// No sample is lost, repeated or moved: the sample at position `j` of a
/// run is found at position `j % FFT_SIZE` of window `j / FFT_SIZE`, or at
/// that position of the unfinished tail if that window is not complete.
pub proof fn lemma_every_sample_is_kept(stream: Seq<u32>, j: int)
    requires
        0 <= j < stream.len(),
    ensures
        j / (FFT_SIZE as int) < complete_windows(stream).len() ==> complete_windows(stream)[j / (
        FFT_SIZE as int)][j % (FFT_SIZE as int)] == stream[j],
        j / (FFT_SIZE as int) >= complete_windows(stream).len() ==> unfinished_tail(stream)[j % (
        FFT_SIZE as int)] == stream[j],
{
}

/// Buffer boundaries do not matter: delivering `first` and then `second`
/// completes the same windows, in the same order, and leaves the same
/// samples pending, as delivering both in one buffer.
pub proof fn lemma_feed_in_parts(pending: Seq<u32>, first: Seq<u32>, second: Seq<u32>)
    requires
        pending.len() < FFT_SIZE,
    ensures
        complete_windows(pending + (first + second)) == complete_windows(pending + first)
            + complete_windows(unfinished_tail(pending + first) + second),
        unfinished_tail(pending + (first + second)) == unfinished_tail(
            unfinished_tail(pending + first) + second,
        ),
{
    let whole: Seq<u32> = pending + (first + second);
    let head: Seq<u32> = pending + first;
    let rest: Seq<u32> = unfinished_tail(head) + second;
    let n: int = FFT_SIZE as int;
    let q: int = head.len() as int / n;
    assert(whole.len() == head.len() + second.len());
    assert(rest.len() == head.len() - q * n + second.len());
    assert(whole.len() as int / n == q + rest.len() as int / n);
    assert forall|j: int| 0 <= j < rest.len() implies rest[j] == whole[q * n + j] by {
        if j < unfinished_tail(head).len() {
            assert(rest[j] == head[q * n + j]);
        }
    }
    let joined: Seq<Seq<u32>> = complete_windows(head) + complete_windows(rest);
    assert(joined.len() == complete_windows(whole).len());
    assert forall|k: int| 0 <= k < joined.len() implies joined[k] == complete_windows(whole)[k] by {
        if k < q {
            assert(joined[k] == head.subrange(k * n, (k + 1) * n));
            assert(head.subrange(k * n, (k + 1) * n) =~= whole.subrange(k * n, (k + 1) * n));
        } else {
            assert(joined[k] == rest.subrange((k - q) * n, (k - q + 1) * n));
            assert(rest.subrange((k - q) * n, (k - q + 1) * n) =~= whole.subrange(
                k * n,
                (k + 1) * n,
            ));
        }
    }
    assert(complete_windows(whole) =~= joined);
    assert(unfinished_tail(whole) =~= unfinished_tail(rest));
}

} // verus!
