use audio_analyzer::frame::{FrameAccumulator, Window};
use audio_analyzer::FFT_SIZE;

fn ramp(from: u32, count: usize) -> Vec<u32> {
    (0..count as u32).map(|i| from + i).collect()
}

fn push_all(acc: &mut FrameAccumulator, samples: &[u32]) -> Vec<Window> {
    let mut done = Vec::new();
    for &s in samples {
        if let Some(w) = acc.push(s) {
            assert_eq!(acc.cursor(), 0);
            done.push(w);
        }
    }
    done
}

#[test]
fn window_size_is_1024() {
    assert_eq!(FFT_SIZE, 1024);
}

#[test]
fn fresh_accumulator_is_at_a_window_boundary() {
    let acc = FrameAccumulator::new();
    assert_eq!(acc.cursor(), 0);
}

#[test]
fn one_sample_short_of_a_window_completes_nothing() {
    let mut acc = FrameAccumulator::new();
    let done = push_all(&mut acc, &ramp(0, FFT_SIZE - 1));
    assert_eq!(done.len(), 0);
    assert_eq!(acc.cursor(), FFT_SIZE - 1);
}

#[test]
fn one_window_of_samples_completes_exactly_once() {
    let mut acc = FrameAccumulator::new();
    let samples = ramp(10, FFT_SIZE);
    let done = push_all(&mut acc, &samples);
    assert_eq!(done.len(), 1);
    assert_eq!(done[0].samples(), &samples);
    assert_eq!(acc.cursor(), 0);
}

#[test]
fn two_windows_of_samples_complete_exactly_twice() {
    let mut acc = FrameAccumulator::new();
    let samples = ramp(0, 2 * FFT_SIZE);
    let done = push_all(&mut acc, &samples);
    assert_eq!(done.len(), 2);
    assert_eq!(done[0].samples().as_slice(), &samples[..FFT_SIZE]);
    assert_eq!(done[1].samples().as_slice(), &samples[FFT_SIZE..]);
    assert_eq!(acc.cursor(), 0);
}

#[test]
fn the_completing_push_is_the_last_of_the_window() {
    let mut acc = FrameAccumulator::new();
    for i in 0..FFT_SIZE - 1 {
        assert!(acc.push(i as u32).is_none());
        assert_eq!(acc.cursor(), i + 1);
    }
    let window = acc.push(77).expect("the window is complete");
    assert_eq!(window.sample(FFT_SIZE - 1), 77);
    assert_eq!(window.sample(0), 0);
    assert_eq!(acc.cursor(), 0);
}

#[test]
fn storage_is_reused_after_a_completion() {
    let mut acc = FrameAccumulator::new();
    let first = push_all(&mut acc, &ramp(0, FFT_SIZE));
    let second = push_all(&mut acc, &ramp(5000, FFT_SIZE));
    assert_eq!(first[0].samples(), &ramp(0, FFT_SIZE));
    assert_eq!(second.len(), 1);
    assert_eq!(second[0].samples(), &ramp(5000, FFT_SIZE));
}

#[test]
fn feed_of_a_long_buffer_completes_several_windows() {
    let mut acc = FrameAccumulator::new();
    let samples = ramp(0, 3 * FFT_SIZE + 100);
    let done = acc.feed(&samples);
    assert_eq!(done.len(), 3);
    for (k, w) in done.iter().enumerate() {
        assert_eq!(w.samples().as_slice(), &samples[k * FFT_SIZE..(k + 1) * FFT_SIZE]);
    }
    assert_eq!(acc.cursor(), 100);
}

#[test]
fn feed_of_a_short_buffer_completes_nothing() {
    let mut acc = FrameAccumulator::new();
    assert_eq!(acc.feed(&ramp(0, 300)).len(), 0);
    assert_eq!(acc.cursor(), 300);
    assert_eq!(acc.feed(&[]).len(), 0);
    assert_eq!(acc.cursor(), 300);
}

#[test]
fn feed_continues_an_unfinished_window() {
    let mut acc = FrameAccumulator::new();
    assert_eq!(acc.feed(&ramp(0, 1000)).len(), 0);
    let done = acc.feed(&ramp(1000, 100));
    assert_eq!(done.len(), 1);
    assert_eq!(done[0].samples(), &ramp(0, FFT_SIZE));
    assert_eq!(acc.cursor(), 76);
}

#[test]
fn feed_in_parts_equals_feed_at_once() {
    let samples = ramp(0, 2 * FFT_SIZE + 500);
    let mut whole = FrameAccumulator::new();
    let at_once: Vec<Vec<u32>> =
        whole.feed(&samples).iter().map(|w| w.samples().clone()).collect();
    for cut in [0, 1, 700, FFT_SIZE, FFT_SIZE + 1, 2 * FFT_SIZE + 499] {
        let mut parts = FrameAccumulator::new();
        let mut in_parts: Vec<Vec<u32>> =
            parts.feed(&samples[..cut]).iter().map(|w| w.samples().clone()).collect();
        in_parts.extend(parts.feed(&samples[cut..]).iter().map(|w| w.samples().clone()));
        assert_eq!(in_parts, at_once);
        assert_eq!(parts.cursor(), whole.cursor());
    }
}

#[test]
fn feed_and_push_agree() {
    let samples = ramp(3, FFT_SIZE + 17);
    let mut fed = FrameAccumulator::new();
    let mut pushed = FrameAccumulator::new();
    let by_feed = fed.feed(&samples);
    let by_push = push_all(&mut pushed, &samples);
    assert_eq!(by_feed.len(), by_push.len());
    assert_eq!(by_feed[0].samples(), by_push[0].samples());
    assert_eq!(fed.cursor(), pushed.cursor());
}

#[test]
fn silence_is_a_window_of_zeros() {
    let w = Window::silence();
    assert_eq!(w.samples(), &vec![0u32; FFT_SIZE]);
}

#[test]
fn window_needs_exactly_one_window_of_samples() {
    assert!(Window::from_samples(vec![1; FFT_SIZE]).is_some());
    assert!(Window::from_samples(vec![1; FFT_SIZE - 1]).is_none());
    assert!(Window::from_samples(vec![1; FFT_SIZE + 1]).is_none());
    assert!(Window::from_samples(Vec::new()).is_none());
}

#[test]
fn window_keeps_its_samples() {
    let samples = ramp(9, FFT_SIZE);
    let w = Window::from_samples(samples.clone()).unwrap();
    assert_eq!(w.samples(), &samples);
    assert_eq!(w.sample(5), 14);
    assert_eq!(w.clone().samples(), &samples);
}
