use audio_analyzer::frame::Window;
use audio_analyzer::snapshot::{Snapshot, SnapshotStore};
use audio_analyzer::spectrum::Spectrum;
use audio_analyzer::{FFT_SIZE, SPECTRUM_SIZE};

#[test]
fn initial_snapshot_is_all_zero() {
    let s = Snapshot::initial();
    assert_eq!(s.waveform().samples(), &vec![0u32; FFT_SIZE]);
    assert_eq!(s.spectrum().bins(), &vec![0u32; SPECTRUM_SIZE]);
}

#[test]
fn new_store_holds_the_initial_snapshot() {
    let store = SnapshotStore::new();
    let s = store.read();
    assert_eq!(s.waveform().samples().len(), FFT_SIZE);
    assert_eq!(s.spectrum().bins().len(), SPECTRUM_SIZE);
    assert!(s.waveform().samples().iter().all(|&b| b == 0));
    assert!(s.spectrum().bins().iter().all(|&b| b == 0));
}

#[test]
fn publish_replaces_both_parts_together() {
    let mut store = SnapshotStore::new();
    let wave = vec![0.5f32.to_bits(); FFT_SIZE];
    let bins = vec![3.0f32.to_bits(); SPECTRUM_SIZE];
    store.publish(
        Window::from_samples(wave.clone()).unwrap(),
        Spectrum::from_bins(bins.clone()).unwrap(),
    );
    let s = store.read();
    assert_eq!(s.waveform().samples(), &wave);
    assert_eq!(s.spectrum().bins(), &bins);
}

#[test]
fn later_publish_overwrites_the_earlier_one() {
    let mut store = SnapshotStore::new();
    store.publish(
        Window::from_samples(vec![1; FFT_SIZE]).unwrap(),
        Spectrum::from_bins(vec![1; SPECTRUM_SIZE]).unwrap(),
    );
    store.publish(
        Window::from_samples(vec![2; FFT_SIZE]).unwrap(),
        Spectrum::from_bins(vec![2; SPECTRUM_SIZE]).unwrap(),
    );
    let s = store.read();
    assert_eq!(s.waveform().samples(), &vec![2u32; FFT_SIZE]);
    assert_eq!(s.spectrum().bins(), &vec![2u32; SPECTRUM_SIZE]);
}

#[test]
fn a_copy_read_earlier_does_not_change() {
    let mut store = SnapshotStore::new();
    let before = store.read();
    store.publish(
        Window::from_samples(vec![7; FFT_SIZE]).unwrap(),
        Spectrum::from_bins(vec![7; SPECTRUM_SIZE]).unwrap(),
    );
    assert_eq!(before.waveform().samples(), &vec![0u32; FFT_SIZE]);
    assert_eq!(before.spectrum().bins(), &vec![0u32; SPECTRUM_SIZE]);
    assert_eq!(store.read().waveform().sample(0), 7);
}

#[test]
fn snapshot_pairs_what_it_is_given() {
    let s = Snapshot::new(
        Window::from_samples(vec![4; FFT_SIZE]).unwrap(),
        Spectrum::from_bins(vec![5; SPECTRUM_SIZE]).unwrap(),
    );
    assert_eq!(s.waveform().sample(10), 4);
    assert_eq!(s.spectrum().bin(10), 5);
    let copy = s.clone();
    assert_eq!(copy.waveform().samples(), s.waveform().samples());
    assert_eq!(copy.spectrum().bins(), s.spectrum().bins());
}
