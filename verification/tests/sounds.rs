use live_rig::audio::general::General;
use live_rig::audio::sounds::{SoundEntry, Sounds};

/// A stream of frames held in memory, read from the front.
struct Frames {
    left: Vec<[f32; 2]>,
}

impl Frames {
    fn of(count: usize, value: f32) -> Frames {
        Frames { left: vec![[value, value]; count] }
    }
}

/// Adds up to a buffer's worth of frames of `stream` onto `buffer` and tells
/// how many frames the stream gave.
fn mix(stream: &mut Frames, buffer: &mut [[f32; 2]]) -> usize {
    let count = stream.left.len().min(buffer.len());
    for (frame, read) in buffer.iter_mut().zip(stream.left.drain(..count)) {
        frame[0] += read[0];
        frame[1] += read[1];
    }
    count
}

/// One pass of the mixer over the bank.
fn render(bank: &mut Sounds<f32, Frames>, buffer: &mut [[f32; 2]]) -> usize {
    let mut yields = Vec::new();
    for id in bank.live() {
        if let Some(stream) = bank.stream_mut(id) {
            yields.push((id, mix(stream, buffer)));
        }
    }
    let read = yields.iter().map(|y| y.1).sum();
    bank.process(&yields, buffer.len());
    read
}

#[test]
fn sound_entry_ends_on_a_short_read() {
    let mut e = SoundEntry { id: 3, buf: (), consumed: false };
    e.process(64, 64);
    assert!(!e.consumed);
    e.process(63, 64);
    assert!(e.consumed);
    e.process(64, 64);
    assert!(e.consumed);
    assert_eq!(e.id, 3);
    let mut silent = SoundEntry { id: 4, buf: (), consumed: false };
    silent.process(0, 0);
    assert!(!silent.consumed);
    silent.process(0, 1);
    assert!(silent.consumed);
}

#[test]
fn one_buffer_of_frames_is_heard_once_and_then_retired() {
    let mut bank: Sounds<f32, Frames> = Sounds::new(0.0);
    bank.on(7, Frames::of(64, 0.5));
    let mut buffer = vec![[0.0f32; 2]; 64];
    assert_eq!(render(&mut bank, &mut buffer), 64);
    assert!(buffer.iter().all(|f| f[0] == 0.5 && f[1] == 0.5));
    assert_eq!(bank.live(), vec![7]);
    let mut buffer = vec![[0.0f32; 2]; 64];
    assert_eq!(render(&mut bank, &mut buffer), 0);
    assert!(buffer.iter().all(|f| f[0] == 0.0 && f[1] == 0.0));
    assert!(bank.live().is_empty());
    assert_eq!(bank.len(), 0);
}

#[test]
fn trigger_then_release_leaves_the_bank_empty() {
    let mut bank: Sounds<f32, Frames> = Sounds::new(0.0);
    bank.on(7, Frames::of(64, 0.5));
    bank.off(7);
    assert_eq!(bank.len(), 0);
    assert!(bank.live().is_empty());
    assert!(bank.stream_mut(7).is_none());
}

#[test]
fn release_of_an_unknown_id_changes_nothing() {
    let mut bank: Sounds<f32, Frames> = Sounds::new(0.0);
    bank.off(1);
    assert_eq!(bank.len(), 0);
    bank.on(2, Frames::of(1, 0.0));
    bank.off(1);
    assert_eq!(bank.live(), vec![2]);
}

#[test]
fn trigger_of_a_playing_id_replaces_its_stream() {
    let mut bank: Sounds<f32, Frames> = Sounds::new(0.0);
    bank.on(1, Frames::of(10, 0.25));
    bank.on(2, Frames::of(10, 0.5));
    bank.on(1, Frames::of(3, 1.0));
    assert_eq!(bank.live(), vec![1, 2]);
    assert_eq!(bank.stream_mut(1).unwrap().left.len(), 3);
    assert_eq!(bank.stream_mut(2).unwrap().left.len(), 10);
}

#[test]
fn two_sounds_are_summed_sample_by_sample() {
    let mut bank: Sounds<f32, Frames> = Sounds::new(0.0);
    bank.on(1, Frames::of(4, 0.25));
    bank.on(2, Frames::of(2, 0.5));
    let mut buffer = vec![[0.0f32; 2]; 4];
    assert_eq!(render(&mut bank, &mut buffer), 6);
    assert_eq!(buffer, vec![[0.75, 0.75], [0.75, 0.75], [0.25, 0.25], [0.25, 0.25]]);
    assert_eq!(bank.live(), vec![1]);
    let mut gain: General<f32> = General::new(0.0);
    gain.param("A", 0.5);
    let amp = gain.process();
    let scaled: Vec<[f32; 2]> = buffer.iter().map(|f| [f[0] * amp, f[1] * amp]).collect();
    assert_eq!(scaled, vec![[0.375, 0.375], [0.375, 0.375], [0.125, 0.125], [0.125, 0.125]]);
}

#[test]
fn process_retires_only_streams_with_a_short_report() {
    let mut bank: Sounds<f32, ()> = Sounds::new(0.0);
    for id in [5, 6, 7, 8] {
        bank.on(id, ());
    }
    bank.process(&[(5, 64), (6, 63), (9, 0), (8, 64), (8, 10)], 64);
    assert_eq!(bank.live(), vec![5, 7]);
    bank.process(&[], 64);
    assert_eq!(bank.live(), vec![5, 7]);
    bank.process(&[(5, 0), (7, 0)], 0);
    assert_eq!(bank.live(), vec![5, 7]);
    bank.process(&[(7, 0)], 1);
    assert_eq!(bank.live(), vec![5]);
}

#[test]
fn bank_parameters_do_not_touch_the_sounds() {
    let mut bank: Sounds<f32, ()> = Sounds::new(0.0);
    bank.on(1, ());
    bank.param("A", 1.0);
    assert_eq!(bank.live(), vec![1]);
}

#[test]
fn gain_stage_reads_its_amplitude() {
    let mut gain: General<f32> = General::new(0.0);
    assert_eq!(gain.process(), 0.0);
    gain.param("A", 0.8);
    assert_eq!(gain.process(), 0.8);
    gain.param("B", 0.1);
    gain.param("A", 0.3);
    assert_eq!(gain.process(), 0.3);
}
