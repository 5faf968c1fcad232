use proedit::ai::audio_classify::analysis_windows;
use proedit::audio::mixer::audible_channels;
use proedit::audio::ring_buffer::RingBuffer;

#[test]
fn test_basic_write_read() {
    let mut rb = RingBuffer::new(1024);
    let data: Vec<f32> = (0..100).map(|i| i as f32).collect();
    assert_eq!(rb.write(&data), 100);
    assert_eq!(rb.available_read(), 100);

    let mut output = vec![0.0f32; 100];
    assert_eq!(rb.read(&mut output), 100);
    assert_eq!(output, data);
    assert_eq!(rb.available_read(), 0);
}

#[test]
fn test_wrap_around() {
    let mut rb = RingBuffer::new(16);
    let data: Vec<f32> = (0..12).map(|i| i as f32).collect();
    assert_eq!(rb.write(&data), 12);

    let mut out = vec![0.0f32; 8];
    assert_eq!(rb.read(&mut out), 8);

    let data2: Vec<f32> = (100..112).map(|i| i as f32).collect();
    assert_eq!(rb.write(&data2), 12);

    let mut out2 = vec![0.0f32; 16];
    let read = rb.read(&mut out2);
    assert_eq!(read, 16);
    assert_eq!(out2[0], 8.0);
    assert_eq!(out2[4], 100.0);
}

#[test]
fn test_overflow_protection() {
    let mut rb = RingBuffer::new(8);
    let data: Vec<f32> = (0..20).map(|i| i as f32).collect();
    let written = rb.write(&data);
    assert_eq!(written, 8);
}

#[test]
fn test_empty_read() {
    let mut rb: RingBuffer<f32> = RingBuffer::new(16);
    let mut out = vec![0.0f32; 8];
    assert_eq!(rb.read(&mut out), 0);
}

#[test]
fn test_clear() {
    let mut rb = RingBuffer::new(16);
    let data = vec![1.0f32; 10];
    rb.write(&data);
    assert_eq!(rb.available_read(), 10);
    rb.clear();
    assert_eq!(rb.available_read(), 0);
}

#[test]
fn samples_come_out_in_the_order_they_went_in() {
    let mut rb = RingBuffer::new(5);
    for round in 0..10i32 {
        let data = [round * 3, round * 3 + 1, round * 3 + 2];
        assert_eq!(rb.write(&data), 3);
        let mut out = [0i32; 3];
        assert_eq!(rb.read(&mut out), 3);
        assert_eq!(out, data);
    }
}

#[test]
fn short_read_leaves_the_rest_of_the_output_alone() {
    let mut rb = RingBuffer::new(4);
    rb.write(&[7u8, 8]);
    let mut out = [1u8, 1, 1, 1];
    assert_eq!(rb.read(&mut out), 2);
    assert_eq!(out, [7, 8, 1, 1]);
    assert_eq!(rb.available_write(), 4);
}

#[test]
fn zero_capacity_buffer_takes_nothing() {
    let mut rb = RingBuffer::new(0);
    assert_eq!(rb.write(&[1u16, 2, 3]), 0);
    assert_eq!(rb.available_write(), 0);
}

#[test]
fn solo_decides_which_channels_are_heard() {
    assert_eq!(audible_channels(&vec![false, false, false]), vec![true, true, true]);
    assert_eq!(audible_channels(&vec![false, true, false, true]), vec![false, true, false, true]);
    assert_eq!(audible_channels(&vec![]), Vec::<bool>::new());
}

#[test]
fn test_mixer_solo() {
    // Channel 1 soloed: only it is heard.
    assert_eq!(audible_channels(&vec![false, true]), vec![false, true]);
}

#[test]
fn test_waveform_empty() {
    assert!(analysis_windows(0, 100, 100).is_empty());
}

#[test]
fn test_waveform_basic() {
    let samples: Vec<f32> = (0..100).map(|i| (i as f32 / 100.0) * 2.0 - 1.0).collect();
    let windows = analysis_windows(samples.len(), 10, 10);
    assert_eq!(windows.len(), 10);
    let range = |(s, e): (usize, usize)| {
        let chunk = &samples[s..e];
        (chunk.iter().copied().fold(f32::MAX, f32::min), chunk.iter().copied().fold(f32::MIN, f32::max))
    };
    let (min0, max0) = range(windows[0]);
    assert!(min0 < -0.8);
    assert!(max0 < 0.0);
    let (min9, max9) = range(windows[9]);
    assert!(min9 > 0.7);
    assert!(max9 > 0.9);
}

#[test]
fn test_waveform_duration() {
    let windows = analysis_windows(48000, 480, 480);
    let duration = (windows.len() * 480) as f64 / 48000.0;
    assert!((duration - 1.0).abs() < 0.01);
}
