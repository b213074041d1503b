use juce_daito::buffer::AudioBuffer;

#[test]
fn new_buffer_is_silent_with_requested_shape() {
    let b: AudioBuffer<f32> = AudioBuffer::new(2, 5);
    assert_eq!(b.num_channels(), 2);
    assert_eq!(b.num_samples(), 5);
    for ch in 0..2 {
        assert_eq!(b.channel(ch), &[0.0f32; 5][..]);
    }
}

#[test]
fn empty_buffer_has_no_samples() {
    let b: AudioBuffer<f32> = AudioBuffer::new(0, 16);
    assert_eq!(b.num_channels(), 0);
    assert_eq!(b.num_samples(), 0);
}

#[test]
fn channel_mut_writes_one_channel() {
    let mut b: AudioBuffer<f32> = AudioBuffer::new(2, 3);
    b.channel_mut(1)[2] = 0.5;
    assert_eq!(b.channel(1), &[0.0, 0.0, 0.5][..]);
    assert_eq!(b.channel(0), &[0.0, 0.0, 0.0][..]);
}

#[test]
fn clear_silences_and_keeps_shape() {
    let mut b: AudioBuffer<f32> = AudioBuffer::new(2, 3);
    b.channel_mut(0)[0] = 1.0;
    b.channel_mut(1)[1] = -1.0;
    b.clear();
    assert_eq!(b.num_channels(), 2);
    assert_eq!(b.num_samples(), 3);
    assert_eq!(b.channel(0), &[0.0, 0.0, 0.0][..]);
    assert_eq!(b.channel(1), &[0.0, 0.0, 0.0][..]);
}

#[test]
fn resize_grows_with_silence_and_keeps_samples() {
    let mut b: AudioBuffer<i32> = AudioBuffer::new(1, 2);
    b.channel_mut(0)[0] = 7;
    b.channel_mut(0)[1] = 8;
    b.resize(2, 4);
    assert_eq!(b.num_channels(), 2);
    assert_eq!(b.num_samples(), 4);
    assert_eq!(b.channel(0), &[7, 8, 0, 0][..]);
    assert_eq!(b.channel(1), &[0, 0, 0, 0][..]);
}

#[test]
fn resize_shrinks_by_truncating() {
    let mut b: AudioBuffer<i32> = AudioBuffer::new(3, 3);
    b.channel_mut(0)[1] = 5;
    b.channel_mut(2)[0] = 9;
    b.resize(1, 2);
    assert_eq!(b.num_channels(), 1);
    assert_eq!(b.channel(0), &[0, 5][..]);
}

#[test]
fn append_interleaved_splits_frames_and_drops_partial_frame() {
    let mut b: AudioBuffer<i32> = AudioBuffer::new(2, 1);
    b.channel_mut(0)[0] = 100;
    b.channel_mut(1)[0] = 200;
    b.append_interleaved(&[1, 2, 3, 4, 5]);
    assert_eq!(b.channel(0), &[100, 1, 3][..]);
    assert_eq!(b.channel(1), &[200, 2, 4][..]);
    assert_eq!(b.num_samples(), 3);
}

#[test]
fn interleaved_is_frame_major() {
    let mut b: AudioBuffer<i32> = AudioBuffer::new(3, 2);
    for ch in 0..3 {
        for i in 0..2 {
            b.channel_mut(ch)[i] = (10 * ch + i) as i32;
        }
    }
    assert_eq!(b.interleaved(), vec![0, 10, 20, 1, 11, 21]);
}

#[test]
fn interleave_then_append_round_trips() {
    let mut b: AudioBuffer<f32> = AudioBuffer::new(2, 4);
    for i in 0..4 {
        b.channel_mut(0)[i] = i as f32 * 0.25;
        b.channel_mut(1)[i] = -(i as f32);
    }
    let stream = b.interleaved();
    let mut back: AudioBuffer<f32> = AudioBuffer::new(2, 0);
    back.append_interleaved(&stream);
    assert_eq!(back.channel(0), b.channel(0));
    assert_eq!(back.channel(1), b.channel(1));
}
