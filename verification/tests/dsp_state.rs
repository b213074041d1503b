use juce_daito::convolution::{fft_len_for_block, DelayLine};
use juce_daito::envelope::AdsrStage;
use juce_daito::gain::{GainRamp, RampTick};
use juce_daito::oversampling::odd_tap_count;
use juce_daito::range::Range;
use juce_daito::waveform::{column_span, ScrollingBuffer};

fn fir(taps: &[f32], input: &[f32]) -> Vec<f32> {
    let mut line: DelayLine<f32> = DelayLine::new(taps.len());
    input
        .iter()
        .map(|&x| {
            line.push(x);
            taps.iter().enumerate().fold(0.0, |acc, (k, t)| acc + t * line.delayed(k))
        })
        .collect()
}

#[test]
fn delay_line_reads_back_by_age() {
    let mut d: DelayLine<i32> = DelayLine::new(3);
    assert_eq!(d.len(), 3);
    for x in 1..=5 {
        d.push(x);
    }
    assert_eq!(d.delayed(0), 5);
    assert_eq!(d.delayed(1), 4);
    assert_eq!(d.delayed(2), 3);
    d.reset();
    assert_eq!(d.delayed(0), 0);
    assert_eq!(d.delayed(2), 0);
}

#[test]
fn delay_line_has_at_least_one_slot() {
    let mut d: DelayLine<i32> = DelayLine::new(0);
    assert_eq!(d.len(), 1);
    d.push(9);
    assert_eq!(d.delayed(0), 9);
}

#[test]
fn delay_line_identity_kernel_passes_signal() {
    let input: Vec<f32> = (0..16).map(|i| i as f32).collect();
    let out = fir(&[1.0], &input);
    for (i, v) in out.iter().enumerate() {
        assert_eq!(*v, i as f32);
    }
}

#[test]
fn delay_line_fir_matches_naive_convolution() {
    let h = [0.25f32, 0.5, 0.25];
    let x: Vec<f32> = (0..32).map(|i| (i as f32).sin()).collect();
    let actual = fir(&h, &x);
    for n in 0..x.len() {
        let mut e = 0.0f32;
        for (k, &hk) in h.iter().enumerate() {
            if n >= k {
                e += x[n - k] * hk;
            }
        }
        assert!((actual[n] - e).abs() < 1e-5);
    }
}

#[test]
fn fft_len_is_smallest_power_of_two_holding_two_blocks() {
    assert_eq!(fft_len_for_block(1), 2);
    assert_eq!(fft_len_for_block(64), 128);
    assert_eq!(fft_len_for_block(100), 256);
    assert_eq!(fft_len_for_block(3), 8);
}

#[test]
fn adsr_stage_machine() {
    let mut s = AdsrStage::Idle;
    assert!(!s.is_active());
    s.note_off();
    assert_eq!(s, AdsrStage::Idle);
    s.note_on();
    assert_eq!(s, AdsrStage::Attack);
    assert!(s.is_active());
    s.advance(false);
    assert_eq!(s, AdsrStage::Attack);
    s.advance(true);
    assert_eq!(s, AdsrStage::Decay);
    s.advance(true);
    assert_eq!(s, AdsrStage::Sustain);
    s.advance(true);
    assert_eq!(s, AdsrStage::Sustain);
    s.note_off();
    assert_eq!(s, AdsrStage::Release);
    s.advance(true);
    assert_eq!(s, AdsrStage::Idle);
    assert!(!s.is_active());
}

#[test]
fn gain_ramp_steps_then_arrives() {
    let mut r = GainRamp::new();
    assert_eq!(r.tick(), RampTick::Hold);
    assert_eq!(r.start(3), 3);
    assert_eq!(r.tick(), RampTick::Step);
    assert_eq!(r.tick(), RampTick::Step);
    assert_eq!(r.tick(), RampTick::Arrive);
    assert_eq!(r.tick(), RampTick::Hold);
    assert_eq!(r.start(0), 1);
    assert_eq!(r.tick(), RampTick::Arrive);
}

#[test]
fn odd_tap_counts() {
    assert_eq!(odd_tap_count(63), 63);
    assert_eq!(odd_tap_count(64), 65);
    assert_eq!(odd_tap_count(0), 1);
}

#[test]
fn ranges_are_half_open() {
    let r = Range::<i64>::new(-2, 3);
    assert_eq!(r.length(), 5);
    assert!(r.contains(-2));
    assert!(!r.contains(3));
    let u = Range::<usize>::new(4, 4);
    assert_eq!(u.length(), 0);
    assert!(!u.contains(4));
}

#[test]
fn scrolling_buffer_keeps_latest_oldest_first() {
    let mut s: ScrollingBuffer<i32> = ScrollingBuffer::new(4);
    assert_eq!(s.snapshot(), vec![0, 0, 0, 0]);
    s.push(1);
    s.push(2);
    assert_eq!(s.snapshot(), vec![0, 0, 1, 2]);
    s.extend(&[3, 4, 5]);
    assert_eq!(s.snapshot(), vec![2, 3, 4, 5]);
    s.extend(&[6, 7, 8, 9, 10, 11]);
    assert_eq!(s.snapshot(), vec![8, 9, 10, 11]);
}

#[test]
fn scrolling_buffer_without_capacity_holds_nothing() {
    let mut s: ScrollingBuffer<f32> = ScrollingBuffer::new(0);
    s.push(1.0);
    s.extend(&[2.0, 3.0]);
    assert!(s.snapshot().is_empty());
}

#[test]
fn column_spans_tile_the_samples() {
    let len = 10;
    let cols = 4;
    let spans: Vec<(usize, usize)> = (0..cols).map(|c| column_span(c, cols, len)).collect();
    assert_eq!(spans, vec![(0, 2), (2, 5), (5, 7), (7, 10)]);
    assert_eq!(column_span(0, 0, 5), (0, 5));
}

#[test]
fn scrolling_in_two_chunks_equals_one_chunk() {
    let mut a: ScrollingBuffer<i32> = ScrollingBuffer::new(5);
    let mut b: ScrollingBuffer<i32> = ScrollingBuffer::new(5);
    a.extend(&[1, 2, 3]);
    a.extend(&[4, 5, 6, 7]);
    b.extend(&[1, 2, 3, 4, 5, 6, 7]);
    assert_eq!(a.snapshot(), b.snapshot());
    assert_eq!(a.snapshot(), vec![3, 4, 5, 6, 7]);
}

#[test]
fn cloned_delay_line_is_independent() {
    let mut d: DelayLine<i32> = DelayLine::new(2);
    d.push(1);
    let mut e = d.clone();
    e.push(2);
    assert_eq!(d.delayed(0), 1);
    assert_eq!(e.delayed(0), 2);
    assert_eq!(e.delayed(1), 1);
}
