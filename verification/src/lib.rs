//! Audio building blocks: device negotiation, MIDI messages, multichannel
//! buffers, and the data and state logic of DSP processors and displays.
use vstd::prelude::*;

pub mod audio;
pub mod buffer;
pub mod convolution;
pub mod envelope;
pub mod gain;
pub mod midi;
pub mod oversampling;
pub mod range;
pub mod svf;
pub mod waveform;
pub mod window;
