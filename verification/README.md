# juce_daito

Audio building blocks in Verus: the logic of an audio/DSP toolkit (device
configuration negotiation, MIDI message classification, channel-major sample
buffers and their interleaved layout, FIR delay lines, ADSR stages, gain
ramps, scrolling waveform history and display columns), each with a contract
proved by Verus.

- `src/` is the verified library. Sample types are generic (`T::default()` is
  silence), so the same containers serve `f32` audio.
- `app/` is the host layer: `cpal` output devices, `midir` MIDI input, file
  reading (`symphonia`) and WAV writing (`hound`), the floating-point DSP
  (filters, dynamics, FFT convolution, oscillators, windows) and the `egui`
  widgets. It calls the library for every decision that does not depend on
  floating point.
- `tests/` exercises the library on concrete values.
