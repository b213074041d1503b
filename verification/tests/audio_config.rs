use juce_daito::audio::{
    clamp_buffer_size, clamp_sample_rate, pick_supported_config, resolve_output_config,
    AudioDeviceConfig, BufferSize, SampleFormat, StreamConfigRange, SupportedBufferSize,
};

fn range(format: SampleFormat, channels: u16, min: u32, max: u32) -> StreamConfigRange {
    StreamConfigRange {
        channels,
        min_sample_rate: min,
        max_sample_rate: max,
        buffer_size: SupportedBufferSize::Range { min: 64, max: 4096 },
        sample_format: format,
    }
}

#[test]
fn default_config_is_48k_stereo_512() {
    let c = AudioDeviceConfig::default();
    assert_eq!(c.sample_rate, 48_000);
    assert_eq!(c.num_channels, 2);
    assert_eq!(c.buffer_size, 512);
}

#[test]
fn clamp_sample_rate_clamps_both_ways() {
    assert_eq!(clamp_sample_rate(44_100, 96_000, 48_000), 48_000);
    assert_eq!(clamp_sample_rate(44_100, 96_000, 8_000), 44_100);
    assert_eq!(clamp_sample_rate(44_100, 96_000, 192_000), 96_000);
}

#[test]
fn clamp_buffer_size_fixed_or_default() {
    assert_eq!(
        clamp_buffer_size(SupportedBufferSize::Range { min: 128, max: 1024 }, 4096),
        BufferSize::Fixed(1024)
    );
    assert_eq!(
        clamp_buffer_size(SupportedBufferSize::Range { min: 128, max: 1024 }, 16),
        BufferSize::Fixed(128)
    );
    assert_eq!(clamp_buffer_size(SupportedBufferSize::Unknown, 512), BufferSize::Default);
}

#[test]
fn pick_prefers_f32_range_covering_request() {
    let req = AudioDeviceConfig::default();
    let ranges = [
        range(SampleFormat::I16, 2, 8_000, 192_000),
        range(SampleFormat::F32, 2, 88_200, 192_000),
        range(SampleFormat::F32, 2, 44_100, 48_000),
    ];
    assert_eq!(pick_supported_config(&ranges, &req), Some(ranges[2]));
}

#[test]
fn pick_falls_back_to_enough_channels_then_any_f32() {
    let req = AudioDeviceConfig::default();
    let ranges = [
        range(SampleFormat::F32, 1, 44_100, 48_000),
        range(SampleFormat::F32, 2, 96_000, 96_000),
    ];
    assert_eq!(pick_supported_config(&ranges, &req), Some(ranges[1]));
    let mono = [range(SampleFormat::I32, 8, 48_000, 48_000), range(SampleFormat::F32, 1, 8_000, 8_000)];
    assert_eq!(pick_supported_config(&mono, &req), Some(mono[1]));
}

#[test]
fn pick_finds_nothing_without_f32() {
    let req = AudioDeviceConfig::default();
    let ranges = [range(SampleFormat::I16, 2, 48_000, 48_000), range(SampleFormat::F64, 2, 48_000, 48_000)];
    assert_eq!(pick_supported_config(&ranges, &req), None);
    assert_eq!(pick_supported_config(&[], &req), None);
}

#[test]
fn resolve_clamps_to_chosen_range() {
    let req = AudioDeviceConfig { sample_rate: 192_000, num_channels: 8, buffer_size: 32 };
    let chosen = range(SampleFormat::F32, 2, 44_100, 96_000);
    let s = resolve_output_config(&chosen, &req);
    assert_eq!(s.sample_rate, 96_000);
    assert_eq!(s.num_channels, 2);
    assert_eq!(s.buffer_size, BufferSize::Fixed(64));
    assert_eq!(s.sample_format, SampleFormat::F32);
}
