//! Output-device configuration: what is requested, what a device offers,
//! and the negotiation between the two.
use vstd::prelude::*;

verus! {

/// The stream configuration an application asks for.
#[derive(Debug, Clone, Copy)]
pub struct AudioDeviceConfig {
    pub sample_rate: u32,
    pub num_channels: u16,
    pub buffer_size: u32,
}

impl Default for AudioDeviceConfig {
    /// 48 kHz, stereo, 512-frame buffers.
    fn default() -> (c: Self)
        ensures
            c.sample_rate == 48_000,
            c.num_channels == 2,
            c.buffer_size == 512,
    {
        AudioDeviceConfig { sample_rate: 48_000, num_channels: 2, buffer_size: 512 }
    }
}

/// Buffer size of an opened stream.
#[derive(Debug, Clone, Copy, PartialEq, Eq, Structural)]
pub enum BufferSize {
    Fixed(u32),
    Default,
}

/// Sample formats a device may offer.
#[derive(Debug, Clone, Copy, PartialEq, Eq, Structural)]
pub enum SampleFormat {
    I8,
    I16,
    I32,
    I64,
    U8,
    U16,
    U32,
    U64,
    F32,
    F64,
    /// A format not listed above.
    Other,
}

/// Buffer sizes a device supports for a configuration.
#[derive(Debug, Clone, Copy, PartialEq, Eq, Structural)]
pub enum SupportedBufferSize {
    Range { min: u32, max: u32 },
    Unknown,
}

/// A range of stream configurations that a device supports.
#[derive(Debug, Clone, Copy, PartialEq, Eq, Structural)]
pub struct StreamConfigRange {
    pub channels: u16,
    pub min_sample_rate: u32,
    pub max_sample_rate: u32,
    pub buffer_size: SupportedBufferSize,
    pub sample_format: SampleFormat,
}

/// The configuration an output stream is opened with.
#[derive(Debug, Clone, Copy, PartialEq, Eq, Structural)]
pub struct StreamSettings {
    pub sample_rate: u32,
    pub num_channels: u16,
    pub buffer_size: BufferSize,
    pub sample_format: SampleFormat,
}

/// Preference tiers of the negotiation, best first: (1) `f32` samples,
/// enough channels and a sample-rate range that covers the request;
/// (2) `f32` and enough channels; (3) `f32`.
pub open spec fn meets_tier(r: StreamConfigRange, req: AudioDeviceConfig, tier: int) -> bool {
    &&& r.sample_format == SampleFormat::F32
    &&& tier <= 2 ==> r.channels >= req.num_channels
    &&& tier <= 1 ==> r.min_sample_rate <= req.sample_rate && r.max_sample_rate >= req.sample_rate
}

/// The first range of `s` that meets `tier`.
pub open spec fn first_meeting(s: Seq<StreamConfigRange>, req: AudioDeviceConfig, tier: int) -> Option<
    StreamConfigRange,
>
    decreases s.len(),
{
    if s.len() == 0 {
        None
    } else if meets_tier(s[0], req, tier) {
        Some(s[0])
    } else {
        first_meeting(s.drop_first(), req, tier)
    }
}

/// The range the negotiation settles on: the first range of the best tier
/// that any range meets.
pub open spec fn spec_pick(s: Seq<StreamConfigRange>, req: AudioDeviceConfig) -> Option<StreamConfigRange> {
    if first_meeting(s, req, 1) is Some {
        first_meeting(s, req, 1)
    } else if first_meeting(s, req, 2) is Some {
        first_meeting(s, req, 2)
    } else {
        first_meeting(s, req, 3)
    }
}

/// `v` clamped into `[lo, hi]`.
pub open spec fn spec_clamp(v: u32, lo: u32, hi: u32) -> u32 {
    if v < lo {
        lo
    } else if v > hi {
        hi
    } else {
        v
    }
}

/// A range whose bounds are ordered, as clamping into it needs.
pub open spec fn well_formed_range(r: StreamConfigRange) -> bool {
    &&& r.min_sample_rate <= r.max_sample_rate
    &&& r.buffer_size matches SupportedBufferSize::Range { min, max } ==> min <= max
}

fn is_f32(format: SampleFormat) -> (b: bool)
    ensures
        b == (format == SampleFormat::F32),
{
    match format {
        SampleFormat::F32 => true,
        _ => false,
    }
}

fn meets(r: &StreamConfigRange, req: &AudioDeviceConfig, tier: u8) -> (b: bool)
    ensures
        b == meets_tier(*r, *req, tier as int),
{
    is_f32(r.sample_format) && (tier > 2 || r.channels >= req.num_channels) && (tier > 1 || (
    r.min_sample_rate <= req.sample_rate && r.max_sample_rate >= req.sample_rate))
}

fn find_first(ranges: &[StreamConfigRange], req: &AudioDeviceConfig, tier: u8) -> (res: Option<
    StreamConfigRange,
>)
    ensures
        res == first_meeting(ranges@, *req, tier as int),
{
    let n = ranges.len();
    let mut i: usize = 0;
    assert(ranges@.subrange(0, n as int) =~= ranges@);
    while i < n
        invariant
            i <= n,
            n == ranges@.len(),
            first_meeting(ranges@, *req, tier as int) == first_meeting(
                ranges@.subrange(i as int, n as int),
                *req,
                tier as int,
            ),
        decreases n - i,
    {
        let r = ranges[i];
        let ghost rest = ranges@.subrange(i as int, n as int);
        assert(rest[0] == r);
        if meets(&r, req, tier) {
            return Some(r);
        }
        assert(rest.drop_first() =~= ranges@.subrange(i + 1, n as int));
        i += 1;
    }
    None
}

/// Chooses the range to open an output stream with: a range with `f32`
/// samples, enough channels and a sample-rate range covering the request;
/// failing that, one with `f32` samples and enough channels; failing that,
/// any `f32` range. Within a tier the first range wins; `None` when no range
/// offers `f32` samples.
pub fn pick_supported_config(ranges: &[StreamConfigRange], requested: &AudioDeviceConfig) -> (res:
    Option<StreamConfigRange>)
    ensures
        res == spec_pick(ranges@, *requested),
        res is Some <==> exists|i: int|
            0 <= i < ranges@.len() && (#[trigger] ranges@[i]).sample_format == SampleFormat::F32,
        res matches Some(r) ==> ranges@.contains(r) && r.sample_format == SampleFormat::F32,
        (exists|i: int|
            0 <= i < ranges@.len() && (#[trigger] ranges@[i]).sample_format == SampleFormat::F32
                && ranges@[i].channels >= requested.num_channels && ranges@[i].min_sample_rate
                <= requested.sample_rate && requested.sample_rate <= ranges@[i].max_sample_rate) ==> (
        res matches Some(r) && r.channels >= requested.num_channels && r.min_sample_rate
            <= requested.sample_rate && requested.sample_rate <= r.max_sample_rate),
        (exists|i: int|
            0 <= i < ranges@.len() && (#[trigger] ranges@[i]).sample_format == SampleFormat::F32
                && ranges@[i].channels >= requested.num_channels) ==> (res matches Some(r)
            && r.channels >= requested.num_channels),
{
    proof {
        lemma_pick_supported_config(ranges@, *requested);
    }
    match find_first(ranges, requested, 1) {
        Some(r) => Some(r),
        None => match find_first(ranges, requested, 2) {
            Some(r) => Some(r),
            None => find_first(ranges, requested, 3),
        },
    }
}

/// The buffer size to request: the requested size clamped into the
/// supported range, or the device default when the range is unknown.
pub fn clamp_buffer_size(range: SupportedBufferSize, requested: u32) -> (b: BufferSize)
    requires
        range matches SupportedBufferSize::Range { min, max } ==> min <= max,
    ensures
        b == (match range {
            SupportedBufferSize::Range { min, max } => BufferSize::Fixed(spec_clamp(requested, min, max)),
            SupportedBufferSize::Unknown => BufferSize::Default,
        }),
        range is Unknown ==> b == BufferSize::Default,
        range matches SupportedBufferSize::Range { min, max } ==> (b matches BufferSize::Fixed(n)
            && min <= n <= max && (min <= requested <= max ==> n == requested)),
{
    match range {
        SupportedBufferSize::Range { min, max } => BufferSize::Fixed(clamp_sample_rate(min, max, requested)),
        SupportedBufferSize::Unknown => BufferSize::Default,
    }
}

/// `requested` clamped into `[min, max]`.
pub fn clamp_sample_rate(min: u32, max: u32, requested: u32) -> (r: u32)
    requires
        min <= max,
    ensures
        r == spec_clamp(requested, min, max),
        min <= r <= max,
        min <= requested <= max ==> r == requested,
        requested < min ==> r == min,
        requested > max ==> r == max,
{
    if requested < min {
        min
    } else if requested > max {
        max
    } else {
        requested
    }
}

/// The settings an output stream is opened with once `chosen` has been
/// picked: requested buffer size and sample rate clamped into the range,
/// channel count capped at what the range offers.
pub fn resolve_output_config(chosen: &StreamConfigRange, config: &AudioDeviceConfig) -> (s: StreamSettings)
    requires
        well_formed_range(*chosen),
    ensures
        s.buffer_size == (match chosen.buffer_size {
            SupportedBufferSize::Range { min, max } => BufferSize::Fixed(
                spec_clamp(config.buffer_size, min, max),
            ),
            SupportedBufferSize::Unknown => BufferSize::Default,
        }),
        s.sample_rate == spec_clamp(config.sample_rate, chosen.min_sample_rate, chosen.max_sample_rate),
        s.num_channels == (if config.num_channels <= chosen.channels {
            config.num_channels
        } else {
            chosen.channels
        }),
        s.sample_format == chosen.sample_format,
        chosen.min_sample_rate <= s.sample_rate <= chosen.max_sample_rate,
        chosen.min_sample_rate <= config.sample_rate <= chosen.max_sample_rate ==> s.sample_rate
            == config.sample_rate,
        s.num_channels <= config.num_channels,
        s.num_channels <= chosen.channels,
        s.num_channels == config.num_channels || s.num_channels == chosen.channels,
{
    let buffer_size = clamp_buffer_size(chosen.buffer_size, config.buffer_size);
    let sample_rate = clamp_sample_rate(chosen.min_sample_rate, chosen.max_sample_rate, config.sample_rate);
    let num_channels = if config.num_channels <= chosen.channels {
        config.num_channels
    } else {
        chosen.channels
    };
    StreamSettings { sample_rate, num_channels, buffer_size, sample_format: chosen.sample_format }
}

/// `first_meeting` finds a range of `s` that meets the tier, and finds one
/// whenever some range does.
proof fn lemma_first_meeting(s: Seq<StreamConfigRange>, req: AudioDeviceConfig, tier: int)
    ensures
        first_meeting(s, req, tier) matches Some(r) ==> s.contains(r) && meets_tier(r, req, tier),
        first_meeting(s, req, tier) matches Some(r) ==> exists|j: int|
            0 <= j < s.len() && s[j] == r && forall|i: int|
                0 <= i < j ==> !meets_tier(#[trigger] s[i], req, tier),
        first_meeting(s, req, tier) is None <==> forall|i: int|
            0 <= i < s.len() ==> !meets_tier(#[trigger] s[i], req, tier),
    decreases s.len(),
{
    if s.len() > 0 {
        lemma_first_meeting(s.drop_first(), req, tier);
        if !meets_tier(s[0], req, tier) {
            if first_meeting(s, req, tier) is Some {
                let r = first_meeting(s, req, tier)->Some_0;
                let t = s.drop_first();
                let j = choose|j: int| 0 <= j < t.len() && t[j] == r && forall|i: int|
                    0 <= i < j ==> !meets_tier(#[trigger] t[i], req, tier);
                assert(s[j + 1] == r);
                assert forall|i: int| 0 <= i < j + 1 implies !meets_tier(#[trigger] s[i], req, tier) by {
                    if i > 0 {
                        assert(s[i] == t[i - 1]);
                    }
                }
            }
            if first_meeting(s, req, tier) is None {
                assert forall|i: int| 0 <= i < s.len() implies !meets_tier(#[trigger] s[i], req, tier) by {
                    if i > 0 {
                        assert(s[i] == s.drop_first()[i - 1]);
                    }
                }
            } else {
                if forall|i: int| 0 <= i < s.len() ==> !meets_tier(#[trigger] s[i], req, tier) {
                    assert forall|i: int| 0 <= i < s.drop_first().len() implies !meets_tier(
                        #[trigger] s.drop_first()[i],
                        req,
                        tier,
                    ) by {
                        assert(s.drop_first()[i] == s[i + 1]);
                    }
                }
            }
        } else {
            assert(s[0] == s[0]);
            assert(forall|i: int| 0 <= i < 0 ==> !meets_tier(#[trigger] s[i], req, tier));
        }
    }
}

/// Clamping lands inside the bounds, keeps a value already inside them, and
/// moves a value outside them to the nearer bound.
pub proof fn lemma_clamp(v: u32, lo: u32, hi: u32)
    requires
        lo <= hi,
    ensures
        lo <= spec_clamp(v, lo, hi) <= hi,
        lo <= v <= hi ==> spec_clamp(v, lo, hi) == v,
        v < lo ==> spec_clamp(v, lo, hi) == lo,
        v > hi ==> spec_clamp(v, lo, hi) == hi,
{
}

/// What the negotiation guarantees, in terms of the offered ranges and the
/// request: it finds a range exactly when some range offers `f32` samples,
/// and the range it finds is one of those offered and uses `f32`. When some
/// `f32` range has enough channels and its sample rates cover the requested
/// rate, the picked range has enough channels and covers the rate too, and
/// it is the first offered range that does. When some `f32` range has enough
/// channels, the picked range has enough channels.
pub proof fn lemma_pick_supported_config(s: Seq<StreamConfigRange>, req: AudioDeviceConfig)
    ensures
        spec_pick(s, req) is Some <==> exists|i: int|
            0 <= i < s.len() && (#[trigger] s[i]).sample_format == SampleFormat::F32,
        spec_pick(s, req) matches Some(r) ==> s.contains(r) && r.sample_format == SampleFormat::F32,
        (exists|i: int|
            0 <= i < s.len() && (#[trigger] s[i]).sample_format == SampleFormat::F32 && s[i].channels
                >= req.num_channels && s[i].min_sample_rate <= req.sample_rate && req.sample_rate
                <= s[i].max_sample_rate) ==> (spec_pick(s, req) matches Some(r) && r.channels
            >= req.num_channels && r.min_sample_rate <= req.sample_rate && req.sample_rate
            <= r.max_sample_rate && exists|j: int|
            0 <= j < s.len() && s[j] == r && forall|i: int|
                0 <= i < j ==> !((#[trigger] s[i]).sample_format == SampleFormat::F32 && s[i].channels
                    >= req.num_channels && s[i].min_sample_rate <= req.sample_rate
                    && req.sample_rate <= s[i].max_sample_rate)),
        (exists|i: int|
            0 <= i < s.len() && (#[trigger] s[i]).sample_format == SampleFormat::F32 && s[i].channels
                >= req.num_channels) ==> (spec_pick(s, req) matches Some(r) && r.channels
            >= req.num_channels),
{
    lemma_first_meeting(s, req, 1);
    lemma_first_meeting(s, req, 2);
    lemma_first_meeting(s, req, 3);
    if exists|i: int| 0 <= i < s.len() && (#[trigger] s[i]).sample_format == SampleFormat::F32 {
        let i = choose|i: int| 0 <= i < s.len() && (#[trigger] s[i]).sample_format == SampleFormat::F32;
        assert(meets_tier(s[i], req, 3));
    }
    if exists|i: int|
        0 <= i < s.len() && (#[trigger] s[i]).sample_format == SampleFormat::F32 && s[i].channels
            >= req.num_channels {
        let i = choose|i: int|
            0 <= i < s.len() && (#[trigger] s[i]).sample_format == SampleFormat::F32 && s[i].channels
                >= req.num_channels;
        assert(meets_tier(s[i], req, 2));
    }
    if exists|i: int|
        0 <= i < s.len() && (#[trigger] s[i]).sample_format == SampleFormat::F32 && s[i].channels
            >= req.num_channels && s[i].min_sample_rate <= req.sample_rate && req.sample_rate
            <= s[i].max_sample_rate {
        let i = choose|i: int|
            0 <= i < s.len() && (#[trigger] s[i]).sample_format == SampleFormat::F32 && s[i].channels
                >= req.num_channels && s[i].min_sample_rate <= req.sample_rate && req.sample_rate
                <= s[i].max_sample_rate;
        assert(meets_tier(s[i], req, 1));
        let r = first_meeting(s, req, 1)->Some_0;
        let j = choose|j: int| 0 <= j < s.len() && s[j] == r && forall|k: int|
            0 <= k < j ==> !meets_tier(#[trigger] s[k], req, 1);
        assert forall|k: int| 0 <= k < j implies !((#[trigger] s[k]).sample_format == SampleFormat::F32
            && s[k].channels >= req.num_channels && s[k].min_sample_rate <= req.sample_rate
            && req.sample_rate <= s[k].max_sample_rate) by {
            assert(!meets_tier(s[k], req, 1));
        }
    }
}

} // verus!
