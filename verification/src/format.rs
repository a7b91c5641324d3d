//! Sample formats, quantization and the wave-format descriptor handed to the
//! output device.

use vstd::prelude::*;
use crate::fixed::{
    clip, clip_spec, lemma_clip_monotonic, lemma_portion_bounds, lemma_portion_monotonic, portion,
    UNITY,
};

verus! {

/// Format tag of linear PCM in a wave-format descriptor.
pub const WAVE_FORMAT_PCM: u16 = 1;

/// The closed set of sample formats the engine can produce.
#[derive(Clone, Copy, Debug, PartialEq, Eq, Structural)]
pub enum SampleFormat {
    /// 8 bits per sample, range `[-127, 127]`.
    Pcm8,
    /// 16 bits per sample, range `[-32767, 32767]`.
    Pcm16,
    /// 32 bits per sample, range `[-2147483647, 2147483647]`.
    Pcm32,
}

impl SampleFormat {
    /// Bits in one sample.
    pub open spec fn bits_spec(self) -> int {
        match self {
            SampleFormat::Pcm8 => 8,
            SampleFormat::Pcm16 => 16,
            SampleFormat::Pcm32 => 32,
        }
    }

    /// Largest quantized magnitude: `2^(bits - 1) - 1`.
    pub open spec fn max_sample_spec(self) -> int {
        match self {
            SampleFormat::Pcm8 => 127,
            SampleFormat::Pcm16 => 32767,
            SampleFormat::Pcm32 => 2147483647,
        }
    }

    /// What a sample becomes in this format: clipped to `[-UNITY, UNITY]`, then
    /// scaled to the format's range, rounding toward zero.
    pub open spec fn quantize_spec(self, sample: int) -> int {
        let clipped = clip_spec(sample, UNITY as int);
        if clipped >= 0 {
            portion(self.max_sample_spec(), clipped, UNITY as int)
        } else {
            -portion(self.max_sample_spec(), -clipped, UNITY as int)
        }
    }

    /// The format with `bits` bits per sample, if it is one of the set.
    pub open spec fn of_bits(bits: int) -> Option<SampleFormat> {
        if bits == 8 {
            Some(SampleFormat::Pcm8)
        } else if bits == 16 {
            Some(SampleFormat::Pcm16)
        } else if bits == 32 {
            Some(SampleFormat::Pcm32)
        } else {
            None
        }
    }

    /// The format with the given bit depth, if it is one of the set.
    pub fn from_bits(bits: u16) -> (r: Option<SampleFormat>)
        ensures
            r == Self::of_bits(bits as int),
            r is Some <==> (bits == 8 || bits == 16 || bits == 32),
            r matches Some(format) ==> format.bits_spec() == bits,
    {
        if bits == 8 {
            Some(SampleFormat::Pcm8)
        } else if bits == 16 {
            Some(SampleFormat::Pcm16)
        } else if bits == 32 {
            Some(SampleFormat::Pcm32)
        } else {
            None
        }
    }

    /// Bits in one sample.
    pub fn bits(self) -> (r: u16)
        ensures
            r == self.bits_spec(),
    {
        match self {
            SampleFormat::Pcm8 => 8,
            SampleFormat::Pcm16 => 16,
            SampleFormat::Pcm32 => 32,
        }
    }

    /// Bytes in one sample.
    pub fn bytes(self) -> (r: u16)
        ensures
            r * 8 == self.bits_spec(),
    {
        match self {
            SampleFormat::Pcm8 => 1,
            SampleFormat::Pcm16 => 2,
            SampleFormat::Pcm32 => 4,
        }
    }

    /// Largest quantized magnitude.
    pub fn max_sample(self) -> (r: i32)
        ensures
            r == self.max_sample_spec(),
    {
        match self {
            SampleFormat::Pcm8 => 127,
            SampleFormat::Pcm16 => 32767,
            SampleFormat::Pcm32 => 2147483647,
        }
    }

    /// Clips `sample` to `[-UNITY, UNITY]` and scales it to the format's range.
    /// Out-of-range samples are clipped, never rejected.
    pub fn quantize(self, sample: i64) -> (q: i32)
        ensures
            q == self.quantize_spec(sample as int),
            -self.max_sample_spec() <= q <= self.max_sample_spec(),
            sample >= UNITY ==> q == self.max_sample_spec(),
            sample <= -UNITY ==> q == -self.max_sample_spec(),
            sample == 0 ==> q == 0,
    {
        let clipped: i64 = clip(sample, UNITY);
        let max: i64 = self.max_sample() as i64;
        if clipped >= 0 {
            proof {
                lemma_portion_bounds(max as int, clipped as int, UNITY as int);
                assert(0 <= max * clipped <= max * UNITY) by (nonlinear_arith)
                    requires
                        0 <= clipped <= UNITY,
                        max >= 0,
                ;
            }
            (max * clipped / UNITY) as i32
        } else {
            proof {
                lemma_portion_bounds(max as int, -clipped as int, UNITY as int);
                assert(0 <= max * (-clipped) <= max * UNITY) by (nonlinear_arith)
                    requires
                        0 <= -clipped <= UNITY,
                        max >= 0,
                ;
            }
            let magnitude: i64 = max * (-clipped) / UNITY;
            (-magnitude) as i32
        }
    }
}

/// Quantization keeps order: a louder sample never quantizes below a quieter
/// one.
pub proof fn lemma_quantize_monotonic(format: SampleFormat, a: int, b: int)
    requires
        a <= b,
    ensures
        format.quantize_spec(a) <= format.quantize_spec(b),
{
    let m = format.max_sample_spec();
    let ca = clip_spec(a, UNITY as int);
    let cb = clip_spec(b, UNITY as int);
    lemma_clip_monotonic(a, b, UNITY as int);
    if ca >= 0 {
        lemma_portion_monotonic(m, ca, cb, UNITY as int);
    } else if cb >= 0 {
        lemma_portion_bounds(m, -ca, UNITY as int);
        lemma_portion_bounds(m, cb, UNITY as int);
    } else {
        lemma_portion_monotonic(m, -cb, -ca, UNITY as int);
    }
}

/// The plain values of a PCM wave-format descriptor.
#[derive(Clone, Copy, Debug, PartialEq, Eq, Structural)]
pub struct WaveFormat {
    /// Always [`WAVE_FORMAT_PCM`].
    pub format_tag: u16,
    /// Interleaved channels in a frame.
    pub channels: u16,
    /// Frames per second.
    pub samples_per_sec: u32,
    /// `samples_per_sec * block_align`.
    pub avg_bytes_per_sec: u32,
    /// Bytes in one frame: `channels * bits_per_sample / 8`.
    pub block_align: u16,
    /// Bits in one sample.
    pub bits_per_sample: u16,
}

impl WaveFormat {
    /// Whether a descriptor exists for this combination: both counts positive
    /// and both derived byte counts within their fields.
    pub open spec fn representable(sample_rate: int, channels: int, format: SampleFormat) -> bool {
        &&& sample_rate > 0
        &&& channels > 0
        &&& channels * (format.bits_spec() / 8) <= u16::MAX
        &&& sample_rate * (channels * (format.bits_spec() / 8)) <= u32::MAX
    }

    /// The descriptor of a representable combination.
    pub open spec fn pcm_spec(sample_rate: int, channels: int, format: SampleFormat) -> WaveFormat {
        WaveFormat {
            format_tag: WAVE_FORMAT_PCM,
            channels: channels as u16,
            samples_per_sec: sample_rate as u32,
            avg_bytes_per_sec: (sample_rate * (channels * (format.bits_spec() / 8))) as u32,
            block_align: (channels * (format.bits_spec() / 8)) as u16,
            bits_per_sample: format.bits_spec() as u16,
        }
    }

    /// Derives the descriptor for `sample_rate`, `channels` and `format`.
    pub fn pcm(sample_rate: u32, channels: u16, format: SampleFormat) -> (r: Option<WaveFormat>)
        ensures
            r is Some <==> Self::representable(sample_rate as int, channels as int, format),
            r matches Some(wave) ==> wave == Self::pcm_spec(
                sample_rate as int,
                channels as int,
                format,
            ),
    {
        if sample_rate == 0 || channels == 0 {
            return None;
        }
        let bytes: u32 = format.bytes() as u32;
        assert(bytes == format.bits_spec() / 8);
        assert(channels * bytes <= 4 * u16::MAX) by (nonlinear_arith)
            requires
                channels <= u16::MAX,
                0 <= bytes <= 4,
        ;
        let align: u32 = channels as u32 * bytes;
        if align > u16::MAX as u32 {
            return None;
        }
        assert(sample_rate * align <= u32::MAX * u16::MAX) by (nonlinear_arith)
            requires
                0 <= sample_rate <= u32::MAX,
                0 <= align <= u16::MAX,
        ;
        let rate: u64 = sample_rate as u64 * align as u64;
        if rate > u32::MAX as u64 {
            return None;
        }
        Some(
            WaveFormat {
                format_tag: WAVE_FORMAT_PCM,
                channels,
                samples_per_sec: sample_rate,
                avg_bytes_per_sec: rate as u32,
                block_align: align as u16,
                bits_per_sample: format.bits(),
            },
        )
    }
}

} // verus!
