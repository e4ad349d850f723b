//! Frame sizes and leading-silence trimming arithmetic for voice-activity
//! detection.
//!
//! The trim keeps every sample from a margin before the first detected speech
//! frame to the end: the trailing edge is never trimmed.
use vstd::prelude::*;

verus! {

/// Frame duration for VAD processing: 10, 20 or 30 ms.
#[derive(Debug, Clone, Copy, PartialEq, Eq, Structural)]
pub enum VadFrameDuration {
    /// 10 ms frame (160 samples at 16 kHz)
    Ms10,
    /// 20 ms frame (320 samples at 16 kHz)
    Ms20,
    /// 30 ms frame (480 samples at 16 kHz)
    Ms30,
}

impl VadFrameDuration {
    /// Samples in one frame of this duration at 16 kHz.
    pub open spec fn spec_samples_at_16khz(self) -> usize {
        match self {
            VadFrameDuration::Ms10 => 160,
            VadFrameDuration::Ms20 => 320,
            VadFrameDuration::Ms30 => 480,
        }
    }

    /// Returns the number of samples for this frame duration at 16 kHz.
    pub fn samples_at_16khz(&self) -> (r: usize)
        ensures
            r == self.spec_samples_at_16khz(),
            r == 16 * self.spec_ms(),
    {
        match self {
            VadFrameDuration::Ms10 => 160,
            VadFrameDuration::Ms20 => 320,
            VadFrameDuration::Ms30 => 480,
        }
    }

    /// The duration in milliseconds.
    pub open spec fn spec_ms(self) -> usize {
        match self {
            VadFrameDuration::Ms10 => 10,
            VadFrameDuration::Ms20 => 20,
            VadFrameDuration::Ms30 => 30,
        }
    }

    /// The duration in milliseconds.
    pub fn ms(&self) -> (r: usize)
        ensures
            r == self.spec_ms(),
    {
        match self {
            VadFrameDuration::Ms10 => 10,
            VadFrameDuration::Ms20 => 20,
            VadFrameDuration::Ms30 => 30,
        }
    }
}

impl Default for VadFrameDuration {
    fn default() -> (r: Self)
        ensures
            r == VadFrameDuration::Ms30,
    {
        VadFrameDuration::Ms30
    }
}

/// Minimum recording length (in 16 kHz samples) before trimming is applied:
/// twenty seconds.
pub const TRIM_MIN_SAMPLES_16KHZ: u64 = 320_000;

/// The shortest recording, in samples at `sample_rate`, that is trimmed:
/// twenty seconds' worth.
pub fn trim_min_samples(sample_rate: u32) -> (r: u64)
    ensures
        r == TRIM_MIN_SAMPLES_16KHZ * sample_rate / 16_000,
        r == 20 * sample_rate,
{
    let r = 20 * (sample_rate as u64);
    assert(TRIM_MIN_SAMPLES_16KHZ * sample_rate / 16_000 == 20 * sample_rate) by (nonlinear_arith);
    r
}

/// The frame length, in samples at `sample_rate`, that spans one 30 ms frame.
pub fn trim_frame_size(sample_rate: u32) -> (r: u64)
    ensures
        r == 480 * sample_rate / 16_000,
{
    480 * (sample_rate as u64) / 16_000
}

/// Whether a recording of `total` samples at `sample_rate` is long enough to
/// be trimmed at all.
pub fn should_trim(total: usize, sample_rate: u32) -> (r: bool)
    ensures
        r == (total >= 20 * sample_rate && 480 * sample_rate / 16_000 > 0),
{
    let threshold = trim_min_samples(sample_rate);
    if (total as u64) < threshold {
        return false;
    }
    trim_frame_size(sample_rate) != 0
}

/// The `(start, end)` range kept by the leading-silence trim.
///
/// With no speech frame the whole range is kept. Otherwise the kept range
/// starts `margin` samples before the first speech frame (clamped at zero),
/// and always ends at `total`.
pub fn leading_trim_range(total: usize, first_speech_frame: Option<usize>, frame_size: usize, margin: usize) -> (r: (
    usize,
    usize,
))
    requires
        first_speech_frame matches Some(f) ==> f * frame_size <= total,
    ensures
        r.1 == total,
        r.0 <= r.1,
        first_speech_frame is None ==> r.0 == 0,
        first_speech_frame matches Some(f) ==> r.0 == if f * frame_size >= margin {
            f * frame_size - margin
        } else {
            0
        },
{
    match first_speech_frame {
        None => (0, total),
        Some(first) => {
            let onset = first * frame_size;
            let start = if onset >= margin { onset - margin } else { 0 };
            (start, total)
        },
    }
}

} // verus!
