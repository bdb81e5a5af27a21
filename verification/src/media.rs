//! Camera frames and audio samples: sizes, rates and what counts as too slow.

use vstd::prelude::*;

verus! {

/// The time of one frame at thirty frames per second, in nanoseconds.
pub const FRAME_NANOS: u64 = 33_333_333;

/// Bytes that some frames are compressed to: a fiftieth of a frame of 1920 by 1080 pixels
/// with three bytes each.
pub fn compress_video_frames(frames: u32) -> (r: u64)
    ensures
        r == frames * (1920 * 1080 * 3 / 50),
{
    frames as u64 * 124_416
}

/// Bytes that some audio samples are encoded to, two for each; nothing where the number
/// does not fit.
pub fn encode_audio(samples: u64) -> (r: Option<u64>)
    ensures
        match r {
            Some(b) => b == samples * 2,
            None => samples * 2 > u64::MAX,
        },
{
    samples.checked_mul(2)
}

/// Bytes of a frame with three bytes for each pixel; nothing where the number does not
/// fit in 32 bits.
pub fn frame_size(width: u32, height: u32) -> (r: Option<u32>)
    ensures
        match r {
            Some(b) => b == width * height * 3,
            None => width * height * 3 > u32::MAX,
        },
{
    assert(0 <= width * height <= u32::MAX * u32::MAX) by (nonlinear_arith)
        requires
            width <= u32::MAX,
            height <= u32::MAX,
    ;
    let pixels: u64 = width as u64 * height as u64;
    let bytes: u128 = pixels as u128 * 3;
    if bytes <= u32::MAX as u128 {
        Some(bytes as u32)
    } else {
        None
    }
}

/// How long to wait after a frame that took `elapsed_ns` nanoseconds, so that it takes
/// the time of one frame.
pub fn frame_pause(elapsed_ns: u64) -> (r: u64)
    ensures
        elapsed_ns < FRAME_NANOS ==> elapsed_ns + r == FRAME_NANOS,
        elapsed_ns >= FRAME_NANOS ==> r == 0,
        elapsed_ns + r >= FRAME_NANOS,
{
    if elapsed_ns < FRAME_NANOS {
        FRAME_NANOS - elapsed_ns
    } else {
        0
    }
}

/// Whether some frames took so little time that a second has at least twenty of them. No
/// frames in no time are not enough.
pub open spec fn is_camera_rate(frames: int, nanos: int) -> bool {
    (frames > 0 || nanos > 0) && frames * 1_000_000_000 >= 20 * nanos
}

/// Whether a camera is fast enough: twenty frames a second.
pub fn camera_keeps_up(frames: u32, nanos: u64) -> (r: bool)
    ensures
        r == is_camera_rate(frames as int, nanos as int),
{
    (frames > 0 || nanos > 0) && frames as u128 * 1_000_000_000 >= 20 * nanos as u128
}

/// Samples that a recording has: one for each channel, as often as the rate says.
pub open spec fn samples_needed(sample_rate: int, channels: int, secs: int) -> int {
    sample_rate * secs * channels
}

/// Whether a recording has further samples before it.
pub open spec fn recording_goes_on(samples: int, sample_rate: int, channels: int, secs: int) -> bool {
    samples < samples_needed(sample_rate, channels, secs)
}

/// Samples that a recording has; nothing where the number does not fit.
pub fn record_audio(sample_rate: u32, channels: u32, secs: u64) -> (r: Option<u64>)
    ensures
        match r {
            Some(n) => n == samples_needed(sample_rate as int, channels as int, secs as int),
            None => samples_needed(sample_rate as int, channels as int, secs as int) > u64::MAX,
        },
{
    let rate: u128 = sample_rate as u128;
    let ghost a = sample_rate as int;
    let ghost b = secs as int;
    let ghost c = channels as int;
    assert(a * b <= u32::MAX * u64::MAX && 0 <= a * b) by (nonlinear_arith)
        requires
            0 <= a <= u32::MAX,
            0 <= b <= u64::MAX,
    ;
    let per_channel: u128 = rate * secs as u128;
    let p = per_channel;
    assert(p * c <= u32::MAX * u64::MAX * u32::MAX && 0 <= p * c) by (nonlinear_arith)
        requires
            0 <= p <= u32::MAX * u64::MAX,
            0 <= c <= u32::MAX,
    ;
    let needed: u128 = per_channel * channels as u128;
    if needed <= u64::MAX as u128 {
        Some(needed as u64)
    } else {
        None
    }
}

/// A recording that takes a sample of every channel at a time ends with just the
/// samples that it needs, after `sample_rate * secs` steps.
pub proof fn recording_ends_exactly(sample_rate: int, channels: int, secs: int, steps: int)
    requires
        sample_rate >= 0,
        secs >= 0,
        channels > 0,
        0 <= steps,
    ensures
        recording_goes_on(steps * channels, sample_rate, channels, secs) <==> steps < sample_rate
            * secs,
        steps == sample_rate * secs ==> steps * channels == samples_needed(
            sample_rate,
            channels,
            secs,
        ),
{
    let n = sample_rate * secs;
    assert((steps * channels < n * channels) == (steps < n)) by (nonlinear_arith)
        requires
            channels > 0,
    ;
}

/// Whether some samples took so little time that a second has at least nine tenths of
/// the sample rate. No samples in no time are not enough.
pub open spec fn is_audio_rate(samples: int, nanos: int, sample_rate: int) -> bool {
    (samples > 0 || nanos > 0) && samples * 10_000_000_000 >= 9 * sample_rate * nanos
}

/// Whether a recording is fast enough: nine tenths of the sample rate.
pub fn audio_keeps_up(samples: u64, nanos: u64, sample_rate: u32) -> (r: bool)
    ensures
        r == is_audio_rate(samples as int, nanos as int, sample_rate as int),
{
    let ghost a = 9 * sample_rate as int;
    let ghost b = nanos as int;
    assert(0 <= a * b <= 9 * u32::MAX * u64::MAX) by (nonlinear_arith)
        requires
            0 <= a <= 9 * u32::MAX,
            0 <= b <= u64::MAX,
    ;
    (samples > 0 || nanos > 0) && samples as u128 * 10_000_000_000 >= 9 * sample_rate as u128
        * nanos as u128
}

} // verus!
