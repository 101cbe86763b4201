//! Presentation times of video frames and audio chunks. Both count from the
//! start of the session: video by the wall clock, audio by its samples.
use vstd::prelude::*;

use crate::ring::TICKS_PER_SECOND;

verus! {

/// Audio samples per second and channel.
pub const AUDIO_SAMPLE_RATE: u32 = 48_000;

/// Channels that are interleaved in the audio stream.
pub const AUDIO_CHANNELS: u32 = 2;

/// How many pictures the frames take turns in.
pub const NV12_POOL_SIZE: u64 = 4;

/// When item number `n` of a stream with `rate` items a second is due.
pub open spec fn due(n: int, rate: int) -> int {
    n * TICKS_PER_SECOND / rate
}

/// When a sample is presented, and for how long.
#[derive(Debug, Clone, Copy, PartialEq, Eq, Structural)]
pub struct Timing {
    pub pts_100ns: i64,
    pub duration_100ns: i64,
}

/// An elapsed time in units of 100 ns.
pub fn elapsed_ticks(secs: u64, nanos: u32) -> (ticks: i64)
    requires
        secs * TICKS_PER_SECOND + nanos / 100 <= i64::MAX,
    ensures
        ticks == secs * TICKS_PER_SECOND + nanos / 100,
{
    secs as i64 * TICKS_PER_SECOND + (nanos / 100) as i64
}

/// Stamps the frames of a capture.
pub struct FrameClock {
    /// How many frames were stamped.
    pub frames: u64,
    /// The nominal frame rate.
    pub fps: u32,
}

/// The stamp of a frame, and the picture of the pool that it is converted into.
#[derive(Debug, Clone, Copy, PartialEq, Eq, Structural)]
pub struct FrameStamp {
    pub timing: Timing,
    pub picture: usize,
}

impl FrameClock {
    /// A clock for a capture that starts now.
    pub fn new(fps: u32) -> (clock: FrameClock)
        ensures
            clock.frames == 0,
            clock.fps == fps,
    {
        FrameClock { frames: 0, fps }
    }

    /// Stamps the next frame. It is presented when it arrived, `elapsed_100ns`
    /// after the start of the session, and lasts until the next one is due at
    /// the nominal frame rate.
    pub fn stamp(&mut self, elapsed_100ns: i64) -> (stamp: FrameStamp)
        requires
            old(self).fps > 0,
            (old(self).frames + 1) * TICKS_PER_SECOND <= i64::MAX,
        ensures
            final(self).fps == old(self).fps,
            final(self).frames == old(self).frames + 1,
            stamp.timing.pts_100ns == elapsed_100ns,
            stamp.timing.duration_100ns == due(old(self).frames + 1, old(self).fps as int) - due(
                old(self).frames as int,
                old(self).fps as int,
            ),
            stamp.picture == old(self).frames % NV12_POOL_SIZE,
    {
        let n: u64 = self.frames;
        let ticks: u64 = TICKS_PER_SECOND as u64;
        let fps: u64 = self.fps as u64;
        let from: u64 = n * ticks / fps;
        let to: u64 = (n + 1) * ticks / fps;
        proof {
            vstd::arithmetic::div_mod::lemma_div_is_ordered(
                n * ticks,
                (n + 1) * ticks,
                fps as int,
            );
            vstd::arithmetic::div_mod::lemma_div_nonincreasing((n + 1) * ticks, fps as int);
        }
        self.frames = n + 1;
        FrameStamp {
            timing: Timing {
                pts_100ns: elapsed_100ns,
                duration_100ns: (to - from) as i64,
            },
            picture: (n % NV12_POOL_SIZE) as usize,
        }
    }
}

/// Stamps the chunks of an audio stream.
pub struct AudioClock {
    /// How many samples per channel were stamped.
    pub samples: u64,
}

impl AudioClock {
    /// A clock for a stream that starts now.
    pub fn new() -> (clock: AudioClock)
        ensures
            clock.samples == 0,
    {
        AudioClock { samples: 0 }
    }

    /// Stamps the next chunk, which has `values` interleaved values.
    pub fn stamp(&mut self, values: usize) -> (timing: Timing)
        requires
            old(self).samples * TICKS_PER_SECOND <= i64::MAX,
            (values / AUDIO_CHANNELS as usize) * TICKS_PER_SECOND <= i64::MAX,
        ensures
            final(self).samples == old(self).samples + values / AUDIO_CHANNELS as usize,
            timing.pts_100ns == due(old(self).samples as int, AUDIO_SAMPLE_RATE as int),
            timing.duration_100ns == due(
                values as int / AUDIO_CHANNELS as int,
                AUDIO_SAMPLE_RATE as int,
            ),
    {
        let n: u64 = (values / AUDIO_CHANNELS as usize) as u64;
        let ticks: u64 = TICKS_PER_SECOND as u64;
        let pts: u64 = self.samples * ticks / AUDIO_SAMPLE_RATE as u64;
        let duration: u64 = n * ticks / AUDIO_SAMPLE_RATE as u64;
        self.samples = self.samples + n;
        Timing { pts_100ns: pts as i64, duration_100ns: duration as i64 }
    }
}

/// The sum of the durations of the first `n` frames.
pub open spec fn total_duration(n: nat, fps: int) -> int
    decreases n,
{
    if n == 0 {
        0
    } else {
        total_duration((n - 1) as nat, fps) + due(n as int, fps) - due(n - 1, fps)
    }
}

/// The rounding of frame durations does not add up: `n` frames last exactly
/// until frame `n` is due.
pub proof fn frame_durations_do_not_drift(n: nat, fps: int)
    requires
        fps > 0,
    ensures
        total_duration(n, fps) == due(n as int, fps),
    decreases n,
{
    if n > 0 {
        frame_durations_do_not_drift((n - 1) as nat, fps);
    } else {
        assert(0 * TICKS_PER_SECOND == 0);
        vstd::arithmetic::div_mod::lemma_div_basics(fps);
    }
}

/// Audio times do not drift either: however the stream was cut into chunks, a
/// chunk that follows `samples` samples starts within one tick of the time that
/// they take, and never early.
pub proof fn audio_times_do_not_drift(samples: int)
    requires
        0 <= samples,
    ensures
        due(samples, AUDIO_SAMPLE_RATE as int) * AUDIO_SAMPLE_RATE <= samples * TICKS_PER_SECOND,
        samples * TICKS_PER_SECOND < (due(samples, AUDIO_SAMPLE_RATE as int) + 1)
            * AUDIO_SAMPLE_RATE,
{
}

/// Audio chunks follow each other without overlap, and with a gap of at most
/// one tick.
pub proof fn audio_chunks_are_contiguous(samples: int, more: int)
    requires
        0 <= samples,
        0 <= more,
    ensures
        0 <= due(samples + more, AUDIO_SAMPLE_RATE as int) - (due(samples, AUDIO_SAMPLE_RATE as int)
            + due(more, AUDIO_SAMPLE_RATE as int)) <= 1,
{
}

/// An item of a stream is due at the last tick that is not later than its time: as
/// many seconds as items came before it, over the rate, in units of 100 ns.
pub proof fn items_are_due_in_time(n: int, rate: int)
    requires
        0 <= n,
        0 < rate,
    ensures
        due(n, rate) * rate <= n * 10_000_000,
        n * 10_000_000 < (due(n, rate) + 1) * rate,
        due(rate, rate) == 10_000_000,
{
    let ticks = n * TICKS_PER_SECOND;
    vstd::arithmetic::div_mod::lemma_fundamental_div_mod(ticks, rate);
    vstd::arithmetic::div_mod::lemma_mod_bound(ticks, rate);
    assert(rate * (ticks / rate) == (ticks / rate) * rate) by (nonlinear_arith);
    assert((ticks / rate + 1) * rate == (ticks / rate) * rate + rate) by (nonlinear_arith);
    vstd::arithmetic::div_mod::lemma_div_multiples_vanish(TICKS_PER_SECOND as int, rate);
    assert(rate * TICKS_PER_SECOND == TICKS_PER_SECOND * rate) by (nonlinear_arith);
}

} // verus!
