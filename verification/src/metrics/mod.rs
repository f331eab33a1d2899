//! Counters kept about the stream: timings of each stage and network figures.
use std::time::{Duration, Instant};
use vstd::prelude::*;

verus! {

#[verifier::external_type_specification]
#[verifier::external_body]
pub struct ExInstant(Instant);

/// `Instant::now`: the current reading of the monotonic clock. Nothing is stated of it.
#[verifier::external_body]
fn clock_now() -> (now: Instant) {
    Instant::now()
}

/// `Instant::elapsed`: the time that has passed since `start`. It depends on the clock,
/// so nothing is stated of it.
#[verifier::external_body]
fn clock_elapsed(start: &Instant) -> (elapsed: Duration) {
    start.elapsed()
}

/// `Duration::as_micros`: the whole microseconds in the duration. `Duration` is opaque
/// here, so nothing is stated of the result.
#[verifier::external_body]
fn duration_micros(duration: &Duration) -> (micros: u128) {
    duration.as_micros()
}

/// Timings of each stage of the stream.
pub struct StreamingMetrics {
    pub capture: TimingMetrics,
    pub encode: TimingMetrics,
    pub network: NetworkMetrics,
    pub decode: TimingMetrics,
    pub display: TimingMetrics,
}

/// Timings of one stage, in microseconds, and how many frames went through it.
pub struct TimingMetrics {
    pub last_duration: u64,
    pub avg_duration: u64,
    pub min_duration: u64,
    pub max_duration: u64,
    pub fps: u64,
    pub total_frames: u64,
    pub dropped_frames: u64,
}

/// Figures about the network.
pub struct NetworkMetrics {
    pub latency: u64,
    pub bandwidth: u64,
    pub packet_loss: u64,
    pub jitter: u64,
}

impl TimingMetrics {
    /// True when every figure is zero.
    pub open spec fn is_zero(&self) -> bool {
        &&& self.last_duration == 0
        &&& self.avg_duration == 0
        &&& self.min_duration == 0
        &&& self.max_duration == 0
        &&& self.fps == 0
        &&& self.total_frames == 0
        &&& self.dropped_frames == 0
    }

    /// The figures after one more frame that took `micros` microseconds, dropped when
    /// `failed`: durations are kept in 64 bits (higher bits are cut off) and the counters
    /// wrap around at 2^64; a smallest duration of 0 counts as none yet; the average is the
    /// running mean over the frames counted, rounded down; the frame rate is the number of
    /// whole frames of this duration in a second, kept as it was for a zero duration.
    pub open spec fn after_sample(self, micros: u128, failed: bool) -> TimingMetrics {
        let m = micros as u64;
        let total = ((self.total_frames + 1) % 0x1_0000_0000_0000_0000) as u64;
        TimingMetrics {
            last_duration: m,
            avg_duration: if total > 1 {
                ((self.avg_duration * (total - 1) + m) / (total as int)) as u64
            } else {
                m
            },
            min_duration: if self.min_duration == 0 || m < self.min_duration {
                m
            } else {
                self.min_duration
            },
            max_duration: if m > self.max_duration {
                m
            } else {
                self.max_duration
            },
            fps: if micros > 0 {
                (1_000_000u128 / micros) as u64
            } else {
                self.fps
            },
            total_frames: total,
            dropped_frames: if failed {
                ((self.dropped_frames + 1) % 0x1_0000_0000_0000_0000) as u64
            } else {
                self.dropped_frames
            },
        }
    }

    /// Counts one frame that took `micros` microseconds, and one dropped frame when the
    /// stage failed.
    pub fn record_sample(&mut self, micros: u128, failed: bool)
        ensures
            *final(self) == old(self).after_sample(micros, failed),
            final(self).min_duration <= final(self).last_duration <= final(self).max_duration,
            old(self).min_duration <= old(self).max_duration ==> final(self).min_duration
                <= final(self).max_duration,
    {
        let m = micros as u64;
        self.last_duration = m;
        self.total_frames = self.total_frames.wrapping_add(1);
        if failed {
            self.dropped_frames = self.dropped_frames.wrapping_add(1);
        }
        let current_min = self.min_duration;
        if current_min == 0 || m < current_min {
            self.min_duration = m;
        }
        let current_max = self.max_duration;
        if m > current_max {
            self.max_duration = m;
        }
        let total = self.total_frames;
        let avg = self.avg_duration;
        if total > 1 {
            let a: u128 = avg as u128;
            let t1: u128 = (total - 1) as u128;
            let t: u128 = total as u128;
            let big: u128 = if a < m as u128 { m as u128 } else { a };
            assert(a * t1 <= 0xffff_ffff_ffff_ffffu128 * 0xffff_ffff_ffff_ffffu128) by (nonlinear_arith)
                requires
                    a <= 0xffff_ffff_ffff_ffffu128,
                    t1 <= 0xffff_ffff_ffff_ffffu128,
            ;
            let sum: u128 = a * t1 + m as u128;
            assert(sum / t <= big) by (nonlinear_arith)
                requires
                    sum == a * t1 + m,
                    t == t1 + 1,
                    t1 >= 1,
                    a <= big,
                    m <= big,
            {
                assert(a * t1 <= big * t1);
                assert(sum <= big * t);
                assert((sum as int) / (t as int) <= (big * t) / (t as int));
            }
            self.avg_duration = (sum / t) as u64;
        } else {
            self.avg_duration = m;
        }
        if micros > 0 {
            self.fps = (1_000_000u128 / micros) as u64;
        }
    }
}

/// The frame rate after a sample of a positive duration that fits in 64 bits is the
/// number of whole frames of that duration in a second, whatever came before; the last
/// duration is that sample, and the largest and smallest durations bound it.
pub proof fn lemma_sample_sets_rate(a: TimingMetrics, b: TimingMetrics, micros: u128, fa: bool, fb: bool)
    requires
        0 < micros < 0x1_0000_0000_0000_0000,
    ensures
        a.after_sample(micros, fa).fps == 1_000_000int / (micros as int),
        a.after_sample(micros, fa).fps == b.after_sample(micros, fb).fps,
        a.after_sample(micros, fa).last_duration == micros,
        a.after_sample(micros, fa).min_duration <= micros <= a.after_sample(micros, fa).max_duration,
        a.after_sample(micros, fa).max_duration >= a.max_duration,
{
}

/// The figures after the frames `samples`, each a duration in microseconds and whether
/// it was dropped, counted one after the other from `start`.
pub open spec fn after_samples(start: TimingMetrics, samples: Seq<(u128, bool)>) -> TimingMetrics
    decreases samples.len(),
{
    if samples.len() == 0 {
        start
    } else {
        after_samples(start, samples.drop_last()).after_sample(samples.last().0, samples.last().1)
    }
}

/// How many of the frames were dropped.
pub open spec fn dropped_count(samples: Seq<(u128, bool)>) -> nat
    decreases samples.len(),
{
    if samples.len() == 0 {
        0
    } else {
        dropped_count(samples.drop_last()) + if samples.last().1 { 1nat } else { 0nat }
    }
}

/// Counting frames one after the other from figures at zero, fewer than 2^64 of them:
/// every frame is counted, every dropped one is counted as dropped, no more frames are
/// dropped than counted, and the last and the smallest duration never exceed the largest.
pub proof fn lemma_samples_counted(start: TimingMetrics, samples: Seq<(u128, bool)>)
    requires
        start.is_zero(),
        samples.len() < 0x1_0000_0000_0000_0000,
    ensures
        after_samples(start, samples).total_frames == samples.len(),
        after_samples(start, samples).dropped_frames == dropped_count(samples),
        after_samples(start, samples).dropped_frames <= after_samples(start, samples).total_frames,
        after_samples(start, samples).last_duration <= after_samples(start, samples).max_duration,
        after_samples(start, samples).min_duration <= after_samples(start, samples).max_duration,
    decreases samples.len(),
{
    if samples.len() > 0 {
        lemma_samples_counted(start, samples.drop_last());
    }
}

impl StreamingMetrics {
    /// Runs `op`, measures how long it took, and counts it in `metrics` as a frame of that
    /// duration, dropped when `op` failed. Hands back the duration and what `op` returned.
    pub fn time_operation<T, E, F>(&self, metrics: &mut TimingMetrics, op: F) -> (timed: (
        Duration,
        Result<T, E>,
    )) where F: FnOnce() -> Result<T, E>
        requires
            op.requires(()),
        ensures
            op.ensures((), timed.1),
            exists|micros: u128|
                *final(metrics) == #[trigger] old(metrics).after_sample(micros, timed.1 is Err),
    {
        let start = clock_now();
        let result = op();
        let duration = clock_elapsed(&start);
        let micros = duration_micros(&duration);
        let failed = match &result {
            Ok(_) => false,
            Err(_) => true,
        };
        metrics.record_sample(micros, failed);
        assert(*metrics == old(metrics).after_sample(micros, result is Err));
        (duration, result)
    }
}

impl Default for TimingMetrics {
    fn default() -> (metrics: Self)
        ensures
            metrics.is_zero(),
    {
        TimingMetrics {
            last_duration: 0,
            avg_duration: 0,
            min_duration: 0,
            max_duration: 0,
            fps: 0,
            total_frames: 0,
            dropped_frames: 0,
        }
    }
}

impl Default for NetworkMetrics {
    fn default() -> (metrics: Self)
        ensures
            metrics.latency == 0 && metrics.bandwidth == 0 && metrics.packet_loss == 0
                && metrics.jitter == 0,
    {
        NetworkMetrics { latency: 0, bandwidth: 0, packet_loss: 0, jitter: 0 }
    }
}

impl Default for StreamingMetrics {
    fn default() -> (metrics: Self)
        ensures
            metrics.capture.is_zero(),
            metrics.encode.is_zero(),
            metrics.decode.is_zero(),
            metrics.display.is_zero(),
            metrics.network.latency == 0 && metrics.network.bandwidth == 0
                && metrics.network.packet_loss == 0 && metrics.network.jitter == 0,
    {
        StreamingMetrics {
            capture: TimingMetrics::default(),
            encode: TimingMetrics::default(),
            network: NetworkMetrics::default(),
            decode: TimingMetrics::default(),
            display: TimingMetrics::default(),
        }
    }
}

impl StreamingMetrics {
    /// Metrics with every figure at zero.
    pub fn new() -> (metrics: Self)
        ensures
            metrics.capture.is_zero(),
            metrics.encode.is_zero(),
            metrics.decode.is_zero(),
            metrics.display.is_zero(),
            metrics.network.latency == 0 && metrics.network.bandwidth == 0
                && metrics.network.packet_loss == 0 && metrics.network.jitter == 0,
    {
        Self::default()
    }
}

} // verus!
