//! GPU performance metrics: operation timings, counters and memory usage.
use vstd::prelude::*;
use std::collections::VecDeque;

verus! {

/// Largest number of nanoseconds a duration can hold (`u64::MAX` seconds
/// plus 999 999 999 nanoseconds).
pub open spec fn max_duration_nanos() -> int {
    18446744073709551615int * 1000000000 + 999999999
}

/// A span of time, counted in nanoseconds.
#[derive(Clone, Copy, Debug, PartialEq, Eq)]
pub struct Duration {
    nanos: u128,
}

impl Duration {
    /// The number of nanoseconds in this duration.
    pub closed spec fn spec_nanos(&self) -> int {
        self.nanos as int
    }

    /// The empty duration.
    pub fn zero() -> (r: Duration)
        ensures
            r.spec_nanos() == 0,
    {
        Duration { nanos: 0 }
    }

    pub fn from_secs(secs: u64) -> (r: Duration)
        ensures
            r.spec_nanos() == secs * 1000000000,
    {
        Duration { nanos: (secs as u128) * 1000000000 }
    }

    pub fn from_millis(millis: u64) -> (r: Duration)
        ensures
            r.spec_nanos() == millis * 1000000,
    {
        Duration { nanos: (millis as u128) * 1000000 }
    }

    pub fn from_micros(micros: u64) -> (r: Duration)
        ensures
            r.spec_nanos() == micros * 1000,
    {
        Duration { nanos: (micros as u128) * 1000 }
    }

    pub fn from_nanos(nanos: u64) -> (r: Duration)
        ensures
            r.spec_nanos() == nanos,
    {
        Duration { nanos: nanos as u128 }
    }

    /// Whole microseconds in this duration.
    pub fn as_micros(&self) -> (r: u128)
        ensures
            r == self.spec_nanos() / 1000,
    {
        self.nanos / 1000
    }

    /// Nanoseconds in this duration.
    pub fn as_nanos(&self) -> (r: u128)
        ensures
            r == self.spec_nanos(),
    {
        self.nanos
    }
}

/// Capacity of the window of recent operation times.
pub open spec fn frame_window() -> nat {
    100
}

/// Times kept after recording `d`: `d` is appended and the oldest entry
/// dropped once more than the window is held.
pub open spec fn frame_times_after(old_times: Seq<Duration>, d: Duration) -> Seq<Duration> {
    let pushed = old_times.push(d);
    if pushed.len() > frame_window() {
        pushed.drop_first()
    } else {
        pushed
    }
}

/// Running mean after the `count`-th operation of length `d`, when the mean
/// of the previous `count - 1` operations was `avg`.
pub open spec fn running_mean(avg: int, count: int, d: int) -> int {
    (avg * (count - 1) + d) / count
}

/// Longest of the recorded times, in nanoseconds (zero for none).
pub open spec fn max_nanos(ds: Seq<Duration>) -> int
    decreases ds.len(),
{
    if ds.len() == 0 {
        0
    } else {
        let m = max_nanos(ds.drop_last());
        if ds.last().spec_nanos() > m {
            ds.last().spec_nanos()
        } else {
            m
        }
    }
}

/// The newest `frame_window()` times of `ds`, oldest first (all of them
/// when there are no more).
pub open spec fn last_window(ds: Seq<Duration>) -> Seq<Duration> {
    if ds.len() <= frame_window() {
        ds
    } else {
        ds.subrange(ds.len() - frame_window(), ds.len() as int)
    }
}

/// GPU performance metrics.
#[derive(Debug)]
pub struct GpuMetrics {
    /// Recent operation times, oldest first.
    pub frame_times: VecDeque<Duration>,
    /// Current GPU memory usage in bytes.
    pub memory_usage: u64,
    /// Number of pipeline cache hits.
    pub pipeline_cache_hits: u64,
    /// Buffer pool utilisation in thousandths (0 to 1000).
    pub buffer_pool_utilization: i32,
    /// Number of GPU operations recorded.
    pub operations_count: u64,
    /// Mean GPU operation time.
    pub average_operation_time: Duration,
    /// Longest GPU operation time.
    pub max_operation_time: Duration,
    /// Number of GPU errors.
    pub error_count: u64,
}

impl GpuMetrics {
    /// All counters zero, no recorded times.
    pub open spec fn is_cleared(&self) -> bool {
        &&& self.frame_times@.len() == 0
        &&& self.memory_usage == 0
        &&& self.pipeline_cache_hits == 0
        &&& self.buffer_pool_utilization == 0
        &&& self.operations_count == 0
        &&& self.average_operation_time.spec_nanos() == 0
        &&& self.max_operation_time.spec_nanos() == 0
        &&& self.error_count == 0
    }

    /// The metrics hold exactly what fresh metrics hold after recording the
    /// operation times `ds`, in order, and nothing else: that many
    /// operations, the longest of them, the newest 100 in the window, and
    /// every other counter at zero.
    pub open spec fn has_recorded(&self, ds: Seq<Duration>) -> bool {
        &&& self.operations_count == ds.len()
        &&& self.max_operation_time.spec_nanos() == max_nanos(ds)
        &&& self.frame_times@ == last_window(ds)
        &&& self.memory_usage == 0
        &&& self.pipeline_cache_hits == 0
        &&& self.error_count == 0
        &&& self.buffer_pool_utilization == 0
    }

    /// `next` is `prev` after recording `d`, on every field but the mean.
    pub open spec fn records_step(prev: GpuMetrics, next: GpuMetrics, d: Duration) -> bool {
        &&& next.frame_times@ == frame_times_after(prev.frame_times@, d)
        &&& next.operations_count == (if prev.operations_count == u64::MAX {
            0
        } else {
            prev.operations_count + 1
        })
        &&& next.max_operation_time.spec_nanos() == (if d.spec_nanos()
            > prev.max_operation_time.spec_nanos() {
            d.spec_nanos()
        } else {
            prev.max_operation_time.spec_nanos()
        })
        &&& next.memory_usage == prev.memory_usage
        &&& next.pipeline_cache_hits == prev.pipeline_cache_hits
        &&& next.buffer_pool_utilization == prev.buffer_pool_utilization
        &&& next.error_count == prev.error_count
    }

    /// Creates a new set of metrics with every counter at zero.
    pub fn new() -> (r: Self)
        ensures
            r.is_cleared(),
    {
        GpuMetrics {
            frame_times: VecDeque::with_capacity(100),
            memory_usage: 0,
            pipeline_cache_hits: 0,
            buffer_pool_utilization: 0,
            operations_count: 0,
            average_operation_time: Duration::zero(),
            max_operation_time: Duration::zero(),
            error_count: 0,
        }
    }

    /// Records the execution time of one GPU operation.
    ///
    /// The time joins the window of recent times (the oldest leaves once
    /// more than 100 are held), the operation counter advances (wrapping),
    /// the mean absorbs the new time and the maximum is updated. A mean that
    /// never exceeded the maximum still does not.
    pub fn record_operation_time(&mut self, duration: Duration)
        requires
            old(self).operations_count < u64::MAX ==> old(
                self,
            ).average_operation_time.spec_nanos() * old(self).operations_count
                + duration.spec_nanos() <= max_duration_nanos(),
        ensures
            final(self).frame_times@ == frame_times_after(old(self).frame_times@, duration),
            final(self).operations_count == (if old(self).operations_count == u64::MAX {
                0
            } else {
                old(self).operations_count + 1
            }),
            final(self).operations_count > 0 ==> final(self).average_operation_time.spec_nanos()
                == running_mean(
                old(self).average_operation_time.spec_nanos(),
                final(self).operations_count as int,
                duration.spec_nanos(),
            ),
            final(self).operations_count == 0 ==> final(self).average_operation_time
                == old(self).average_operation_time,
            final(self).max_operation_time.spec_nanos() == (if duration.spec_nanos() > old(
                self,
            ).max_operation_time.spec_nanos() {
                duration.spec_nanos()
            } else {
                old(self).max_operation_time.spec_nanos()
            }),
            old(self).average_operation_time.spec_nanos() <= old(
                self,
            ).max_operation_time.spec_nanos() ==> final(self).average_operation_time.spec_nanos()
                <= final(self).max_operation_time.spec_nanos(),
            final(self).memory_usage == old(self).memory_usage,
            final(self).pipeline_cache_hits == old(self).pipeline_cache_hits,
            final(self).buffer_pool_utilization == old(self).buffer_pool_utilization,
            final(self).error_count == old(self).error_count,
            GpuMetrics::records_step(*old(self), *final(self), duration),
    {
        self.frame_times.push_back(duration);
        if self.frame_times.len() > 100 {
            self.frame_times.pop_front();
        }
        self.operations_count = self.operations_count.wrapping_add(1);
        let current_count = self.operations_count;
        if current_count > 0 {
            let avg = self.average_operation_time.nanos;
            let prev = (current_count - 1) as u128;
            proof {
                assert(avg * prev + duration.nanos <= max_duration_nanos());
                assert(avg * prev <= avg * prev + duration.nanos);
            }
            let total = avg * prev + duration.nanos;
            let mean = total / (current_count as u128);
            proof {
                lemma_mean_bounded(avg as int, prev as int, duration.nanos as int);
            }
            self.average_operation_time = Duration { nanos: mean };
        }
        if duration.nanos > self.max_operation_time.nanos {
            self.max_operation_time = duration;
        }
    }

    /// Records a pipeline cache hit.
    pub fn record_pipeline_cache_hit(&mut self)
        ensures
            final(self).pipeline_cache_hits == (if old(self).pipeline_cache_hits == u64::MAX {
                0
            } else {
                old(self).pipeline_cache_hits + 1
            }),
            final(self).frame_times@ == old(self).frame_times@,
            final(self).memory_usage == old(self).memory_usage,
            final(self).operations_count == old(self).operations_count,
            final(self).error_count == old(self).error_count,
            final(self).average_operation_time == old(self).average_operation_time,
            final(self).max_operation_time == old(self).max_operation_time,
            final(self).buffer_pool_utilization == old(self).buffer_pool_utilization,
    {
        self.pipeline_cache_hits = self.pipeline_cache_hits.wrapping_add(1);
    }

    /// Sets the current GPU memory usage.
    pub fn update_memory_usage(&mut self, bytes: u64)
        ensures
            final(self).memory_usage == bytes,
            final(self).frame_times@ == old(self).frame_times@,
            final(self).pipeline_cache_hits == old(self).pipeline_cache_hits,
            final(self).operations_count == old(self).operations_count,
            final(self).error_count == old(self).error_count,
            final(self).average_operation_time == old(self).average_operation_time,
            final(self).max_operation_time == old(self).max_operation_time,
            final(self).buffer_pool_utilization == old(self).buffer_pool_utilization,
    {
        self.memory_usage = bytes;
    }

    /// Records a GPU error.
    pub fn record_error(&mut self)
        ensures
            final(self).error_count == (if old(self).error_count == u64::MAX {
                0
            } else {
                old(self).error_count + 1
            }),
            final(self).frame_times@ == old(self).frame_times@,
            final(self).memory_usage == old(self).memory_usage,
            final(self).pipeline_cache_hits == old(self).pipeline_cache_hits,
            final(self).operations_count == old(self).operations_count,
            final(self).average_operation_time == old(self).average_operation_time,
            final(self).max_operation_time == old(self).max_operation_time,
            final(self).buffer_pool_utilization == old(self).buffer_pool_utilization,
    {
        self.error_count = self.error_count.wrapping_add(1);
    }

    /// Mean operation time in whole microseconds (truncated to 64 bits).
    pub fn get_average_operation_time_us(&self) -> (r: u64)
        ensures
            r == (self.average_operation_time.spec_nanos() / 1000) as u64,
    {
        let us = self.average_operation_time.as_micros();
        #[verifier::truncate]
        (us as u64)
    }

    /// Resets every metric to its initial value.
    pub fn reset(&mut self)
        ensures
            final(self).is_cleared(),
    {
        self.memory_usage = 0;
        self.pipeline_cache_hits = 0;
        self.buffer_pool_utilization = 0;
        self.operations_count = 0;
        self.error_count = 0;
        self.frame_times.clear();
        self.average_operation_time = Duration::zero();
        self.max_operation_time = Duration::zero();
    }
}

/// Fresh metrics have recorded nothing.
pub proof fn lemma_fresh_metrics_recorded_nothing(m: GpuMetrics)
    requires
        m.is_cleared(),
    ensures
        m.has_recorded(Seq::empty()),
{
    assert(m.frame_times@ =~= last_window(Seq::<Duration>::empty()));
}

/// Recording one more operation time extends what the metrics have
/// recorded: after fresh metrics record `d_1, ..., d_n` (fewer than
/// `u64::MAX` of them) and nothing else, the count is `n`, the maximum is
/// the longest `d_i`, the window holds the newest `min(n, 100)` times in
/// call order, and the other counters are zero.
pub proof fn lemma_recording_extends(prev: GpuMetrics, next: GpuMetrics, ds: Seq<Duration>, d: Duration)
    requires
        prev.has_recorded(ds),
        ds.len() < u64::MAX,
        GpuMetrics::records_step(prev, next, d),
    ensures
        next.has_recorded(ds.push(d)),
{
    let es = ds.push(d);
    assert(es.drop_last() =~= ds);
    let w = frame_window() as int;
    if ds.len() < w {
        assert(last_window(ds) == ds);
        assert(last_window(es) == es);
        assert(frame_times_after(prev.frame_times@, d) =~= es);
    } else if ds.len() == w {
        assert(last_window(ds) == ds);
        assert(frame_times_after(prev.frame_times@, d) =~= ds.push(d).drop_first());
        assert(ds.push(d).drop_first() =~= es.subrange(es.len() - w, es.len() as int));
    } else {
        assert(frame_times_after(prev.frame_times@, d) =~= ds.subrange(ds.len() - w, ds.len() as int).push(
            d,
        ).drop_first());
        assert(ds.subrange(ds.len() - w, ds.len() as int).push(d).drop_first() =~= es.subrange(
            es.len() - w,
            es.len() as int,
        ));
    }
}

/// After fresh metrics record the times `ds`, one call each in order, the
/// count is the number of calls, the maximum is the longest time, the
/// window holds the newest `min(n, 100)` times in call order, and the other
/// counters are zero. `states[k]` is the metrics before the `k`-th call.
pub proof fn lemma_recording_sequence(states: Seq<GpuMetrics>, ds: Seq<Duration>)
    requires
        states.len() == ds.len() + 1,
        states[0].is_cleared(),
        ds.len() < u64::MAX,
        forall|k: int| 0 <= k < ds.len() ==> GpuMetrics::records_step(#[trigger] states[k], states[k + 1], ds[k]),
    ensures
        states.last().has_recorded(ds),
    decreases ds.len(),
{
    if ds.len() == 0 {
        lemma_fresh_metrics_recorded_nothing(states[0]);
        assert(ds =~= Seq::<Duration>::empty());
    } else {
        let n = ds.len() as int;
        let prefix = states.subrange(0, n);
        let dp = ds.drop_last();
        assert forall|k: int| 0 <= k < dp.len() implies GpuMetrics::records_step(
            #[trigger] prefix[k],
            prefix[k + 1],
            dp[k],
        ) by {
            assert(GpuMetrics::records_step(states[k], states[k + 1], ds[k]));
        }
        lemma_recording_sequence(prefix, dp);
        assert(GpuMetrics::records_step(states[n - 1], states[n], ds[n - 1]));
        lemma_recording_extends(states[n - 1], states[n], dp, ds[n - 1]);
        assert(dp.push(ds[n - 1]) =~= ds);
    }
}

/// The running mean lies within the bounds of its inputs.
proof fn lemma_mean_bounded(avg: int, prev: int, d: int)
    requires
        avg >= 0,
        prev >= 0,
        d >= 0,
    ensures
        (avg * prev + d) / (prev + 1) <= if avg >= d {
            avg
        } else {
            d
        },
        (avg * prev + d) / (prev + 1) >= 0,
{
    let m = if avg >= d {
        avg
    } else {
        d
    };
    assert(avg * prev <= m * prev) by (nonlinear_arith)
        requires
            avg <= m,
            prev >= 0,
    ;
    assert(avg * prev + d <= m * (prev + 1)) by (nonlinear_arith)
        requires
            avg * prev <= m * prev,
            d <= m,
    ;
    assert((avg * prev + d) / (prev + 1) <= m) by (nonlinear_arith)
        requires
            avg * prev + d <= m * (prev + 1),
            prev + 1 > 0,
            avg * prev + d >= 0,
    ;
    assert(avg * prev >= 0) by (nonlinear_arith)
        requires
            avg >= 0,
            prev >= 0,
    ;
}

} // verus!
