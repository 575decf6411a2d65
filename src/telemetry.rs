//! Telemetry samples for both simulators and the sliding-window collector.
//!
//! Samples hold exact values: counts, integer microseconds, and the sums
//! from which size means and variances follow (`sum / n` and
//! `sq_sum / n - (sum / n)^2` over the `n` resident items).
use std::collections::VecDeque;
use vstd::prelude::*;

verus! {

/// Number of features in either schema.
pub const FEATURE_COUNT: usize = 10;

/// Transport telemetry at one tick.
#[derive(Debug, Clone, Copy, PartialEq, Eq, Structural)]
pub struct TelemetrySample {
    pub timestamp_us: u64,
    pub queue_depth: u64,
    /// Packets per second entering the queue.
    pub enqueue_rate: u64,
    /// Packets per second leaving the queue.
    pub dequeue_rate: u64,
    pub latency_p50_us: u64,
    pub latency_p95_us: u64,
    pub bytes_in_per_sec: u64,
    pub bytes_out_per_sec: u64,
    /// Sum of the resident packets' sizes.
    pub packet_size_sum: u128,
    /// Sum of the squares of the resident packets' sizes.
    pub packet_size_sq_sum: u128,
    pub rtt_ewma_us: u64,
}

impl TelemetrySample {
    /// Feature names in feature-vector order.
    pub fn feature_names() -> (r: [&'static str; FEATURE_COUNT]) {
        [
            "queue_depth",
            "enqueue_rate",
            "dequeue_rate",
            "latency_p50_us",
            "latency_p95_us",
            "bytes_in_per_sec",
            "bytes_out_per_sec",
            "packet_size_mean",
            "packet_size_var",
            "rtt_ewma_us",
        ]
    }
}

/// Worker-pool telemetry at one tick.
#[derive(Debug, Clone, Copy, PartialEq, Eq, Structural)]
pub struct ComputeTelemetry {
    pub timestamp_us: u64,
    pub runq_len: u64,
    /// Arrivals within the last second.
    pub arrival_rate: u64,
    /// Completions within the last second.
    pub completion_rate: u64,
    pub task_time_p50_us: u64,
    pub task_time_p95_us: u64,
    /// Workers running a task; utilization is `busy / (busy + idle)`.
    pub busy_worker_count: u32,
    pub ctx_switches_per_sec: u64,
    /// Sum of the queued tasks' work.
    pub task_size_sum: u128,
    /// Sum of the squares of the queued tasks' work.
    pub task_size_sq_sum: u128,
    pub idle_worker_count: u32,
}

impl ComputeTelemetry {
    /// Feature names in feature-vector order.
    pub fn feature_names() -> (r: [&'static str; FEATURE_COUNT]) {
        [
            "runq_len",
            "arrival_rate",
            "completion_rate",
            "task_time_p50_us",
            "task_time_p95_us",
            "worker_util",
            "ctx_switches_per_sec",
            "task_size_mean",
            "task_size_var",
            "idle_worker_count",
        ]
    }
}

/// Time from `since` to `now`, or 0 when `now` is earlier.
pub open spec fn elapsed(now: u64, since: u64) -> int {
    if now >= since {
        now - since
    } else {
        0
    }
}

/// `k` is where the entries at or after `cutoff` begin: all earlier ones
/// are older, and the entry at `k` (if any) is not.
pub open spec fn evict_point<T>(s: Seq<(u64, T)>, cutoff: int, k: int) -> bool {
    &&& 0 <= k <= s.len()
    &&& forall|i: int| 0 <= i < k ==> (#[trigger] s[i]).0 < cutoff
    &&& k < s.len() ==> s[k].0 >= cutoff
}

/// The timestamps of `s` are in nondecreasing order.
pub open spec fn stamps_ordered<T>(s: Seq<(u64, T)>) -> bool {
    forall|i: int, j: int| 0 <= i <= j < s.len() ==> (#[trigger] s[i]).0 <= (#[trigger] s[j]).0
}

/// Retains the samples of the last `window_us` microseconds and emits one
/// sample every `step_us` microseconds.
pub struct WindowCollector<T> {
    window_us: u64,
    step_us: u64,
    samples: VecDeque<(u64, T)>,
    last_window_at: Option<u64>,
}

impl<T: Copy> WindowCollector<T> {
    pub closed spec fn window(&self) -> u64 {
        self.window_us
    }

    pub closed spec fn step(&self) -> u64 {
        self.step_us
    }

    /// The retained samples with their timestamps, oldest first.
    pub closed spec fn retained(&self) -> Seq<(u64, T)> {
        self.samples@
    }

    pub closed spec fn last_emit(&self) -> Option<u64> {
        self.last_window_at
    }

    pub open spec fn should_emit_at(&self, now: u64) -> bool {
        match self.last_emit() {
            None => self.retained().len() > 0,
            Some(last) => elapsed(now, last) >= self.step(),
        }
    }

    pub fn new(window_us: u64, step_us: u64) -> (r: Self)
        ensures
            r.window() == window_us,
            r.step() == step_us,
            r.retained() == Seq::<(u64, T)>::empty(),
            r.last_emit() is None,
    {
        WindowCollector { window_us, step_us, samples: VecDeque::new(), last_window_at: None }
    }

    /// Appends `sample` stamped `now`, then drops from the front every entry
    /// older than `now - window`.
    pub fn push(&mut self, now: u64, sample: T)
        ensures
            final(self).window() == old(self).window(),
            final(self).step() == old(self).step(),
            final(self).last_emit() == old(self).last_emit(),
            exists|k: int|
                #[trigger] evict_point(old(self).retained().push((now, sample)), now - old(self).window(), k)
                    && final(self).retained() == old(self).retained().push((now, sample)).subrange(
                    k,
                    old(self).retained().len() as int + 1,
                ),
            stamps_ordered(old(self).retained()) && (old(self).retained().len() > 0 ==> old(
                self,
            ).retained().last().0 <= now) ==> stamps_ordered(final(self).retained()),
    {
        let ghost full = self.samples@.push((now, sample));
        let ghost cutoff = now - self.window_us;
        self.samples.push_back((now, sample));
        let ghost mut k: int = 0;
        while self.samples.len() > 0 && (self.samples[0].0 as u128) + (self.window_us as u128) < (
        now as u128)
            invariant
                self.window_us == old(self).window_us,
                self.step_us == old(self).step_us,
                self.last_window_at == old(self).last_window_at,
                full == old(self).samples@.push((now, sample)),
                cutoff == now - self.window_us,
                0 <= k < full.len(),
                forall|i: int| 0 <= i < k ==> (#[trigger] full[i]).0 < cutoff,
                self.samples@ == full.subrange(k, full.len() as int),
            decreases self.samples@.len(),
        {
            proof {
                assert(self.samples@[0] == full[k]);
                assert(full[full.len() - 1].0 == now);
            }
            self.samples.pop_front();
            proof {
                k = k + 1;
                assert(self.samples@ =~= full.subrange(k, full.len() as int));
            }
        }
        proof {
            assert(self.samples@[0] == full[k]);
            assert(evict_point(full, cutoff, k));
            assert(self.samples@ == full.subrange(k, old(self).samples@.len() as int + 1));
            assert(evict_point(old(self).retained().push((now, sample)), now - old(self).window(), k));
            if stamps_ordered(old(self).samples@) && (old(self).samples@.len() > 0
                ==> old(self).samples@.last().0 <= now) {
                assert(stamps_ordered(full));
                assert(stamps_ordered(self.samples@)) by {
                    assert forall|a: int, b: int| 0 <= a <= b < self.samples@.len() implies (
                    #[trigger] self.samples@[a]).0 <= (#[trigger] self.samples@[b]).0 by {
                        assert(self.samples@[a] == full[a + k]);
                        assert(self.samples@[b] == full[b + k]);
                    }
                }
            }
        }
    }

    /// True if nothing was emitted yet and a sample is held, or if a step
    /// has passed since the last emission.
    pub fn should_emit(&self, now: u64) -> (r: bool)
        ensures
            r == self.should_emit_at(now),
    {
        match self.last_window_at {
            None => self.samples.len() > 0,
            Some(last) => {
                let e = if now >= last {
                    now - last
                } else {
                    0
                };
                e >= self.step_us
            },
        }
    }

    /// When a window is due, records `now` as the emission time and returns
    /// the most recent sample; otherwise changes nothing.
    pub fn emit(&mut self, now: u64) -> (r: Option<T>)
        ensures
            final(self).window() == old(self).window(),
            final(self).step() == old(self).step(),
            final(self).retained() == old(self).retained(),
            old(self).should_emit_at(now) ==> final(self).last_emit() == Some(now) && r == (if old(
                self,
            ).retained().len() > 0 {
                Some(old(self).retained().last().1)
            } else {
                None
            }),
            !old(self).should_emit_at(now) ==> final(self).last_emit() == old(self).last_emit()
                && r is None,
    {
        if !self.should_emit(now) {
            return None;
        }
        self.last_window_at = Some(now);
        let n = self.samples.len();
        if n > 0 {
            Some(self.samples[n - 1].1)
        } else {
            None
        }
    }
}

} // verus!
