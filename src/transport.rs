//! Packet-transport simulator: a queue flushed by a pluggable policy.
use std::collections::VecDeque;
use vstd::prelude::*;

use crate::float_bits::{round_u32_spec, Real32};
use crate::model::{InferError, Reflex};
use crate::stats::{
    add_sample, order_statistic, saturated, percentile, percentile_index, sq_sum_of, sum_of,
    ThroughputSample,
};
use crate::telemetry::{elapsed, TelemetrySample};

verus! {

/// Microseconds between two throughput measurements.
pub const THROUGHPUT_PERIOD_US: u64 = 1_000_000;

/// Hold time of the reflex flush policy, in microseconds.
pub const FLUSH_HOLD_US: u64 = 300_000;

/// A queued packet; `arrival_time` is in microseconds.
#[derive(Debug, Clone, Copy, PartialEq, Eq, Structural)]
pub struct Packet {
    pub id: u64,
    pub size_bytes: usize,
    pub arrival_time: u64,
}

/// Flush when this many packets wait, or when the oldest has waited this long.
#[derive(Debug, Clone, Copy, PartialEq, Eq, Structural)]
pub struct FlushDecision {
    pub threshold: u32,
    pub max_delay_us: u32,
}

/// A flush policy: one decision per tick from the current telemetry.
///
/// `decision_for` is the decision the policy in a given state gives for a
/// telemetry sample at a time, and `after_decide` the state it moves to.
/// Implementations outside verified code may keep the defaults, of which
/// nothing is known.
pub trait FlushPolicy: Sized {
    closed spec fn decision_for(&self, now_us: u64, telem: TelemetrySample) -> FlushDecision {
        arbitrary()
    }

    closed spec fn after_decide(&self, now_us: u64, telem: TelemetrySample) -> Self {
        arbitrary()
    }

    fn decide(&mut self, now_us: u64, telem: &TelemetrySample) -> (r: FlushDecision)
        ensures
            r == old(self).decision_for(now_us, *telem),
            *final(self) == old(self).after_decide(now_us, *telem),
    ;
}

/// A source of packets: each call yields the wait in microseconds before
/// the next packet and its size, or `None` once the workload has ended.
pub trait WorkloadGenerator {
    fn next_packet(&mut self) -> Option<(u64, usize)>;
}

/// The static policy: threshold 16 packets, maximum delay 500 µs.
pub struct BaselinePolicy {
    threshold: u32,
    max_delay_us: u32,
}

impl BaselinePolicy {
    pub closed spec fn decision(&self) -> FlushDecision {
        FlushDecision { threshold: self.threshold, max_delay_us: self.max_delay_us }
    }

    pub fn new() -> (r: Self)
        ensures
            r.decision() == (FlushDecision { threshold: 16, max_delay_us: 500 }),
    {
        BaselinePolicy { threshold: 16, max_delay_us: 500 }
    }

    /// The policy's fixed decision.
    pub fn current(&self) -> (r: FlushDecision)
        ensures
            r == self.decision(),
    {
        FlushDecision { threshold: self.threshold, max_delay_us: self.max_delay_us }
    }
}

impl Default for BaselinePolicy {
    fn default() -> (r: Self)
        ensures
            r.decision() == (FlushDecision { threshold: 16, max_delay_us: 500 }),
    {
        BaselinePolicy::new()
    }
}

impl FlushPolicy for BaselinePolicy {
    open spec fn decision_for(&self, now_us: u64, telem: TelemetrySample) -> FlushDecision {
        self.decision()
    }

    open spec fn after_decide(&self, now_us: u64, telem: TelemetrySample) -> Self {
        *self
    }

    fn decide(&mut self, now_us: u64, telem: &TelemetrySample) -> (r: FlushDecision) {
        self.current()
    }
}

/// Reads output 0 as the threshold and output 1 as the delay, each rounded
/// to the nearest integer.
pub open spec fn flush_decision_of(out: Seq<Real32>) -> FlushDecision {
    FlushDecision { threshold: round_u32_spec(out[0]), max_delay_us: round_u32_spec(out[1]) }
}

/// A policy driven by a reflex, holding each decision for 300 ms.
pub struct ReflexPolicy {
    reflex: Reflex,
    last: Option<(FlushDecision, u64)>,
    hold_time_us: u64,
}

impl ReflexPolicy {
    pub closed spec fn model(&self) -> Reflex {
        self.reflex
    }

    /// The cached decision and the time it was taken.
    pub closed spec fn cached(&self) -> Option<(FlushDecision, u64)> {
        self.last
    }

    pub closed spec fn hold_time(&self) -> u64 {
        self.hold_time_us
    }

    /// A cached decision exists and is younger than the hold time.
    pub open spec fn holds_at(&self, now: u64) -> bool {
        self.cached() matches Some((d, t)) && elapsed(now, t) < self.hold_time()
    }

    pub fn new(reflex: Reflex) -> (r: Self)
        ensures
            r.model() == reflex,
            r.cached() is None,
            r.hold_time() == FLUSH_HOLD_US,
    {
        ReflexPolicy { reflex, last: None, hold_time_us: FLUSH_HOLD_US }
    }

    /// Returns the cached decision while it is held; otherwise runs the
    /// reflex on the normalized `features`, rounds outputs 0 and 1 into a
    /// decision, caches it with time `now` and returns it.
    pub fn decide_features(&mut self, now: u64, features: &[Real32]) -> (r: Result<
        FlushDecision,
        InferError,
    >)
        ensures
            flush_decided(*old(self), *final(self), now, features@, r),
            final(self).model() == old(self).model(),
            final(self).hold_time() == old(self).hold_time(),
            old(self).holds_at(now) ==> final(self).cached() == old(self).cached() && r == Ok::<
                FlushDecision,
                InferError,
            >(old(self).cached().unwrap().0),
            !old(self).holds_at(now) ==> match old(self).model().infer_result(features@) {
                Err(e) => r == Err::<FlushDecision, InferError>(e) && final(self).cached()
                    == old(self).cached(),
                Ok(out) => if out.len() < 2 {
                    r == Err::<FlushDecision, InferError>(InferError::MissingOutput)
                        && final(self).cached() == old(self).cached()
                } else {
                    r == Ok::<FlushDecision, InferError>(flush_decision_of(out))
                        && final(self).cached() == Some((flush_decision_of(out), now))
                },
            },
    {
        if let Some((d, t)) = self.last {
            let e = if now >= t {
                now - t
            } else {
                0
            };
            if e < self.hold_time_us {
                return Ok(d);
            }
        }
        let out = match self.reflex.infer(features) {
            Ok(out) => out,
            Err(e) => {
                return Err(e);
            },
        };
        if out.len() < 2 {
            return Err(InferError::MissingOutput);
        }
        let d = FlushDecision { threshold: out[0].round_u32(), max_delay_us: out[1].round_u32() };
        self.last = Some((d, now));
        Ok(d)
    }
}

/// `new` and `r` are what `decide_features` gives from `old` at `now` on `x`.
pub open spec fn flush_decided(
    old: ReflexPolicy,
    new: ReflexPolicy,
    now: u64,
    x: Seq<Real32>,
    r: Result<FlushDecision, InferError>,
) -> bool {
    &&& new.model() == old.model()
    &&& new.hold_time() == old.hold_time()
    &&& old.holds_at(now) ==> new.cached() == old.cached() && r == Ok::<FlushDecision, InferError>(
        old.cached().unwrap().0,
    )
    &&& !old.holds_at(now) ==> (r is Ok ==> new.cached() == Some((r.unwrap(), now)))
}

proof fn lemma_flush_hold_constant(
    ps: Seq<ReflexPolicy>,
    ts: Seq<u64>,
    xs: Seq<Seq<Real32>>,
    ds: Seq<FlushDecision>,
    k: int,
)
    requires
        ts.len() == xs.len() == ds.len(),
        ps.len() == ts.len() + 1,
        forall|m: int| 0 <= m < ts.len() ==> flush_decided(ps[m], ps[m + 1], ts[m], #[trigger] xs[m], Ok(ds[m])),
        0 <= k < ps.len(),
    ensures
        ps[k].hold_time() == ps[0].hold_time(),
    decreases k,
{
    if k > 0 {
        lemma_flush_hold_constant(ps, ts, xs, ds, k - 1);
        assert(flush_decided(ps[k - 1], ps[k], ts[k - 1], xs[k - 1], Ok(ds[k - 1])));
    }
}

proof fn lemma_flush_cached_since(
    ps: Seq<ReflexPolicy>,
    ts: Seq<u64>,
    xs: Seq<Seq<Real32>>,
    ds: Seq<FlushDecision>,
    i: int,
    k: int,
)
    requires
        ts.len() == xs.len() == ds.len(),
        ps.len() == ts.len() + 1,
        forall|m: int| 0 <= m < ts.len() ==> flush_decided(ps[m], ps[m + 1], ts[m], #[trigger] xs[m], Ok(ds[m])),
        forall|a: int, b: int| 0 <= a <= b < ts.len() ==> ts[a] <= ts[b],
        0 < i < k <= ts.len(),
        ds[i - 1] != ds[i],
    ensures
        ps[k].cached() matches Some((c, t)) && c == ds[k - 1] && ts[i] <= t <= ts[k - 1],
    decreases k - i,
{
    assert(flush_decided(ps[i - 1], ps[i], ts[i - 1], xs[i - 1], Ok(ds[i - 1])));
    assert(flush_decided(ps[k - 1], ps[k], ts[k - 1], xs[k - 1], Ok(ds[k - 1])));
    if k > i + 1 {
        lemma_flush_cached_since(ps, ts, xs, ds, i, k - 1);
    }
}

/// Hold time over a run of calls: when `decide_features` is called at
/// nondecreasing times `ts` and returns decisions `ds`, two changes of the
/// returned decision (at calls `i` and `j`) are at least one hold time apart.
pub proof fn lemma_flush_changes_spaced(
    ps: Seq<ReflexPolicy>,
    ts: Seq<u64>,
    xs: Seq<Seq<Real32>>,
    ds: Seq<FlushDecision>,
    i: int,
    j: int,
)
    requires
        ts.len() == xs.len() == ds.len(),
        ps.len() == ts.len() + 1,
        forall|m: int| 0 <= m < ts.len() ==> flush_decided(ps[m], ps[m + 1], ts[m], #[trigger] xs[m], Ok(ds[m])),
        forall|a: int, b: int| 0 <= a <= b < ts.len() ==> ts[a] <= ts[b],
        0 < i < j < ts.len(),
        ds[i - 1] != ds[i],
        ds[j - 1] != ds[j],
    ensures
        ts[j] - ts[i] >= ps[0].hold_time(),
{
    lemma_flush_cached_since(ps, ts, xs, ds, i, j);
    lemma_flush_hold_constant(ps, ts, xs, ds, j);
    assert(flush_decided(ps[j], ps[j + 1], ts[j], xs[j], Ok(ds[j])));
}

/// Latencies, throughput measurements and the number of decision changes.
pub struct Metrics {
    pub latencies_us: Vec<u64>,
    pub throughput_samples: Vec<ThroughputSample>,
    pub decision_changes: u64,
}

impl Metrics {
    pub fn new() -> (r: Self)
        ensures
            r.latencies_us@ == Seq::<u64>::empty(),
            r.throughput_samples@ == Seq::<ThroughputSample>::empty(),
            r.decision_changes == 0,
    {
        Metrics { latencies_us: Vec::new(), throughput_samples: Vec::new(), decision_changes: 0 }
    }

    pub fn record_latency(&mut self, latency_us: u64)
        ensures
            final(self).latencies_us@ == old(self).latencies_us@.push(latency_us),
            final(self).throughput_samples@ == old(self).throughput_samples@,
            final(self).decision_changes == old(self).decision_changes,
    {
        self.latencies_us.push(latency_us);
    }

    pub fn record_throughput(&mut self, sample: ThroughputSample)
        ensures
            final(self).latencies_us@ == old(self).latencies_us@,
            final(self).throughput_samples@ == old(self).throughput_samples@.push(sample),
            final(self).decision_changes == old(self).decision_changes,
    {
        self.throughput_samples.push(sample);
    }

    pub fn record_decision_change(&mut self)
        requires
            old(self).decision_changes < u64::MAX,
        ensures
            final(self).latencies_us@ == old(self).latencies_us@,
            final(self).throughput_samples@ == old(self).throughput_samples@,
            final(self).decision_changes == old(self).decision_changes + 1,
    {
        self.decision_changes = self.decision_changes + 1;
    }

    pub fn p50_latency(&self) -> (r: u64)
        ensures
            self.latencies_us@.len() == 0 ==> r == 0,
            self.latencies_us@.len() > 0 ==> order_statistic(
                self.latencies_us@,
                percentile_index(self.latencies_us@.len() as int, 50),
                r,
            ),
    {
        percentile(&self.latencies_us, 50)
    }

    pub fn p95_latency(&self) -> (r: u64)
        ensures
            self.latencies_us@.len() == 0 ==> r == 0,
            self.latencies_us@.len() > 0 ==> order_statistic(
                self.latencies_us@,
                percentile_index(self.latencies_us@.len() as int, 95),
                r,
            ),
    {
        percentile(&self.latencies_us, 95)
    }

    pub fn p99_latency(&self) -> (r: u64)
        ensures
            self.latencies_us@.len() == 0 ==> r == 0,
            self.latencies_us@.len() > 0 ==> order_statistic(
                self.latencies_us@,
                percentile_index(self.latencies_us@.len() as int, 99),
                r,
            ),
    {
        percentile(&self.latencies_us, 99)
    }
}

impl Default for Metrics {
    fn default() -> (r: Self)
        ensures
            r.latencies_us@ == Seq::<u64>::empty(),
            r.throughput_samples@ == Seq::<ThroughputSample>::empty(),
            r.decision_changes == 0,
    {
        Metrics::new()
    }
}

/// Sizes of the packets in `q`.
pub open spec fn sizes(q: Seq<Packet>) -> Seq<u64> {
    q.map_values(|p: Packet| p.size_bytes as u64)
}

/// Ages at `now` of the packets in `q`.
pub open spec fn ages(q: Seq<Packet>, now: u64) -> Seq<u64> {
    q.map_values(|p: Packet| elapsed(now, p.arrival_time) as u64)
}

/// Age at `now` of the oldest packet, or 0 for an empty queue.
pub open spec fn oldest_age(q: Seq<Packet>, now: u64) -> int {
    if q.len() == 0 {
        0
    } else {
        elapsed(now, q[0].arrival_time)
    }
}

/// Whether `d` asks for a flush of `q` at `now`.
pub open spec fn flush_due(q: Seq<Packet>, now: u64, d: FlushDecision) -> bool {
    q.len() >= d.threshold || oldest_age(q, now) >= d.max_delay_us
}

/// The telemetry of queue `q` at `now`: depth, resident-age percentiles,
/// size sums; the rates and the RTT estimate are not tracked and read 0.
pub open spec fn transport_telemetry_ok(t: TelemetrySample, q: Seq<Packet>, now: u64) -> bool {
    &&& t.timestamp_us == now
    &&& t.queue_depth == q.len()
    &&& t.enqueue_rate == 0 && t.dequeue_rate == 0
    &&& t.bytes_in_per_sec == 0 && t.bytes_out_per_sec == 0
    &&& t.rtt_ewma_us == 0
    &&& t.packet_size_sum == sum_of(sizes(q))
    &&& t.packet_size_sq_sum == saturated(sq_sum_of(sizes(q)))
    &&& (q.len() == 0 ==> t.latency_p50_us == 0 && t.latency_p95_us == 0)
    &&& (q.len() > 0 ==> order_statistic(ages(q, now), percentile_index(q.len() as int, 50), t.latency_p50_us))
    &&& (q.len() > 0 ==> order_statistic(ages(q, now), percentile_index(q.len() as int, 95), t.latency_p95_us))
}

/// `new` is `old` after applying decision `d` at `now`.
pub open spec fn applied<P: FlushPolicy>(
    old: FakeTransport<P>,
    new: FakeTransport<P>,
    now: u64,
    d: FlushDecision,
) -> bool {
    let changed = old.last_decision_view() matches Some(prev) && prev != d;
    let flushed = flush_due(old.queue_view(), now, d);
    let sent = old.sent() + if flushed {
        old.queue_view().len()
    } else {
        0
    };
    let measured = elapsed(now, old.throughput_mark()) >= THROUGHPUT_PERIOD_US;
    &&& new.wf()
    &&& new.next_id() == old.next_id()
    &&& new.last_decision_view() == Some(d)
    &&& new.metrics_view().decision_changes == old.metrics_view().decision_changes + if changed {
        1int
    } else {
        0int
    }
    &&& flushed ==> new.queue_view() == Seq::<Packet>::empty()
        && new.metrics_view().latencies_us@ == old.metrics_view().latencies_us@ + ages(
        old.queue_view(),
        now,
    )
    &&& !flushed ==> new.queue_view() == old.queue_view() && new.metrics_view().latencies_us@
        == old.metrics_view().latencies_us@
    &&& measured ==> new.metrics_view().throughput_samples@
        == old.metrics_view().throughput_samples@.push(
        ThroughputSample {
            count: sent as u64,
            elapsed_us: elapsed(now, old.throughput_mark()) as u64,
        },
    ) && new.sent() == 0 && new.throughput_mark() == now
    &&& !measured ==> new.metrics_view().throughput_samples@
        == old.metrics_view().throughput_samples@ && new.sent() == sent && new.throughput_mark()
        == old.throughput_mark()
}

/// `new` is `old` after one tick at `now`: the policy, shown the telemetry
/// of the queue, gave a decision and moved on, and that decision was applied.
pub open spec fn ticked<P: FlushPolicy>(old: FakeTransport<P>, new: FakeTransport<P>, now: u64) -> bool {
    exists|t: TelemetrySample|
        #[trigger] transport_telemetry_ok(t, old.queue_view(), now) && new.policy_view()
            == old.policy_view().after_decide(now, t) && applied(
            old,
            new,
            now,
            old.policy_view().decision_for(now, t),
        )
}

/// The transport simulator. Time is supplied by the caller in microseconds
/// and must not go backwards between calls.
pub struct FakeTransport<P: FlushPolicy> {
    queue: VecDeque<Packet>,
    policy: P,
    metrics: Metrics,
    next_packet_id: u64,
    last_decision: Option<FlushDecision>,
    sent_packets: u64,
    last_throughput_measurement: u64,
}

impl<P: FlushPolicy> FakeTransport<P> {
    pub closed spec fn queue_view(&self) -> Seq<Packet> {
        self.queue@
    }

    pub closed spec fn metrics_view(&self) -> Metrics {
        self.metrics
    }

    pub closed spec fn next_id(&self) -> u64 {
        self.next_packet_id
    }

    pub closed spec fn last_decision_view(&self) -> Option<FlushDecision> {
        self.last_decision
    }

    /// Packets sent since the last throughput measurement.
    pub closed spec fn sent(&self) -> u64 {
        self.sent_packets
    }

    pub closed spec fn throughput_mark(&self) -> u64 {
        self.last_throughput_measurement
    }

    pub closed spec fn policy_view(&self) -> P {
        self.policy
    }

    pub closed spec fn wf(&self) -> bool {
        self.sent_packets + self.queue@.len() <= self.next_packet_id
    }

    pub fn new(policy: P, now: u64) -> (r: Self)
        ensures
            r.wf(),
            r.queue_view() == Seq::<Packet>::empty(),
            r.metrics_view().latencies_us@ == Seq::<u64>::empty(),
            r.metrics_view().throughput_samples@ == Seq::<ThroughputSample>::empty(),
            r.metrics_view().decision_changes == 0,
            r.next_id() == 0,
            r.last_decision_view() is None,
            r.sent() == 0,
            r.throughput_mark() == now,
    {
        FakeTransport {
            queue: VecDeque::new(),
            policy,
            metrics: Metrics::new(),
            next_packet_id: 0,
            last_decision: None,
            sent_packets: 0,
            last_throughput_measurement: now,
        }
    }

    /// Appends a packet of `size_bytes` that arrives at `now`.
    pub fn enqueue(&mut self, now: u64, size_bytes: usize)
        requires
            old(self).wf(),
            old(self).next_id() < u64::MAX,
        ensures
            final(self).wf(),
            final(self).queue_view() == old(self).queue_view().push(
                Packet { id: old(self).next_id(), size_bytes, arrival_time: now },
            ),
            final(self).next_id() == old(self).next_id() + 1,
            final(self).metrics_view() == old(self).metrics_view(),
            final(self).policy_view() == old(self).policy_view(),
            final(self).last_decision_view() == old(self).last_decision_view(),
            final(self).sent() == old(self).sent(),
            final(self).throughput_mark() == old(self).throughput_mark(),
    {
        let packet = Packet { id: self.next_packet_id, size_bytes, arrival_time: now };
        self.next_packet_id = self.next_packet_id + 1;
        self.queue.push_back(packet);
    }

    fn oldest_packet_age_us(&self, now: u64) -> (r: u64)
        ensures
            r == oldest_age(self.queue@, now),
    {
        if self.queue.len() == 0 {
            0
        } else {
            let t = self.queue[0].arrival_time;
            if now >= t {
                now - t
            } else {
                0
            }
        }
    }

    fn flush(&mut self, now: u64)
        requires
            old(self).wf(),
        ensures
            final(self).wf(),
            final(self).queue@ == Seq::<Packet>::empty(),
            final(self).metrics.latencies_us@ == old(self).metrics.latencies_us@ + ages(old(self).queue@, now),
            final(self).metrics.throughput_samples@ == old(self).metrics.throughput_samples@,
            final(self).metrics.decision_changes == old(self).metrics.decision_changes,
            final(self).sent_packets == old(self).sent_packets + old(self).queue@.len(),
            final(self).next_packet_id == old(self).next_packet_id,
            final(self).last_decision == old(self).last_decision,
            final(self).last_throughput_measurement == old(self).last_throughput_measurement,
            final(self).policy == old(self).policy,
    {
        let ghost q0 = self.queue@;
        let ghost l0 = self.metrics.latencies_us@;
        let ghost s0 = self.sent_packets;
        let ghost mut i: int = 0;
        while self.queue.len() > 0
            invariant
                0 <= i <= q0.len(),
                self.queue@ == q0.subrange(i, q0.len() as int),
                self.metrics.latencies_us@ == l0 + ages(q0, now).subrange(0, i),
                self.metrics.throughput_samples@ == old(self).metrics.throughput_samples@,
                self.metrics.decision_changes == old(self).metrics.decision_changes,
                self.sent_packets == s0 + i,
                s0 + q0.len() <= self.next_packet_id,
                self.next_packet_id == old(self).next_packet_id,
                self.last_decision == old(self).last_decision,
                self.last_throughput_measurement == old(self).last_throughput_measurement,
                self.policy == old(self).policy,
            decreases self.queue@.len(),
        {
            let p = self.queue.pop_front().unwrap();
            let latency = if now >= p.arrival_time {
                now - p.arrival_time
            } else {
                0
            };
            self.metrics.record_latency(latency);
            self.sent_packets = self.sent_packets + 1;
            proof {
                assert(p == q0[i]);
                i = i + 1;
                assert(self.queue@ =~= q0.subrange(i, q0.len() as int));
                assert(self.metrics.latencies_us@ =~= l0 + ages(q0, now).subrange(0, i));
            }
        }
        proof {
            assert(i == q0.len());
            assert(ages(q0, now).subrange(0, i) =~= ages(q0, now));
        }
    }

    fn collect_telemetry(&self, now: u64) -> (r: TelemetrySample)
        ensures
            transport_telemetry_ok(r, self.queue@, now),
    {
        let n = self.queue.len();
        let mut ages_v: Vec<u64> = Vec::new();
        let mut sum: u128 = 0;
        let mut sq: u128 = 0;
        let ghost q = self.queue@;
        let mut i: usize = 0;
        while i < n
            invariant
                n == q.len(),
                q == self.queue@,
                i <= n,
                ages_v@ == ages(q, now).subrange(0, i as int),
                sum == sum_of(sizes(q).subrange(0, i as int)),
                sq == saturated(sq_sum_of(sizes(q).subrange(0, i as int))),
            decreases n - i,
        {
            let p = self.queue[i];
            let age = if now >= p.arrival_time {
                now - p.arrival_time
            } else {
                0
            };
            ages_v.push(age);
            proof {
                assert(sizes(q).subrange(0, i as int).push(p.size_bytes as u64) =~= sizes(q).subrange(0, i as int + 1));
            }
            let (s1, s2) = add_sample(sum, sq, p.size_bytes as u64, Ghost(sizes(q).subrange(0, i as int)));
            sum = s1;
            sq = s2;
            i = i + 1;
            proof {
                assert(ages_v@ =~= ages(q, now).subrange(0, i as int));
            }
        }
        proof {
            assert(ages_v@ =~= ages(q, now));
            assert(sizes(q).subrange(0, n as int) =~= sizes(q));
        }
        let p50 = percentile(&ages_v, 50);
        let p95 = percentile(&ages_v, 95);
        TelemetrySample {
            timestamp_us: now,
            queue_depth: n as u64,
            enqueue_rate: 0,
            dequeue_rate: 0,
            latency_p50_us: p50,
            latency_p95_us: p95,
            bytes_in_per_sec: 0,
            bytes_out_per_sec: 0,
            packet_size_sum: sum,
            packet_size_sq_sum: sq,
            rtt_ewma_us: 0,
        }
    }

    /// Applies decision `d` at `now`: counts a decision change when `d`
    /// differs from the previous decision, flushes the whole queue when `d`
    /// calls for it, and once a second records the packets sent over the
    /// elapsed interval.
    pub fn apply_decision(&mut self, now: u64, d: FlushDecision)
        requires
            old(self).wf(),
            old(self).metrics_view().decision_changes < u64::MAX,
        ensures
            applied(*old(self), *final(self), now, d),
            final(self).policy_view() == old(self).policy_view(),
    {
        if let Some(last) = self.last_decision {
            if last != d {
                self.metrics.record_decision_change();
            }
        }
        self.last_decision = Some(d);
        let should_flush = self.queue.len() >= d.threshold as usize
            || self.oldest_packet_age_us(now) >= d.max_delay_us as u64;
        if should_flush {
            self.flush(now);
        }
        let e = if now >= self.last_throughput_measurement {
            now - self.last_throughput_measurement
        } else {
            0
        };
        if e >= THROUGHPUT_PERIOD_US {
            self.metrics.record_throughput(ThroughputSample { count: self.sent_packets, elapsed_us: e });
            self.sent_packets = 0;
            self.last_throughput_measurement = now;
        }
    }

    /// One tick at `now`: composes telemetry from the queue, asks the
    /// policy, and applies exactly the decision it returned.
    pub fn tick(&mut self, now: u64)
        requires
            old(self).wf(),
            old(self).metrics_view().decision_changes < u64::MAX,
        ensures
            ticked(*old(self), *final(self), now),
    {
        let telem = self.collect_telemetry(now);
        let decision = self.policy.decide(now, &telem);
        let ghost mid = *self;
        self.apply_decision(now, decision);
        assert(transport_telemetry_ok(telem, old(self).queue_view(), now));
        assert(applied(mid, *self, now, decision));
        assert(mid.queue_view() == old(self).queue_view());
    }

    pub fn metrics(&self) -> (r: &Metrics)
        ensures
            *r == self.metrics_view(),
    {
        &self.metrics
    }

    /// The policy driving this simulator.
    pub fn policy(&self) -> (r: &P) {
        &self.policy
    }
}

/// A baseline run counts no decision change: when the policy is the
/// baseline (16 packets, 500 µs) and the last decision, if any, is the
/// baseline's, a tick counts no change and leaves both as they were. By
/// induction this holds over any sequence of enqueues and ticks from `new`.
pub proof fn lemma_baseline_tick_counts_no_change(
    old: FakeTransport<BaselinePolicy>,
    new: FakeTransport<BaselinePolicy>,
    now: u64,
)
    requires
        old.policy_view().decision() == (FlushDecision { threshold: 16, max_delay_us: 500 }),
        old.last_decision_view() is None || old.last_decision_view() == Some(
            FlushDecision { threshold: 16, max_delay_us: 500 },
        ),
        ticked(old, new, now),
    ensures
        new.metrics_view().decision_changes == old.metrics_view().decision_changes,
        new.policy_view().decision() == (FlushDecision { threshold: 16, max_delay_us: 500 }),
        new.last_decision_view() == Some(FlushDecision { threshold: 16, max_delay_us: 500 }),
{
    let t = choose|t: TelemetrySample|
        #[trigger] transport_telemetry_ok(t, old.queue_view(), now) && new.policy_view()
            == old.policy_view().after_decide(now, t) && applied(
            old,
            new,
            now,
            old.policy_view().decision_for(now, t),
        );
}

/// `new` is `old` after one call of `enqueue`.
pub open spec fn enqueued<P: FlushPolicy>(old: FakeTransport<P>, new: FakeTransport<P>) -> bool {
    &&& new.policy_view() == old.policy_view()
    &&& new.last_decision_view() == old.last_decision_view()
    &&& new.metrics_view() == old.metrics_view()
}

/// A whole baseline run counts no decision change: along any sequence of
/// states, each reached from the one before by a tick (at time `nows[k]`)
/// or an enqueue, starting from a fresh simulator with the baseline policy,
/// the decision-change count stays 0.
pub proof fn lemma_baseline_run_counts_no_change(
    sims: Seq<FakeTransport<BaselinePolicy>>,
    nows: Seq<u64>,
    k: int,
)
    requires
        sims.len() == nows.len() + 1,
        sims[0].policy_view().decision() == (FlushDecision { threshold: 16, max_delay_us: 500 }),
        sims[0].last_decision_view() is None,
        sims[0].metrics_view().decision_changes == 0,
        forall|m: int|
            0 <= m < nows.len() ==> ticked(sims[m], sims[m + 1], #[trigger] nows[m]) || enqueued(
                sims[m],
                sims[m + 1],
            ),
        0 <= k < sims.len(),
    ensures
        sims[k].metrics_view().decision_changes == 0,
        sims[k].policy_view().decision() == (FlushDecision { threshold: 16, max_delay_us: 500 }),
        sims[k].last_decision_view() is None || sims[k].last_decision_view() == Some(
            FlushDecision { threshold: 16, max_delay_us: 500 },
        ),
    decreases k,
{
    if k > 0 {
        lemma_baseline_run_counts_no_change(sims, nows, k - 1);
        let m = k - 1;
        assert(ticked(sims[m], sims[m + 1], nows[m]) || enqueued(sims[m], sims[m + 1]));
        if ticked(sims[m], sims[m + 1], nows[m]) {
            lemma_baseline_tick_counts_no_change(sims[m], sims[m + 1], nows[m]);
        }
    }
}

} // verus!
