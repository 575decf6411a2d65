//! Worker-pool simulator: tasks queue for a pool whose size a policy sets.
use std::collections::VecDeque;
use vstd::prelude::*;

use crate::float_bits::{round_u32_spec, Real32};
use crate::model::{InferError, Reflex};
use crate::stats::{
    add_sample, order_statistic, saturated, percentile, percentile_index, sq_sum_of, sum_of,
    ThroughputSample,
};
use crate::telemetry::{elapsed, ComputeTelemetry};

verus! {

/// Microseconds between two throughput measurements, and the retention of
/// the arrival and completion windows.
pub const RATE_WINDOW_US: u64 = 1_000_000;

/// Hold time of the reflex pool-size policy, in microseconds.
pub const POOL_HOLD_US: u64 = 500_000;

/// Smallest and largest pool size a reflex may ask for.
pub const MIN_WORKERS: u32 = 1;
pub const MAX_WORKERS: u32 = 64;

/// A task; times are in microseconds.
#[derive(Debug, Clone, Copy, PartialEq, Eq, Structural)]
pub struct Task {
    pub id: u64,
    pub work_us: u64,
    pub arrival_time: u64,
    pub start_time: Option<u64>,
}

#[derive(Debug, Clone, Copy, PartialEq, Eq, Structural)]
pub struct PoolSizeDecision {
    pub n_workers: u32,
}

/// A pool-size policy: one decision per tick from the current telemetry.
///
/// `decision_for` is the decision the policy in a given state gives for a
/// telemetry sample at a time, and `after_decide` the state it moves to.
/// Implementations outside verified code may keep the defaults, of which
/// nothing is known.
pub trait PoolSizePolicy: Sized {
    closed spec fn decision_for(&self, now_us: u64, telem: ComputeTelemetry) -> PoolSizeDecision {
        arbitrary()
    }

    closed spec fn after_decide(&self, now_us: u64, telem: ComputeTelemetry) -> Self {
        arbitrary()
    }

    fn decide(&mut self, now_us: u64, telem: &ComputeTelemetry) -> (r: PoolSizeDecision)
        ensures
            r == old(self).decision_for(now_us, *telem),
            *final(self) == old(self).after_decide(now_us, *telem),
    ;
}

/// A source of tasks: each call yields the wait in microseconds before the
/// next task and its work in microseconds, or `None` once the workload has
/// ended.
pub trait WorkloadGenerator {
    fn next_task(&mut self) -> Option<(u64, u64)>;
}

/// The static policy: 8 workers.
pub struct BaselinePolicy {
    n_workers: u32,
}

impl BaselinePolicy {
    pub closed spec fn decision(&self) -> PoolSizeDecision {
        PoolSizeDecision { n_workers: self.n_workers }
    }

    pub fn new() -> (r: Self)
        ensures
            r.decision() == (PoolSizeDecision { n_workers: 8 }),
    {
        BaselinePolicy { n_workers: 8 }
    }

    pub fn current(&self) -> (r: PoolSizeDecision)
        ensures
            r == self.decision(),
    {
        PoolSizeDecision { n_workers: self.n_workers }
    }
}

impl Default for BaselinePolicy {
    fn default() -> (r: Self)
        ensures
            r.decision() == (PoolSizeDecision { n_workers: 8 }),
    {
        BaselinePolicy::new()
    }
}

impl PoolSizePolicy for BaselinePolicy {
    open spec fn decision_for(&self, now_us: u64, telem: ComputeTelemetry) -> PoolSizeDecision {
        self.decision()
    }

    open spec fn after_decide(&self, now_us: u64, telem: ComputeTelemetry) -> Self {
        *self
    }

    fn decide(&mut self, now_us: u64, telem: &ComputeTelemetry) -> (r: PoolSizeDecision) {
        self.current()
    }
}

/// A policy that always asks for the same pool size.
pub struct FixedPolicy {
    n_workers: u32,
}

impl FixedPolicy {
    pub closed spec fn decision(&self) -> PoolSizeDecision {
        PoolSizeDecision { n_workers: self.n_workers }
    }

    pub fn new(n_workers: u32) -> (r: Self)
        ensures
            r.decision() == (PoolSizeDecision { n_workers }),
    {
        FixedPolicy { n_workers }
    }

    pub fn current(&self) -> (r: PoolSizeDecision)
        ensures
            r == self.decision(),
    {
        PoolSizeDecision { n_workers: self.n_workers }
    }
}

impl PoolSizePolicy for FixedPolicy {
    open spec fn decision_for(&self, now_us: u64, telem: ComputeTelemetry) -> PoolSizeDecision {
        self.decision()
    }

    open spec fn after_decide(&self, now_us: u64, telem: ComputeTelemetry) -> Self {
        *self
    }

    fn decide(&mut self, now_us: u64, telem: &ComputeTelemetry) -> (r: PoolSizeDecision) {
        self.current()
    }
}

/// Reads output 0 as the pool size: rounded, then clamped to `[1, 64]`.
pub open spec fn pool_decision_of(out: Seq<Real32>) -> PoolSizeDecision {
    let n = round_u32_spec(out[0]);
    PoolSizeDecision {
        n_workers: if n < MIN_WORKERS {
            MIN_WORKERS
        } else if n > MAX_WORKERS {
            MAX_WORKERS
        } else {
            n
        },
    }
}

/// A policy driven by a reflex, holding each decision for 500 ms.
pub struct ReflexPolicy {
    reflex: Reflex,
    last: Option<(PoolSizeDecision, u64)>,
    hold_time_us: u64,
}

impl ReflexPolicy {
    pub closed spec fn model(&self) -> Reflex {
        self.reflex
    }

    pub closed spec fn cached(&self) -> Option<(PoolSizeDecision, u64)> {
        self.last
    }

    pub closed spec fn hold_time(&self) -> u64 {
        self.hold_time_us
    }

    pub open spec fn holds_at(&self, now: u64) -> bool {
        self.cached() matches Some((d, t)) && elapsed(now, t) < self.hold_time()
    }

    pub fn new(reflex: Reflex) -> (r: Self)
        ensures
            r.model() == reflex,
            r.cached() is None,
            r.hold_time() == POOL_HOLD_US,
    {
        ReflexPolicy { reflex, last: None, hold_time_us: POOL_HOLD_US }
    }

    /// Returns the cached decision while it is held; otherwise runs the
    /// reflex on the normalized `features`, decodes output 0 into a pool
    /// size in `[1, 64]`, caches it with time `now` and returns it.
    pub fn decide_features(&mut self, now: u64, features: &[Real32]) -> (r: Result<
        PoolSizeDecision,
        InferError,
    >)
        ensures
            pool_decided(*old(self), *final(self), now, features@, r),
            final(self).model() == old(self).model(),
            final(self).hold_time() == old(self).hold_time(),
            old(self).holds_at(now) ==> final(self).cached() == old(self).cached() && r == Ok::<
                PoolSizeDecision,
                InferError,
            >(old(self).cached().unwrap().0),
            !old(self).holds_at(now) ==> match old(self).model().infer_result(features@) {
                Err(e) => r == Err::<PoolSizeDecision, InferError>(e) && final(self).cached()
                    == old(self).cached(),
                Ok(out) => if out.len() < 1 {
                    r == Err::<PoolSizeDecision, InferError>(InferError::MissingOutput)
                        && final(self).cached() == old(self).cached()
                } else {
                    r == Ok::<PoolSizeDecision, InferError>(pool_decision_of(out))
                        && final(self).cached() == Some((pool_decision_of(out), now))
                },
            },
            r matches Ok(d) ==> MIN_WORKERS <= d.n_workers <= MAX_WORKERS || old(self).holds_at(now),
    {
        if let Some((d, t)) = self.last {
            let e = if now >= t {
                now - t
            } else {
                0
            };
            if e < self.hold_time_us {
                return Ok(d);
            }
        }
        let out = match self.reflex.infer(features) {
            Ok(out) => out,
            Err(e) => {
                return Err(e);
            },
        };
        if out.len() < 1 {
            return Err(InferError::MissingOutput);
        }
        let n = out[0].round_u32();
        let n_workers = if n < MIN_WORKERS {
            MIN_WORKERS
        } else if n > MAX_WORKERS {
            MAX_WORKERS
        } else {
            n
        };
        let d = PoolSizeDecision { n_workers };
        self.last = Some((d, now));
        Ok(d)
    }
}

/// `new` and `r` are what `decide_features` gives from `old` at `now` on `x`.
pub open spec fn pool_decided(
    old: ReflexPolicy,
    new: ReflexPolicy,
    now: u64,
    x: Seq<Real32>,
    r: Result<PoolSizeDecision, InferError>,
) -> bool {
    &&& new.model() == old.model()
    &&& new.hold_time() == old.hold_time()
    &&& old.holds_at(now) ==> new.cached() == old.cached() && r == Ok::<PoolSizeDecision, InferError>(
        old.cached().unwrap().0,
    )
    &&& !old.holds_at(now) ==> (r is Ok ==> new.cached() == Some((r.unwrap(), now)))
}

proof fn lemma_pool_hold_constant(
    ps: Seq<ReflexPolicy>,
    ts: Seq<u64>,
    xs: Seq<Seq<Real32>>,
    ds: Seq<PoolSizeDecision>,
    k: int,
)
    requires
        ts.len() == xs.len() == ds.len(),
        ps.len() == ts.len() + 1,
        forall|m: int| 0 <= m < ts.len() ==> pool_decided(ps[m], ps[m + 1], ts[m], #[trigger] xs[m], Ok(ds[m])),
        0 <= k < ps.len(),
    ensures
        ps[k].hold_time() == ps[0].hold_time(),
    decreases k,
{
    if k > 0 {
        lemma_pool_hold_constant(ps, ts, xs, ds, k - 1);
        assert(pool_decided(ps[k - 1], ps[k], ts[k - 1], xs[k - 1], Ok(ds[k - 1])));
    }
}

proof fn lemma_pool_cached_since(
    ps: Seq<ReflexPolicy>,
    ts: Seq<u64>,
    xs: Seq<Seq<Real32>>,
    ds: Seq<PoolSizeDecision>,
    i: int,
    k: int,
)
    requires
        ts.len() == xs.len() == ds.len(),
        ps.len() == ts.len() + 1,
        forall|m: int| 0 <= m < ts.len() ==> pool_decided(ps[m], ps[m + 1], ts[m], #[trigger] xs[m], Ok(ds[m])),
        forall|a: int, b: int| 0 <= a <= b < ts.len() ==> ts[a] <= ts[b],
        0 < i < k <= ts.len(),
        ds[i - 1] != ds[i],
    ensures
        ps[k].cached() matches Some((c, t)) && c == ds[k - 1] && ts[i] <= t <= ts[k - 1],
    decreases k - i,
{
    assert(pool_decided(ps[i - 1], ps[i], ts[i - 1], xs[i - 1], Ok(ds[i - 1])));
    assert(pool_decided(ps[k - 1], ps[k], ts[k - 1], xs[k - 1], Ok(ds[k - 1])));
    if k > i + 1 {
        lemma_pool_cached_since(ps, ts, xs, ds, i, k - 1);
    }
}

/// Hold time over a run of calls: when `decide_features` is called at
/// nondecreasing times `ts` and returns decisions `ds`, two changes of the
/// returned decision (at calls `i` and `j`) are at least one hold time apart.
pub proof fn lemma_pool_changes_spaced(
    ps: Seq<ReflexPolicy>,
    ts: Seq<u64>,
    xs: Seq<Seq<Real32>>,
    ds: Seq<PoolSizeDecision>,
    i: int,
    j: int,
)
    requires
        ts.len() == xs.len() == ds.len(),
        ps.len() == ts.len() + 1,
        forall|m: int| 0 <= m < ts.len() ==> pool_decided(ps[m], ps[m + 1], ts[m], #[trigger] xs[m], Ok(ds[m])),
        forall|a: int, b: int| 0 <= a <= b < ts.len() ==> ts[a] <= ts[b],
        0 < i < j < ts.len(),
        ds[i - 1] != ds[i],
        ds[j - 1] != ds[j],
    ensures
        ts[j] - ts[i] >= ps[0].hold_time(),
{
    lemma_pool_cached_since(ps, ts, xs, ds, i, j);
    lemma_pool_hold_constant(ps, ts, xs, ds, j);
    assert(pool_decided(ps[j], ps[j + 1], ts[j], xs[j], Ok(ds[j])));
}

/// Task times, throughput measurements and the number of decision changes.
pub struct Metrics {
    pub task_times_us: Vec<u64>,
    pub throughput_samples: Vec<ThroughputSample>,
    pub decision_changes: u64,
}

impl Metrics {
    pub fn new() -> (r: Self)
        ensures
            r.task_times_us@ == Seq::<u64>::empty(),
            r.throughput_samples@ == Seq::<ThroughputSample>::empty(),
            r.decision_changes == 0,
    {
        Metrics { task_times_us: Vec::new(), throughput_samples: Vec::new(), decision_changes: 0 }
    }

    pub fn record_task_time(&mut self, time_us: u64)
        ensures
            final(self).task_times_us@ == old(self).task_times_us@.push(time_us),
            final(self).throughput_samples@ == old(self).throughput_samples@,
            final(self).decision_changes == old(self).decision_changes,
    {
        self.task_times_us.push(time_us);
    }

    pub fn record_throughput(&mut self, sample: ThroughputSample)
        ensures
            final(self).task_times_us@ == old(self).task_times_us@,
            final(self).throughput_samples@ == old(self).throughput_samples@.push(sample),
            final(self).decision_changes == old(self).decision_changes,
    {
        self.throughput_samples.push(sample);
    }

    pub fn record_decision_change(&mut self)
        requires
            old(self).decision_changes < u64::MAX,
        ensures
            final(self).task_times_us@ == old(self).task_times_us@,
            final(self).throughput_samples@ == old(self).throughput_samples@,
            final(self).decision_changes == old(self).decision_changes + 1,
    {
        self.decision_changes = self.decision_changes + 1;
    }

    pub fn p50_task_time(&self) -> (r: u64)
        ensures
            self.task_times_us@.len() == 0 ==> r == 0,
            self.task_times_us@.len() > 0 ==> order_statistic(
                self.task_times_us@,
                percentile_index(self.task_times_us@.len() as int, 50),
                r,
            ),
    {
        percentile(&self.task_times_us, 50)
    }

    pub fn p95_task_time(&self) -> (r: u64)
        ensures
            self.task_times_us@.len() == 0 ==> r == 0,
            self.task_times_us@.len() > 0 ==> order_statistic(
                self.task_times_us@,
                percentile_index(self.task_times_us@.len() as int, 95),
                r,
            ),
    {
        percentile(&self.task_times_us, 95)
    }

    pub fn p99_task_time(&self) -> (r: u64)
        ensures
            self.task_times_us@.len() == 0 ==> r == 0,
            self.task_times_us@.len() > 0 ==> order_statistic(
                self.task_times_us@,
                percentile_index(self.task_times_us@.len() as int, 99),
                r,
            ),
    {
        percentile(&self.task_times_us, 99)
    }
}

impl Default for Metrics {
    fn default() -> (r: Self)
        ensures
            r.task_times_us@ == Seq::<u64>::empty(),
            r.throughput_samples@ == Seq::<ThroughputSample>::empty(),
            r.decision_changes == 0,
    {
        Metrics::new()
    }
}

/// A worker; it is idle when it holds no task.
#[derive(Debug, Clone, Copy, PartialEq, Eq, Structural)]
pub struct Worker {
    pub id: u64,
    pub current_task: Option<Task>,
    pub task_finish_time: Option<u64>,
}

pub open spec fn idle(w: Worker) -> bool {
    w.current_task is None
}

/// `w` has a finish time and `now` has reached it.
pub open spec fn finished(w: Worker, now: u64) -> bool {
    w.task_finish_time matches Some(f) && now >= f
}

pub open spec fn cleared(w: Worker, now: u64) -> Worker {
    if finished(w, now) {
        Worker { current_task: None, task_finish_time: None, ..w }
    } else {
        w
    }
}

/// `w` running `t` from `now` until `now + t.work_us` (or the end of
/// time, should that sum pass `u64::MAX`).
pub open spec fn assigned(w: Worker, t: Task, now: u64) -> Worker {
    Worker {
        current_task: Some(Task { start_time: Some(now), ..t }),
        task_finish_time: Some(
            if now + t.work_us > u64::MAX {
                u64::MAX
            } else {
                (now + t.work_us) as u64
            },
        ),
        ..w
    }
}

impl Worker {
    pub fn new(id: u64) -> (r: Worker)
        ensures
            r == (Worker { id, current_task: None, task_finish_time: None }),
    {
        Worker { id, current_task: None, task_finish_time: None }
    }

    pub fn is_idle(&self) -> (r: bool)
        ensures
            r == idle(*self),
    {
        self.current_task.is_none()
    }

    pub fn assign(&mut self, task: Task, now: u64)
        ensures
            *final(self) == assigned(*old(self), task, now),
    {
        let t = Task { start_time: Some(now), ..task };
        self.current_task = Some(t);
        let finish = if task.work_us > u64::MAX - now {
            u64::MAX
        } else {
            now + task.work_us
        };
        self.task_finish_time = Some(finish);
    }

    /// When the running task's finish time has come, clears the worker and
    /// returns the task.
    pub fn check_complete(&mut self, now: u64) -> (r: Option<Task>)
        ensures
            *final(self) == cleared(*old(self), now),
            r == (if finished(*old(self), now) {
                old(self).current_task
            } else {
                None
            }),
    {
        if let Some(finish_time) = self.task_finish_time {
            if now >= finish_time {
                let task = self.current_task;
                self.current_task = None;
                self.task_finish_time = None;
                return task;
            }
        }
        None
    }
}

/// The times (arrival to `now`) of the tasks that finish at `now`, in
/// worker order.
pub open spec fn completion_times(ws: Seq<Worker>, now: u64) -> Seq<u64>
    decreases ws.len(),
{
    if ws.len() == 0 {
        Seq::empty()
    } else {
        let w = ws.last();
        let rest = completion_times(ws.drop_last(), now);
        if finished(w, now) && w.current_task is Some {
            rest.push(elapsed(now, w.current_task.unwrap().arrival_time) as u64)
        } else {
            rest
        }
    }
}

/// Workers and queue after each idle worker, in order, takes the task at
/// the front of the queue.
pub open spec fn assign_all(ws: Seq<Worker>, q: Seq<Task>, now: u64) -> (Seq<Worker>, Seq<Task>)
    decreases ws.len(),
{
    if ws.len() == 0 {
        (Seq::empty(), q)
    } else {
        let (prev, rest) = assign_all(ws.drop_last(), q, now);
        let w = ws.last();
        if idle(w) && rest.len() > 0 {
            (prev.push(assigned(w, rest[0], now)), rest.drop_first())
        } else {
            (prev.push(w), rest)
        }
    }
}

/// `ws` without its first `k` idle workers.
pub open spec fn remove_idle(ws: Seq<Worker>, k: int) -> Seq<Worker>
    decreases ws.len(),
{
    if ws.len() == 0 {
        ws
    } else if k > 0 && idle(ws[0]) {
        remove_idle(ws.drop_first(), k - 1)
    } else {
        seq![ws[0]] + remove_idle(ws.drop_first(), k)
    }
}

/// Fresh idle workers with ids `from, from + 1, ..., to - 1`.
pub open spec fn fresh_workers(from: int, to: int) -> Seq<Worker> {
    Seq::new(
        (to - from) as nat,
        |i: int| Worker { id: (from + i) as u64, current_task: None, task_finish_time: None },
    )
}

/// The pool after resizing to `target`: grows with fresh idle workers, or
/// shrinks by dropping idle workers only, front first.
pub open spec fn resized(ws: Seq<Worker>, target: int) -> Seq<Worker> {
    if target > ws.len() {
        ws + fresh_workers(ws.len() as int, target)
    } else if target < ws.len() {
        remove_idle(ws, ws.len() - target)
    } else {
        ws
    }
}

pub open spec fn busy_count(ws: Seq<Worker>) -> int
    decreases ws.len(),
{
    if ws.len() == 0 {
        0
    } else {
        busy_count(ws.drop_first()) + if idle(ws[0]) {
            0int
        } else {
            1int
        }
    }
}

/// Timestamps in `s` that lie within one second before `now`.
pub open spec fn recent(s: Seq<u64>, now: u64) -> Seq<u64>
    decreases s.len(),
{
    if s.len() == 0 {
        s
    } else if s.last() + RATE_WINDOW_US >= now {
        recent(s.drop_last(), now).push(s.last())
    } else {
        recent(s.drop_last(), now)
    }
}

pub open spec fn task_sizes(q: Seq<Task>) -> Seq<u64> {
    q.map_values(|t: Task| t.work_us)
}

proof fn lemma_busy_count_bound(ws: Seq<Worker>)
    ensures
        0 <= busy_count(ws) <= ws.len(),
    decreases ws.len(),
{
    if ws.len() > 0 {
        lemma_busy_count_bound(ws.drop_first());
    }
}

proof fn lemma_remove_idle_len(ws: Seq<Worker>, k: int)
    requires
        k >= 0,
    ensures
        remove_idle(ws, k).len() == ws.len() - (if k < ws.len() - busy_count(ws) {
            k
        } else {
            ws.len() - busy_count(ws)
        }),
        busy_count(remove_idle(ws, k)) == busy_count(ws),
        forall|w: Worker| #[trigger] ws.contains(w) && !idle(w) ==> remove_idle(ws, k).contains(w),
    decreases ws.len(),
{
    if ws.len() > 0 {
        let rest = ws.drop_first();
        lemma_busy_count_bound(rest);
        if k > 0 && idle(ws[0]) {
            lemma_remove_idle_len(rest, k - 1);
        } else {
            lemma_remove_idle_len(rest, k);
            assert((seq![ws[0]] + remove_idle(rest, k)).drop_first() =~= remove_idle(rest, k));
            assert((seq![ws[0]] + remove_idle(rest, k))[0] == ws[0]);
        }
        assert forall|w: Worker| #[trigger] ws.contains(w) && !idle(w) implies remove_idle(
            ws,
            k,
        ).contains(w) by {
            let i = choose|i: int| 0 <= i < ws.len() && ws[i] == w;
            if i == 0 {
                assert(remove_idle(ws, k)[0] == w);
            } else {
                assert(rest[i - 1] == w);
                assert(rest.contains(w));
                let r = remove_idle(rest, k);
                if !(k > 0 && idle(ws[0])) {
                    let j = choose|j: int| 0 <= j < r.len() && r[j] == w;
                    assert(remove_idle(ws, k)[j + 1] == w);
                }
            }
        }
    }
}

/// Shrinking a pool never removes a busy worker: every busy worker stays,
/// and the pool ends at the target size or, if more workers are busy than
/// that, at the number of busy workers.
pub proof fn lemma_resize_keeps_busy(ws: Seq<Worker>, target: int)
    requires
        0 <= target < ws.len(),
    ensures
        forall|w: Worker| #[trigger] ws.contains(w) && !idle(w) ==> resized(ws, target).contains(w),
        resized(ws, target).len() == if target > busy_count(ws) {
            target
        } else {
            busy_count(ws)
        },
        busy_count(resized(ws, target)) == busy_count(ws),
{
    lemma_remove_idle_len(ws, ws.len() - target);
    lemma_busy_count_bound(ws);
}

/// The worker-pool telemetry of `ws`, `q` and the windows at `now`.
pub open spec fn compute_telemetry_ok(
    t: ComputeTelemetry,
    ws: Seq<Worker>,
    q: Seq<Task>,
    arrivals: Seq<u64>,
    completions: Seq<u64>,
    times: Seq<u64>,
    now: u64,
) -> bool {
    &&& t.timestamp_us == now
    &&& t.runq_len == q.len()
    &&& t.arrival_rate == arrivals.len()
    &&& t.completion_rate == completions.len()
    &&& t.busy_worker_count == busy_count(ws)
    &&& t.idle_worker_count == ws.len() - busy_count(ws)
    &&& t.ctx_switches_per_sec == 10 * ws.len()
    &&& t.task_size_sum == sum_of(task_sizes(q))
    &&& t.task_size_sq_sum == saturated(sq_sum_of(task_sizes(q)))
    &&& (times.len() == 0 ==> t.task_time_p50_us == 0 && t.task_time_p95_us == 0)
    &&& (times.len() > 0 ==> order_statistic(times, percentile_index(times.len() as int, 50), t.task_time_p50_us))
    &&& (times.len() > 0 ==> order_statistic(times, percentile_index(times.len() as int, 95), t.task_time_p95_us))
}

proof fn lemma_completion_times_len(ws: Seq<Worker>, now: u64)
    ensures
        completion_times(ws, now).len() <= ws.len(),
    decreases ws.len(),
{
    if ws.len() > 0 {
        lemma_completion_times_len(ws.drop_last(), now);
    }
}

proof fn lemma_assign_all_len(ws: Seq<Worker>, q: Seq<Task>, now: u64)
    ensures
        assign_all(ws, q, now).0.len() == ws.len(),
    decreases ws.len(),
{
    if ws.len() > 0 {
        lemma_assign_all_len(ws.drop_last(), q, now);
    }
}

/// `mid` is `old` after finished tasks complete and idle workers, in
/// order, take queued tasks at `now`.
pub open spec fn pool_prepared<P: PoolSizePolicy>(old: ThreadPoolSim<P>, mid: ThreadPoolSim<P>, now: u64) -> bool {
    let ws0 = old.workers_view();
    let times = completion_times(ws0, now);
    let assigned = assign_all(ws0.map_values(|w: Worker| cleared(w, now)), old.queue_view(), now);
    &&& mid.wf()
    &&& mid.workers_view() == assigned.0
    &&& mid.queue_view() == assigned.1
    &&& mid.metrics_view().task_times_us@ == old.metrics_view().task_times_us@ + times
    &&& mid.metrics_view().throughput_samples@ == old.metrics_view().throughput_samples@
    &&& mid.metrics_view().decision_changes == old.metrics_view().decision_changes
    &&& mid.task_times() == old.task_times() + times
    &&& mid.completions() == old.completions() + Seq::new(times.len(), |i: int| now)
    &&& mid.completed() == old.completed() + times.len()
    &&& mid.arrivals() == old.arrivals()
    &&& mid.next_id() == old.next_id()
    &&& mid.last_decision_view() == old.last_decision_view()
    &&& mid.throughput_mark() == old.throughput_mark()
    &&& mid.policy_view() == old.policy_view()
}

/// `new` is `old` after applying decision `d` at `now`.
pub open spec fn pool_applied<P: PoolSizePolicy>(
    old: ThreadPoolSim<P>,
    new: ThreadPoolSim<P>,
    now: u64,
    d: PoolSizeDecision,
) -> bool {
    let changed = old.last_decision_view() matches Some(prev) && prev != d;
    let measured = elapsed(now, old.throughput_mark()) >= RATE_WINDOW_US;
    &&& new.wf()
    &&& new.next_id() == old.next_id()
    &&& new.last_decision_view() == Some(d)
    &&& new.workers_view() == resized(old.workers_view(), d.n_workers as int)
    &&& new.queue_view() == old.queue_view()
    &&& new.metrics_view().task_times_us@ == old.metrics_view().task_times_us@
    &&& new.task_times() == old.task_times()
    &&& new.metrics_view().decision_changes == old.metrics_view().decision_changes + if changed {
        1int
    } else {
        0int
    }
    &&& new.arrivals() == recent(old.arrivals(), now)
    &&& new.completions() == recent(old.completions(), now)
    &&& measured ==> new.metrics_view().throughput_samples@
        == old.metrics_view().throughput_samples@.push(
        ThroughputSample {
            count: old.completed(),
            elapsed_us: elapsed(now, old.throughput_mark()) as u64,
        },
    ) && new.completed() == 0 && new.throughput_mark() == now
    &&& !measured ==> new.metrics_view().throughput_samples@
        == old.metrics_view().throughput_samples@ && new.completed() == old.completed()
        && new.throughput_mark() == old.throughput_mark()
}

/// One tick from `old` to `new` through the prepared state `mid`, whose
/// telemetry `t` the policy was shown.
pub open spec fn pool_step<P: PoolSizePolicy>(
    old: ThreadPoolSim<P>,
    mid: ThreadPoolSim<P>,
    t: ComputeTelemetry,
    new: ThreadPoolSim<P>,
    now: u64,
) -> bool {
    &&& pool_prepared(old, mid, now)
    &&& compute_telemetry_ok(
        t,
        mid.workers_view(),
        mid.queue_view(),
        mid.arrivals(),
        mid.completions(),
        mid.task_times(),
        now,
    )
    &&& new.policy_view() == mid.policy_view().after_decide(now, t)
    &&& pool_applied(mid, new, now, mid.policy_view().decision_for(now, t))
}

/// `new` is `old` after one tick at `now`.
pub open spec fn pool_ticked<P: PoolSizePolicy>(old: ThreadPoolSim<P>, new: ThreadPoolSim<P>, now: u64) -> bool {
    exists|mid: ThreadPoolSim<P>, t: ComputeTelemetry| #[trigger] pool_step(old, mid, t, new, now)
}

/// The worker-pool simulator. Time is supplied by the caller in
/// microseconds and must not go backwards between calls.
pub struct ThreadPoolSim<P: PoolSizePolicy> {
    queue: VecDeque<Task>,
    workers: Vec<Worker>,
    policy: P,
    metrics: Metrics,
    next_task_id: u64,
    last_decision: Option<PoolSizeDecision>,
    completed_tasks: u64,
    last_throughput_measurement: u64,
    arrival_times: Vec<u64>,
    completion_times: Vec<u64>,
    task_times_window: Vec<u64>,
}

impl<P: PoolSizePolicy> ThreadPoolSim<P> {
    pub closed spec fn queue_view(&self) -> Seq<Task> {
        self.queue@
    }

    pub closed spec fn workers_view(&self) -> Seq<Worker> {
        self.workers@
    }

    pub closed spec fn metrics_view(&self) -> Metrics {
        self.metrics
    }

    pub closed spec fn next_id(&self) -> u64 {
        self.next_task_id
    }

    pub closed spec fn last_decision_view(&self) -> Option<PoolSizeDecision> {
        self.last_decision
    }

    /// Tasks completed since the last throughput measurement.
    pub closed spec fn completed(&self) -> u64 {
        self.completed_tasks
    }

    pub closed spec fn throughput_mark(&self) -> u64 {
        self.last_throughput_measurement
    }

    /// Arrival times within the last second.
    pub closed spec fn arrivals(&self) -> Seq<u64> {
        self.arrival_times@
    }

    /// Completion times within the last second.
    pub closed spec fn completions(&self) -> Seq<u64> {
        self.completion_times@
    }

    /// All completed task times, feeding the task-time percentiles.
    pub closed spec fn task_times(&self) -> Seq<u64> {
        self.task_times_window@
    }

    pub closed spec fn policy_view(&self) -> P {
        self.policy
    }

    pub closed spec fn wf(&self) -> bool {
        self.workers@.len() <= u32::MAX
    }

    pub fn new(policy: P, initial_workers: u32, now: u64) -> (r: Self)
        ensures
            r.wf(),
            r.workers_view() == fresh_workers(0, initial_workers as int),
            r.queue_view() == Seq::<Task>::empty(),
            r.metrics_view().task_times_us@ == Seq::<u64>::empty(),
            r.metrics_view().throughput_samples@ == Seq::<ThroughputSample>::empty(),
            r.metrics_view().decision_changes == 0,
            r.next_id() == 0,
            r.last_decision_view() is None,
            r.completed() == 0,
            r.throughput_mark() == now,
            r.arrivals() == Seq::<u64>::empty(),
            r.completions() == Seq::<u64>::empty(),
            r.task_times() == Seq::<u64>::empty(),
    {
        let mut workers: Vec<Worker> = Vec::new();
        let mut i: u32 = 0;
        while i < initial_workers
            invariant
                i <= initial_workers,
                workers@ == fresh_workers(0, i as int),
            decreases initial_workers - i,
        {
            workers.push(Worker::new(i as u64));
            i = i + 1;
            assert(workers@ =~= fresh_workers(0, i as int));
        }
        ThreadPoolSim {
            queue: VecDeque::new(),
            workers,
            policy,
            metrics: Metrics::new(),
            next_task_id: 0,
            last_decision: None,
            completed_tasks: 0,
            last_throughput_measurement: now,
            arrival_times: Vec::new(),
            completion_times: Vec::new(),
            task_times_window: Vec::new(),
        }
    }

    /// Queues a task of `work_us` arriving at `now` and records the arrival.
    pub fn enqueue(&mut self, now: u64, work_us: u64)
        requires
            old(self).wf(),
            old(self).next_id() < u64::MAX,
        ensures
            final(self).wf(),
            final(self).queue_view() == old(self).queue_view().push(
                Task { id: old(self).next_id(), work_us, arrival_time: now, start_time: None },
            ),
            final(self).next_id() == old(self).next_id() + 1,
            final(self).arrivals() == old(self).arrivals().push(now),
            final(self).workers_view() == old(self).workers_view(),
            final(self).metrics_view() == old(self).metrics_view(),
            final(self).last_decision_view() == old(self).last_decision_view(),
            final(self).completed() == old(self).completed(),
            final(self).throughput_mark() == old(self).throughput_mark(),
            final(self).completions() == old(self).completions(),
            final(self).task_times() == old(self).task_times(),
    {
        let task = Task { id: self.next_task_id, work_us, arrival_time: now, start_time: None };
        self.next_task_id = self.next_task_id + 1;
        self.queue.push_back(task);
        self.arrival_times.push(now);
    }

    fn complete_finished(&mut self, now: u64)
        requires
            old(self).completed_tasks + old(self).workers@.len() <= u64::MAX,
        ensures
            final(self).workers@ == old(self).workers@.map_values(|w: Worker| cleared(w, now)),
            final(self).metrics.task_times_us@ == old(self).metrics.task_times_us@
                + completion_times(old(self).workers@, now),
            final(self).task_times_window@ == old(self).task_times_window@ + completion_times(
                old(self).workers@,
                now,
            ),
            final(self).completion_times@ == old(self).completion_times@ + Seq::new(
                completion_times(old(self).workers@, now).len(),
                |i: int| now,
            ),
            final(self).completed_tasks == old(self).completed_tasks + completion_times(
                old(self).workers@,
                now,
            ).len(),
            final(self).metrics.throughput_samples@ == old(self).metrics.throughput_samples@,
            final(self).metrics.decision_changes == old(self).metrics.decision_changes,
            final(self).queue@ == old(self).queue@,
            final(self).arrival_times@ == old(self).arrival_times@,
            final(self).next_task_id == old(self).next_task_id,
            final(self).last_decision == old(self).last_decision,
            final(self).last_throughput_measurement == old(self).last_throughput_measurement,
            final(self).policy == old(self).policy,
    {
        let ghost ws0 = self.workers@;
        let n = self.workers.len();
        let mut i: usize = 0;
        while i < n
            invariant
                n == ws0.len(),
                i <= n,
                self.workers@.len() == n,
                forall|j: int| 0 <= j < i ==> self.workers@[j] == cleared(#[trigger] ws0[j], now),
                forall|j: int| i <= j < n ==> self.workers@[j] == ws0[j],
                self.metrics.task_times_us@ == old(self).metrics.task_times_us@ + completion_times(
                    ws0.subrange(0, i as int),
                    now,
                ),
                self.task_times_window@ == old(self).task_times_window@ + completion_times(
                    ws0.subrange(0, i as int),
                    now,
                ),
                self.completion_times@ == old(self).completion_times@ + Seq::new(
                    completion_times(ws0.subrange(0, i as int), now).len(),
                    |k: int| now,
                ),
                self.completed_tasks == old(self).completed_tasks + completion_times(
                    ws0.subrange(0, i as int),
                    now,
                ).len(),
                old(self).completed_tasks + n <= u64::MAX,
                ws0 == old(self).workers@,
                self.metrics.throughput_samples@ == old(self).metrics.throughput_samples@,
                self.metrics.decision_changes == old(self).metrics.decision_changes,
                self.queue@ == old(self).queue@,
                self.arrival_times@ == old(self).arrival_times@,
                self.next_task_id == old(self).next_task_id,
                self.last_decision == old(self).last_decision,
                self.last_throughput_measurement == old(self).last_throughput_measurement,
                self.policy == old(self).policy,
            decreases n - i,
        {
            let ghost pre = ws0.subrange(0, i as int);
            let ghost post = ws0.subrange(0, i as int + 1);
            proof {
                assert(post.drop_last() =~= pre);
                assert(post.last() == ws0[i as int]);
                lemma_completion_times_len(post, now);
            }
            let mut w = self.workers[i];
            let done = w.check_complete(now);
            self.workers.set(i, w);
            if let Some(task) = done {
                let total = if now >= task.arrival_time {
                    now - task.arrival_time
                } else {
                    0
                };
                self.metrics.record_task_time(total);
                self.task_times_window.push(total);
                self.completed_tasks = self.completed_tasks + 1;
                self.completion_times.push(now);
            }
            i = i + 1;
            proof {
                assert(self.completion_times@ =~= old(self).completion_times@ + Seq::new(
                    completion_times(post, now).len(),
                    |k: int| now,
                ));
            }
        }
        proof {
            assert(ws0.subrange(0, n as int) =~= ws0);
            assert(self.workers@ =~= ws0.map_values(|w: Worker| cleared(w, now)));
        }
    }

    fn assign_idle(&mut self, now: u64)
        requires
        ensures
            (final(self).workers@, final(self).queue@) == assign_all(old(self).workers@, old(self).queue@, now),
            final(self).metrics == old(self).metrics,
            final(self).task_times_window@ == old(self).task_times_window@,
            final(self).completion_times@ == old(self).completion_times@,
            final(self).completed_tasks == old(self).completed_tasks,
            final(self).arrival_times@ == old(self).arrival_times@,
            final(self).next_task_id == old(self).next_task_id,
            final(self).last_decision == old(self).last_decision,
            final(self).last_throughput_measurement == old(self).last_throughput_measurement,
            final(self).policy == old(self).policy,
    {
        let ghost ws0 = self.workers@;
        let ghost q0 = self.queue@;
        let n = self.workers.len();
        let mut i: usize = 0;
        while i < n
            invariant
                n == ws0.len(),
                i <= n,
                    self.workers@ == assign_all(ws0.subrange(0, i as int), q0, now).0 + ws0.subrange(
                    i as int,
                    n as int,
                ),
                self.queue@ == assign_all(ws0.subrange(0, i as int), q0, now).1,
                self.metrics == old(self).metrics,
                self.task_times_window@ == old(self).task_times_window@,
                self.completion_times@ == old(self).completion_times@,
                self.completed_tasks == old(self).completed_tasks,
                self.arrival_times@ == old(self).arrival_times@,
                self.next_task_id == old(self).next_task_id,
                self.last_decision == old(self).last_decision,
                self.last_throughput_measurement == old(self).last_throughput_measurement,
                self.policy == old(self).policy,
            decreases n - i,
        {
            let ghost pre = ws0.subrange(0, i as int);
            let ghost post = ws0.subrange(0, i as int + 1);
            proof {
                assert(post.drop_last() =~= pre);
                assert(post.last() == ws0[i as int]);
                lemma_assign_all_len(pre, q0, now);
                assert(self.workers@[i as int] == ws0[i as int]);
            }
            let mut w = self.workers[i];
            if w.is_idle() && self.queue.len() > 0 {
                let task = self.queue.pop_front().unwrap();
                w.assign(task, now);
                self.workers.set(i, w);
            }
            i = i + 1;
            proof {
                lemma_assign_all_len(post, q0, now);
                assert(self.workers@ =~= assign_all(post, q0, now).0 + ws0.subrange(i as int, n as int));
            }
        }
        proof {
            assert(ws0.subrange(0, n as int) =~= ws0);
            lemma_assign_all_len(ws0, q0, now);
            assert(self.workers@ =~= assign_all(ws0, q0, now).0);
        }
    }

    fn resize_workers(&mut self, target: u32)
        ensures
            final(self).workers@ == resized(old(self).workers@, target as int),
            final(self).queue@ == old(self).queue@,
            final(self).metrics == old(self).metrics,
            final(self).task_times_window@ == old(self).task_times_window@,
            final(self).completion_times@ == old(self).completion_times@,
            final(self).completed_tasks == old(self).completed_tasks,
            final(self).arrival_times@ == old(self).arrival_times@,
            final(self).next_task_id == old(self).next_task_id,
            final(self).last_decision == old(self).last_decision,
            final(self).last_throughput_measurement == old(self).last_throughput_measurement,
            final(self).policy == old(self).policy,
    {
        let current = self.workers.len();
        let target = target as usize;
        let ghost ws0 = self.workers@;
        if target > current {
            let mut i: usize = current;
            while i < target
                invariant
                    current == ws0.len(),
                    current <= i <= target,
                    self.workers@ == ws0 + fresh_workers(current as int, i as int),
                    self.queue@ == old(self).queue@,
                    self.metrics == old(self).metrics,
                    self.task_times_window@ == old(self).task_times_window@,
                    self.completion_times@ == old(self).completion_times@,
                    self.completed_tasks == old(self).completed_tasks,
                    self.arrival_times@ == old(self).arrival_times@,
                    self.next_task_id == old(self).next_task_id,
                    self.last_decision == old(self).last_decision,
                    self.last_throughput_measurement == old(self).last_throughput_measurement,
                    self.policy == old(self).policy,
                decreases target - i,
            {
                self.workers.push(Worker::new(i as u64));
                i = i + 1;
                assert(self.workers@ =~= ws0 + fresh_workers(current as int, i as int));
            }
        } else if target < current {
            let mut kept: Vec<Worker> = Vec::new();
            let mut to_remove: usize = current - target;
            let mut i: usize = 0;
            proof {
                assert(ws0.subrange(0, current as int) =~= ws0);
                assert(kept@ + remove_idle(ws0, current - target) =~= remove_idle(ws0, current - target));
            }
            while i < current
                invariant
                    current == ws0.len(),
                    self.workers@ == ws0,
                    i <= current,
                    kept@ + remove_idle(ws0.subrange(i as int, current as int), to_remove as int)
                        == remove_idle(ws0, current - target),
                decreases current - i,
            {
                let w = self.workers[i];
                proof {
                    let rest = ws0.subrange(i as int, current as int);
                    assert(rest.drop_first() =~= ws0.subrange(i as int + 1, current as int));
                    assert(rest[0] == w);
                }
                if to_remove > 0 && w.is_idle() {
                    to_remove = to_remove - 1;
                } else {
                    let ghost before = kept@;
                    kept.push(w);
                    assert(kept@ + remove_idle(ws0.subrange(i as int + 1, current as int), to_remove as int)
                        =~= before + (seq![w] + remove_idle(ws0.subrange(i as int + 1, current as int), to_remove as int)));
                }
                i = i + 1;
            }
            proof {
                assert(ws0.subrange(current as int, current as int) =~= Seq::<Worker>::empty());
                assert(kept@ + Seq::<Worker>::empty() =~= kept@);
            }
            self.workers = kept;
        }
    }

    fn collect_telemetry(&self, now: u64) -> (r: ComputeTelemetry)
        requires
            self.wf(),
        ensures
            compute_telemetry_ok(
                r,
                self.workers@,
                self.queue@,
                self.arrival_times@,
                self.completion_times@,
                self.task_times_window@,
                now,
            ),
    {
        let ghost ws = self.workers@;
        let n = self.workers.len();
        let mut busy: usize = 0;
        let mut i: usize = n;
        proof {
            assert(ws.subrange(n as int, n as int) =~= Seq::<Worker>::empty());
        }
        while i > 0
            invariant
                ws == self.workers@,
                n == ws.len(),
                i <= n,
                busy == busy_count(ws.subrange(i as int, n as int)),
                busy <= n - i,
            decreases i,
        {
            proof {
                let sub = ws.subrange(i as int - 1, n as int);
                assert(sub.drop_first() =~= ws.subrange(i as int, n as int));
                assert(sub[0] == ws[i as int - 1]);
            }
            if !self.workers[i - 1].is_idle() {
                busy = busy + 1;
            }
            i = i - 1;
        }
        proof {
            assert(ws.subrange(0, n as int) =~= ws);
        }
        let q_len = self.queue.len();
        let ghost q = self.queue@;
        let mut sum: u128 = 0;
        let mut sq: u128 = 0;
        let mut j: usize = 0;
        while j < q_len
            invariant
                q == self.queue@,
                q_len == q.len(),
                j <= q_len,
                sum == sum_of(task_sizes(q).subrange(0, j as int)),
                sq == saturated(sq_sum_of(task_sizes(q).subrange(0, j as int))),
            decreases q_len - j,
        {
            let w = self.queue[j].work_us;
            proof {
                assert(task_sizes(q).subrange(0, j as int).push(w) =~= task_sizes(q).subrange(0, j as int + 1));
            }
            let (s1, s2) = add_sample(sum, sq, w, Ghost(task_sizes(q).subrange(0, j as int)));
            sum = s1;
            sq = s2;
            j = j + 1;
        }
        proof {
            assert(task_sizes(q).subrange(0, q_len as int) =~= task_sizes(q));
        }
        let p50 = percentile(&self.task_times_window, 50);
        let p95 = percentile(&self.task_times_window, 95);
        ComputeTelemetry {
            timestamp_us: now,
            runq_len: q_len as u64,
            arrival_rate: self.arrival_times.len() as u64,
            completion_rate: self.completion_times.len() as u64,
            task_time_p50_us: p50,
            task_time_p95_us: p95,
            busy_worker_count: busy as u32,
            ctx_switches_per_sec: 10 * (n as u64),
            task_size_sum: sum,
            task_size_sq_sum: sq,
            idle_worker_count: (n - busy) as u32,
        }
    }

    /// Event timestamps in `times` within one second before `now`.
    fn keep_recent(times: &Vec<u64>, now: u64) -> (r: Vec<u64>)
        ensures
            r@ == recent(times@, now),
    {
        let mut kept: Vec<u64> = Vec::new();
        let n = times.len();
        let mut i: usize = 0;
        while i < n
            invariant
                n == times@.len(),
                i <= n,
                kept@ == recent(times@.subrange(0, i as int), now),
            decreases n - i,
        {
            proof {
                let post = times@.subrange(0, i as int + 1);
                assert(post.drop_last() =~= times@.subrange(0, i as int));
                assert(post.last() == times@[i as int]);
            }
            if (times[i] as u128) + (RATE_WINDOW_US as u128) >= now as u128 {
                kept.push(times[i]);
            }
            i = i + 1;
        }
        proof {
            assert(times@.subrange(0, n as int) =~= times@);
        }
        kept
    }

    /// Applies decision `d` at `now`: counts a decision change when `d`
    /// differs from the previous decision, resizes the pool to
    /// `d.n_workers` (removing idle workers only), records throughput once a
    /// second, and forgets arrivals and completions older than a second.
    pub fn apply_decision(&mut self, now: u64, d: PoolSizeDecision)
        requires
            old(self).wf(),
            old(self).metrics_view().decision_changes < u64::MAX,
        ensures
            pool_applied(*old(self), *final(self), now, d),
            final(self).policy_view() == old(self).policy_view(),
    {
        if let Some(last) = self.last_decision {
            if last != d {
                self.metrics.record_decision_change();
            }
        }
        self.last_decision = Some(d);
        let ghost before = self.workers@;
        self.resize_workers(d.n_workers);
        proof {
            lemma_busy_count_bound(before);
            if (d.n_workers as int) < before.len() {
                lemma_remove_idle_len(before, before.len() - d.n_workers as int);
            }
            assert(self.workers@.len() <= u32::MAX);
        }
        let e = if now >= self.last_throughput_measurement {
            now - self.last_throughput_measurement
        } else {
            0
        };
        if e >= RATE_WINDOW_US {
            self.metrics.record_throughput(
                ThroughputSample { count: self.completed_tasks, elapsed_us: e },
            );
            self.completed_tasks = 0;
            self.last_throughput_measurement = now;
        }
        self.arrival_times = Self::keep_recent(&self.arrival_times, now);
        self.completion_times = Self::keep_recent(&self.completion_times, now);
    }

    /// One tick at `now`: completes finished tasks, hands queued tasks to
    /// idle workers in order, composes telemetry, asks the policy, and
    /// applies exactly the decision it returned.
    pub fn tick(&mut self, now: u64)
        requires
            old(self).wf(),
            old(self).completed() + old(self).workers_view().len() <= u64::MAX,
            old(self).metrics_view().decision_changes < u64::MAX,
        ensures
            pool_ticked(*old(self), *final(self), now),
    {
        self.complete_finished(now);
        self.assign_idle(now);
        proof {
            lemma_assign_all_len(old(self).workers@.map_values(|w: Worker| cleared(w, now)), old(self).queue@, now);
        }
        let ghost mid = *self;
        let telem = self.collect_telemetry(now);
        let decision = self.policy.decide(now, &telem);
        let ghost decided = *self;
        self.apply_decision(now, decision);
        proof {
            assert(pool_prepared(*old(self), mid, now));
            assert(pool_applied(decided, *self, now, decision));
            assert(pool_step(*old(self), mid, telem, *self, now));
        }
    }

    pub fn metrics(&self) -> (r: &Metrics)
        ensures
            *r == self.metrics_view(),
    {
        &self.metrics
    }

    pub fn workers(&self) -> (r: &Vec<Worker>)
        ensures
            r@ == self.workers_view(),
    {
        &self.workers
    }

    pub fn policy(&self) -> (r: &P) {
        &self.policy
    }
}

/// Of `(pool size, observed p95)` results, the first with the smallest p95,
/// or `None` when there are no results.
pub fn best_pool_size(results: &[(u32, u64)]) -> (r: Option<(u32, u64)>)
    ensures
        results@.len() == 0 <==> r is None,
        r matches Some(b) ==> exists|i: int|
            0 <= i < results@.len() && results@[i] == b
                && (forall|j: int| 0 <= j < results@.len() ==> b.1 <= (#[trigger] results@[j]).1)
                && (forall|j: int| 0 <= j < i ==> b.1 < (#[trigger] results@[j]).1),
{
    let n = results.len();
    if n == 0 {
        return None;
    }
    let mut best: usize = 0;
    let mut i: usize = 1;
    while i < n
        invariant
            n == results@.len(),
            1 <= i <= n,
            best < i,
            forall|j: int| 0 <= j < i ==> results@[best as int].1 <= (#[trigger] results@[j]).1,
            forall|j: int| 0 <= j < best ==> results@[best as int].1 < (#[trigger] results@[j]).1,
        decreases n - i,
    {
        if results[i].1 < results[best].1 {
            best = i;
        }
        i = i + 1;
    }
    Some(results[best])
}

proof fn lemma_all_idle_busy_zero(ws: Seq<Worker>)
    requires
        forall|i: int| 0 <= i < ws.len() ==> idle(#[trigger] ws[i]),
    ensures
        busy_count(ws) == 0,
    decreases ws.len(),
{
    if ws.len() > 0 {
        let rest = ws.drop_first();
        assert forall|i: int| 0 <= i < rest.len() implies idle(#[trigger] rest[i]) by {
            assert(rest[i] == ws[i + 1]);
        }
        lemma_all_idle_busy_zero(rest);
    }
}

proof fn lemma_assign_all_empty(ws: Seq<Worker>, now: u64)
    ensures
        assign_all(ws, Seq::empty(), now) == (ws, Seq::<Task>::empty()),
    decreases ws.len(),
{
    if ws.len() > 0 {
        lemma_assign_all_empty(ws.drop_last(), now);
        assert(ws.drop_last().push(ws.last()) =~= ws);
    }
}

/// Convergence of a fixed-size pool: when nothing is queued and every busy
/// worker's task finishes by `now`, a tick leaves exactly the policy's
/// number of workers, all idle.
pub proof fn lemma_fixed_pool_converges(
    old: ThreadPoolSim<FixedPolicy>,
    new: ThreadPoolSim<FixedPolicy>,
    now: u64,
)
    requires
        pool_ticked(old, new, now),
        old.queue_view().len() == 0,
        forall|i: int|
            0 <= i < old.workers_view().len() ==> idle(#[trigger] old.workers_view()[i])
                || finished(old.workers_view()[i], now),
    ensures
        new.workers_view().len() == old.policy_view().decision().n_workers,
        forall|i: int| 0 <= i < new.workers_view().len() ==> idle(#[trigger] new.workers_view()[i]),
{
    let (mid, t) = choose|mid: ThreadPoolSim<FixedPolicy>, t: ComputeTelemetry|
        #[trigger] pool_step(old, mid, t, new, now);
    let ws0 = old.workers_view();
    let ws1 = ws0.map_values(|w: Worker| cleared(w, now));
    assert forall|i: int| 0 <= i < ws1.len() implies idle(#[trigger] ws1[i]) by {
        assert(ws1[i] == cleared(ws0[i], now));
    }
    assert(old.queue_view() =~= Seq::<Task>::empty());
    lemma_assign_all_empty(ws1, now);
    assert(mid.workers_view() == ws1);
    lemma_all_idle_busy_zero(ws1);
    let n = old.policy_view().decision().n_workers as int;
    assert(mid.policy_view() == old.policy_view());
    assert(new.workers_view() == resized(ws1, n));
    if n < ws1.len() {
        lemma_remove_idle_len(ws1, ws1.len() - n);
        lemma_remove_idle_idle(ws1, ws1.len() - n);
    } else if n > ws1.len() {
        let r = ws1 + fresh_workers(ws1.len() as int, n);
        assert forall|i: int| 0 <= i < r.len() implies idle(#[trigger] r[i]) by {
            if i >= ws1.len() {
                assert(r[i] == fresh_workers(ws1.len() as int, n)[i - ws1.len()]);
            }
        }
    }
}

proof fn lemma_remove_idle_idle(ws: Seq<Worker>, k: int)
    requires
        forall|i: int| 0 <= i < ws.len() ==> idle(#[trigger] ws[i]),
    ensures
        forall|i: int| 0 <= i < remove_idle(ws, k).len() ==> idle(#[trigger] remove_idle(ws, k)[i]),
    decreases ws.len(),
{
    if ws.len() > 0 {
        let rest = ws.drop_first();
        assert forall|i: int| 0 <= i < rest.len() implies idle(#[trigger] rest[i]) by {
            assert(rest[i] == ws[i + 1]);
        }
        if k > 0 && idle(ws[0]) {
            lemma_remove_idle_idle(rest, k - 1);
            assert(remove_idle(ws, k) == remove_idle(rest, k - 1));
        } else {
            lemma_remove_idle_idle(rest, k);
            let r = seq![ws[0]] + remove_idle(rest, k);
            assert(remove_idle(ws, k) == r);
            assert(idle(ws[0]));
            assert forall|i: int| 0 <= i < r.len() implies idle(#[trigger] r[i]) by {
                if i > 0 {
                    assert(r[i] == remove_idle(rest, k)[i - 1]);
                }
            }
        }
    }
}

/// A baseline pool run counts no decision change: when the policy is the
/// baseline (8 workers) and the last decision, if any, is the baseline's,
/// a tick counts no change and leaves both as they were.
pub proof fn lemma_baseline_pool_counts_no_change(
    old: ThreadPoolSim<BaselinePolicy>,
    new: ThreadPoolSim<BaselinePolicy>,
    now: u64,
)
    requires
        old.policy_view().decision() == (PoolSizeDecision { n_workers: 8 }),
        old.last_decision_view() is None || old.last_decision_view() == Some(
            PoolSizeDecision { n_workers: 8 },
        ),
        pool_ticked(old, new, now),
    ensures
        new.metrics_view().decision_changes == old.metrics_view().decision_changes,
        new.policy_view().decision() == (PoolSizeDecision { n_workers: 8 }),
        new.last_decision_view() == Some(PoolSizeDecision { n_workers: 8 }),
{
    let (mid, t) = choose|mid: ThreadPoolSim<BaselinePolicy>, t: ComputeTelemetry|
        #[trigger] pool_step(old, mid, t, new, now);
}

} // verus!
