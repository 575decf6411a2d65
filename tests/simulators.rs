use rand::rngs::StdRng;
use rand::{Rng, SeedableRng};
use reflex_sim::pool::{self, best_pool_size, FixedPolicy, ThreadPoolSim};
use reflex_sim::telemetry::TelemetrySample;
use reflex_sim::transport::{self, FakeTransport, FlushDecision, FlushPolicy};

/// Records the telemetry it is shown and always asks for `decision`.
struct Recording {
    decision: FlushDecision,
    seen: Vec<TelemetrySample>,
}

impl FlushPolicy for Recording {
    fn decide(&mut self, _now_us: u64, telem: &TelemetrySample) -> FlushDecision {
        self.seen.push(*telem);
        self.decision
    }
}

#[test]
fn baseline_transport_steady_thirty_seconds() {
    let mut sim = FakeTransport::new(transport::BaselinePolicy::new(), 0);
    let end = 30_000_000u64;
    let mut next_arrival = 0u64;
    let mut now = 0u64;
    while now <= end + 1_000 {
        while next_arrival <= now && next_arrival < end {
            sim.enqueue(now, 1024);
            next_arrival += 1_000;
        }
        sim.tick(now);
        now += 100;
    }
    let m = sim.metrics();
    let total = m.latencies_us.len() as f64;
    assert!((total - 30_000.0).abs() <= 0.05 * 30_000.0, "total = {}", total);
    let p50 = m.p50_latency() as f64;
    let p99 = m.p99_latency() as f64;
    assert!(p50 > 0.0 && p99 / p50 < 10.0, "p50 = {}, p99 = {}", p50, p99);
    assert_eq!(m.decision_changes, 0);
    assert!(!m.throughput_samples.is_empty());
}

#[test]
fn baseline_transport_poisson_thirty_seconds() {
    let arrivals = poisson_arrivals(7, 1000.0, 30);
    let mut sim = FakeTransport::new(transport::BaselinePolicy::new(), 0);
    let mut next = 0usize;
    let mut now = 0u64;
    while now <= 30_001_000 {
        while next < arrivals.len() && arrivals[next] <= now {
            sim.enqueue(now, 1024);
            next += 1;
        }
        sim.tick(now);
        now += 100;
    }
    let m = sim.metrics();
    let total = m.latencies_us.len() as f64;
    assert_eq!(m.latencies_us.len(), arrivals.len());
    assert!((total - 30_000.0).abs() <= 0.05 * 30_000.0, "total = {}", total);
    let (p50, p99) = (m.p50_latency() as f64, m.p99_latency() as f64);
    assert!(p50 > 0.0 && p99 / p50 < 10.0, "p50 = {}, p99 = {}", p50, p99);
    assert_eq!(m.decision_changes, 0);
}

#[test]
fn transport_flushes_on_threshold_and_reports_resident_stats() {
    let policy = Recording { decision: FlushDecision { threshold: 3, max_delay_us: 1_000_000 }, seen: vec![] };
    let mut sim = FakeTransport::new(policy, 0);
    sim.enqueue(0, 100);
    sim.enqueue(10, 300);
    sim.tick(40);
    assert!(sim.metrics().latencies_us.is_empty());
    sim.enqueue(50, 200);
    sim.tick(60);
    assert_eq!(sim.metrics().latencies_us, vec![60, 50, 10]);
    let seen = &sim.policy().seen;
    assert_eq!(seen[0].queue_depth, 2);
    assert_eq!(seen[0].latency_p50_us, 40);
    assert_eq!(seen[0].latency_p95_us, 40);
    assert_eq!(seen[0].packet_size_sum, 400);
    assert_eq!(seen[0].packet_size_sq_sum, 100 * 100 + 300 * 300);
    assert_eq!(seen[1].queue_depth, 3);
    assert_eq!(seen[1].latency_p50_us, 50);
    assert_eq!(seen[1].rtt_ewma_us, 0);
    assert_eq!(seen[1].enqueue_rate, 0);
}

#[test]
fn transport_flushes_on_age_and_counts_changes() {
    let policy = Recording { decision: FlushDecision { threshold: 100, max_delay_us: 500 }, seen: vec![] };
    let mut sim = FakeTransport::new(policy, 0);
    sim.enqueue(0, 10);
    sim.tick(499);
    assert!(sim.metrics().latencies_us.is_empty());
    sim.tick(500);
    assert_eq!(sim.metrics().latencies_us, vec![500]);
    assert_eq!(sim.metrics().decision_changes, 0);
}

#[test]
fn transport_records_throughput_each_second() {
    let mut sim = FakeTransport::new(transport::BaselinePolicy::new(), 0);
    for k in 0..20u64 {
        sim.enqueue(k, 64);
    }
    sim.tick(20);
    sim.tick(1_000_000);
    let t = &sim.metrics().throughput_samples;
    assert_eq!(t.len(), 1);
    assert_eq!(t[0].count, 20);
    assert_eq!(t[0].elapsed_us, 1_000_000);
}

/// Arrival times (µs) of a Poisson process of `rate` per second over `secs`.
fn poisson_arrivals(seed: u64, rate: f64, secs: u64) -> Vec<u64> {
    let mut rng = StdRng::seed_from_u64(seed);
    let mut t = 0.0f64;
    let mut out = Vec::new();
    loop {
        let u: f64 = 1.0 - rng.gen::<f64>();
        t += -u.ln() / rate;
        if t >= secs as f64 {
            return out;
        }
        out.push((t * 1e6) as u64);
    }
}

fn evenly_spaced(rate: u64, secs: u64) -> Vec<u64> {
    (0..rate * secs).map(|k| k * (1_000_000 / rate)).collect()
}

fn run_pool(n: u32, arrivals: &[u64], work_us: u64, secs: u64) -> (ThreadPoolSim<FixedPolicy>, f64) {
    let mut sim = ThreadPoolSim::new(FixedPolicy::new(n), n, 0);
    let end = secs * 1_000_000;
    let mut next = 0usize;
    let mut now = 0u64;
    let mut util_sum = 0.0;
    let mut ticks = 0.0;
    while now <= end + 1_000_000 {
        while next < arrivals.len() && arrivals[next] <= now {
            sim.enqueue(now, work_us);
            next += 1;
        }
        sim.tick(now);
        let ws = sim.workers();
        let busy = ws.iter().filter(|w| w.current_task.is_some()).count();
        util_sum += busy as f64 / ws.len() as f64;
        ticks += 1.0;
        now += 10_000;
    }
    (sim, util_sum / ticks)
}

#[test]
fn baseline_compute_steady_ten_seconds() {
    let mut sim = ThreadPoolSim::new(pool::BaselinePolicy::new(), 8, 0);
    let end = 10_000_000u64;
    let mut next_arrival = 0u64;
    let mut now = 0u64;
    let mut util_sum = 0.0;
    let mut ticks = 0.0;
    while now <= end + 1_000_000 {
        while next_arrival <= now && next_arrival < end {
            sim.enqueue(now, 500);
            next_arrival += 10_000;
        }
        sim.tick(now);
        let ws = sim.workers();
        let busy = ws.iter().filter(|w| w.current_task.is_some()).count();
        util_sum += busy as f64 / ws.len() as f64;
        ticks += 1.0;
        now += 10_000;
    }
    let total = sim.metrics().task_times_us.len() as f64;
    assert!((total - 1000.0).abs() <= 50.0, "total = {}", total);
    assert!(util_sum / ticks < 1.0);
    assert_eq!(sim.metrics().decision_changes, 0);
    assert_eq!(sim.workers().len(), 8);
}

#[test]
fn sweep_best_pool_size_is_reproducible() {
    let sizes = [1u32, 2, 4, 8, 16, 32, 64];
    let sweep = || -> Vec<(u32, u64)> {
        let arrivals = poisson_arrivals(42, 100.0, 5);
        sizes.iter().map(|&n| (n, run_pool(n, &arrivals, 500, 5).0.metrics().p95_task_time())).collect()
    };
    let first = sweep();
    let second = sweep();
    let best = best_pool_size(&first).unwrap();
    assert_eq!(Some(best), best_pool_size(&second));
    assert!(best.1 <= first[0].1);
}

#[test]
fn resize_down_keeps_busy_workers() {
    let mut sim = ThreadPoolSim::new(FixedPolicy::new(2), 8, 0);
    for _ in 0..8 {
        sim.enqueue(0, 1_000);
    }
    sim.tick(0);
    assert_eq!(sim.workers().len(), 8);
    assert!(sim.workers().iter().all(|w| w.current_task.is_some()));
    sim.tick(500);
    assert_eq!(sim.workers().len(), 8);
    sim.tick(1_000);
    assert_eq!(sim.metrics().task_times_us, vec![1_000; 8]);
    assert_eq!(sim.workers().len(), 2);
    assert!(sim.workers().iter().all(|w| w.current_task.is_none()));
}

#[test]
fn pool_grows_with_fresh_idle_workers() {
    let mut sim = ThreadPoolSim::new(FixedPolicy::new(5), 2, 0);
    sim.tick(0);
    let ids: Vec<u64> = sim.workers().iter().map(|w| w.id).collect();
    assert_eq!(ids, vec![0, 1, 2, 3, 4]);
}

#[test]
fn pool_assigns_in_worker_order_and_tracks_rates() {
    let (sim, util) = run_pool(1, &evenly_spaced(100, 1), 500, 1);
    assert!(util < 1.0);
    assert_eq!(sim.metrics().task_times_us.len(), 100);
    let mut sim = ThreadPoolSim::new(FixedPolicy::new(2), 2, 0);
    sim.enqueue(0, 100);
    sim.enqueue(0, 200);
    sim.enqueue(0, 300);
    sim.tick(0);
    let ws = sim.workers();
    assert_eq!(ws[0].current_task.map(|t| t.work_us), Some(100));
    assert_eq!(ws[1].current_task.map(|t| t.work_us), Some(200));
    assert_eq!(ws[0].task_finish_time, Some(100));
    sim.tick(150);
    assert_eq!(sim.workers()[0].current_task.map(|t| t.work_us), Some(300));
    assert_eq!(sim.metrics().task_times_us, vec![150]);
}

#[test]
fn apply_decision_flushes_and_counts_changes() {
    let mut sim = FakeTransport::new(transport::BaselinePolicy::new(), 0);
    sim.enqueue(0, 10);
    sim.enqueue(5, 10);
    sim.apply_decision(10, FlushDecision { threshold: 5, max_delay_us: 1_000 });
    assert!(sim.metrics().latencies_us.is_empty());
    sim.apply_decision(20, FlushDecision { threshold: 2, max_delay_us: 1_000 });
    assert_eq!(sim.metrics().latencies_us, vec![20, 15]);
    assert_eq!(sim.metrics().decision_changes, 1);
}

#[test]
fn pool_apply_decision_resizes() {
    let mut sim = ThreadPoolSim::new(FixedPolicy::new(3), 3, 0);
    sim.apply_decision(0, pool::PoolSizeDecision { n_workers: 5 });
    assert_eq!(sim.workers().len(), 5);
    sim.apply_decision(10, pool::PoolSizeDecision { n_workers: 1 });
    assert_eq!(sim.workers().len(), 1);
    assert_eq!(sim.metrics().decision_changes, 1);
}

#[test]
fn large_sizes_saturate_square_sum() {
    let policy = Recording { decision: FlushDecision { threshold: 100, max_delay_us: 1_000_000 }, seen: vec![] };
    let mut sim = FakeTransport::new(policy, 0);
    sim.enqueue(0, usize::MAX);
    sim.enqueue(0, usize::MAX);
    sim.tick(1);
    let t = sim.policy().seen[0];
    assert_eq!(t.packet_size_sum, 2 * (usize::MAX as u128));
    assert_eq!(t.packet_size_sq_sum, u128::MAX);
}
