use reflex_sim::format::{ModelType, ReflexHeader};
use reflex_sim::model::{InferError, OutputBounds, Reflex, ReflexMetadata, TreeNode};
use reflex_sim::pool;
use reflex_sim::transport;
use reflex_sim::Real32;

fn r(x: f32) -> Real32 {
    Real32::from_bits(x.to_bits())
}

fn switch_reflex(low: f32, high: f32, outputs: u8) -> Reflex {
    let tree = vec![TreeNode::split(0, r(0.5), 1, 2), TreeNode::leaf(r(low)), TreeNode::leaf(r(high))];
    let trees = (0..outputs).map(|_| tree.clone()).collect();
    let n = outputs as usize;
    Reflex::new(
        ReflexHeader::new(ModelType::DecisionTree, 1, outputs, 0, 0, 0, 0),
        trees,
        OutputBounds { min: vec![r(-1000.0); n], max: vec![r(1000.0); n] },
        ReflexMetadata {
            created_at: String::new(),
            trainer_commit: String::new(),
            feature_schema: "transport".to_string(),
            telemetry_hash: String::new(),
            lambda: r(0.0),
            notes: String::new(),
        },
    )
    .unwrap()
}

#[test]
fn baseline_policies_are_static() {
    let tp = transport::BaselinePolicy::new();
    assert_eq!(tp.current(), transport::FlushDecision { threshold: 16, max_delay_us: 500 });
    let cp = pool::BaselinePolicy::default();
    assert_eq!(cp.current(), pool::PoolSizeDecision { n_workers: 8 });
    assert_eq!(pool::FixedPolicy::new(4).current(), pool::PoolSizeDecision { n_workers: 4 });
}

#[test]
fn reflex_flush_policy_holds_decision_for_hold_time() {
    let mut p = transport::ReflexPolicy::new(switch_reflex(10.4, 20.6, 2));
    let lo = [r(0.3)];
    let hi = [r(0.7)];
    let d0 = p.decide_features(0, &lo).unwrap();
    assert_eq!(d0, transport::FlushDecision { threshold: 10, max_delay_us: 10 });
    let mut changes = 0;
    let mut last = d0;
    let mut last_change_at = 0u64;
    for k in 1..=20u64 {
        let now = k * 100_000;
        let x = if k % 2 == 0 { &lo } else { &hi };
        let d = p.decide_features(now, x).unwrap();
        if d != last {
            assert!(now - last_change_at >= transport::FLUSH_HOLD_US);
            changes += 1;
            last = d;
            last_change_at = now;
        }
    }
    assert!(changes >= 1 && changes <= 7, "changes = {}", changes);
    assert_eq!(p.decide_features(2_050_000, &hi).unwrap(), last);
}

#[test]
fn reflex_flush_policy_needs_two_outputs() {
    let mut p = transport::ReflexPolicy::new(switch_reflex(1.0, 2.0, 1));
    assert_eq!(p.decide_features(0, &[r(0.1)]), Err(InferError::MissingOutput));
    assert_eq!(p.decide_features(0, &[r(0.1), r(0.2)]), Err(InferError::FeatureCount));
}

#[test]
fn reflex_pool_policy_clamps_to_range() {
    let mut p = pool::ReflexPolicy::new(switch_reflex(-5.0, 100.0, 1));
    assert_eq!(p.decide_features(0, &[r(0.1)]).unwrap().n_workers, 1);
    assert_eq!(p.decide_features(100_000, &[r(0.9)]).unwrap().n_workers, 1);
    assert_eq!(p.decide_features(500_000, &[r(0.9)]).unwrap().n_workers, 64);
    let mut q = pool::ReflexPolicy::new(switch_reflex(3.5, 0.2, 1));
    assert_eq!(q.decide_features(0, &[r(0.1)]).unwrap().n_workers, 4);
    assert_eq!(q.decide_features(500_000, &[r(0.9)]).unwrap().n_workers, 1);
}

#[test]
fn best_pool_size_picks_first_minimum() {
    assert_eq!(pool::best_pool_size(&[]), None);
    let results = [(1u32, 900u64), (2, 400), (4, 400), (8, 700)];
    assert_eq!(pool::best_pool_size(&results), Some((2, 400)));
}
