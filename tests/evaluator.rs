use reflex_sim::format::{ArtifactError, Container, ModelType, ReflexHeader};
use reflex_sim::model::{InferError, OutputBounds, Reflex, ReflexMetadata, TreeNode};
use reflex_sim::Real32;

fn r(x: f32) -> Real32 {
    Real32::from_bits(x.to_bits())
}

fn f(x: Real32) -> f32 {
    f32::from_bits(x.to_bits())
}

fn metadata() -> ReflexMetadata {
    ReflexMetadata {
        created_at: "2025-10-06T12:00:00Z".to_string(),
        trainer_commit: "test".to_string(),
        feature_schema: "v1".to_string(),
        telemetry_hash: "abcd".to_string(),
        lambda: r(0.1),
        notes: "test reflex".to_string(),
    }
}

fn single_tree(lo: f32, hi: f32) -> Reflex {
    let tree = vec![
        TreeNode::split(0, r(0.5), 1, 2),
        TreeNode::leaf(r(10.0)),
        TreeNode::leaf(r(20.0)),
    ];
    Reflex::new(
        ReflexHeader::new(ModelType::DecisionTree, 1, 1, 1728000000, 0, 0, 0),
        vec![tree],
        OutputBounds { min: vec![r(lo)], max: vec![r(hi)] },
        metadata(),
    )
    .unwrap()
}

fn infer1(reflex: &Reflex, x: f32) -> Vec<f32> {
    reflex.infer(&[r(x)]).unwrap().into_iter().map(f).collect()
}

#[test]
fn framed_reflex_header_then_infer() {
    let reflex = single_tree(0.0, 100.0);
    let c = Container {
        header: reflex.header,
        model: b"trees".to_vec(),
        bounds: b"bounds".to_vec(),
        metadata: b"metadata".to_vec(),
    };
    let bytes = c.to_bytes();
    let back = Container::from_bytes(&bytes).unwrap();
    let reflex2 = Reflex::new(back.header, reflex.trees.clone(), reflex.bounds.clone(), metadata()).unwrap();
    let out1 = infer1(&reflex2, 0.3);
    assert_eq!(out1[0], 10.0);
    let out2 = infer1(&reflex2, 0.7);
    assert_eq!(out2[0], 20.0);
}

#[test]
fn split_sends_less_or_equal_left() {
    let reflex = single_tree(0.0, 100.0);
    assert_eq!(infer1(&reflex, 0.3), vec![10.0]);
    assert_eq!(infer1(&reflex, 0.5), vec![10.0]);
    assert_eq!(infer1(&reflex, 0.7), vec![20.0]);
}

#[test]
fn outputs_are_clamped_to_bounds() {
    let reflex = single_tree(12.0, 15.0);
    assert_eq!(infer1(&reflex, 0.3), vec![12.0]);
    assert_eq!(infer1(&reflex, 0.7), vec![15.0]);
}

#[test]
fn nan_leaf_clamps_to_lower_bound() {
    let mut reflex = single_tree(12.0, 15.0);
    reflex.trees[0][1] = TreeNode::leaf(r(f32::NAN));
    assert_eq!(infer1(&reflex, 0.3), vec![12.0]);
}

#[test]
fn nan_feature_goes_right() {
    let reflex = single_tree(0.0, 100.0);
    assert_eq!(infer1(&reflex, f32::NAN), vec![20.0]);
    assert_eq!(infer1(&reflex, -0.0), vec![10.0]);
    assert_eq!(infer1(&reflex, -1.0e30), vec![10.0]);
    assert_eq!(infer1(&reflex, f32::INFINITY), vec![20.0]);
}

#[test]
fn ensemble_concatenates_outputs() {
    let mut reflex = single_tree(0.0, 100.0);
    reflex.trees.push(vec![TreeNode::leaf(r(-3.0))]);
    reflex.bounds.min.push(r(-5.0));
    reflex.bounds.max.push(r(5.0));
    assert_eq!(reflex.infer(&[r(0.9)]).unwrap().into_iter().map(f).collect::<Vec<_>>(), vec![20.0, -3.0]);
}

#[test]
fn infer_errors() {
    let reflex = single_tree(0.0, 100.0);
    assert_eq!(reflex.infer(&[r(0.1), r(0.2)]), Err(InferError::FeatureCount));
    let mut bad_feature = reflex.clone();
    bad_feature.trees[0][0] = TreeNode::split(3, r(0.5), 1, 2);
    assert_eq!(bad_feature.infer(&[r(0.1)]), Err(InferError::FeatureIndex));
    let mut bad_child = reflex.clone();
    bad_child.trees[0][0] = TreeNode::split(0, r(0.5), 7, 2);
    assert_eq!(bad_child.infer(&[r(0.1)]), Err(InferError::ChildIndex));
    let mut cycle = reflex.clone();
    cycle.trees[0][0] = TreeNode::split(0, r(0.5), 0, 2);
    assert_eq!(cycle.infer(&[r(0.1)]), Err(InferError::Cycle));
    let mut missing = reflex.clone();
    missing.trees.push(vec![TreeNode::leaf(r(1.0))]);
    assert_eq!(missing.infer(&[r(0.1)]), Err(InferError::MissingBound));
    let mut empty = reflex.clone();
    empty.trees[0].clear();
    assert_eq!(empty.infer(&[r(0.1)]), Err(InferError::ChildIndex));
}

#[test]
fn reflex_new_checks_bounds_against_output_count() {
    let header = ReflexHeader::new(ModelType::DecisionTree, 1, 2, 0, 0, 0, 0);
    let bounds = OutputBounds { min: vec![r(0.0), r(0.0)], max: vec![r(1.0)] };
    assert_eq!(Reflex::new(header, vec![], bounds, metadata()).err(), Some(ArtifactError::BoundsMismatch));
    let bounds = OutputBounds { min: vec![r(0.0)], max: vec![r(1.0)] };
    assert_eq!(Reflex::new(header, vec![], bounds, metadata()).err(), Some(ArtifactError::BoundsMismatch));
    let bounds = OutputBounds { min: vec![r(0.0), r(0.0)], max: vec![r(1.0), r(1.0)] };
    assert!(Reflex::new(header, vec![], bounds, metadata()).is_ok());
}

#[test]
fn synthetic_reflex_shape_for_inspection() {
    let reflex = single_tree(0.0, 100.0);
    let bytes = Container { header: reflex.header, model: vec![1], bounds: vec![2], metadata: vec![3] }.to_bytes();
    let back = Container::from_bytes(&bytes).unwrap();
    assert_eq!(&back.header.magic, b"NEM1");
    assert_eq!(back.header.version, 1);
    assert_eq!(back.header.feature_count, 1);
    assert_eq!(back.header.output_count, 1);
    let out = reflex.infer(&[r(0.002)]).unwrap();
    assert_eq!(out.len(), back.header.output_count as usize);
}

#[test]
fn rounding_matches_f32_round_then_cast() {
    for x in [0.0f32, 0.49, 0.5, 1.5, 2.4, 2.5, 3.5, 16.0, 499.6, 1.0e9, 4.0e9, 5.0e9, -0.4, -7.0, f32::NAN, f32::INFINITY, 8388609.0, 16777217.0, 1.0e-40] {
        assert_eq!(r(x).round_u32(), x.round() as u32, "x = {}", x);
    }
}

#[test]
fn inverted_bounds_end_at_upper_bound() {
    let mut reflex = single_tree(5.0, 3.0);
    reflex.trees[0] = vec![TreeNode::leaf(r(4.0))];
    assert_eq!(infer1(&reflex, 0.3), vec![3.0]);
    reflex.trees[0] = vec![TreeNode::leaf(r(f32::NAN))];
    assert_eq!(infer1(&reflex, 0.3), vec![3.0]);
    assert_eq!(f(r(4.0).clamp(r(5.0), r(3.0))), 3.0);
    assert_eq!(f(r(7.0).clamp(r(1.0), r(6.0))), 6.0);
    assert_eq!(f(r(0.5).clamp(r(1.0), r(6.0))), 1.0);
}
