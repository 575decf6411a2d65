//! Decision-tree ensembles and their evaluator.
use vstd::prelude::*;

use crate::format::{ArtifactError, ReflexHeader};
use crate::float_bits::{clamp_spec, real_le, Real32};

verus! {

/// Feature index that marks a leaf.
pub const LEAF_MARK: u8 = 255;

/// One node of a tree: a split on `feature_idx` at `threshold`, or, when
/// `feature_idx` is 255, a leaf whose value is `threshold`.
#[derive(Debug, Clone, Copy, PartialEq, Eq, Structural)]
pub struct TreeNode {
    pub feature_idx: u8,
    pub threshold: Real32,
    pub left: u16,
    pub right: u16,
}

impl TreeNode {
    pub fn is_leaf(&self) -> (r: bool)
        ensures
            r == (self.feature_idx == LEAF_MARK),
    {
        self.feature_idx == LEAF_MARK
    }

    pub fn leaf(value: Real32) -> (r: TreeNode)
        ensures
            r == (TreeNode { feature_idx: LEAF_MARK, threshold: value, left: 0, right: 0 }),
    {
        TreeNode { feature_idx: LEAF_MARK, threshold: value, left: 0, right: 0 }
    }

    pub fn split(feature_idx: u8, threshold: Real32, left: u16, right: u16) -> (r: TreeNode)
        ensures
            r == (TreeNode { feature_idx, threshold, left, right }),
    {
        TreeNode { feature_idx, threshold, left, right }
    }
}

/// Per-output clamping bounds.
#[derive(Debug, Clone)]
pub struct OutputBounds {
    pub min: Vec<Real32>,
    pub max: Vec<Real32>,
}

/// Provenance of a reflex.
#[derive(Debug, Clone)]
pub struct ReflexMetadata {
    pub created_at: String,
    pub trainer_commit: String,
    pub feature_schema: String,
    pub telemetry_hash: String,
    pub lambda: Real32,
    pub notes: String,
}

/// A loaded reflex: header, one tree per output, bounds and metadata.
#[derive(Debug, Clone)]
pub struct Reflex {
    pub header: ReflexHeader,
    pub trees: Vec<Vec<TreeNode>>,
    pub bounds: OutputBounds,
    pub metadata: ReflexMetadata,
}

/// Why an inference could not be carried out.
#[derive(Debug, Clone, Copy, PartialEq, Eq, Structural)]
pub enum InferError {
    /// The feature vector's length is not the reflex's feature count.
    FeatureCount,
    /// Some tree has no clamping bound.
    MissingBound,
    /// A split names a feature outside the feature vector.
    FeatureIndex,
    /// A descent reached a position outside the tree.
    ChildIndex,
    /// A descent visited more nodes than the tree holds.
    Cycle,
    /// The reflex yields fewer outputs than the policy reads.
    MissingOutput,
}

/// The value that `tree` yields for `x` from `node`, allowing `fuel` more
/// descents.
pub open spec fn eval_from(tree: Seq<TreeNode>, x: Seq<Real32>, node: int, fuel: nat) -> Result<
    Real32,
    InferError,
>
    decreases fuel,
{
    if node < 0 || node >= tree.len() {
        Err(InferError::ChildIndex)
    } else if tree[node].feature_idx == LEAF_MARK {
        Ok(tree[node].threshold)
    } else if tree[node].feature_idx >= x.len() {
        Err(InferError::FeatureIndex)
    } else if fuel == 0 {
        Err(InferError::Cycle)
    } else if real_le(x[tree[node].feature_idx as int], tree[node].threshold) {
        eval_from(tree, x, tree[node].left as int, (fuel - 1) as nat)
    } else {
        eval_from(tree, x, tree[node].right as int, (fuel - 1) as nat)
    }
}

/// The value of `tree` on `x`: a walk from the root that takes at most as
/// many descents as the tree has nodes.
pub open spec fn tree_value(tree: Seq<TreeNode>, x: Seq<Real32>) -> Result<Real32, InferError> {
    eval_from(tree, x, 0, tree.len())
}

pub open spec fn trees_view(trees: Seq<Vec<TreeNode>>) -> Seq<Seq<TreeNode>> {
    trees.map_values(|t: Vec<TreeNode>| t@)
}

/// The outcome of running every tree on `x` and clamping each output.
pub open spec fn infer_spec(
    feature_count: u8,
    trees: Seq<Seq<TreeNode>>,
    min: Seq<Real32>,
    max: Seq<Real32>,
    x: Seq<Real32>,
) -> Result<Seq<Real32>, InferError> {
    if x.len() != feature_count {
        Err(InferError::FeatureCount)
    } else if trees.len() > min.len() || trees.len() > max.len() {
        Err(InferError::MissingBound)
    } else {
        infer_trees(trees, min, max, x, trees.len() as int)
    }
}

/// The clamped outputs of the first `k` trees, or the error of the first
/// of them that fails.
pub open spec fn infer_trees(
    trees: Seq<Seq<TreeNode>>,
    min: Seq<Real32>,
    max: Seq<Real32>,
    x: Seq<Real32>,
    k: int,
) -> Result<Seq<Real32>, InferError>
    decreases k,
{
    if k <= 0 {
        Ok(Seq::empty())
    } else {
        match infer_trees(trees, min, max, x, k - 1) {
            Err(e) => Err(e),
            Ok(prev) => match tree_value(trees[k - 1], x) {
                Err(e) => Err(e),
                Ok(v) => Ok(prev.push(clamp_spec(v, min[k - 1], max[k - 1]))),
            },
        }
    }
}

impl Reflex {
    pub open spec fn infer_result(&self, x: Seq<Real32>) -> Result<Seq<Real32>, InferError> {
        infer_spec(
            self.header.feature_count,
            trees_view(self.trees@),
            self.bounds.min@,
            self.bounds.max@,
            x,
        )
    }

    /// Checks that the bounds arrays have equal lengths matching the
    /// header's output count, and assembles the reflex.
    pub fn new(
        header: ReflexHeader,
        trees: Vec<Vec<TreeNode>>,
        bounds: OutputBounds,
        metadata: ReflexMetadata,
    ) -> (r: Result<Reflex, ArtifactError>)
        ensures
            match r {
                Ok(rf) => bounds.min@.len() == header.output_count && bounds.max@.len()
                    == header.output_count && rf == (Reflex { header, trees, bounds, metadata }),
                Err(e) => e == ArtifactError::BoundsMismatch && !(bounds.min@.len()
                    == header.output_count && bounds.max@.len() == header.output_count),
            },
    {
        if bounds.min.len() != header.output_count as usize || bounds.max.len()
            != header.output_count as usize {
            return Err(ArtifactError::BoundsMismatch);
        }
        Ok(Reflex { header, trees, bounds, metadata })
    }

    /// Runs every tree on `features` and clamps each output to its bounds.
    pub fn infer(&self, features: &[Real32]) -> (r: Result<Vec<Real32>, InferError>)
        ensures
            r matches Ok(out) ==> out@.len() == self.trees@.len(),
            match r {
                Ok(out) => self.infer_result(features@) == Ok::<Seq<Real32>, InferError>(out@),
                Err(e) => self.infer_result(features@) == Err::<Seq<Real32>, InferError>(e),
            },
    {
        if features.len() != self.header.feature_count as usize {
            return Err(InferError::FeatureCount);
        }
        let n = self.trees.len();
        if n > self.bounds.min.len() || n > self.bounds.max.len() {
            return Err(InferError::MissingBound);
        }
        let ghost tv = trees_view(self.trees@);
        let mut outputs: Vec<Real32> = Vec::new();
        let mut i: usize = 0;
        while i < n
            invariant
                n == self.trees@.len(),
                features@.len() == self.header.feature_count,
                tv == trees_view(self.trees@),
                n <= self.bounds.min@.len(),
                n <= self.bounds.max@.len(),
                i <= n,
                infer_trees(tv, self.bounds.min@, self.bounds.max@, features@, i as int) == Ok::<
                    Seq<Real32>,
                    InferError,
                >(outputs@),
            decreases n - i,
        {
            let v = match eval_tree(self.trees[i].as_slice(), features) {
                Ok(v) => v,
                Err(e) => {
                    proof {
                        assert(tv[i as int] == self.trees@[i as int]@);
                        assert(infer_trees(tv, self.bounds.min@, self.bounds.max@, features@, i as int + 1) == Err::<Seq<Real32>, InferError>(e));
                        lemma_infer_trees_stops(tv, self.bounds.min@, self.bounds.max@, features@, i as int + 1, n as int);
                    }
                    return Err(e);
                },
            };
            proof {
                assert(tv[i as int] == self.trees@[i as int]@);
            }
            outputs.push(v.clamp(self.bounds.min[i], self.bounds.max[i]));
            i = i + 1;
        }
        proof {
            lemma_infer_trees_len(tv, self.bounds.min@, self.bounds.max@, features@, n as int);
        }
        Ok(outputs)
    }
}

/// Successful inference over the first `k` trees yields `k` outputs.
proof fn lemma_infer_trees_len(
    trees: Seq<Seq<TreeNode>>,
    min: Seq<Real32>,
    max: Seq<Real32>,
    x: Seq<Real32>,
    k: int,
)
    requires
        k >= 0,
    ensures
        infer_trees(trees, min, max, x, k) matches Ok(out) ==> out.len() == k,
    decreases k,
{
    if k > 0 {
        lemma_infer_trees_len(trees, min, max, x, k - 1);
    }
}

/// Once the first `k` trees fail, so do the first `n`.
proof fn lemma_infer_trees_stops(
    trees: Seq<Seq<TreeNode>>,
    min: Seq<Real32>,
    max: Seq<Real32>,
    x: Seq<Real32>,
    k: int,
    n: int,
)
    requires
        0 < k <= n,
        infer_trees(trees, min, max, x, k) is Err,
    ensures
        infer_trees(trees, min, max, x, n) == infer_trees(trees, min, max, x, k),
    decreases n - k,
{
    if k < n {
        lemma_infer_trees_stops(trees, min, max, x, k, n - 1);
    }
}

/// Walks `tree` from the root on `features`.
fn eval_tree(tree: &[TreeNode], features: &[Real32]) -> (r: Result<Real32, InferError>)
    ensures
        r == tree_value(tree@, features@),
{
    let len = tree.len();
    let mut node: usize = 0;
    let mut fuel: usize = len;
    while fuel <= len
        invariant
            len == tree@.len(),
            fuel <= len,
            eval_from(tree@, features@, node as int, fuel as nat) == tree_value(tree@, features@),
        decreases fuel,
    {
        if node >= len {
            return Err(InferError::ChildIndex);
        }
        let n = tree[node];
        if n.is_leaf() {
            return Ok(n.threshold);
        }
        if n.feature_idx as usize >= features.len() {
            return Err(InferError::FeatureIndex);
        }
        if fuel == 0 {
            return Err(InferError::Cycle);
        }
        node = if features[n.feature_idx as usize].le(n.threshold) {
            n.left as usize
        } else {
            n.right as usize
        };
        fuel = fuel - 1;
    }
    Err(InferError::Cycle)
}

} // verus!
