//! Optimizing the collider trees to maintain good query performance.

use crate::bvh::{
    bvh_intact, bvh_partly_rebuilt, bvh_rebuilt, bvh_reinserted, bvh_slots, bvh_view, clone_bvh,
    is_gain, new_bvh, node_count, node_links, primitive_in_slot, slot_count, BvhShape, BvhView,
};
use crate::collider_tree::proxy_key::{ColliderTreeType, ProxyId};
use crate::collider_tree::tree::{ColliderTree, ColliderTreeProxy, ColliderTreeWorkspace};
use crate::collider_tree::ColliderTrees;
use crate::data_structures::stable_vec::StableVec;
use obvhs::aabb::Aabb;
use obvhs::bvh2::Bvh2;
use vstd::prelude::*;
use vstd::std_specs::cmp::PartialEqSpecImpl;

verus! {

/// A ratio, held as the bits of a single-precision floating-point number.
#[derive(Clone, Copy, Debug)]
pub struct Ratio(pub u32);

impl Ratio {
    /// The bits of the number without the sign, which order the magnitudes.
    pub open spec fn magnitude(self) -> int {
        if self.0 < 0x8000_0000 {
            self.0 as int
        } else {
            self.0 - 0x8000_0000
        }
    }

    /// Whether the bits stand for no number.
    pub open spec fn is_nan(self) -> bool {
        self.magnitude() > 0x7f80_0000
    }

    /// A value by which ratios that are numbers are ordered.
    pub open spec fn rank(self) -> int {
        if self.0 < 0x8000_0000 {
            self.magnitude()
        } else {
            -self.magnitude()
        }
    }

    /// Whether the ratio is less than the other one. What is no number is not less than
    /// anything, nor is anything less than it.
    pub open spec fn spec_less_than(self, other: Ratio) -> bool {
        !self.is_nan() && !other.is_nan() && self.rank() < other.rank()
    }

    /// Whether the ratio is equal to the other one. The two zeros are equal, and what is no number
    /// is not equal to anything, not even to itself.
    pub open spec fn equals(self, other: Ratio) -> bool {
        !self.is_nan() && !other.is_nan() && self.rank() == other.rank()
    }

    /// Returns whether the ratio is less than the other one.
    pub fn less_than(&self, other: &Ratio) -> (res: bool)
        ensures
            res == self.spec_less_than(*other),
    {
        let magnitude1: u32 = if self.0 < 0x8000_0000 {
            self.0
        } else {
            self.0 - 0x8000_0000
        };
        let magnitude2: u32 = if other.0 < 0x8000_0000 {
            other.0
        } else {
            other.0 - 0x8000_0000
        };
        if magnitude1 > 0x7f80_0000 || magnitude2 > 0x7f80_0000 {
            false
        } else if self.0 < 0x8000_0000 {
            other.0 < 0x8000_0000 && magnitude1 < magnitude2
        } else if other.0 < 0x8000_0000 {
            magnitude1 != 0 || magnitude2 != 0
        } else {
            magnitude2 < magnitude1
        }
    }
}

impl PartialEq for Ratio {
    fn eq(&self, other: &Self) -> (res: bool) {
        let magnitude1: u32 = if self.0 < 0x8000_0000 {
            self.0
        } else {
            self.0 - 0x8000_0000
        };
        let magnitude2: u32 = if other.0 < 0x8000_0000 {
            other.0
        } else {
            other.0 - 0x8000_0000
        };
        magnitude1 <= 0x7f80_0000 && magnitude2 <= 0x7f80_0000 && (self.0 == other.0 || magnitude1
            == 0 && magnitude2 == 0)
    }
}

impl PartialEqSpecImpl for Ratio {
    open spec fn obeys_eq_spec() -> bool {
        true
    }

    open spec fn eq_spec(&self, other: &Self) -> bool {
        self.equals(*other)
    }
}

/// The optimization mode for a dynamic [`ColliderTree`].
#[derive(Clone, Copy, Debug)]
pub enum TreeOptimizationMode {
    /// The tree is optimized by reinserting proxies whose bounding box in the tree has changed.
    ///
    /// This is the fastest method when only a small portion of proxies have moved,
    /// but is less effective for large numbers of moved proxies.
    Reinsert,
    /// The tree is optimized by performing a partial rebuild that only rebuilds
    /// parts of the tree affected by proxies that have moved.
    ///
    /// This method is more effective than reinsertion when a moderate number of proxies
    /// have moved. However, if a large portion of proxies have moved, a full rebuild
    /// can be more effective and have less overhead.
    PartialRebuild,
    /// The tree is optimized by performing a full rebuild.
    ///
    /// This method can produce the highest quality tree, and can have less overhead
    /// than other methods when a large portion of proxies have moved.
    /// This makes it suitable for highly dynamic scenes.
    FullRebuild,
    /// The tree is optimized adaptively based on how many proxies have moved.
    ///
    /// - If the ratio of moved proxies to total proxies is below
    ///   `reinsert_threshold`, [`Reinsert`](TreeOptimizationMode::Reinsert) is used.
    /// - If the ratio is between `reinsert_threshold` and `partial_rebuild_threshold`,
    ///   [`PartialRebuild`](TreeOptimizationMode::PartialRebuild) is used.
    /// - Otherwise, [`FullRebuild`](TreeOptimizationMode::FullRebuild) is used.
    ///
    /// This is the default mode.
    Adaptive {
        /// The threshold ratio of moved proxies to total proxies
        /// below which reinsertion is performed.
        ///
        /// **Default**: `0.15`
        reinsert_threshold: Ratio,
        /// The threshold ratio of moved proxies to total proxies
        /// below which a partial rebuild is performed.
        ///
        /// **Default**: `0.45`
        partial_rebuild_threshold: Ratio,
    },
}

impl PartialEq for TreeOptimizationMode {
    fn eq(&self, other: &Self) -> (res: bool) {
        match (self, other) {
            (TreeOptimizationMode::Reinsert, TreeOptimizationMode::Reinsert) => true,
            (TreeOptimizationMode::PartialRebuild, TreeOptimizationMode::PartialRebuild) => true,
            (TreeOptimizationMode::FullRebuild, TreeOptimizationMode::FullRebuild) => true,
            (
                TreeOptimizationMode::Adaptive {
                    reinsert_threshold: reinsert1,
                    partial_rebuild_threshold: partial1,
                },
                TreeOptimizationMode::Adaptive {
                    reinsert_threshold: reinsert2,
                    partial_rebuild_threshold: partial2,
                },
            ) => reinsert1.eq(reinsert2) && partial1.eq(partial2),
            _ => false,
        }
    }
}

impl PartialEqSpecImpl for TreeOptimizationMode {
    open spec fn obeys_eq_spec() -> bool {
        true
    }

    open spec fn eq_spec(&self, other: &Self) -> bool {
        self.equals(*other)
    }
}

impl Default for TreeOptimizationMode {
    fn default() -> (res: Self)
        ensures
            res == (TreeOptimizationMode::Adaptive {
                reinsert_threshold: Ratio(0x3e19_999a),
                partial_rebuild_threshold: Ratio(0x3ee6_6666),
            }),
    {
        TreeOptimizationMode::Adaptive {
            reinsert_threshold: Ratio(0x3e19_999a),
            partial_rebuild_threshold: Ratio(0x3ee6_6666),
        }
    }
}

impl TreeOptimizationMode {
    /// Whether the modes are the same, with equal thresholds.
    pub open spec fn equals(self, other: TreeOptimizationMode) -> bool {
        match self {
            TreeOptimizationMode::Reinsert => other is Reinsert,
            TreeOptimizationMode::PartialRebuild => other is PartialRebuild,
            TreeOptimizationMode::FullRebuild => other is FullRebuild,
            TreeOptimizationMode::Adaptive { reinsert_threshold, partial_rebuild_threshold } => {
                &&& other is Adaptive
                &&& reinsert_threshold.equals(other->reinsert_threshold)
                &&& partial_rebuild_threshold.equals(other->partial_rebuild_threshold)
            },
        }
    }

    /// The mode that is used for the given ratio of moved proxies.
    pub open spec fn resolved(self, moved_ratio: Ratio) -> TreeOptimizationMode {
        match self {
            TreeOptimizationMode::Adaptive { reinsert_threshold, partial_rebuild_threshold } => {
                if moved_ratio.spec_less_than(reinsert_threshold) {
                    TreeOptimizationMode::Reinsert
                } else if moved_ratio.spec_less_than(partial_rebuild_threshold) {
                    TreeOptimizationMode::PartialRebuild
                } else {
                    TreeOptimizationMode::FullRebuild
                }
            },
            other => other,
        }
    }

    /// Resolves the optimization mode based on the ratio of moved proxies.
    ///
    /// `moved_ratio` is the ratio of moved proxies to total proxies in the tree.
    pub fn resolve(&self, moved_ratio: Ratio) -> (res: TreeOptimizationMode)
        ensures
            res == self.resolved(moved_ratio),
            !(res is Adaptive),
    {
        match self {
            TreeOptimizationMode::Adaptive { reinsert_threshold, partial_rebuild_threshold } => {
                if moved_ratio.less_than(reinsert_threshold) {
                    TreeOptimizationMode::Reinsert
                } else if moved_ratio.less_than(partial_rebuild_threshold) {
                    TreeOptimizationMode::PartialRebuild
                } else {
                    TreeOptimizationMode::FullRebuild
                }
            },
            TreeOptimizationMode::Reinsert => TreeOptimizationMode::Reinsert,
            TreeOptimizationMode::PartialRebuild => TreeOptimizationMode::PartialRebuild,
            TreeOptimizationMode::FullRebuild => TreeOptimizationMode::FullRebuild,
        }
    }
}

/// Settings for optimizing the dynamic [`ColliderTree`].
#[derive(Clone, Copy, Debug)]
pub struct ColliderTreeOptimization {
    /// If `true`, tree optimization will be performed in-place with minimal allocations.
    /// This has the downside that the tree will be unavailable for queries
    /// during the simulation step while the optimization is ongoing.
    ///
    /// Otherwise, parts of the the tree will be cloned for the optimization,
    /// allowing queries to use the old tree during the simulation step,
    /// but incurring additional memory allocation overhead.
    ///
    /// **Default**: `false`
    pub optimize_in_place: bool,
    /// The optimization mode for the collider tree.
    ///
    /// **Default**: [`TreeOptimizationMode::Adaptive`]
    pub optimization_mode: TreeOptimizationMode,
}

impl PartialEq for ColliderTreeOptimization {
    fn eq(&self, other: &Self) -> (res: bool) {
        self.optimize_in_place == other.optimize_in_place && self.optimization_mode.eq(
            &other.optimization_mode,
        )
    }
}

impl PartialEqSpecImpl for ColliderTreeOptimization {
    open spec fn obeys_eq_spec() -> bool {
        true
    }

    open spec fn eq_spec(&self, other: &Self) -> bool {
        &&& self.optimize_in_place == other.optimize_in_place
        &&& self.optimization_mode.equals(other.optimization_mode)
    }
}

impl Default for ColliderTreeOptimization {
    fn default() -> (res: Self)
        ensures
            !res.optimize_in_place,
            res.optimization_mode == (TreeOptimizationMode::Adaptive {
                reinsert_threshold: Ratio(0x3e19_999a),
                partial_rebuild_threshold: Ratio(0x3ee6_6666),
            }),
    {
        ColliderTreeOptimization {
            optimize_in_place: false,
            optimization_mode: TreeOptimizationMode::default(),
        }
    }
}

/// What an optimization does to a tree.
pub enum OptimizationAction {
    /// The given leaves are reinserted.
    Reinsert(Vec<u32>),
    /// The part of the tree above the given leaves is rebuilt.
    PartialRebuild(Vec<u32>),
    /// The tree is rebuilt.
    FullRebuild,
}

/// An optimization of a tree, which does not need the tree itself while it is ongoing.
pub struct OptimizationTask {
    /// The type of the tree.
    pub tree_type: ColliderTreeType,
    /// The tree without its proxies.
    pub tree: ColliderTree,
    /// What is to be done.
    pub action: OptimizationAction,
}

/// Whether the leaves are those of the moved proxies, in the same order.
pub open spec fn leaves_of_moved(bvh: Bvh2, moved: Seq<ProxyId>, leaves: Seq<u32>) -> bool {
    &&& leaves.len() == moved.len()
    &&& forall|i: int| 0 <= i < moved.len() ==> bvh_view(bvh).holds(#[trigger] leaves[i], moved[i]@)
}

impl OptimizationTask {
    /// Whether the action is the one for the given mode, on the leaves of the moved proxies.
    pub open spec fn action_for(self, mode: TreeOptimizationMode) -> bool {
        match mode {
            TreeOptimizationMode::Reinsert => self.action is Reinsert && leaves_of_moved(
                self.tree.bvh,
                self.tree.moved_proxies@,
                self.action->Reinsert_0@,
            ),
            TreeOptimizationMode::PartialRebuild => self.action is PartialRebuild
                && leaves_of_moved(
                self.tree.bvh,
                self.tree.moved_proxies@,
                self.action->PartialRebuild_0@,
            ),
            TreeOptimizationMode::FullRebuild => self.action is FullRebuild,
            TreeOptimizationMode::Adaptive { .. } => false,
        }
    }

    /// Whether the hierarchy is intact, the action names leaves of it, and the boxes of the
    /// hierarchy fit tightly if leaves are to be reinserted.
    pub open spec fn wf(self) -> bool {
        &&& bvh_intact(self.tree.bvh)
        &&& match self.action {
            OptimizationAction::Reinsert(leaves) => self.tree.all_leaves(leaves@)
                && self.tree.tight(),
            OptimizationAction::PartialRebuild(leaves) => self.tree.all_leaves(leaves@),
            OptimizationAction::FullRebuild => true,
        }
    }

    /// Whether there are not too many leaves to reinsert and there is room on the stacks for
    /// it, or whether the hierarchy can be rebuilt and does not have too many levels for a partial
    /// rebuild.
    pub open spec fn within_limits(self) -> bool {
        match self.action {
            OptimizationAction::Reinsert(leaves) => self.tree.reinsertable(0)
                && self.tree.takes_candidates(leaves@),
            OptimizationAction::PartialRebuild(leaves) => self.tree.rebuildable()
                && self.tree.walkable(),
            OptimizationAction::FullRebuild => self.tree.rebuildable(),
        }
    }

    /// The shape that the optimization gives to the hierarchy.
    pub open spec fn optimized_shape(self) -> BvhShape {
        let view = bvh_view(self.tree.bvh);
        match self.action {
            OptimizationAction::Reinsert(leaves) => bvh_reinserted(view, leaves@, 1),
            OptimizationAction::PartialRebuild(leaves) => bvh_partly_rebuilt(
                view,
                view.path_flags(leaves@),
            ),
            OptimizationAction::FullRebuild => bvh_rebuilt(view),
        }
    }

    /// Whether the boxes of the hierarchy fit tightly, or whether all those that the optimization
    /// goes by have numbers for coordinates.
    pub open spec fn has_optimized_shape(self) -> bool {
        ||| self.tree.tight()
        ||| match self.action {
            OptimizationAction::Reinsert(_) => false,
            OptimizationAction::PartialRebuild(_) => bvh_view(self.tree.bvh).is_numeric(),
            OptimizationAction::FullRebuild => self.tree.boxes_numeric(),
        }
    }

    /// Performs the optimization.
    pub fn run(&mut self)
        requires
            old(self).wf(),
            old(self).within_limits(),
        ensures
            final(self).tree_type == old(self).tree_type,
            final(self).action == old(self).action,
            final(self).tree.optimized_from(old(self).tree),
            bvh_intact(final(self).tree.bvh),
            old(self).has_optimized_shape() ==> bvh_view(final(self).tree.bvh).shape()
                == old(self).optimized_shape(),
    {
        match &self.action {
            OptimizationAction::Reinsert(leaves) => {
                self.tree.optimize_candidates(leaves);
            },
            OptimizationAction::PartialRebuild(leaves) => {
                self.tree.rebuild_partial(leaves);
            },
            OptimizationAction::FullRebuild => {
                self.tree.rebuild_full();
            },
        }
    }

    /// Performs the optimization if it is within the limits, and returns whether it is.
    pub fn try_run(&mut self) -> (res: bool)
        requires
            old(self).wf(),
        ensures
            res == old(self).within_limits(),
            !res ==> *final(self) == *old(self),
            final(self).tree_type == old(self).tree_type,
            final(self).action == old(self).action,
            res ==> final(self).tree.optimized_from(old(self).tree) && bvh_intact(
                final(self).tree.bvh,
            ),
            res && old(self).has_optimized_shape() ==> bvh_view(final(self).tree.bvh).shape()
                == old(self).optimized_shape(),
    {
        let within_limits = match &self.action {
            OptimizationAction::Reinsert(leaves) => self.tree.is_reinsertable(0)
                && self.tree.can_take_candidates(leaves),
            OptimizationAction::PartialRebuild(_) => self.tree.is_rebuildable()
                && self.tree.is_walkable(),
            OptimizationAction::FullRebuild => self.tree.is_rebuildable(),
        };
        if within_limits {
            self.run();
        }
        within_limits
    }

    /// Whether the tree has a proxy for every box of the optimized hierarchy.
    pub open spec fn fits(self, tree: ColliderTree) -> bool {
        forall|p: u32| #[trigger]
            self.tree.boxes().contains_key(p) ==> tree.proxies@.contains_key(p as int)
    }

    /// Returns whether the tree has a proxy for every box of the optimized hierarchy, which is
    /// so unless proxies have been removed since the optimization began.
    pub fn check_fits(&self, tree: &ColliderTree) -> (res: bool)
        ensures
            res == self.fits(*tree),
    {
        let ghost view = bvh_view(self.tree.bvh);
        let nodes: usize = node_count(&self.tree.bvh);
        let slots: usize = slot_count(&self.tree.bvh);
        let mut node: u64 = 0;
        while node < nodes as u64 && node <= u32::MAX as u64
            invariant
                node <= u32::MAX + 1,
                nodes == view.nodes.len(),
                slots == view.primitive_indices.len(),
                view == bvh_view(self.tree.bvh),
                forall|n: u32, p: u32|
                    n < node && #[trigger] view.holds(n, p) ==> tree.proxies@.contains_key(
                        p as int,
                    ),
            decreases nodes as u64 - node,
        {
            let leaf: u32 = node as u32;
            let (first, count) = node_links(&self.tree.bvh, leaf as usize);
            let start: u64 = first as u64;
            let end: u64 = start + count as u64;
            if end <= slots as u64 {
                let mut slot: u64 = start;
                while slot < end
                    invariant
                        start <= slot <= end,
                        end <= slots,
                        start == first,
                        end == start + count,
                        leaf < nodes,
                        nodes == view.nodes.len(),
                        slots == view.primitive_indices.len(),
                        view == bvh_view(self.tree.bvh),
                        first == view.nodes[leaf as int].first_index,
                        count == view.nodes[leaf as int].prim_count,
                        forall|k: int|
                            start <= k < slot ==> tree.proxies@.contains_key(
                                (#[trigger] view.primitive_indices[k]) as int,
                            ),
                    decreases end - slot,
                {
                    let primitive: u32 = primitive_in_slot(&self.tree.bvh, slot as usize);
                    if tree.get_proxy(ProxyId::from(primitive)).is_none() {
                        proof {
                            broadcast use crate::collider_tree::proxy_key::proxy_id_of_view;

                            assert(view.leaf_primitives(leaf)[slot - start] == primitive);
                            assert(view.holds(leaf, primitive));
                            assert(self.tree.boxes().contains_key(primitive));
                        }
                        return false;
                    }
                    proof {
                        broadcast use crate::collider_tree::proxy_key::proxy_id_of_view;
                    }
                    slot = slot + 1;
                }
                proof {
                    assert forall|p: u32| #[trigger]
                        view.holds(leaf, p) implies tree.proxies@.contains_key(p as int) by {
                        let k = choose|k: int|
                            0 <= k < view.leaf_primitives(leaf).len()
                                && view.leaf_primitives(leaf)[k] == p;
                        assert(view.primitive_indices[start + k] == p);
                    }
                }
            }
            node = node + 1;
        }
        proof {
            assert forall|p: u32| #[trigger] self.tree.boxes().contains_key(
                p,
            ) implies tree.proxies@.contains_key(p as int) by {
                let n = choose|n: u32| view.holds(n, p);
                assert(view.holds(n, p));
            }
        }
        true
    }

    /// Whether the optimized hierarchy has a box and a slot for every proxy of the tree.
    pub open spec fn covers(self, tree: ColliderTree) -> bool {
        &&& forall|i: int| #[trigger]
            tree.proxies@.contains_key(i) ==> self.tree.boxes().contains_key(i as u32)
        &&& tree.proxies.slot_count() <= bvh_slots(self.tree.bvh)
    }

    /// Completes the optimization by giving the tree its optimized hierarchy.
    pub fn finish(self, tree: &mut ColliderTree)
        requires
            old(tree).wf(),
            bvh_intact(self.tree.bvh),
            self.fits(*old(tree)),
        ensures
            final(tree).wf(),
            final(tree).bvh == self.tree.bvh,
            final(tree).workspace == self.tree.workspace,
            final(tree).proxies == old(tree).proxies,
            final(tree).moved_proxies == old(tree).moved_proxies,
            self.covers(*old(tree)) ==> final(tree).synced(),
    {
        tree.bvh = self.tree.bvh;
        tree.workspace = self.tree.workspace;
    }
}

/// Begins optimizing a tree.
///
/// `moved_ratio` is the ratio of moved proxies to total proxies in the tree. If they are to be
/// reinserted, then the boxes of the tree have to fit tightly.
pub fn begin_optimization(
    tree: &mut ColliderTree,
    tree_type: ColliderTreeType,
    settings: &ColliderTreeOptimization,
    moved_ratio: Ratio,
) -> (task: OptimizationTask)
    requires
        old(tree).wf(),
        old(tree).moved_boxed(),
        settings.optimization_mode.resolved(moved_ratio) is Reinsert ==> old(tree).tight(),
    ensures
        task.wf(),
        task.tree_type == tree_type,
        task.tree.bvh == old(tree).bvh,
        task.tree.proxies@ == Map::<int, ColliderTreeProxy>::empty(),
        task.tree.moved_proxies == old(tree).moved_proxies,
        task.tree.workspace == old(tree).workspace,
        task.action_for(settings.optimization_mode.resolved(moved_ratio)),
        task.fits(*final(tree)),
        old(tree).synced() ==> task.covers(*final(tree)),
        final(tree).wf(),
        final(tree).proxies == old(tree).proxies,
        final(tree).moved_proxies@ == Seq::<ProxyId>::empty(),
        if settings.optimize_in_place {
            bvh_view(final(tree).bvh) == BvhView::empty() && final(tree).tight()
        } else {
            final(tree).bvh == old(tree).bvh
        },
{
    // Take or clone the hierarchy for the optimization task.
    let mut bvh: Bvh2 = new_bvh();
    if settings.optimize_in_place {
        core::mem::swap(&mut bvh, &mut tree.bvh);
    } else {
        bvh = clone_bvh(&tree.bvh);
    }
    // These are not needed during the simulation step.
    let mut moved_proxies: Vec<ProxyId> = Vec::new();
    core::mem::swap(&mut moved_proxies, &mut tree.moved_proxies);
    let mut workspace: ColliderTreeWorkspace = ColliderTreeWorkspace::new();
    core::mem::swap(&mut workspace, &mut tree.workspace);
    // Create a new tree for the optimization task.
    let new_tree = ColliderTree { bvh, proxies: StableVec::new(), moved_proxies, workspace };
    let action = match settings.optimization_mode.resolve(moved_ratio) {
        TreeOptimizationMode::Reinsert => OptimizationAction::Reinsert(
            new_tree.leaves_of(&new_tree.moved_proxies),
        ),
        TreeOptimizationMode::PartialRebuild => OptimizationAction::PartialRebuild(
            new_tree.leaves_of(&new_tree.moved_proxies),
        ),
        _ => OptimizationAction::FullRebuild,
    };
    OptimizationTask { tree_type, tree: new_tree, action }
}

/// Begins optimizing the dynamic and kinematic trees.
///
/// Static and standalone trees are not optimized, as their colliders are not expected to move
/// much.
pub fn optimize_trees(
    trees: &mut ColliderTrees,
    settings: &ColliderTreeOptimization,
    dynamic_moved_ratio: Ratio,
    kinematic_moved_ratio: Ratio,
) -> (tasks: (OptimizationTask, OptimizationTask))
    requires
        old(trees).wf(),
        old(trees).dynamic_tree.moved_boxed(),
        old(trees).kinematic_tree.moved_boxed(),
        settings.optimization_mode.resolved(dynamic_moved_ratio) is Reinsert
            ==> old(trees).dynamic_tree.tight(),
        settings.optimization_mode.resolved(kinematic_moved_ratio) is Reinsert
            ==> old(trees).kinematic_tree.tight(),
    ensures
        final(trees).wf(),
        tasks.0.wf() && tasks.1.wf(),
        tasks.0.tree_type == ColliderTreeType::Dynamic,
        tasks.1.tree_type == ColliderTreeType::Kinematic,
        tasks.0.tree.bvh == old(trees).dynamic_tree.bvh,
        tasks.1.tree.bvh == old(trees).kinematic_tree.bvh,
        tasks.0.tree.proxies@ == Map::<int, ColliderTreeProxy>::empty(),
        tasks.1.tree.proxies@ == Map::<int, ColliderTreeProxy>::empty(),
        tasks.0.tree.moved_proxies == old(trees).dynamic_tree.moved_proxies,
        tasks.1.tree.moved_proxies == old(trees).kinematic_tree.moved_proxies,
        tasks.0.tree.workspace == old(trees).dynamic_tree.workspace,
        tasks.1.tree.workspace == old(trees).kinematic_tree.workspace,
        tasks.0.action_for(settings.optimization_mode.resolved(dynamic_moved_ratio)),
        tasks.1.action_for(settings.optimization_mode.resolved(kinematic_moved_ratio)),
        // Each tree is optimized by its own ratio of moved proxies.
        tasks.0.action is Reinsert <==> settings.optimization_mode.resolved(
            dynamic_moved_ratio,
        ) is Reinsert,
        tasks.0.action is PartialRebuild <==> settings.optimization_mode.resolved(
            dynamic_moved_ratio,
        ) is PartialRebuild,
        tasks.0.action is FullRebuild <==> settings.optimization_mode.resolved(
            dynamic_moved_ratio,
        ) is FullRebuild,
        tasks.1.action is Reinsert <==> settings.optimization_mode.resolved(
            kinematic_moved_ratio,
        ) is Reinsert,
        tasks.1.action is PartialRebuild <==> settings.optimization_mode.resolved(
            kinematic_moved_ratio,
        ) is PartialRebuild,
        tasks.1.action is FullRebuild <==> settings.optimization_mode.resolved(
            kinematic_moved_ratio,
        ) is FullRebuild,
        tasks.0.fits(final(trees).dynamic_tree),
        tasks.1.fits(final(trees).kinematic_tree),
        old(trees).dynamic_tree.synced() ==> tasks.0.covers(final(trees).dynamic_tree),
        old(trees).kinematic_tree.synced() ==> tasks.1.covers(final(trees).kinematic_tree),
        final(trees).proxy_map() == old(trees).proxy_map(),
        final(trees).dynamic_tree.proxies == old(trees).dynamic_tree.proxies,
        final(trees).kinematic_tree.proxies == old(trees).kinematic_tree.proxies,
        final(trees).dynamic_tree.moved_proxies@ == Seq::<ProxyId>::empty(),
        final(trees).kinematic_tree.moved_proxies@ == Seq::<ProxyId>::empty(),
        final(trees).static_tree == old(trees).static_tree,
        final(trees).standalone_tree == old(trees).standalone_tree,
        if settings.optimize_in_place {
            &&& bvh_view(final(trees).dynamic_tree.bvh) == BvhView::empty()
            &&& bvh_view(final(trees).kinematic_tree.bvh) == BvhView::empty()
            &&& final(trees).dynamic_tree.boxes() == Map::<u32, Aabb>::empty()
            &&& final(trees).kinematic_tree.boxes() == Map::<u32, Aabb>::empty()
            &&& final(trees).dynamic_tree.tight()
            &&& final(trees).kinematic_tree.tight()
        } else {
            &&& final(trees).dynamic_tree.bvh == old(trees).dynamic_tree.bvh
            &&& final(trees).kinematic_tree.bvh == old(trees).kinematic_tree.bvh
        },
{
    let dynamic_task = begin_optimization(
        &mut trees.dynamic_tree,
        ColliderTreeType::Dynamic,
        settings,
        dynamic_moved_ratio,
    );
    let kinematic_task = begin_optimization(
        &mut trees.kinematic_tree,
        ColliderTreeType::Kinematic,
        settings,
        kinematic_moved_ratio,
    );
    proof {
        assert(trees.proxy_map() =~= old(trees).proxy_map());
        if settings.optimize_in_place {
            assert(trees.dynamic_tree.boxes() =~= Map::<u32, Aabb>::empty());
            assert(trees.kinematic_tree.boxes() =~= Map::<u32, Aabb>::empty());
        }
    }
    (dynamic_task, kinematic_task)
}

/// Completes an optimization by giving the tree of its type the optimized hierarchy.
pub fn finish_optimization(trees: &mut ColliderTrees, task: OptimizationTask)
    requires
        old(trees).wf(),
        bvh_intact(task.tree.bvh),
        task.fits(old(trees).tree(task.tree_type)),
    ensures
        final(trees).wf(),
        final(trees).proxy_map() == old(trees).proxy_map(),
        final(trees).tree(task.tree_type).bvh == task.tree.bvh,
        final(trees).tree(task.tree_type).workspace == task.tree.workspace,
        final(trees).tree(task.tree_type).moved_proxies == old(trees).tree(
            task.tree_type,
        ).moved_proxies,
        forall|t: ColliderTreeType|
            t != task.tree_type ==> #[trigger] final(trees).tree(t) == old(trees).tree(t),
        task.covers(old(trees).tree(task.tree_type)) ==> final(trees).tree(
            task.tree_type,
        ).synced(),
{
    let tree_type: ColliderTreeType = task.tree_type;
    task.finish(trees.tree_for_type_mut(tree_type));
    assert(trees.proxy_map() =~= old(trees).proxy_map());
}

/// A tree whose hierarchy has been optimized, with its proxies as they were, has a box for
/// every proxy again, the same as before the optimization.
pub proof fn optimization_keeps_boxes(
    before: ColliderTree,
    optimized: ColliderTree,
    after: ColliderTree,
    task_tree: ColliderTree,
)
    requires
        before.wf(),
        before.synced(),
        task_tree.bvh == before.bvh,
        optimized.optimized_from(task_tree),
        after.wf(),
        after.bvh == optimized.bvh,
        after.proxies == before.proxies,
    ensures
        after.boxes() == before.boxes(),
        after.synced(),
        before.tight() ==> after.tight(),
{
}

/// What is no number has all exponent bits set and a mantissa other than zero, and is neither less
/// than nor equal to anything, itself included, and nothing is less than or equal to it.
pub proof fn what_is_no_number_does_not_compare(nan: Ratio, other: Ratio)
    requires
        nan.0 % 0x8000_0000 > 0x7f80_0000,
    ensures
        !nan.spec_less_than(other) && !other.spec_less_than(nan),
        !nan.equals(other) && !other.equals(nan) && !nan.equals(nan),
{
}

/// Of two numbers, exactly one is less than the other or they are equal.
pub proof fn numbers_compare(a: Ratio, b: Ratio)
    requires
        a.0 % 0x8000_0000 <= 0x7f80_0000,
        b.0 % 0x8000_0000 <= 0x7f80_0000,
    ensures
        a.spec_less_than(b) || b.spec_less_than(a) || a.equals(b),
        !(a.spec_less_than(b) && b.spec_less_than(a)),
        !(a.spec_less_than(b) && a.equals(b)),
        !(b.spec_less_than(a) && a.equals(b)),
        a.equals(a),
        a.equals(b) == b.equals(a),
{
}

/// The order of numbers is transitive, and equal numbers are alike in it.
pub proof fn order_of_numbers_is_transitive(a: Ratio, b: Ratio, c: Ratio)
    ensures
        a.spec_less_than(b) && b.spec_less_than(c) ==> a.spec_less_than(c),
        a.equals(b) && b.spec_less_than(c) ==> a.spec_less_than(c),
        a.spec_less_than(b) && b.equals(c) ==> a.spec_less_than(c),
        a.equals(b) && b.equals(c) ==> a.equals(c),
{
}

/// Positive numbers are ordered as their bits, negative ones the other way round, and every
/// negative number is less than every positive one. The two zeros are equal.
pub proof fn numbers_are_ordered_by_sign_and_bits(a: Ratio, b: Ratio)
    ensures
        a.0 <= 0x7f80_0000 && b.0 <= 0x7f80_0000 ==> (a.spec_less_than(b) <==> a.0 < b.0),
        0x8000_0000 <= a.0 <= 0xff80_0000 && 0x8000_0000 <= b.0 <= 0xff80_0000 ==> (
        a.spec_less_than(b) <==> b.0 < a.0),
        0x8000_0000 < a.0 <= 0xff80_0000 && b.0 <= 0x7f80_0000 ==> a.spec_less_than(b),
        a.0 == 0x8000_0000 && b.0 == 0 ==> a.equals(b) && !a.spec_less_than(b)
            && !b.spec_less_than(a),
{
}

/// The adaptive mode reinserts exactly if the ratio is below the first threshold, rebuilds a part
/// exactly if it is not, but below the second one, and otherwise rebuilds everything, also if the
/// ratio is no number. The other modes do not depend on the ratio.
pub proof fn adaptive_mode_goes_by_the_thresholds(mode: TreeOptimizationMode, moved_ratio: Ratio)
    ensures
        mode is Adaptive && moved_ratio.spec_less_than(mode->reinsert_threshold)
            ==> mode.resolved(moved_ratio) is Reinsert,
        mode is Adaptive && !moved_ratio.spec_less_than(mode->reinsert_threshold)
            && moved_ratio.spec_less_than(mode->partial_rebuild_threshold) ==> mode.resolved(
            moved_ratio,
        ) is PartialRebuild,
        mode is Adaptive && !moved_ratio.spec_less_than(mode->reinsert_threshold)
            && !moved_ratio.spec_less_than(mode->partial_rebuild_threshold) ==> mode.resolved(
            moved_ratio,
        ) is FullRebuild,
        mode is Adaptive && moved_ratio.0 % 0x8000_0000 > 0x7f80_0000 ==> mode.resolved(
            moved_ratio,
        ) is FullRebuild,
        !(mode is Adaptive) ==> mode.resolved(moved_ratio) == mode,
        mode.resolved(moved_ratio).resolved(moved_ratio) == mode.resolved(moved_ratio),
{
}

/// A higher ratio never calls for less work.
pub proof fn higher_ratios_call_for_no_less_work(
    mode: TreeOptimizationMode,
    lower: Ratio,
    higher: Ratio,
)
    requires
        lower.spec_less_than(higher),
    ensures
        mode.resolved(higher) is Reinsert ==> mode.resolved(lower) is Reinsert,
        mode.resolved(lower) is FullRebuild ==> mode.resolved(higher) is FullRebuild,
{
}

/// Modes are equal if they are of the same kind, and adaptive ones if both of their thresholds are.
pub proof fn modes_are_equal_by_kind_and_thresholds(
    a: TreeOptimizationMode,
    b: TreeOptimizationMode,
)
    ensures
        a.equals(b) == b.equals(a),
        a.equals(b) ==> (a is Reinsert <==> b is Reinsert),
        a.equals(b) ==> (a is PartialRebuild <==> b is PartialRebuild),
        a.equals(b) ==> (a is FullRebuild <==> b is FullRebuild),
        !(a is Adaptive) ==> a.equals(a),
        a is Adaptive && b is Adaptive ==> (a.equals(b) <==> a->reinsert_threshold.equals(
            b->reinsert_threshold,
        ) && a->partial_rebuild_threshold.equals(b->partial_rebuild_threshold)),
{
}

/// An optimization does what its mode says, to the leaves of the proxies that have moved, one for
/// each and in their order.
pub proof fn action_is_that_of_the_mode(task: OptimizationTask, mode: TreeOptimizationMode)
    requires
        task.action_for(mode),
    ensures
        mode is Reinsert <==> task.action is Reinsert,
        mode is PartialRebuild <==> task.action is PartialRebuild,
        mode is FullRebuild <==> task.action is FullRebuild,
        task.action is Reinsert ==> task.action->Reinsert_0@.len()
            == task.tree.moved_proxies@.len(),
        task.action is Reinsert ==> forall|i: int|
            0 <= i < task.tree.moved_proxies@.len() ==> bvh_view(task.tree.bvh).holds(
                task.action->Reinsert_0@[i],
                (#[trigger] task.tree.moved_proxies@[i])@,
            ),
        task.action is PartialRebuild ==> task.action->PartialRebuild_0@.len()
            == task.tree.moved_proxies@.len(),
        task.action is PartialRebuild ==> forall|i: int|
            0 <= i < task.tree.moved_proxies@.len() ==> bvh_view(task.tree.bvh).holds(
                task.action->PartialRebuild_0@[i],
                (#[trigger] task.tree.moved_proxies@[i])@,
            ),
{
}

/// Reinserting gives the hierarchy the shape that one round over the leaves gives, a partial
/// rebuild the one that rebuilding all nodes above the leaves gives, and a full rebuild the one
/// that rebuilding from the leaves gives.
pub proof fn optimized_shape_is_that_of_the_action(task: OptimizationTask)
    ensures
        task.action is Reinsert ==> task.optimized_shape() == bvh_reinserted(
            bvh_view(task.tree.bvh),
            task.action->Reinsert_0@,
            1,
        ),
        task.action is PartialRebuild ==> task.optimized_shape() == bvh_partly_rebuilt(
            bvh_view(task.tree.bvh),
            bvh_view(task.tree.bvh).path_flags(task.action->PartialRebuild_0@),
        ),
        task.action is FullRebuild ==> task.optimized_shape() == bvh_rebuilt(
            bvh_view(task.tree.bvh),
        ),
{
}

/// An optimized tree has the proxies of the tree as it was, the same proxies listed as moved, and
/// the same box for each.
pub proof fn optimized_tree_has_the_same_proxies(before: ColliderTree, after: ColliderTree, id: u32)
    requires
        after.optimized_from(before),
    ensures
        after.proxies@ == before.proxies@,
        after.moved_proxies@ == before.moved_proxies@,
        after.boxes().contains_key(id) <==> before.boxes().contains_key(id),
        before.boxes().contains_key(id) ==> after.boxes()[id] == before.boxes()[id],
{
}

/// There is a better place for a leaf exactly if the area that it saves is a number greater than
/// zero.
pub proof fn better_places_save_area(bits: u32)
    ensures
        is_gain(bits) <==> Ratio(0).spec_less_than(Ratio(bits)),
{
}

} // verus!
