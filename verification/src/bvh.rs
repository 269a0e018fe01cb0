//! The bounding volume hierarchy of `obvhs`, and what the collider trees rely on of it.

use obvhs::aabb::Aabb;
use obvhs::bvh2::insertion_removal::SiblingInsertionCandidate;
use obvhs::bvh2::reinsertion::ReinsertionOptimizer;
use obvhs::bvh2::Bvh2;
use obvhs::faststack::HeapStack;
use obvhs::ploc::PlocBuilder;
use vstd::prelude::*;

verus! {

/// `obvhs::aabb::Aabb`, an axis-aligned bounding box.
#[verifier::external_type_specification]
#[verifier::external_body]
pub struct ExAabb(obvhs::aabb::Aabb);

/// `obvhs::bvh2::Bvh2`, a binary bounding volume hierarchy.
#[verifier::external_type_specification]
#[verifier::external_body]
pub struct ExBvh2(obvhs::bvh2::Bvh2);

/// `obvhs::ploc::PlocBuilder`, the reusable allocations of a rebuild.
#[verifier::external_type_specification]
#[verifier::external_body]
pub struct ExPlocBuilder(obvhs::ploc::PlocBuilder);

/// `obvhs::bvh2::reinsertion::ReinsertionOptimizer`, the reusable allocations of a reinsertion.
#[verifier::external_type_specification]
#[verifier::external_body]
pub struct ExReinsertionOptimizer(obvhs::bvh2::reinsertion::ReinsertionOptimizer);

/// `obvhs::faststack::HeapStack`, a stack with a fixed capacity.
#[verifier::external_type_specification]
#[verifier::external_body]
#[verifier::reject_recursive_types(T)]
pub struct ExHeapStack<T: Copy + Default>(obvhs::faststack::HeapStack<T>);

/// `obvhs`'s entry of the stack with which a place for a new leaf is searched.
#[verifier::external_type_specification]
#[verifier::external_body]
pub struct ExSiblingInsertionCandidate(
    obvhs::bvh2::insertion_removal::SiblingInsertionCandidate,
);

/// What a node of a hierarchy holds.
pub struct BvhNodeView {
    /// The bounding box of everything below the node.
    pub aabb: Aabb,
    /// The number of primitives in the node, which is `0` for inner nodes.
    pub prim_count: u32,
    /// The first child of an inner node, or the first primitive slot of a leaf.
    pub first_index: u32,
}

/// What a hierarchy holds.
pub struct BvhView {
    /// The nodes, of which the first is the root.
    pub nodes: Seq<BvhNodeView>,
    /// The primitives in the slots that leaves refer to.
    pub primitive_indices: Seq<u32>,
    /// The number of levels for which stacks are made, at least [`STACK_LEVELS`].
    pub max_depth: nat,
}

/// What a hierarchy holds apart from boxes and primitives.
pub struct BvhShape {
    /// The number of primitives and the first index of every node.
    pub links: Seq<(u32, u32)>,
    /// The number of levels for which stacks are made.
    pub max_depth: nat,
}

impl BvhView {
    /// The view of a hierarchy without nodes and primitives, with stacks of the default size.
    pub open spec fn empty() -> BvhView {
        BvhView {
            nodes: Seq::empty(),
            primitive_indices: Seq::empty(),
            max_depth: STACK_LEVELS as nat,
        }
    }

    /// What the hierarchy holds apart from boxes and primitives.
    pub open spec fn shape(self) -> BvhShape {
        BvhShape {
            links: self.nodes.map_values(|node: BvhNodeView| (node.prim_count, node.first_index)),
            max_depth: self.max_depth,
        }
    }

    /// Whether the subtree at the given node has at most the given number of levels.
    pub open spec fn has_levels(self, node: int, levels: nat) -> bool
        decreases levels,
    {
        &&& levels > 0
        &&& 0 <= node < self.nodes.len()
        &&& self.nodes[node].prim_count != 0 || (self.has_levels(
            self.nodes[node].first_index as int,
            (levels - 1) as nat,
        ) && self.has_levels(self.nodes[node].first_index + 1, (levels - 1) as nat))
    }

    /// Whether the hierarchy has at most the given number of levels.
    pub open spec fn is_within(self, levels: nat) -> bool {
        self.nodes.len() == 0 || self.has_levels(0, levels)
    }

    /// Whether `node` is `top` or lies at most `levels` levels below it.
    pub open spec fn is_above(self, top: int, node: int, levels: nat) -> bool
        decreases levels,
    {
        ||| top == node
        ||| levels > 0 && self.nodes[top].prim_count == 0 && (self.is_above(
            self.nodes[top].first_index as int,
            node,
            (levels - 1) as nat,
        ) || self.is_above(self.nodes[top].first_index + 1, node, (levels - 1) as nat))
    }

    /// A flag for every node, set for the given leaves and for all nodes above them, or no flags
    /// if there are fewer than two nodes.
    pub open spec fn path_flags(self, leaves: Seq<u32>) -> Seq<bool> {
        if self.nodes.len() < 2 {
            Seq::empty()
        } else {
            Seq::new(
                self.nodes.len(),
                |top: int|
                    exists|i: int|
                        0 <= i < leaves.len() && self.is_above(
                            top,
                            #[trigger] leaves[i] as int,
                            self.nodes.len(),
                        ),
            )
        }
    }

    /// The number of the given leaves for which there is a better place.
    pub open spec fn better_places(self, leaves: Seq<u32>) -> nat
        decreases leaves.len(),
    {
        if leaves.len() == 0 {
            0
        } else {
            let before = self.better_places(leaves.drop_last());
            if is_gain(bvh_gain(self, leaves.last())) {
                before + 1
            } else {
                before
            }
        }
    }

    /// Whether the coordinates of every box are numbers.
    pub open spec fn is_numeric(self) -> bool {
        forall|n: int| 0 <= n < self.nodes.len() ==> aabb_numeric((#[trigger] self.nodes[n]).aabb)
    }

    /// Whether `node` is a leaf whose primitive slots exist.
    pub open spec fn is_leaf(self, node: u32) -> bool {
        &&& node < self.nodes.len()
        &&& self.nodes[node as int].prim_count != 0
        &&& self.nodes[node as int].first_index + self.nodes[node as int].prim_count
            <= self.primitive_indices.len()
    }

    /// The primitives in a leaf, in the order of their slots.
    pub open spec fn leaf_primitives(self, node: u32) -> Seq<u32> {
        self.primitive_indices.subrange(
            self.nodes[node as int].first_index as int,
            self.nodes[node as int].first_index + self.nodes[node as int].prim_count,
        )
    }

    /// The primitives in the given leaves, leaf by leaf.
    pub open spec fn primitives_of(self, leaves: Seq<u32>) -> Seq<u32>
        decreases leaves.len(),
    {
        if leaves.len() == 0 {
            Seq::empty()
        } else {
            self.primitives_of(leaves.drop_last()) + self.leaf_primitives(leaves.last())
        }
    }

    /// Whether `node` is a leaf that holds `primitive`.
    pub open spec fn holds(self, node: u32, primitive: u32) -> bool {
        self.is_leaf(node) && self.leaf_primitives(node).contains(primitive)
    }

    /// The primitives that the hierarchy holds, each with the box of its leaf.
    pub open spec fn boxes(self) -> Map<u32, Aabb> {
        Map::new(
            |primitive: u32| exists|node: u32| self.holds(node, primitive),
            |primitive: u32|
                self.nodes[(choose|node: u32| self.holds(node, primitive)) as int].aabb,
        )
    }
}

/// The nodes and primitive slots that a hierarchy holds.
pub uninterp spec fn bvh_view(bvh: Bvh2) -> BvhView;

/// Whether a hierarchy is well-formed: its nodes form one binary tree, every leaf holds exactly
/// one primitive and no primitive is in two leaves, the primitives are below
/// [`PRIMITIVE_LIMIT`], the maps from primitives to nodes and from nodes to parents, where they
/// are there, agree with the tree, stacks are made for at least [`STACK_LEVELS`] levels, and
/// there are no spatial splits.
pub uninterp spec fn bvh_formed(bvh: Bvh2) -> bool;

/// Whether a hierarchy with nodes has its map from primitives to nodes,
/// `Bvh2::primitives_to_nodes`.
pub uninterp spec fn bvh_has_leaf_map(bvh: Bvh2) -> bool;

/// Whether the coordinates of every box of a hierarchy are numbers, and the box of every inner
/// node is exactly the union of the boxes of its two children, so that it contains what is below
/// it and fits it tightly.
pub uninterp spec fn bvh_tight(bvh: Bvh2) -> bool;

/// Whether a hierarchy with nodes has its map from nodes to parents, `Bvh2::parents`.
pub uninterp spec fn bvh_has_parents(bvh: Bvh2) -> bool;

/// The shape that `PlocBuilder::full_rebuild` gives to a hierarchy.
pub uninterp spec fn bvh_rebuilt(bvh: BvhView) -> BvhShape;

/// The shape that `PlocBuilder::partial_rebuild` gives to a hierarchy, for a flag for every node.
pub uninterp spec fn bvh_partly_rebuilt(bvh: BvhView, flags: Seq<bool>) -> BvhShape;

/// The shape that `ReinsertionOptimizer::run_with_candidates` gives to a hierarchy, for the given
/// candidates and number of iterations.
pub uninterp spec fn bvh_reinserted(
    bvh: BvhView,
    candidates: Seq<u32>,
    iterations: u32,
) -> BvhShape;

/// The shape that `Bvh2::reinsert_node` gives to a hierarchy, for the given leaf.
pub uninterp spec fn bvh_leaf_reinserted(bvh: BvhView, leaf: u32) -> BvhShape;

/// The area that the best place for a leaf saves, which `find_reinsertion` gives, as the bits of a
/// single-precision floating-point number.
pub uninterp spec fn bvh_gain(bvh: BvhView, leaf: u32) -> u32;

/// The number of entries that a stack has room for, which `HeapStack::cap` gives.
pub uninterp spec fn stack_capacity(stack: HeapStack<SiblingInsertionCandidate>) -> nat;

/// The leaves that `Bvh2::aabb_traverse` passes to its callback for a box, in that order.
pub uninterp spec fn bvh_visited(bvh: Bvh2, aabb: Aabb) -> Seq<u32>;

/// Whether `Aabb::intersect_aabb` finds that two boxes overlap.
pub uninterp spec fn aabb_intersects(a: Aabb, b: Aabb) -> bool;

/// Whether the `==` of `Aabb` finds a box equal to itself, which is so unless one of its
/// coordinates is not a number.
pub uninterp spec fn aabb_numeric(aabb: Aabb) -> bool;

/// The bound on the primitives of a hierarchy: only the lower 30 bits are used.
pub const PRIMITIVE_LIMIT: u32 = 0x4000_0000;

/// The default number of levels for which stacks are made.
///
/// Up to that number, `obvhs` uses stacks with that much room, of which it leaves one entry
/// unused. They drop entries for which they have no room.
pub const STACK_LEVELS: usize = 96;

/// The number of levels up to which `obvhs` uses the larger of its two stacks that drop entries
/// for which they have no room. It leaves one entry of them unused, too.
///
/// Beyond that number, it uses stacks that panic when they are full.
pub const LARGE_STACK_LEVELS: usize = 192;

/// The number of levels of which a walk leaves nothing out, if stacks are made for `max_depth`
/// levels.
pub open spec fn walked_levels(max_depth: nat) -> nat {
    if max_depth <= STACK_LEVELS {
        (STACK_LEVELS - 1) as nat
    } else if max_depth <= LARGE_STACK_LEVELS {
        (LARGE_STACK_LEVELS - 1) as nat
    } else {
        max_depth
    }
}

/// Whether the bits of a single-precision floating-point number stand for a number greater than
/// zero.
pub open spec fn is_gain(bits: u32) -> bool {
    0 < bits <= 0x7f80_0000
}

/// Whether a hierarchy is well-formed, and has its map from primitives to nodes if there are
/// nodes.
pub open spec fn bvh_intact(bvh: Bvh2) -> bool {
    bvh_formed(bvh) && bvh_has_leaf_map(bvh)
}

/// Whether there is a slot for every number up to that of the last primitive.
pub open spec fn bvh_slotted(bvh: Bvh2) -> bool {
    forall|p: u32| #[trigger] bvh_boxes(bvh).contains_key(p) ==> p < bvh_slots(bvh)
}

/// The primitives that a hierarchy holds, each with the box of its leaf.
pub open spec fn bvh_boxes(bvh: Bvh2) -> Map<u32, Aabb> {
    bvh_view(bvh).boxes()
}

/// Whether a hierarchy has so few levels that no walk leaves anything out.
pub open spec fn bvh_walkable(bvh: Bvh2) -> bool {
    bvh_view(bvh).is_within(walked_levels(bvh_view(bvh).max_depth))
}

/// Whether walks of a hierarchy do not run out of room on their stacks.
pub open spec fn bvh_roomy(bvh: Bvh2) -> bool {
    bvh_view(bvh).max_depth <= LARGE_STACK_LEVELS || bvh_view(bvh).is_within(
        bvh_view(bvh).max_depth,
    )
}

/// Whether the search for a better place of a leaf does not run out of room on its stack, which
/// has two entries for each level, also after the number of levels has grown by `spare`.
pub open spec fn bvh_reinsertable(bvh: Bvh2, spare: nat) -> bool {
    ||| bvh_view(bvh).nodes.len() == 0
    ||| bvh_view(bvh).max_depth <= STACK_LEVELS
    ||| spare <= 2 * bvh_view(bvh).max_depth && bvh_view(bvh).is_within(
        (2 * bvh_view(bvh).max_depth - spare) as nat,
    )
}

/// Whether the coordinates of the boxes of all leaves are numbers.
pub open spec fn bvh_numeric(bvh: Bvh2) -> bool {
    forall|p: u32| #[trigger]
        bvh_boxes(bvh).contains_key(p) ==> aabb_numeric(bvh_boxes(bvh)[p])
}

/// Whether a hierarchy has grown by at most the given number of levels, and stacks are made for
/// as many levels as before.
pub open spec fn bvh_grown(before: Bvh2, after: Bvh2, levels: nat) -> bool {
    &&& bvh_view(after).max_depth == bvh_view(before).max_depth
    &&& forall|n: nat| #[trigger]
        bvh_view(before).is_within(n) ==> bvh_view(after).is_within(n + levels)
}

/// Whether `after` is what becomes of `before` when the box of a primitive is replaced, the boxes
/// above it are refitted, and its leaf is moved to the best place for it. `resized` is the
/// hierarchy before the leaf is moved.
pub open spec fn bvh_moved_via(
    before: Bvh2,
    primitive: u32,
    aabb: Aabb,
    leaf: u32,
    resized: Bvh2,
    after: Bvh2,
) -> bool {
    &&& bvh_view(before).holds(leaf, primitive)
    &&& bvh_tight(resized)
    &&& bvh_view(resized).shape() == bvh_view(before).shape()
    &&& bvh_view(resized).primitive_indices == bvh_view(before).primitive_indices
    &&& bvh_boxes(resized) == bvh_boxes(before).insert(primitive, aabb)
    &&& bvh_view(after).shape() == bvh_leaf_reinserted(bvh_view(resized), leaf)
}

/// Whether `after` has the shape that `before` gets when the box of a primitive is replaced, the
/// boxes above it are refitted, and its leaf is moved to the best place for it.
pub open spec fn bvh_moved(before: Bvh2, primitive: u32, aabb: Aabb, after: Bvh2) -> bool {
    exists|leaf: u32, resized: Bvh2| #[trigger]
        bvh_moved_via(before, primitive, aabb, leaf, resized, after)
}

/// What has grown twice has grown by the sum.
pub proof fn lemma_grown_twice(a: Bvh2, b: Bvh2, c: Bvh2, levels1: nat, levels2: nat)
    requires
        bvh_grown(a, b, levels1),
        bvh_grown(b, c, levels2),
    ensures
        bvh_grown(a, c, levels1 + levels2),
{
    assert forall|n: nat| #[trigger] bvh_view(a).is_within(n) implies bvh_view(c).is_within(
        n + (levels1 + levels2),
    ) by {
        assert(bvh_view(b).is_within(n + levels1));
        assert(n + levels1 + levels2 == n + (levels1 + levels2));
    }
}

/// What has grown by a number of levels has grown by at most any larger number.
pub proof fn lemma_grown_more(a: Bvh2, b: Bvh2, fewer: nat, more: nat)
    requires
        bvh_grown(a, b, fewer),
        fewer <= more,
    ensures
        bvh_grown(a, b, more),
{
    assert forall|n: nat| #[trigger] bvh_view(a).is_within(n) implies bvh_view(b).is_within(
        n + more,
    ) by {
        assert(bvh_view(b).is_within(n + fewer));
        if bvh_view(b).nodes.len() > 0 {
            lemma_more_levels(bvh_view(b), 0, n + fewer, n + more);
        }
    }
}

/// There are better places for at most all of the given leaves.
pub proof fn lemma_better_places(view: BvhView, leaves: Seq<u32>)
    ensures
        view.better_places(leaves) <= leaves.len(),
    decreases leaves.len(),
{
    if leaves.len() > 0 {
        lemma_better_places(view, leaves.drop_last());
    }
}

/// Hierarchies of the same shape have the same levels.
pub proof fn lemma_same_levels(a: BvhView, b: BvhView, node: int, levels: nat)
    requires
        a.shape() == b.shape(),
    ensures
        a.has_levels(node, levels) == b.has_levels(node, levels),
    decreases levels,
{
    assert(a.nodes.len() == a.shape().links.len());
    assert(b.nodes.len() == b.shape().links.len());
    if levels > 0 && 0 <= node < a.nodes.len() {
        assert(a.shape().links[node] == (a.nodes[node].prim_count, a.nodes[node].first_index));
        assert(b.shape().links[node] == (b.nodes[node].prim_count, b.nodes[node].first_index));
        lemma_same_levels(a, b, a.nodes[node].first_index as int, (levels - 1) as nat);
        lemma_same_levels(a, b, a.nodes[node].first_index + 1, (levels - 1) as nat);
    }
}

/// A hierarchy with at most a number of levels has at most any larger number of them.
pub proof fn lemma_more_levels(view: BvhView, node: int, fewer: nat, more: nat)
    requires
        fewer <= more,
        view.has_levels(node, fewer),
    ensures
        view.has_levels(node, more),
    decreases fewer,
{
    if view.nodes[node].prim_count == 0 {
        let first = view.nodes[node].first_index;
        lemma_more_levels(view, first as int, (fewer - 1) as nat, (more - 1) as nat);
        lemma_more_levels(view, first + 1, (fewer - 1) as nat, (more - 1) as nat);
    }
}

/// Hierarchies of the same shape are walked alike.
pub proof fn lemma_same_walks(a: Bvh2, b: Bvh2)
    requires
        bvh_view(a).shape() == bvh_view(b).shape(),
    ensures
        bvh_walkable(a) == bvh_walkable(b),
        bvh_roomy(a) == bvh_roomy(b),
        forall|spare: nat| #[trigger] bvh_reinsertable(a, spare) == bvh_reinsertable(b, spare),
{
    let (v, w) = (bvh_view(a), bvh_view(b));
    assert(v.max_depth == v.shape().max_depth && w.max_depth == w.shape().max_depth);
    assert(v.nodes.len() == v.shape().links.len());
    assert(w.nodes.len() == w.shape().links.len());
    assert forall|levels: nat| v.is_within(levels) == w.is_within(levels) by {
        lemma_same_levels(v, w, 0, levels);
    }
}

/// A hierarchy of which no walk leaves anything out has room on the stacks for every walk, and
/// making stacks for more levels never makes walks leave out more.
pub proof fn walkable_hierarchy_is_roomy(bvh: Bvh2, fewer: nat, more: nat)
    requires
        fewer <= more,
    ensures
        bvh_walkable(bvh) ==> bvh_roomy(bvh),
        walked_levels(fewer) <= walked_levels(more),
        more >= STACK_LEVELS ==> walked_levels(more) + 1 >= more,
        // The stacks of fixed size have room for as many entries, of which one stays unused.
        more <= STACK_LEVELS ==> walked_levels(more) < STACK_LEVELS,
        more <= LARGE_STACK_LEVELS ==> walked_levels(more) < LARGE_STACK_LEVELS,
        more > LARGE_STACK_LEVELS ==> walked_levels(more) <= more,
{
    let view = bvh_view(bvh);
    if bvh_walkable(bvh) && view.max_depth > LARGE_STACK_LEVELS {
        assert(walked_levels(view.max_depth) == view.max_depth);
    }
}

/// Where walks have room on their stacks, these are of fixed size and drop entries, or there are no
/// more levels than entries. Where leaves can be reinserted, the hierarchy is empty, its stacks are
/// of the default size, or there are no more than two levels for each of those that stacks are made
/// for, also after the number of levels has grown.
pub proof fn walks_fit_the_stacks(bvh: Bvh2, spare: nat)
    ensures
        bvh_roomy(bvh) ==> bvh_view(bvh).max_depth <= 192 || bvh_view(bvh).is_within(
            bvh_view(bvh).max_depth,
        ),
        bvh_reinsertable(bvh, spare) && bvh_view(bvh).nodes.len() > 0 && bvh_view(bvh).max_depth
            > 96 ==> exists|levels: nat| #[trigger]
            bvh_view(bvh).is_within(levels) && levels + spare <= 2 * bvh_view(bvh).max_depth,
{
}

/// A further candidate is one more with a better place exactly if the area that its best place
/// saves is greater than zero.
pub proof fn better_places_counted_one_by_one(view: BvhView, leaves: Seq<u32>, leaf: u32)
    ensures
        is_gain(bvh_gain(view, leaf)) ==> view.better_places(leaves.push(leaf))
            == view.better_places(leaves) + 1,
        !is_gain(bvh_gain(view, leaf)) ==> view.better_places(leaves.push(leaf))
            == view.better_places(leaves),
{
    assert(leaves.push(leaf).drop_last() =~= leaves);
}

/// The number of primitive slots of a hierarchy.
pub open spec fn bvh_slots(bvh: Bvh2) -> nat {
    bvh_view(bvh).primitive_indices.len()
}

/// `Bvh2::default` makes a hierarchy without nodes and primitives.
#[verifier::external_body]
pub(crate) fn new_bvh() -> (bvh: Bvh2)
    ensures
        bvh_intact(bvh),
        bvh_tight(bvh),
        bvh_view(bvh) == BvhView::empty(),
{
    Bvh2::default()
}

/// `Bvh2::clone` copies every field.
#[verifier::external_body]
pub(crate) fn clone_bvh(bvh: &Bvh2) -> (res: Bvh2)
    ensures
        res == *bvh,
{
    bvh.clone()
}

/// `HeapStack::reserve` makes room for the given number of entries, unless there is more room
/// already.
#[verifier::external_body]
pub(crate) fn reserve_stack(stack: &mut HeapStack<SiblingInsertionCandidate>, capacity: usize)
    ensures
        stack_capacity(*final(stack)) == if capacity < stack_capacity(*old(stack)) {
            stack_capacity(*old(stack))
        } else {
            capacity as nat
        },
{
    stack.reserve(capacity);
}

/// `Bvh2::insert_primitive` adds a leaf with the given box for the given primitive, and
/// changes neither the other leaves nor the boxes of their primitives. There is at most one level
/// more.
///
/// The slot of the primitive is a free one, or a new one if none is free. The search for the
/// place of the leaf panics if its stack is full. It holds at most one entry more than the
/// tree has inner levels, so that room for one entry for every leaf suffices.
///
/// The boxes above the leaf are refitted by `Bvh2::refit_from_fast`, which with debug assertions
/// panics if it finds boxes that do not fit tightly.
#[verifier::external_body]
pub(crate) fn insert_primitive(
    bvh: &mut Bvh2,
    aabb: Aabb,
    primitive: u32,
    stack: &mut HeapStack<SiblingInsertionCandidate>,
)
    requires
        bvh_intact(*old(bvh)),
        bvh_tight(*old(bvh)),
        primitive < PRIMITIVE_LIMIT,
        !bvh_boxes(*old(bvh)).contains_key(primitive),
        stack_capacity(*old(stack)) > bvh_boxes(*old(bvh)).dom().len(),
    ensures
        bvh_intact(*final(bvh)),
        aabb_numeric(aabb) ==> bvh_tight(*final(bvh)),
        bvh_boxes(*final(bvh)) == bvh_boxes(*old(bvh)).insert(primitive, aabb),
        bvh_slots(*final(bvh)) >= bvh_slots(*old(bvh)),
        bvh_slots(*final(bvh)) >= bvh_boxes(*final(bvh)).dom().len(),
        bvh_grown(*old(bvh), *final(bvh), 1),
{
    bvh.insert_primitive(aabb, primitive, stack);
}

/// `Bvh2::remove_primitive` takes the leaf of the given primitive out, and changes neither
/// the other leaves nor the boxes of their primitives. It frees the slot of the primitive. There
/// are no more levels than before.
///
/// As for [`insert_primitive`], the boxes have to fit tightly.
#[verifier::external_body]
pub(crate) fn remove_primitive(bvh: &mut Bvh2, primitive: u32)
    requires
        bvh_intact(*old(bvh)),
        bvh_tight(*old(bvh)),
        bvh_boxes(*old(bvh)).contains_key(primitive),
    ensures
        bvh_intact(*final(bvh)),
        bvh_tight(*final(bvh)),
        bvh_boxes(*final(bvh)) == bvh_boxes(*old(bvh)).remove(primitive),
        bvh_slots(*final(bvh)) == bvh_slots(*old(bvh)),
        bvh_grown(*old(bvh), *final(bvh), 0),
{
    bvh.remove_primitive(primitive);
}

/// The entry of `Bvh2::primitives_to_nodes` for a primitive, if there is one, which for a
/// primitive of the hierarchy is the one leaf that holds it. Of other primitives nothing is
/// claimed.
#[verifier::external_body]
pub(crate) fn mapped_leaf(bvh: &Bvh2, primitive: u32) -> (res: Option<u32>)
    requires
        bvh_intact(*bvh),
    ensures
        bvh_boxes(*bvh).contains_key(primitive) ==> res is Some && bvh_view(*bvh).holds(
            res->0,
            primitive,
        ),
        forall|node: u32| #[trigger]
            bvh_view(*bvh).holds(node, primitive) ==> res == Some(node),
{
    bvh.primitives_to_nodes.get(primitive as usize).copied()
}

/// `Bvh2Node::set_aabb` on a leaf replaces its box. Inner boxes stay as they are, and may no
/// longer fit the leaf.
#[verifier::external_body]
pub(crate) fn set_leaf_box(bvh: &mut Bvh2, node: u32, aabb: Aabb)
    requires
        bvh_intact(*old(bvh)),
        bvh_view(*old(bvh)).is_leaf(node),
    ensures
        bvh_intact(*final(bvh)),
        forall|p: u32| #[trigger]
            bvh_view(*old(bvh)).holds(node, p) ==> bvh_boxes(*final(bvh)) == bvh_boxes(
                *old(bvh),
            ).insert(p, aabb),
        bvh_slots(*final(bvh)) == bvh_slots(*old(bvh)),
        bvh_view(*final(bvh)).shape() == bvh_view(*old(bvh)).shape(),
{
    bvh.nodes[node as usize].set_aabb(aabb);
}

/// `Bvh2::resize_node` replaces the box of a leaf, and refits the boxes above it. The nodes
/// stay where they are.
///
/// As for [`insert_primitive`], the boxes have to fit tightly.
#[verifier::external_body]
pub(crate) fn resize_leaf(bvh: &mut Bvh2, node: u32, aabb: Aabb)
    requires
        bvh_intact(*old(bvh)),
        bvh_tight(*old(bvh)),
        bvh_view(*old(bvh)).is_leaf(node),
    ensures
        bvh_intact(*final(bvh)),
        bvh_has_parents(*final(bvh)),
        bvh_view(*final(bvh)).is_leaf(node),
        aabb_numeric(aabb) ==> bvh_tight(*final(bvh)),
        forall|p: u32| #[trigger]
            bvh_view(*old(bvh)).holds(node, p) ==> bvh_boxes(*final(bvh)) == bvh_boxes(
                *old(bvh),
            ).insert(p, aabb),
        bvh_view(*final(bvh)).primitive_indices == bvh_view(*old(bvh)).primitive_indices,
        bvh_view(*final(bvh)).shape() == bvh_view(*old(bvh)).shape(),
{
    bvh.resize_node(node as usize, aabb);
}

/// `Bvh2::reinsert_node` moves a leaf to a better place if there is one. It panics without the
/// map from nodes to parents, and if its stack has no room. All leaves keep their primitives
/// and boxes, and there is at most one level more. The new shape depends on the nodes alone.
///
/// As for [`insert_primitive`], the boxes have to fit tightly.
#[verifier::external_body]
pub(crate) fn reinsert_leaf(bvh: &mut Bvh2, node: u32)
    requires
        bvh_intact(*old(bvh)),
        bvh_has_parents(*old(bvh)),
        bvh_tight(*old(bvh)),
        bvh_reinsertable(*old(bvh), 0),
        bvh_view(*old(bvh)).is_leaf(node),
    ensures
        bvh_intact(*final(bvh)),
        bvh_tight(*final(bvh)),
        bvh_boxes(*final(bvh)) == bvh_boxes(*old(bvh)),
        bvh_view(*final(bvh)).shape() == bvh_leaf_reinserted(bvh_view(*old(bvh)), node),
        bvh_view(*final(bvh)).primitive_indices == bvh_view(*old(bvh)).primitive_indices,
        bvh_view(*final(bvh)).nodes.len() == bvh_view(*old(bvh)).nodes.len(),
        bvh_grown(*old(bvh), *final(bvh), 1),
{
    bvh.reinsert_node(node as usize);
}

/// `find_reinsertion` finds the best place for a leaf, and the area that it saves. It panics
/// without the map from nodes to parents, with debug assertions for the root, and if its stack has
/// no room. What it finds depends on the nodes alone.
#[verifier::external_body]
pub(crate) fn reinsertion_gain(bvh: &Bvh2, leaf: u32) -> (bits: u32)
    requires
        bvh_intact(*bvh),
        bvh_has_parents(*bvh),
        bvh_tight(*bvh),
        bvh_reinsertable(*bvh, 0),
        bvh_view(*bvh).nodes.len() > 1,
        bvh_view(*bvh).is_leaf(leaf),
    ensures
        bits == bvh_gain(bvh_view(*bvh), leaf),
{
    obvhs::bvh2::reinsertion::find_reinsertion(bvh, leaf as usize).area_diff.to_bits()
}

/// `Bvh2::refit_all` makes every inner box the union of the boxes of its children, and changes
/// nothing else. In a tree with too many levels it may leave out inner boxes, and it panics if
/// its stack has no room.
#[verifier::external_body]
pub(crate) fn refit_bvh(bvh: &mut Bvh2)
    requires
        bvh_intact(*old(bvh)),
        bvh_roomy(*old(bvh)),
    ensures
        bvh_intact(*final(bvh)),
        bvh_walkable(*old(bvh)) && bvh_numeric(*old(bvh)) ==> bvh_tight(*final(bvh)),
        bvh_tight(*old(bvh)) ==> bvh_tight(*final(bvh)),
        bvh_boxes(*final(bvh)) == bvh_boxes(*old(bvh)),
        bvh_slots(*final(bvh)) == bvh_slots(*old(bvh)),
        bvh_view(*final(bvh)).shape() == bvh_view(*old(bvh)).shape(),
{
    bvh.refit_all();
}

/// `Bvh2::init_primitives_to_nodes_if_uninit` computes the map from primitives to nodes if it
/// is empty, and changes neither nodes nor primitives. The map gets an entry for every slot, so
/// that the computation panics if there is a primitive beyond them.
#[verifier::external_body]
pub(crate) fn init_primitives_to_nodes(bvh: &mut Bvh2)
    requires
        bvh_formed(*old(bvh)),
        bvh_has_leaf_map(*old(bvh)) || bvh_slotted(*old(bvh)),
    ensures
        bvh_formed(*final(bvh)),
        bvh_has_leaf_map(*final(bvh)),
        bvh_tight(*final(bvh)) == bvh_tight(*old(bvh)),
        bvh_view(*final(bvh)) == bvh_view(*old(bvh)),
{
    bvh.init_primitives_to_nodes_if_uninit();
}

/// `Bvh2::aabb_traverse` calls back for leaves whose boxes intersect the given one, once for
/// each, and for all of them if inner boxes contain what is below them and the tree does not
/// have too many levels. It panics if its stack has no room.
#[verifier::external_body]
pub(crate) fn visited_leaves(bvh: &Bvh2, aabb: Aabb) -> (leaves: Vec<u32>)
    requires
        bvh_intact(*bvh),
        bvh_roomy(*bvh),
    ensures
        leaves@ == bvh_visited(*bvh, aabb),
        forall|i: int| 0 <= i < leaves.len() ==> bvh_view(*bvh).is_leaf(#[trigger] leaves[i]),
        bvh_view(*bvh).primitives_of(leaves@).no_duplicates(),
        forall|p: u32| #[trigger]
            bvh_view(*bvh).primitives_of(leaves@).contains(p) ==> bvh_boxes(*bvh).contains_key(p)
                && aabb_intersects(bvh_boxes(*bvh)[p], aabb),
        bvh_tight(*bvh) && bvh_walkable(*bvh) ==> forall|p: u32| #[trigger]
            bvh_boxes(*bvh).contains_key(p) && aabb_intersects(bvh_boxes(*bvh)[p], aabb)
                ==> bvh_view(*bvh).primitives_of(leaves@).contains(p),
{
    let mut leaves = Vec::new();
    bvh.aabb_traverse(aabb, |_bvh, node_index| {
        leaves.push(node_index);
        true
    });
    leaves
}

/// The fields `first_index` and `prim_count` of the node with the given index.
#[verifier::external_body]
pub(crate) fn node_links(bvh: &Bvh2, node: usize) -> (res: (u32, u32))
    requires
        node < bvh_view(*bvh).nodes.len(),
    ensures
        res.0 == bvh_view(*bvh).nodes[node as int].first_index,
        res.1 == bvh_view(*bvh).nodes[node as int].prim_count,
{
    (bvh.nodes[node].first_index, bvh.nodes[node].prim_count)
}

/// The entry of `Bvh2::primitive_indices` with the given index.
#[verifier::external_body]
pub(crate) fn primitive_in_slot(bvh: &Bvh2, slot: usize) -> (primitive: u32)
    requires
        slot < bvh_view(*bvh).primitive_indices.len(),
    ensures
        primitive == bvh_view(*bvh).primitive_indices[slot as int],
{
    bvh.primitive_indices[slot]
}

/// The length of `Bvh2::primitive_indices`.
#[verifier::external_body]
pub(crate) fn slot_count(bvh: &Bvh2) -> (res: usize)
    ensures
        res == bvh_slots(*bvh),
{
    bvh.primitive_indices.len()
}

/// The length of `Bvh2::nodes`.
#[verifier::external_body]
pub(crate) fn node_count(bvh: &Bvh2) -> (res: usize)
    ensures
        res == bvh_view(*bvh).nodes.len(),
{
    bvh.nodes.len()
}

/// The field `Bvh2::max_depth`.
#[verifier::external_body]
pub(crate) fn max_depth(bvh: &Bvh2) -> (res: usize)
    ensures
        res == bvh_view(*bvh).max_depth,
{
    bvh.max_depth
}

/// Returns whether a hierarchy has at most the given number of levels.
///
/// The levels are walked one after another, so that no stack is needed.
pub(crate) fn is_within(bvh: &Bvh2, levels: u128) -> (res: bool)
    ensures
        res == bvh_view(*bvh).is_within(levels as nat),
{
    let ghost view = bvh_view(*bvh);
    let nodes: usize = node_count(bvh);
    if nodes == 0 {
        return true;
    }
    let mut level: Vec<usize> = Vec::new();
    level.push(0);
    let mut left: u128 = levels;
    assert(level[0] == 0);
    while level.len() > 0
        invariant
            view == bvh_view(*bvh),
            nodes == view.nodes.len(),
            forall|i: int| 0 <= i < level.len() ==> #[trigger] level[i] < nodes,
            view.has_levels(0, levels as nat) <==> forall|i: int|
                0 <= i < level.len() ==> view.has_levels(#[trigger] level[i] as int, left as nat),
        decreases left, level.len(),
    {
        if left == 0 {
            assert(!view.has_levels(level[0] as int, left as nat));
            return false;
        }
        let mut next: Vec<usize> = Vec::new();
        let mut i: usize = 0;
        while i < level.len()
            invariant
                i <= level.len(),
                left > 0,
                view == bvh_view(*bvh),
                nodes == view.nodes.len(),
                forall|j: int| 0 <= j < level.len() ==> #[trigger] level[j] < nodes,
                forall|j: int| 0 <= j < next.len() ==> #[trigger] next[j] < nodes,
                (forall|j: int|
                    0 <= j < i ==> view.has_levels(#[trigger] level[j] as int, left as nat))
                    <==> forall|j: int|
                    0 <= j < next.len() ==> view.has_levels(
                        #[trigger] next[j] as int,
                        (left - 1) as nat,
                    ),
                view.has_levels(0, levels as nat) <==> forall|j: int|
                    0 <= j < level.len() ==> view.has_levels(
                        #[trigger] level[j] as int,
                        left as nat,
                    ),
            decreases level.len() - i,
        {
            let node: usize = level[i];
            let (first, count) = node_links(bvh, node);
            let ghost before = next@;
            if count == 0 {
                let child: usize = first as usize;
                if child >= nodes || child + 1 >= nodes {
                    proof {
                        let r = (left - 1) as nat;
                        assert(!view.has_levels(first as int, r) || !view.has_levels(first + 1, r));
                        assert(!view.has_levels(level[i as int] as int, left as nat));
                    }
                    return false;
                }
                next.push(child);
                next.push(child + 1);
                proof {
                    assert(next@ =~= before.push(child).push((child + 1) as usize));
                    assert(next[before.len() as int] == child);
                    assert(next[before.len() as int + 1] == child + 1);
                }
            }
            proof {
                let r = (left - 1) as nat;
                if forall|j: int|
                    0 <= j < i + 1 ==> view.has_levels(#[trigger] level[j] as int, left as nat) {
                    assert(view.has_levels(level[i as int] as int, left as nat));
                    assert forall|j: int| 0 <= j < next.len() implies view.has_levels(
                        #[trigger] next[j] as int,
                        r,
                    ) by {
                        if j < before.len() {
                            assert(next[j] == before[j]);
                        }
                    }
                }
                if forall|j: int|
                    0 <= j < next.len() ==> view.has_levels(#[trigger] next[j] as int, r) {
                    assert forall|j: int| 0 <= j < before.len() implies view.has_levels(
                        #[trigger] before[j] as int,
                        r,
                    ) by {
                        assert(next[j] == before[j]);
                    }
                    assert(view.has_levels(level[i as int] as int, left as nat));
                }
            }
            i = i + 1;
        }
        level = next;
        left = left - 1;
    }
    true
}

/// The `==` of `Aabb` tells whether a box equals itself.
#[verifier::external_body]
pub(crate) fn is_numeric(aabb: &Aabb) -> (res: bool)
    ensures
        res == aabb_numeric(*aabb),
{
    aabb == aabb
}

/// `PlocBuilder::new` makes a builder without allocations.
#[verifier::external_body]
pub(crate) fn new_builder() -> PlocBuilder {
    PlocBuilder::new()
}

/// `ReinsertionOptimizer::default` makes an optimizer without allocations.
#[verifier::external_body]
pub(crate) fn new_optimizer() -> ReinsertionOptimizer {
    ReinsertionOptimizer::default()
}

/// `HeapStack::default` makes an empty stack with room for one entry.
#[verifier::external_body]
pub(crate) fn new_stack() -> (stack: HeapStack<SiblingInsertionCandidate>)
    ensures
        stack_capacity(stack) == 1,
{
    HeapStack::default()
}

/// `PlocBuilder::full_rebuild` rebuilds the tree from its leaves, which stay as they are.
/// Every inner box is made the union of the boxes of its children. The map from primitives to
/// nodes is computed anew with an entry for every slot, and stacks are made for at least the new
/// number of levels.
///
/// The new shape depends on the nodes alone, as the builder holds nothing but allocations, and
/// `std`'s unstable sort is taken to order equal keys alike whenever it gets the same slice. The
/// shape is not claimed where a coordinate is not a number, as what becomes of that depends on the
/// machine.
#[verifier::external_body]
pub(crate) fn full_rebuild(builder: &mut PlocBuilder, bvh: &mut Bvh2)
    requires
        bvh_intact(*old(bvh)),
        bvh_slotted(*old(bvh)),
    ensures
        bvh_intact(*final(bvh)),
        bvh_tight(*old(bvh)) || bvh_numeric(*old(bvh)) ==> bvh_tight(*final(bvh)) && bvh_view(
            *final(bvh),
        ).shape() == bvh_rebuilt(bvh_view(*old(bvh))),
        bvh_boxes(*final(bvh)) == bvh_boxes(*old(bvh)),
        bvh_view(*final(bvh)).primitive_indices == bvh_view(*old(bvh)).primitive_indices,
        bvh_view(*final(bvh)).is_within(bvh_view(*final(bvh)).max_depth),
{
    builder.full_rebuild(
        bvh,
        obvhs::ploc::PlocSearchDistance::Minimum,
        obvhs::ploc::SortPrecision::U64,
        0,
    );
}

/// `Bvh2::init_parents_if_uninit` computes the map from nodes to parents if it is empty, and
/// changes neither nodes nor primitives.
#[verifier::external_body]
pub(crate) fn init_parents(bvh: &mut Bvh2)
    requires
        bvh_intact(*old(bvh)),
    ensures
        bvh_intact(*final(bvh)),
        bvh_has_parents(*final(bvh)),
        bvh_tight(*final(bvh)) == bvh_tight(*old(bvh)),
        bvh_view(*final(bvh)) == bvh_view(*old(bvh)),
{
    bvh.init_parents_if_uninit();
}

/// `compute_rebuild_path_flags` flags the given leaves and all nodes above them. It panics
/// without the map from nodes to parents.
#[verifier::external_body]
pub(crate) fn rebuild_path_flags(bvh: &Bvh2, leaves: &Vec<u32>) -> (flags: Vec<bool>)
    requires
        bvh_intact(*bvh),
        bvh_has_parents(*bvh),
        forall|i: int| 0 <= i < leaves.len() ==> bvh_view(*bvh).is_leaf(#[trigger] leaves[i]),
    ensures
        flags@ == bvh_view(*bvh).path_flags(leaves@),
{
    let mut flags = Vec::new();
    obvhs::ploc::rebuild::compute_rebuild_path_flags(bvh, leaves, &mut flags);
    flags
}

/// `PlocBuilder::partial_rebuild` rebuilds the flagged part of the tree, where the flags are
/// those of some leaves and of all nodes above them. The leaves stay as they are.
///
/// The new shape depends on the nodes and the flags alone, as the builder holds nothing but
/// allocations, and `std`'s unstable sort is taken to order equal keys alike whenever it gets the
/// same slice. The shape is not claimed where a coordinate is not a number, as what becomes of
/// that depends on the machine.
#[verifier::external_body]
pub(crate) fn partial_rebuild(builder: &mut PlocBuilder, bvh: &mut Bvh2, flags: &Vec<bool>)
    requires
        bvh_intact(*old(bvh)),
        bvh_walkable(*old(bvh)),
        bvh_slotted(*old(bvh)),
        exists|leaves: Seq<u32>|
            flags@ == #[trigger] bvh_view(*old(bvh)).path_flags(leaves) && forall|i: int|
                0 <= i < leaves.len() ==> bvh_view(*old(bvh)).is_leaf(#[trigger] leaves[i]),
    ensures
        bvh_intact(*final(bvh)),
        bvh_tight(*old(bvh)) ==> bvh_tight(*final(bvh)),
        bvh_tight(*old(bvh)) || bvh_view(*old(bvh)).is_numeric() ==> bvh_view(*final(bvh)).shape()
            == bvh_partly_rebuilt(bvh_view(*old(bvh)), flags@),
        bvh_boxes(*final(bvh)) == bvh_boxes(*old(bvh)),
        bvh_view(*final(bvh)).primitive_indices == bvh_view(*old(bvh)).primitive_indices,
{
    builder.partial_rebuild(
        bvh,
        |node| flags[node],
        obvhs::ploc::PlocSearchDistance::Minimum,
        obvhs::ploc::SortPrecision::U64,
        0,
    );
}

/// `ReinsertionOptimizer::run_with_candidates` moves the given leaves to better places. All
/// leaves stay as they are. It panics if it finds better places for more candidates than there
/// are nodes, and if its stack has no room. In a tree with at most three nodes there are no
/// better places. In a second iteration the candidates could be inner nodes, of which nothing is
/// claimed here.
///
/// As for [`insert_primitive`], the boxes have to fit tightly.
///
/// The new shape depends on the nodes, the candidates and the number of iterations alone, as the
/// optimizer holds nothing but allocations, and `std`'s unstable sort is taken to order equal keys
/// alike whenever it gets the same slice.
#[verifier::external_body]
pub(crate) fn reinsert_leaves(
    optimizer: &mut ReinsertionOptimizer,
    bvh: &mut Bvh2,
    leaves: &Vec<u32>,
    iterations: u32,
)
    requires
        bvh_intact(*old(bvh)),
        bvh_tight(*old(bvh)),
        bvh_reinsertable(*old(bvh), 0),
        iterations <= 1,
        bvh_view(*old(bvh)).nodes.len() <= 3 || bvh_view(*old(bvh)).better_places(leaves@)
            <= bvh_view(*old(bvh)).nodes.len(),
        forall|i: int| 0 <= i < leaves.len() ==> bvh_view(*old(bvh)).is_leaf(#[trigger] leaves[i]),
    ensures
        bvh_intact(*final(bvh)),
        bvh_tight(*final(bvh)),
        bvh_view(*final(bvh)).shape() == bvh_reinserted(
            bvh_view(*old(bvh)),
            leaves@,
            iterations,
        ),
        bvh_boxes(*final(bvh)) == bvh_boxes(*old(bvh)),
        bvh_view(*final(bvh)).primitive_indices == bvh_view(*old(bvh)).primitive_indices,
{
    optimizer.run_with_candidates(bvh, leaves, iterations);
}

} // verus!
