//! A broad phase that queries the collider trees for the boxes of all moved proxies.

use crate::bvh::{
    aabb_intersects, bvh_slots, bvh_view, bvh_visited, node_links, primitive_in_slot, slot_count,
    visited_leaves,
};
use crate::collider_tree::proxy_key::{
    proxy_key_ext, proxy_key_parts, proxy_key_round_trip, tree_type_body_round_trip,
    tree_types_in_order,
};
use crate::collider_tree::{
    ColliderTree, ColliderTreeProxy, ColliderTreeProxyKey, ColliderTreeType, ColliderTrees,
    MovedProxies, ProxyId,
};
use crate::collision::collision_layers::{layers_interact, layers_interact_in_both_directions};
use crate::collision::contact_graph::{
    contacts_distinct, contacts_have, contacts_have_pair, contacts_have_unordered, contacts_with,
    contacts_with_members, Contact, ContactEdge, ContactGraph, ContactPair,
};
use crate::collision::hooks::{hooks_may_answer, no_hooks_let_pass, CollisionHooks};
use crate::data_structures::pair_key::{pair_key_bits, pair_key_identifies_pair, PairKey};
use crate::joint_graph::{
    joints_disable, joints_disable_between_their_ends, joints_disable_symmetric, JointGraph,
    JointGraphEdge,
};
use obvhs::aabb::Aabb;
use vstd::prelude::*;

verus! {

/// A moved proxy, and a proxy that it may collide with.
pub struct PairCandidate {
    /// The key of the moved proxy.
    pub key1: ColliderTreeProxyKey,
    /// The moved proxy.
    pub proxy1: ColliderTreeProxy,
    /// The key of the other proxy.
    pub key2: ColliderTreeProxyKey,
    /// The other proxy.
    pub proxy2: ColliderTreeProxy,
}

impl PairCandidate {
    /// The same two proxies, as seen from the other one.
    pub open spec fn swapped(self) -> PairCandidate {
        PairCandidate {
            key1: self.key2,
            proxy1: self.proxy2,
            key2: self.key1,
            proxy2: self.proxy1,
        }
    }
}

/// What decides about a pair besides the two proxies.
pub struct PairRules {
    /// The keys of the moved proxies.
    pub moved: Seq<ColliderTreeProxyKey>,
    /// The contacts that exist already.
    pub contacts: Seq<Contact>,
    /// The joints between bodies.
    pub joints: Seq<JointGraphEdge>,
    /// Whether two static proxies can be a pair though neither of them is a sensor.
    pub static_pairs: bool,
}

/// What is to be done with a pair.
#[derive(Clone, Copy, Debug, PartialEq, Eq, Structural)]
pub enum PairDecision {
    /// The pair is left out.
    Skip,
    /// The pair is a collision pair.
    Collide,
    /// The pair is a collision pair if the collision hooks let it through.
    AskHooks,
}

/// Whether the first key is the greater one, by tree type and then by ID.
pub open spec fn key_greater(key1: ColliderTreeProxyKey, key2: ColliderTreeProxyKey) -> bool {
    ||| key2.spec_tree_type().code() < key1.spec_tree_type().code()
    ||| key2.spec_tree_type() == key1.spec_tree_type() && key2.spec_id() < key1.spec_id()
}

/// Whether both proxies have moved, and the query for the other one handles the pair.
///
/// A sensor handles all of its pairs itself.
pub open spec fn handled_elsewhere(rules: PairRules, pair: PairCandidate) -> bool {
    key_greater(pair.key1, pair.key2) && rules.moved.contains(pair.key2)
        && !pair.proxy1.flags.sensor
}

/// Whether a contact between two proxies is possible and does not exist yet.
pub open spec fn contact_allowed(
    rules: PairRules,
    proxy1: ColliderTreeProxy,
    proxy2: ColliderTreeProxy,
) -> bool {
    &&& layers_interact(proxy1.layers, proxy2.layers)
    &&& proxy1.body != proxy2.body
    &&& !contacts_have(
        rules.contacts,
        pair_key_bits(proxy1.collider.index, proxy2.collider.index),
    )
    &&& !(proxy1.body is Some && proxy2.body is Some && joints_disable(
        rules.joints,
        proxy1.body->0,
        proxy2.body->0,
    ))
}

/// Whether both proxies belong to static bodies, and neither of them is a sensor.
pub open spec fn static_without_sensor(pair: PairCandidate) -> bool {
    &&& pair.key1.spec_tree_type() == ColliderTreeType::Static
    &&& pair.key2.spec_tree_type() == ColliderTreeType::Static
    &&& !pair.proxy1.flags.sensor
    &&& !pair.proxy2.flags.sensor
}

/// Whether the two proxies of a pair may collide at all: at least one of them is not static or is
/// a sensor, unless the rules let static pairs through, and a contact between them is allowed.
pub open spec fn pair_allowed(rules: PairRules, pair: PairCandidate) -> bool {
    (rules.static_pairs || !static_without_sensor(pair)) && contact_allowed(
        rules,
        pair.proxy1,
        pair.proxy2,
    )
}

/// What is to be done with a pair of a moved proxy and another one.
pub open spec fn pair_decision(rules: PairRules, pair: PairCandidate) -> PairDecision {
    if pair.key1 == pair.key2 || handled_elsewhere(rules, pair) || !pair_allowed(rules, pair) {
        PairDecision::Skip
    } else if pair.proxy1.flags.custom_filter || pair.proxy2.flags.custom_filter {
        PairDecision::AskHooks
    } else {
        PairDecision::Collide
    }
}

/// Whether a pair is a collision pair, given the answer of the collision hooks.
pub open spec fn decision_accepts(decision: PairDecision, answer: bool) -> bool {
    decision == PairDecision::Collide || decision == PairDecision::AskHooks && answer
}

/// Whether a pair can be a collision pair, for some answer that the collision hooks can give.
pub open spec fn pair_may_collide<H: CollisionHooks>(
    hooks: H,
    rules: PairRules,
    pair: PairCandidate,
) -> bool {
    ||| pair_decision(rules, pair) == PairDecision::Collide
    ||| pair_decision(rules, pair) == PairDecision::AskHooks && hooks_may_answer(
        hooks,
        pair.proxy1.collider,
        pair.proxy2.collider,
        true,
    )
}

/// Whether a pair is a collision pair, whatever answer the collision hooks give of those that
/// they can give.
pub open spec fn pair_collides<H: CollisionHooks>(
    hooks: H,
    rules: PairRules,
    pair: PairCandidate,
) -> bool {
    ||| pair_decision(rules, pair) == PairDecision::Collide
    ||| pair_decision(rules, pair) == PairDecision::AskHooks && !hooks_may_answer(
        hooks,
        pair.proxy1.collider,
        pair.proxy2.collider,
        false,
    )
}

/// The collision pairs among the candidates, given the answers of the collision hooks.
pub open spec fn accepted_pairs(
    rules: PairRules,
    candidates: Seq<PairCandidate>,
    answers: Seq<bool>,
) -> Seq<(ColliderTreeProxyKey, ColliderTreeProxyKey)>
    decreases candidates.len(),
{
    if candidates.len() == 0 {
        Seq::empty()
    } else {
        let before = accepted_pairs(rules, candidates.drop_last(), answers.drop_last());
        let pair = candidates.last();
        if decision_accepts(pair_decision(rules, pair), answers.last()) {
            before.push((pair.key1, pair.key2))
        } else {
            before
        }
    }
}

/// Whether the collision hooks can give the answers, where they are asked.
pub open spec fn hooks_may_give<H: CollisionHooks>(
    hooks: H,
    rules: PairRules,
    candidates: Seq<PairCandidate>,
    answers: Seq<bool>,
) -> bool {
    &&& answers.len() == candidates.len()
    &&& forall|i: int|
        0 <= i < candidates.len() && pair_decision(rules, #[trigger] candidates[i])
            == PairDecision::AskHooks ==> hooks_may_answer(
            hooks,
            candidates[i].proxy1.collider,
            candidates[i].proxy2.collider,
            answers[i],
        )
}

/// Whether the pairs are the collision pairs among the candidates, for answers that the
/// collision hooks can give.
pub open spec fn pairs_found<H: CollisionHooks>(
    hooks: H,
    rules: PairRules,
    candidates: Seq<PairCandidate>,
    pairs: Seq<(ColliderTreeProxyKey, ColliderTreeProxyKey)>,
) -> bool {
    exists|answers: Seq<bool>|
        #![trigger hooks_may_give(hooks, rules, candidates, answers)]
        hooks_may_give(hooks, rules, candidates, answers) && pairs == accepted_pairs(
            rules,
            candidates,
            answers,
        )
}

/// Whether asking the hooks about the candidates, in order and once for each one for which the
/// decision calls for it, can give the answers. `states` is what the hooks use to make changes, at
/// first and after each candidate. About other candidates, the hooks are not asked.
pub open spec fn hooks_asked<H: CollisionHooks>(
    hooks: H,
    rules: PairRules,
    candidates: Seq<PairCandidate>,
    answers: Seq<bool>,
    states: Seq<H::Commands>,
) -> bool {
    &&& answers.len() == candidates.len()
    &&& states.len() == candidates.len() + 1
    &&& forall|i: int|
        0 <= i < candidates.len() ==> hook_asked(
            hooks,
            rules,
            #[trigger] candidates[i],
            answers[i],
            states[i],
            states[i + 1],
        )
}

/// Whether asking the hooks about one candidate, if the decision calls for it, can give the
/// answer and turn what the hooks use to make changes from `before` into `after`.
pub open spec fn hook_asked<H: CollisionHooks>(
    hooks: H,
    rules: PairRules,
    pair: PairCandidate,
    answer: bool,
    before: H::Commands,
    after: H::Commands,
) -> bool {
    if pair_decision(rules, pair) == PairDecision::AskHooks {
        hooks.can_answer(
            pair.proxy1.collider,
            pair.proxy2.collider,
            before,
            after,
            answer,
        )
    } else {
        after == before
    }
}

/// Whether the decision about none of the candidates calls for asking the hooks.
pub open spec fn hooks_unneeded(rules: PairRules, candidates: Seq<PairCandidate>) -> bool {
    forall|i: int|
        0 <= i < candidates.len() ==> pair_decision(rules, #[trigger] candidates[i])
            != PairDecision::AskHooks
}

/// Whether the pairs are the collision pairs among the candidates, for the answers that the
/// collision hooks give when they are asked about the candidates, once each where that is needed.
pub open spec fn pairs_asked<H: CollisionHooks>(
    hooks: H,
    rules: PairRules,
    candidates: Seq<PairCandidate>,
    pairs: Seq<(ColliderTreeProxyKey, ColliderTreeProxyKey)>,
    before: H::Commands,
    after: H::Commands,
) -> bool {
    exists|answers: Seq<bool>, states: Seq<H::Commands>|
        #![trigger hooks_asked(hooks, rules, candidates, answers, states)]
        hooks_asked(hooks, rules, candidates, answers, states) && pairs == accepted_pairs(
            rules,
            candidates,
            answers,
        ) && states.first() == before && states.last() == after
}

/// The candidates that a moved proxy has in the given primitives of a tree.
pub open spec fn primitive_candidates(
    tree: ColliderTree,
    tree_type: ColliderTreeType,
    key1: ColliderTreeProxyKey,
    proxy1: ColliderTreeProxy,
    primitives: Seq<u32>,
) -> Seq<PairCandidate> {
    primitives.map_values(
        |p: u32|
            PairCandidate {
                key1,
                proxy1,
                key2: ColliderTreeProxyKey::of(p, tree_type),
                proxy2: tree.proxies@[p as int],
            },
    )
}

/// What the collision rules are made of.
pub open spec fn rules_of(
    moved: MovedProxies,
    contact_graph: ContactGraph,
    joint_graph: JointGraph,
    static_pairs: bool,
) -> PairRules {
    PairRules {
        moved: moved@,
        contacts: contact_graph@,
        joints: joint_graph@,
        static_pairs,
    }
}

/// Decides what is to be done with a pair of a moved proxy and another one.
///
/// `static_pairs` tells whether two static proxies can be a pair though neither of them is a
/// sensor.
pub fn decide_pair(
    proxy_key1: ColliderTreeProxyKey,
    proxy1: &ColliderTreeProxy,
    proxy_key2: ColliderTreeProxyKey,
    proxy2: &ColliderTreeProxy,
    moved_proxies: &MovedProxies,
    contact_graph: &ContactGraph,
    joint_graph: &JointGraph,
    static_pairs: bool,
) -> (res: PairDecision)
    requires
        moved_proxies.wf(),
        contact_graph.wf(),
    ensures
        res == pair_decision(
            rules_of(*moved_proxies, *contact_graph, *joint_graph, static_pairs),
            (PairCandidate {
                key1: proxy_key1,
                proxy1: *proxy1,
                key2: proxy_key2,
                proxy2: *proxy2,
            }),
        ),
{
    // Skip self-collision.
    if proxy_key1 == proxy_key2 {
        return PairDecision::Skip;
    }
    // Avoid duplicate pairs for moving proxies.
    //
    // Most of the time, only dynamic and kinematic bodies will be moving, but static bodies
    // can also be in the move set (ex: when spawned or teleported).
    //
    // If sensors are involved, the pair is handled here regardless of movement. Otherwise a
    // static sensor colliding with a static body might be missed.
    let type1: ColliderTreeType = proxy_key1.tree_type();
    let type2: ColliderTreeType = proxy_key2.tree_type();
    let proxy1_greater = type2.discriminant() < type1.discriminant() || (type2 == type1
        && proxy_key2.id().id() < proxy_key1.id().id());
    if proxy1_greater && moved_proxies.contains(proxy_key2) && !proxy1.is_sensor() {
        // Both proxies are moving, so the other query will handle this pair.
        return PairDecision::Skip;
    }
    // Skip static-static body collisions unless sensors or standalone colliders are involved.
    if !static_pairs && type1 == ColliderTreeType::Static && type2 == ColliderTreeType::Static
        && !proxy1.is_sensor() && !proxy2.is_sensor() {
        return PairDecision::Skip;
    }
    // Check if the layers interact.
    if !proxy1.layers.interacts_with(proxy2.layers) {
        return PairDecision::Skip;
    }
    // No collisions between colliders on the same body.
    if proxy1.body == proxy2.body {
        return PairDecision::Skip;
    }
    // Avoid duplicate pairs.
    let pair_key = PairKey::new(proxy1.collider.index_u32(), proxy2.collider.index_u32());
    if contact_graph.contains_key(&pair_key) {
        return PairDecision::Skip;
    }
    // Check if a joint disables contacts between the two bodies.
    if let (Some(body1), Some(body2)) = (proxy1.body, proxy2.body) {
        if joint_graph.disables_collision(body1, body2) {
            return PairDecision::Skip;
        }
    }
    // Leave the rest to the user-defined filter, if there is one.
    if proxy1.flags.union(proxy2.flags).custom_filter {
        PairDecision::AskHooks
    } else {
        PairDecision::Collide
    }
}

/// Candidates that are decided one after the other give their pairs one after the other.
pub proof fn accepted_pairs_append(
    rules: PairRules,
    candidates1: Seq<PairCandidate>,
    answers1: Seq<bool>,
    candidates2: Seq<PairCandidate>,
    answers2: Seq<bool>,
)
    requires
        answers1.len() == candidates1.len(),
        answers2.len() == candidates2.len(),
    ensures
        accepted_pairs(rules, candidates1 + candidates2, answers1 + answers2) == accepted_pairs(
            rules,
            candidates1,
            answers1,
        ) + accepted_pairs(rules, candidates2, answers2),
    decreases candidates2.len(),
{
    if candidates2.len() == 0 {
        assert(candidates1 + candidates2 =~= candidates1);
        assert(answers1 + answers2 =~= answers1);
        assert(accepted_pairs(rules, candidates1, answers1) + accepted_pairs(
            rules,
            candidates2,
            answers2,
        ) =~= accepted_pairs(rules, candidates1, answers1));
    } else {
        accepted_pairs_append(
            rules,
            candidates1,
            answers1,
            candidates2.drop_last(),
            answers2.drop_last(),
        );
        assert((candidates1 + candidates2).drop_last() =~= candidates1 + candidates2.drop_last());
        assert((answers1 + answers2).drop_last() =~= answers1 + answers2.drop_last());
        let before1 = accepted_pairs(rules, candidates1, answers1);
        let before2 = accepted_pairs(rules, candidates2.drop_last(), answers2.drop_last());
        let pair = (candidates2.last().key1, candidates2.last().key2);
        assert((before1 + before2).push(pair) =~= before1 + before2.push(pair));
    }
}

/// The pairs found among candidates, followed by those found among others, are the pairs
/// found among all of them.
pub proof fn pairs_found_append<H: CollisionHooks>(
    hooks: H,
    rules: PairRules,
    candidates1: Seq<PairCandidate>,
    pairs1: Seq<(ColliderTreeProxyKey, ColliderTreeProxyKey)>,
    candidates2: Seq<PairCandidate>,
    pairs2: Seq<(ColliderTreeProxyKey, ColliderTreeProxyKey)>,
)
    requires
        pairs_found(hooks, rules, candidates1, pairs1),
        pairs_found(hooks, rules, candidates2, pairs2),
    ensures
        pairs_found(hooks, rules, candidates1 + candidates2, pairs1 + pairs2),
{
    let answers1 = choose|answers: Seq<bool>|
        #![trigger hooks_may_give(hooks, rules, candidates1, answers)]
        hooks_may_give(hooks, rules, candidates1, answers) && pairs1 == accepted_pairs(
            rules,
            candidates1,
            answers,
        );
    let answers2 = choose|answers: Seq<bool>|
        #![trigger hooks_may_give(hooks, rules, candidates2, answers)]
        hooks_may_give(hooks, rules, candidates2, answers) && pairs2 == accepted_pairs(
            rules,
            candidates2,
            answers,
        );
    accepted_pairs_append(rules, candidates1, answers1, candidates2, answers2);
    let all = candidates1 + candidates2;
    assert forall|i: int|
        0 <= i < all.len() && pair_decision(rules, #[trigger] all[i])
            == PairDecision::AskHooks implies hooks_may_answer(
        hooks,
        all[i].proxy1.collider,
        all[i].proxy2.collider,
        (answers1 + answers2)[i],
    ) by {
        if i < candidates1.len() {
            assert(all[i] == candidates1[i]);
        } else {
            assert(all[i] == candidates2[i - candidates1.len()]);
        }
    }
    assert(hooks_may_give(hooks, rules, all, answers1 + answers2));
}

/// The pairs found among no candidates are none.
proof fn lemma_none_found<H: CollisionHooks>(hooks: H, rules: PairRules)
    ensures
        pairs_found(
            hooks,
            rules,
            Seq::<PairCandidate>::empty(),
            Seq::<(ColliderTreeProxyKey, ColliderTreeProxyKey)>::empty(),
        ),
{
    assert(hooks_may_give(hooks, rules, Seq::<PairCandidate>::empty(), Seq::<bool>::empty()));
}

/// The pairs found among candidates, followed by those found among others, are the pairs found
/// among all of them, if the hooks are asked about the one after the other.
pub proof fn pairs_asked_append<H: CollisionHooks>(
    hooks: H,
    rules: PairRules,
    candidates1: Seq<PairCandidate>,
    pairs1: Seq<(ColliderTreeProxyKey, ColliderTreeProxyKey)>,
    candidates2: Seq<PairCandidate>,
    pairs2: Seq<(ColliderTreeProxyKey, ColliderTreeProxyKey)>,
    before: H::Commands,
    between: H::Commands,
    after: H::Commands,
)
    requires
        pairs_asked(hooks, rules, candidates1, pairs1, before, between),
        pairs_asked(hooks, rules, candidates2, pairs2, between, after),
    ensures
        pairs_asked(hooks, rules, candidates1 + candidates2, pairs1 + pairs2, before, after),
{
    let (answers1, states1) = choose|answers: Seq<bool>, states: Seq<H::Commands>|
        #![trigger hooks_asked(hooks, rules, candidates1, answers, states)]
        hooks_asked(hooks, rules, candidates1, answers, states) && pairs1 == accepted_pairs(
            rules,
            candidates1,
            answers,
        ) && states.first() == before && states.last() == between;
    let (answers2, states2) = choose|answers: Seq<bool>, states: Seq<H::Commands>|
        #![trigger hooks_asked(hooks, rules, candidates2, answers, states)]
        hooks_asked(hooks, rules, candidates2, answers, states) && pairs2 == accepted_pairs(
            rules,
            candidates2,
            answers,
        ) && states.first() == between && states.last() == after;
    accepted_pairs_append(rules, candidates1, answers1, candidates2, answers2);
    let all = candidates1 + candidates2;
    let answers = answers1 + answers2;
    let states = states1 + states2.skip(1);
    let n = candidates1.len() as int;
    assert forall|i: int| 0 <= i < all.len() implies hook_asked(
        hooks,
        rules,
        #[trigger] all[i],
        answers[i],
        states[i],
        states[i + 1],
    ) by {
        if i < n {
            assert(all[i] == candidates1[i]);
            assert(states[i] == states1[i] && states[i + 1] == states1[i + 1]);
        } else {
            assert(all[i] == candidates2[i - n]);
            assert(states[i] == states2[i - n]);
            assert(states[i + 1] == states2[i + 1 - n]);
        }
    }
    assert(states.last() == after) by {
        if candidates2.len() == 0 {
            assert(states =~= states1);
            assert(states2.first() == states2.last());
        } else {
            assert(states[states.len() - 1] == states2[states2.len() - 1]);
        }
    }
    assert(hooks_asked(hooks, rules, all, answers, states));
}

/// What the hooks use to make changes stays the same while no decision calls for asking them.
proof fn lemma_unneeded<H: CollisionHooks>(
    hooks: H,
    rules: PairRules,
    candidates: Seq<PairCandidate>,
    answers: Seq<bool>,
    states: Seq<H::Commands>,
    i: int,
)
    requires
        hooks_asked(hooks, rules, candidates, answers, states),
        hooks_unneeded(rules, candidates),
        0 <= i <= candidates.len(),
    ensures
        states[i] == states[0],
    decreases i,
{
    if i > 0 {
        lemma_unneeded(hooks, rules, candidates, answers, states, i - 1);
        assert(hook_asked(
            hooks,
            rules,
            candidates[i - 1],
            answers[i - 1],
            states[i - 1],
            states[i - 1 + 1],
        ));
    }
}

/// The pairs for which the hooks are asked, once each where that is needed, are pairs found among
/// the candidates. If no decision calls for asking the hooks, then they make no changes.
pub proof fn pairs_asked_found<H: CollisionHooks>(
    hooks: H,
    rules: PairRules,
    candidates: Seq<PairCandidate>,
    pairs: Seq<(ColliderTreeProxyKey, ColliderTreeProxyKey)>,
    before: H::Commands,
    after: H::Commands,
)
    requires
        pairs_asked(hooks, rules, candidates, pairs, before, after),
    ensures
        pairs_found(hooks, rules, candidates, pairs),
        hooks_unneeded(rules, candidates) ==> after == before,
{
    let (answers, states) = choose|answers: Seq<bool>, states: Seq<H::Commands>|
        #![trigger hooks_asked(hooks, rules, candidates, answers, states)]
        hooks_asked(hooks, rules, candidates, answers, states) && pairs == accepted_pairs(
            rules,
            candidates,
            answers,
        ) && states.first() == before && states.last() == after;
    assert(hooks_may_give(hooks, rules, candidates, answers)) by {
        assert forall|i: int|
            0 <= i < candidates.len() && pair_decision(rules, #[trigger] candidates[i])
                == PairDecision::AskHooks implies hooks_may_answer(
            hooks,
            candidates[i].proxy1.collider,
            candidates[i].proxy2.collider,
            answers[i],
        ) by {
            assert(hooks.can_answer(
                candidates[i].proxy1.collider,
                candidates[i].proxy2.collider,
                states[i],
                states[i + 1],
                answers[i],
            ));
        }
    }
    if hooks_unneeded(rules, candidates) {
        lemma_unneeded(hooks, rules, candidates, answers, states, candidates.len() as int);
    }
}

/// Without candidates, there are no pairs and the hooks are not asked.
proof fn lemma_none_asked<H: CollisionHooks>(hooks: H, rules: PairRules, commands: H::Commands)
    ensures
        pairs_asked(
            hooks,
            rules,
            Seq::<PairCandidate>::empty(),
            Seq::<(ColliderTreeProxyKey, ColliderTreeProxyKey)>::empty(),
            commands,
            commands,
        ),
{
    assert(hooks_asked(
        hooks,
        rules,
        Seq::<PairCandidate>::empty(),
        Seq::<bool>::empty(),
        seq![commands],
    ));
}

/// One candidate gives one pair or none.
proof fn lemma_one_asked<H: CollisionHooks>(
    hooks: H,
    rules: PairRules,
    pair: PairCandidate,
    answer: bool,
    before: H::Commands,
    after: H::Commands,
)
    requires
        hook_asked(hooks, rules, pair, answer, before, after),
    ensures
        pairs_asked(
            hooks,
            rules,
            seq![pair],
            if decision_accepts(pair_decision(rules, pair), answer) {
                seq![(pair.key1, pair.key2)]
            } else {
                Seq::empty()
            },
            before,
            after,
        ),
{
    let answers = seq![answer];
    let states = seq![before, after];
    assert(hooks_asked(hooks, rules, seq![pair], answers, states));
    assert(seq![pair].drop_last() =~= Seq::<PairCandidate>::empty());
    assert(accepted_pairs(rules, seq![pair].drop_last(), answers.drop_last())
        =~= Seq::<(ColliderTreeProxyKey, ColliderTreeProxyKey)>::empty());
    assert(accepted_pairs(rules, seq![pair], answers) =~= if decision_accepts(
        pair_decision(rules, pair),
        answer,
    ) {
        seq![(pair.key1, pair.key2)]
    } else {
        Seq::empty()
    });
}

/// Adds the collision pairs that a moved proxy has in one primitive of a tree.
fn check_primitive<H: CollisionHooks>(
    tree: &ColliderTree,
    tree_type: ColliderTreeType,
    proxy_key1: ColliderTreeProxyKey,
    proxy1: &ColliderTreeProxy,
    primitive: u32,
    moved_proxies: &MovedProxies,
    hooks: &H,
    commands: &mut H::Commands,
    contact_graph: &ContactGraph,
    joint_graph: &JointGraph,
    static_pairs: bool,
    pairs: &mut Vec<(ColliderTreeProxyKey, ColliderTreeProxyKey)>,
)
    requires
        tree.wf(),
        tree.proxies@.contains_key(primitive as int),
        moved_proxies.wf(),
        contact_graph.wf(),
    ensures
        old(pairs)@.is_prefix_of(final(pairs)@),
        pairs_asked(
            *hooks,
            rules_of(*moved_proxies, *contact_graph, *joint_graph, static_pairs),
            primitive_candidates(*tree, tree_type, proxy_key1, *proxy1, seq![primitive]),
            final(pairs)@.skip(old(pairs)@.len() as int),
            *old(commands),
            *final(commands),
        ),
{
    proof {
        tree.lemma_ids();
    }
    let ghost rules = rules_of(*moved_proxies, *contact_graph, *joint_graph, static_pairs);
    let proxy_id2 = ProxyId::new(primitive);
    let proxy_key2 = ColliderTreeProxyKey::new(proxy_id2, tree_type);
    match tree.get_proxy(proxy_id2) {
        Some(proxy2) => {
            let ghost pair = PairCandidate {
                key1: proxy_key1,
                proxy1: *proxy1,
                key2: proxy_key2,
                proxy2: *proxy2,
            };
            let decision = decide_pair(
                proxy_key1,
                proxy1,
                proxy_key2,
                proxy2,
                moved_proxies,
                contact_graph,
                joint_graph,
                static_pairs,
            );
            let accepted = match decision {
                PairDecision::Skip => false,
                PairDecision::Collide => true,
                PairDecision::AskHooks => {
                    hooks.filter_pairs(proxy1.collider, proxy2.collider, commands)
                },
            };
            if accepted {
                pairs.push((proxy_key1, proxy_key2));
            }
            proof {
                lemma_one_asked(*hooks, rules, pair, accepted, *old(commands), *commands);
                assert(primitive_candidates(*tree, tree_type, proxy_key1, *proxy1, seq![primitive])
                    =~= seq![pair]);
                assert(pairs@.skip(old(pairs)@.len() as int) =~= if accepted {
                    seq![(proxy_key1, proxy_key2)]
                } else {
                    Seq::empty()
                });
            }
        },
        None => {
            assert(false);
        },
    }
}

/// Adds the collision pairs that a moved proxy has in the given leaves of a tree.
///
/// `static_pairs` tells whether two static proxies can be a pair though neither of them is a
/// sensor.
pub fn check_leaves<H: CollisionHooks>(
    tree: &ColliderTree,
    tree_type: ColliderTreeType,
    leaves: &Vec<u32>,
    proxy_key1: ColliderTreeProxyKey,
    proxy1: &ColliderTreeProxy,
    moved_proxies: &MovedProxies,
    hooks: &H,
    commands: &mut H::Commands,
    contact_graph: &ContactGraph,
    joint_graph: &JointGraph,
    static_pairs: bool,
    pairs: &mut Vec<(ColliderTreeProxyKey, ColliderTreeProxyKey)>,
)
    requires
        tree.wf(),
        tree.all_leaves(leaves@),
        forall|p: u32| #[trigger]
            bvh_view(tree.bvh).primitives_of(leaves@).contains(p) ==> tree.proxies@.contains_key(
                p as int,
            ),
        moved_proxies.wf(),
        contact_graph.wf(),
    ensures
        old(pairs)@.is_prefix_of(final(pairs)@),
        pairs_asked(
            *hooks,
            rules_of(*moved_proxies, *contact_graph, *joint_graph, static_pairs),
            primitive_candidates(
                *tree,
                tree_type,
                proxy_key1,
                *proxy1,
                bvh_view(tree.bvh).primitives_of(leaves@),
            ),
            final(pairs)@.skip(old(pairs)@.len() as int),
            *old(commands),
            *final(commands),
        ),
{
    let ghost rules = rules_of(*moved_proxies, *contact_graph, *joint_graph, static_pairs);
    let ghost view = bvh_view(tree.bvh);
    let ghost n = pairs@.len() as int;
    let slots: usize = slot_count(&tree.bvh);
    let mut i: usize = 0;
    proof {
        lemma_none_asked(*hooks, rules, *commands);
        assert(leaves@.take(0) =~= Seq::<u32>::empty());
        assert(primitive_candidates(
            *tree,
            tree_type,
            proxy_key1,
            *proxy1,
            view.primitives_of(leaves@.take(0)),
        ) =~= Seq::<PairCandidate>::empty());
        assert(pairs@.skip(n) =~= Seq::empty());
    }
    while i < leaves.len()
        invariant
            i <= leaves.len(),
            tree.wf(),
            tree.all_leaves(leaves@),
            view == bvh_view(tree.bvh),
            slots == bvh_slots(tree.bvh),
            rules == rules_of(*moved_proxies, *contact_graph, *joint_graph, static_pairs),
            forall|p: u32| #[trigger]
                view.primitives_of(leaves@).contains(p) ==> tree.proxies@.contains_key(p as int),
            moved_proxies.wf(),
            contact_graph.wf(),
            n == old(pairs)@.len(),
            old(pairs)@.is_prefix_of(pairs@),
            pairs_asked(
                *hooks,
                rules,
                primitive_candidates(
                    *tree,
                    tree_type,
                    proxy_key1,
                    *proxy1,
                    view.primitives_of(leaves@.take(i as int)),
                ),
                pairs@.skip(n),
                *old(commands),
                *commands,
            ),
        decreases leaves.len() - i,
    {
        let leaf: u32 = leaves[i];
        assert(view.is_leaf(leaf));
        let (first, count) = node_links(&tree.bvh, leaf as usize);
        let start: usize = first as usize;
        let end: usize = start + count as usize;
        let ghost before = view.primitives_of(leaves@.take(i as int));
        let ghost in_leaf = view.leaf_primitives(leaf);
        proof {
            assert(leaves@.take(i + 1).drop_last() =~= leaves@.take(i as int));
            assert(view.primitives_of(leaves@.take(i + 1)) == before + in_leaf);
            lemma_primitives_of_prefix(tree.bvh, leaves@, i + 1);
            assert(before + in_leaf.take(0) =~= before);
        }
        let mut slot: usize = start;
        while slot < end
            invariant
                start <= slot <= end,
                end == start + count,
                end <= slots,
                slots == bvh_slots(tree.bvh),
                tree.wf(),
                view == bvh_view(tree.bvh),
                in_leaf == view.primitive_indices.subrange(start as int, end as int),
                (before + in_leaf).is_prefix_of(view.primitives_of(leaves@)),
                rules == rules_of(*moved_proxies, *contact_graph, *joint_graph, static_pairs),
                forall|p: u32| #[trigger]
                    view.primitives_of(leaves@).contains(p) ==> tree.proxies@.contains_key(
                        p as int,
                    ),
                moved_proxies.wf(),
                contact_graph.wf(),
                n == old(pairs)@.len(),
                old(pairs)@.is_prefix_of(pairs@),
                pairs_asked(
                    *hooks,
                    rules,
                    primitive_candidates(
                        *tree,
                        tree_type,
                        proxy_key1,
                        *proxy1,
                        before + in_leaf.take(slot - start),
                    ),
                    pairs@.skip(n),
                    *old(commands),
                    *commands,
                ),
            decreases end - slot,
        {
            let primitive: u32 = primitive_in_slot(&tree.bvh, slot);
            proof {
                let k = slot - start;
                assert((before + in_leaf)[before.len() + k] == primitive);
                assert(view.primitives_of(leaves@)[before.len() + k] == primitive);
                assert(view.primitives_of(leaves@).contains(primitive));
            }
            let ghost pairs_before = pairs@;
            let ghost commands_before = *commands;
            check_primitive(
                tree,
                tree_type,
                proxy_key1,
                proxy1,
                primitive,
                moved_proxies,
                hooks,
                commands,
                contact_graph,
                joint_graph,
                static_pairs,
                pairs,
            );
            proof {
                let done = before + in_leaf.take(slot - start);
                let done_candidates = primitive_candidates(
                    *tree,
                    tree_type,
                    proxy_key1,
                    *proxy1,
                    done,
                );
                let next_candidates = primitive_candidates(
                    *tree,
                    tree_type,
                    proxy_key1,
                    *proxy1,
                    seq![primitive],
                );
                pairs_asked_append(
                    *hooks,
                    rules,
                    done_candidates,
                    pairs_before.skip(n),
                    next_candidates,
                    pairs@.skip(pairs_before.len() as int),
                    *old(commands),
                    commands_before,
                    *commands,
                );
                assert(pairs@.skip(n) =~= pairs_before.skip(n) + pairs@.skip(
                    pairs_before.len() as int,
                ));
                assert(before + in_leaf.take(slot + 1 - start) =~= done + seq![primitive]);
                assert(primitive_candidates(
                    *tree,
                    tree_type,
                    proxy_key1,
                    *proxy1,
                    done + seq![primitive],
                ) =~= done_candidates + next_candidates);
            }
            slot = slot + 1;
        }
        proof {
            assert(in_leaf.take(end - start) =~= in_leaf);
        }
        i = i + 1;
    }
    proof {
        assert(leaves@.take(i as int) =~= leaves@);
    }
}

/// The primitives of the first leaves come first among those of all leaves.
proof fn lemma_primitives_of_prefix(bvh: obvhs::bvh2::Bvh2, leaves: Seq<u32>, n: int)
    requires
        0 <= n <= leaves.len(),
    ensures
        bvh_view(bvh).primitives_of(leaves.take(n)).is_prefix_of(
            bvh_view(bvh).primitives_of(leaves),
        ),
    decreases leaves.len() - n,
{
    if n < leaves.len() {
        lemma_primitives_of_prefix(bvh, leaves, n + 1);
        assert(leaves.take(n + 1).drop_last() =~= leaves.take(n));
    } else {
        assert(leaves.take(n) =~= leaves);
    }
}

/// The primitives of a tree that a query with the given box visits, in that order.
pub open spec fn tree_primitives(tree: ColliderTree, aabb: Aabb) -> Seq<u32> {
    bvh_view(tree.bvh).primitives_of(bvh_visited(tree.bvh, aabb))
}

/// The candidates that a moved proxy has in a tree, in the order of a query with its box.
pub open spec fn tree_candidates(
    tree: ColliderTree,
    tree_type: ColliderTreeType,
    key1: ColliderTreeProxyKey,
    proxy1: ColliderTreeProxy,
) -> Seq<PairCandidate> {
    primitive_candidates(tree, tree_type, key1, proxy1, tree_primitives(tree, proxy1.aabb))
}

/// Whether a query with the given box visits, once each, only proxies whose boxes in the tree
/// intersect it, and all of those if the boxes of the tree fit tightly and the tree does not have
/// too many levels.
pub open spec fn query_exact(tree: ColliderTree, aabb: Aabb) -> bool {
    &&& tree_primitives(tree, aabb).no_duplicates()
    &&& forall|p: u32| #[trigger]
        tree_primitives(tree, aabb).contains(p) ==> tree.boxes().contains_key(p)
            && aabb_intersects(tree.boxes()[p], aabb)
    &&& tree.tight() && tree.walkable() ==> forall|p: u32| #[trigger]
        tree.boxes().contains_key(p) && aabb_intersects(tree.boxes()[p], aabb)
            ==> tree_primitives(tree, aabb).contains(p)
}

/// Adds the collision pairs that a moved proxy has in a tree.
///
/// `static_pairs` tells whether two static proxies can be a pair though neither of them is a
/// sensor.
fn query_with<H: CollisionHooks>(
    tree: &ColliderTree,
    tree_type: ColliderTreeType,
    proxy_key1: ColliderTreeProxyKey,
    proxy1: &ColliderTreeProxy,
    moved_proxies: &MovedProxies,
    hooks: &H,
    commands: &mut H::Commands,
    contact_graph: &ContactGraph,
    joint_graph: &JointGraph,
    static_pairs: bool,
    pairs: &mut Vec<(ColliderTreeProxyKey, ColliderTreeProxyKey)>,
)
    requires
        tree.wf(),
        tree.roomy(),
        moved_proxies.wf(),
        contact_graph.wf(),
    ensures
        old(pairs)@.is_prefix_of(final(pairs)@),
        pairs_asked(
            *hooks,
            rules_of(*moved_proxies, *contact_graph, *joint_graph, static_pairs),
            tree_candidates(*tree, tree_type, proxy_key1, *proxy1),
            final(pairs)@.skip(old(pairs)@.len() as int),
            *old(commands),
            *final(commands),
        ),
        query_exact(*tree, proxy1.aabb),
{
    let leaves: Vec<u32> = visited_leaves(&tree.bvh, proxy1.aabb);
    check_leaves(
        tree,
        tree_type,
        &leaves,
        proxy_key1,
        proxy1,
        moved_proxies,
        hooks,
        commands,
        contact_graph,
        joint_graph,
        static_pairs,
        pairs,
    );
}

/// Adds the collision pairs that a moved proxy has in a tree, two static proxies among them.
///
/// The hooks are asked once about each pair with a custom filter that passes every other test,
/// and about no other pair.
pub fn query_tree<H: CollisionHooks>(
    tree: &ColliderTree,
    tree_type: ColliderTreeType,
    proxy_key1: ColliderTreeProxyKey,
    proxy1: &ColliderTreeProxy,
    moved_proxies: &MovedProxies,
    hooks: &H,
    commands: &mut H::Commands,
    contact_graph: &ContactGraph,
    joint_graph: &JointGraph,
    pairs: &mut Vec<(ColliderTreeProxyKey, ColliderTreeProxyKey)>,
)
    requires
        tree.wf(),
        tree.roomy(),
        moved_proxies.wf(),
        contact_graph.wf(),
    ensures
        old(pairs)@.is_prefix_of(final(pairs)@),
        pairs_asked(
            *hooks,
            rules_of(*moved_proxies, *contact_graph, *joint_graph, true),
            tree_candidates(*tree, tree_type, proxy_key1, *proxy1),
            final(pairs)@.skip(old(pairs)@.len() as int),
            *old(commands),
            *final(commands),
        ),
        pairs_found(
            *hooks,
            rules_of(*moved_proxies, *contact_graph, *joint_graph, true),
            tree_candidates(*tree, tree_type, proxy_key1, *proxy1),
            final(pairs)@.skip(old(pairs)@.len() as int),
        ),
        hooks_unneeded(
            rules_of(*moved_proxies, *contact_graph, *joint_graph, true),
            tree_candidates(*tree, tree_type, proxy_key1, *proxy1),
        ) ==> *final(commands) == *old(commands),
        query_exact(*tree, proxy1.aabb),
{
    query_with(
        tree,
        tree_type,
        proxy_key1,
        proxy1,
        moved_proxies,
        hooks,
        commands,
        contact_graph,
        joint_graph,
        true,
        pairs,
    );
    proof {
        pairs_asked_found(
            *hooks,
            rules_of(*moved_proxies, *contact_graph, *joint_graph, true),
            tree_candidates(*tree, tree_type, proxy_key1, *proxy1),
            pairs@.skip(old(pairs)@.len() as int),
            *old(commands),
            *commands,
        );
    }
}

/// The candidates that a moved proxy has in the tree of the given type.
pub open spec fn type_candidates(
    trees: ColliderTrees,
    key1: ColliderTreeProxyKey,
    tree_type: ColliderTreeType,
) -> Seq<PairCandidate> {
    tree_candidates(trees.tree(tree_type), tree_type, key1, trees.proxy(key1))
}

/// The candidates that a moved proxy has in all trees.
pub open spec fn key_candidates(trees: ColliderTrees, key1: ColliderTreeProxyKey) -> Seq<
    PairCandidate,
> {
    type_candidates(trees, key1, ColliderTreeType::Dynamic) + type_candidates(
        trees,
        key1,
        ColliderTreeType::Kinematic,
    ) + type_candidates(trees, key1, ColliderTreeType::Static) + type_candidates(
        trees,
        key1,
        ColliderTreeType::Standalone,
    )
}

/// The candidates that the given moved proxies have in all trees, proxy by proxy.
pub open spec fn all_candidates(
    trees: ColliderTrees,
    keys: Seq<ColliderTreeProxyKey>,
) -> Seq<PairCandidate>
    decreases keys.len(),
{
    if keys.len() == 0 {
        Seq::empty()
    } else {
        all_candidates(trees, keys.drop_last()) + key_candidates(trees, keys.last())
    }
}

/// Splitting the moved proxies into chunks does not change the candidates.
pub proof fn all_candidates_append(
    trees: ColliderTrees,
    keys1: Seq<ColliderTreeProxyKey>,
    keys2: Seq<ColliderTreeProxyKey>,
)
    ensures
        all_candidates(trees, keys1 + keys2) == all_candidates(trees, keys1) + all_candidates(
            trees,
            keys2,
        ),
    decreases keys2.len(),
{
    if keys2.len() == 0 {
        assert(keys1 + keys2 =~= keys1);
        assert(all_candidates(trees, keys1) + all_candidates(trees, keys2) =~= all_candidates(
            trees,
            keys1,
        ));
    } else {
        all_candidates_append(trees, keys1, keys2.drop_last());
        assert((keys1 + keys2).drop_last() =~= keys1 + keys2.drop_last());
        assert(all_candidates(trees, keys1) + all_candidates(trees, keys2) =~= all_candidates(
            trees,
            keys1,
        ) + all_candidates(trees, keys2.drop_last()) + key_candidates(trees, keys2.last()));
    }
}

/// The pairs found for chunks of the moved proxies, joined in the order of the chunks, are pairs
/// found for all of them.
pub proof fn chunks_find_all<H: CollisionHooks>(
    trees: ColliderTrees,
    hooks: H,
    rules: PairRules,
    chunks: Seq<Seq<ColliderTreeProxyKey>>,
    found: Seq<Seq<(ColliderTreeProxyKey, ColliderTreeProxyKey)>>,
)
    requires
        chunks.len() == found.len(),
        forall|i: int|
            0 <= i < chunks.len() ==> pairs_found(
                hooks,
                rules,
                all_candidates(trees, #[trigger] chunks[i]),
                found[i],
            ),
    ensures
        pairs_found(hooks, rules, all_candidates(trees, chunks.flatten()), found.flatten()),
    decreases chunks.len(),
{
    if chunks.len() == 0 {
        lemma_none_found(hooks, rules);
    } else {
        let rest = chunks.drop_first();
        let rest_found = found.drop_first();
        assert forall|i: int| 0 <= i < rest.len() implies pairs_found(
            hooks,
            rules,
            all_candidates(trees, #[trigger] rest[i]),
            rest_found[i],
        ) by {
            assert(rest[i] == chunks[i + 1]);
        }
        chunks_find_all(trees, hooks, rules, rest, rest_found);
        all_candidates_append(trees, chunks[0], rest.flatten());
        pairs_found_append(
            hooks,
            rules,
            all_candidates(trees, chunks[0]),
            found[0],
            all_candidates(trees, rest.flatten()),
            rest_found.flatten(),
        );
    }
}

/// Adds the collision pairs that a moved proxy has in all trees.
pub fn query_trees<H: CollisionHooks>(
    trees: &ColliderTrees,
    proxy_key1: ColliderTreeProxyKey,
    proxy1: &ColliderTreeProxy,
    moved_proxies: &MovedProxies,
    hooks: &H,
    commands: &mut H::Commands,
    contact_graph: &ContactGraph,
    joint_graph: &JointGraph,
    pairs: &mut Vec<(ColliderTreeProxyKey, ColliderTreeProxyKey)>,
)
    requires
        trees.wf(),
        trees.roomy(),
        trees.has(proxy_key1),
        *proxy1 == trees.proxy(proxy_key1),
        moved_proxies.wf(),
        contact_graph.wf(),
    ensures
        old(pairs)@.is_prefix_of(final(pairs)@),
        pairs_asked(
            *hooks,
            rules_of(*moved_proxies, *contact_graph, *joint_graph, false),
            key_candidates(*trees, proxy_key1),
            final(pairs)@.skip(old(pairs)@.len() as int),
            *old(commands),
            *final(commands),
        ),
        pairs_found(
            *hooks,
            rules_of(*moved_proxies, *contact_graph, *joint_graph, false),
            key_candidates(*trees, proxy_key1),
            final(pairs)@.skip(old(pairs)@.len() as int),
        ),
        hooks_unneeded(
            rules_of(*moved_proxies, *contact_graph, *joint_graph, false),
            key_candidates(*trees, proxy_key1),
        ) ==> *final(commands) == *old(commands),
        forall|t: ColliderTreeType| query_exact(#[trigger] trees.tree(t), proxy1.aabb),
{
    let ghost rules = rules_of(*moved_proxies, *contact_graph, *joint_graph, false);
    let ghost n = pairs@.len() as int;
    // Query the dynamic tree.
    query_with(
        &trees.dynamic_tree,
        ColliderTreeType::Dynamic,
        proxy_key1,
        proxy1,
        moved_proxies,
        hooks,
        commands,
        contact_graph,
        joint_graph,
        false,
        pairs,
    );
    let ghost pairs1 = pairs@;
    let ghost commands1 = *commands;
    // Query the kinematic tree.
    query_with(
        &trees.kinematic_tree,
        ColliderTreeType::Kinematic,
        proxy_key1,
        proxy1,
        moved_proxies,
        hooks,
        commands,
        contact_graph,
        joint_graph,
        false,
        pairs,
    );
    let ghost pairs2 = pairs@;
    let ghost commands2 = *commands;
    let ghost candidates1 = type_candidates(*trees, proxy_key1, ColliderTreeType::Dynamic);
    let ghost candidates2 = type_candidates(*trees, proxy_key1, ColliderTreeType::Kinematic);
    let ghost candidates3 = type_candidates(*trees, proxy_key1, ColliderTreeType::Static);
    let ghost candidates4 = type_candidates(*trees, proxy_key1, ColliderTreeType::Standalone);
    proof {
        pairs_asked_append(
            *hooks,
            rules,
            candidates1,
            pairs1.skip(n),
            candidates2,
            pairs2.skip(pairs1.len() as int),
            *old(commands),
            commands1,
            commands2,
        );
        assert(pairs2.skip(n) =~= pairs1.skip(n) + pairs2.skip(pairs1.len() as int));
    }
    // Query the static tree, where static-static body collisions are skipped unless sensors are
    // involved.
    query_with(
        &trees.static_tree,
        ColliderTreeType::Static,
        proxy_key1,
        proxy1,
        moved_proxies,
        hooks,
        commands,
        contact_graph,
        joint_graph,
        false,
        pairs,
    );
    let ghost pairs3 = pairs@;
    let ghost commands3 = *commands;
    proof {
        pairs_asked_append(
            *hooks,
            rules,
            candidates1 + candidates2,
            pairs2.skip(n),
            candidates3,
            pairs3.skip(pairs2.len() as int),
            *old(commands),
            commands2,
            commands3,
        );
        assert(pairs3.skip(n) =~= pairs2.skip(n) + pairs3.skip(pairs2.len() as int));
    }
    // Query the standalone tree (colliders with no body).
    query_with(
        &trees.standalone_tree,
        ColliderTreeType::Standalone,
        proxy_key1,
        proxy1,
        moved_proxies,
        hooks,
        commands,
        contact_graph,
        joint_graph,
        false,
        pairs,
    );
    proof {
        pairs_asked_append(
            *hooks,
            rules,
            candidates1 + candidates2 + candidates3,
            pairs3.skip(n),
            candidates4,
            pairs@.skip(pairs3.len() as int),
            *old(commands),
            commands3,
            *commands,
        );
        assert(pairs@.skip(n) =~= pairs3.skip(n) + pairs@.skip(pairs3.len() as int));
        pairs_asked_found(
            *hooks,
            rules,
            key_candidates(*trees, proxy_key1),
            pairs@.skip(n),
            *old(commands),
            *commands,
        );
    }
}

/// Finds the collision pairs of a chunk of the moved proxies.
pub fn collect_chunk<H: CollisionHooks>(
    trees: &ColliderTrees,
    proxies: &[ColliderTreeProxyKey],
    moved_proxies: &MovedProxies,
    hooks: &H,
    commands: &mut H::Commands,
    contact_graph: &ContactGraph,
    joint_graph: &JointGraph,
) -> (pairs: Vec<(ColliderTreeProxyKey, ColliderTreeProxyKey)>)
    requires
        trees.wf(),
        trees.roomy(),
        forall|i: int| 0 <= i < proxies@.len() ==> trees.has(#[trigger] proxies@[i]),
        moved_proxies.wf(),
        contact_graph.wf(),
    ensures
        pairs_asked(
            *hooks,
            rules_of(*moved_proxies, *contact_graph, *joint_graph, false),
            all_candidates(*trees, proxies@),
            pairs@,
            *old(commands),
            *final(commands),
        ),
        pairs_found(
            *hooks,
            rules_of(*moved_proxies, *contact_graph, *joint_graph, false),
            all_candidates(*trees, proxies@),
            pairs@,
        ),
        hooks_unneeded(
            rules_of(*moved_proxies, *contact_graph, *joint_graph, false),
            all_candidates(*trees, proxies@),
        ) ==> *final(commands) == *old(commands),
        queries_exact(*trees, proxies@),
{
    let ghost rules = rules_of(*moved_proxies, *contact_graph, *joint_graph, false);
    let mut pairs: Vec<(ColliderTreeProxyKey, ColliderTreeProxyKey)> = Vec::new();
    let mut i: usize = 0;
    proof {
        lemma_none_asked(*hooks, rules, *commands);
        assert(pairs@ =~= Seq::empty());
        assert(proxies@.take(0) =~= Seq::<ColliderTreeProxyKey>::empty());
    }
    while i < proxies.len()
        invariant
            i <= proxies@.len(),
            trees.wf(),
            trees.roomy(),
            forall|j: int| 0 <= j < proxies@.len() ==> trees.has(#[trigger] proxies@[j]),
            moved_proxies.wf(),
            contact_graph.wf(),
            rules == rules_of(*moved_proxies, *contact_graph, *joint_graph, false),
            pairs_asked(
                *hooks,
                rules,
                all_candidates(*trees, proxies@.take(i as int)),
                pairs@,
                *old(commands),
                *commands,
            ),
            forall|j: int, t: ColliderTreeType|
                0 <= j < i ==> query_exact(
                    #[trigger] trees.tree(t),
                    trees.proxy(#[trigger] proxies@[j]).aabb,
                ),
        decreases proxies@.len() - i,
    {
        let proxy_key1: ColliderTreeProxyKey = proxies[i];
        assert(trees.has(proxies@[i as int]));
        match trees.get_proxy(proxy_key1) {
            Some(proxy1) => {
                let ghost before = pairs@;
                let ghost commands_before = *commands;
                query_trees(
                    trees,
                    proxy_key1,
                    proxy1,
                    moved_proxies,
                    hooks,
                    commands,
                    contact_graph,
                    joint_graph,
                    &mut pairs,
                );
                proof {
                    pairs_asked_append(
                        *hooks,
                        rules,
                        all_candidates(*trees, proxies@.take(i as int)),
                        before,
                        key_candidates(*trees, proxy_key1),
                        pairs@.skip(before.len() as int),
                        *old(commands),
                        commands_before,
                        *commands,
                    );
                    assert(pairs@ =~= before + pairs@.skip(before.len() as int));
                    assert(proxies@.take(i + 1).drop_last() =~= proxies@.take(i as int));
                }
            },
            None => {
                assert(false);
            },
        }
        i = i + 1;
    }
    proof {
        assert(proxies@.take(i as int) =~= proxies@);
        pairs_asked_found(
            *hooks,
            rules,
            all_candidates(*trees, proxies@),
            pairs@,
            *old(commands),
            *commands,
        );
    }
    pairs
}

/// The contact that is created for two proxies.
pub open spec fn contact_of(proxy1: ColliderTreeProxy, proxy2: ColliderTreeProxy) -> Contact {
    let flags = proxy1.flags.spec_union(proxy2.flags);
    Contact {
        edge: ContactEdge {
            collider1: proxy1.collider,
            collider2: proxy2.collider,
            body1: proxy1.body,
            body2: proxy2.body,
            contact_events: flags.contact_events,
        },
        pair: ContactPair {
            collider1: proxy1.collider,
            collider2: proxy2.collider,
            body1: proxy1.body,
            body2: proxy2.body,
            modify_contacts: flags.modify_contacts,
            generate_constraints: !flags.body_disabled && !flags.sensor,
        },
    }
}

/// The contacts after adding one for each of the given pairs, in their order.
pub open spec fn contacts_after(
    trees: ColliderTrees,
    contacts: Seq<Contact>,
    pairs: Seq<(ColliderTreeProxyKey, ColliderTreeProxyKey)>,
) -> Seq<Contact>
    decreases pairs.len(),
{
    if pairs.len() == 0 {
        contacts
    } else {
        contacts_with(
            contacts_after(trees, contacts, pairs.drop_last()),
            contact_of(trees.proxy(pairs.last().0), trees.proxy(pairs.last().1)),
        )
    }
}

/// Creates the contact of two proxies.
pub fn new_contact(proxy1: &ColliderTreeProxy, proxy2: &ColliderTreeProxy) -> (res: Contact)
    ensures
        res == contact_of(*proxy1, *proxy2),
{
    let flags_union = proxy1.flags.union(proxy2.flags);
    Contact {
        edge: ContactEdge {
            collider1: proxy1.collider,
            collider2: proxy2.collider,
            body1: proxy1.body,
            body2: proxy2.body,
            contact_events: flags_union.contact_events,
        },
        pair: ContactPair {
            collider1: proxy1.collider,
            collider2: proxy2.collider,
            body1: proxy1.body,
            body2: proxy2.body,
            modify_contacts: flags_union.modify_contacts,
            generate_constraints: !flags_union.body_disabled && !flags_union.sensor,
        },
    }
}

/// Joins the collision pairs of the chunks into a single list.
pub fn join_chunks(chunks: Vec<Vec<(ColliderTreeProxyKey, ColliderTreeProxyKey)>>) -> (pairs: Vec<
    (ColliderTreeProxyKey, ColliderTreeProxyKey),
>)
    ensures
        pairs@ == chunks@.map_values(
            |chunk: Vec<(ColliderTreeProxyKey, ColliderTreeProxyKey)>| chunk@,
        ).flatten(),
{
    let ghost view = |chunk: Vec<(ColliderTreeProxyKey, ColliderTreeProxyKey)>| chunk@;
    let mut pairs: Vec<(ColliderTreeProxyKey, ColliderTreeProxyKey)> = Vec::new();
    let mut i: usize = 0;
    proof {
        assert(chunks@.take(0).map_values(view) =~= Seq::empty());
    }
    while i < chunks.len()
        invariant
            i <= chunks.len(),
            view == (|chunk: Vec<(ColliderTreeProxyKey, ColliderTreeProxyKey)>| chunk@),
            pairs@ == chunks@.take(i as int).map_values(view).flatten(),
        decreases chunks.len() - i,
    {
        let ghost before = pairs@;
        let chunk: &Vec<(ColliderTreeProxyKey, ColliderTreeProxyKey)> = &chunks[i];
        let mut j: usize = 0;
        while j < chunk.len()
            invariant
                j <= chunk.len(),
                pairs@ == before + chunk@.take(j as int),
            decreases chunk.len() - j,
        {
            pairs.push(chunk[j]);
            proof {
                assert(before + chunk@.take(j + 1) =~= (before + chunk@.take(j as int)).push(
                    chunk@[j as int],
                ));
            }
            j = j + 1;
        }
        proof {
            assert(chunk@.take(j as int) =~= chunk@);
            let done = chunks@.take(i as int).map_values(view);
            assert(chunks@.take(i + 1).map_values(view) =~= done.push(chunk@));
            done.lemma_flatten_push(chunk@);
        }
        i = i + 1;
    }
    proof {
        assert(chunks@.take(i as int) =~= chunks@);
    }
    pairs
}

/// Adds the found collision pairs to the contact graph.
pub fn add_contacts(
    trees: &ColliderTrees,
    pairs: &Vec<(ColliderTreeProxyKey, ColliderTreeProxyKey)>,
    contact_graph: &mut ContactGraph,
)
    requires
        forall|i: int|
            0 <= i < pairs.len() ==> trees.has((#[trigger] pairs[i]).0) && trees.has(pairs[i].1),
        old(contact_graph).wf(),
    ensures
        final(contact_graph).wf(),
        final(contact_graph)@ == contacts_after(*trees, old(contact_graph)@, pairs@),
{
    let mut i: usize = 0;
    proof {
        assert(pairs@.take(0) =~= Seq::empty());
    }
    while i < pairs.len()
        invariant
            i <= pairs.len(),
            forall|j: int|
                0 <= j < pairs.len() ==> trees.has((#[trigger] pairs[j]).0) && trees.has(
                    pairs[j].1,
                ),
            contact_graph.wf(),
            contact_graph@ == contacts_after(
                *trees,
                old(contact_graph)@,
                pairs@.take(i as int),
            ),
        decreases pairs.len() - i,
    {
        let (proxy_key1, proxy_key2) = pairs[i];
        assert(trees.has(pairs[i as int].0) && trees.has(pairs[i as int].1));
        if let (Some(proxy1), Some(proxy2)) = (
            trees.get_proxy(proxy_key1),
            trees.get_proxy(proxy_key2),
        ) {
            contact_graph.add_contact(new_contact(proxy1, proxy2));
        }
        proof {
            assert(pairs@.take(i + 1).drop_last() =~= pairs@.take(i as int));
        }
        i = i + 1;
    }
    proof {
        assert(pairs@.take(i as int) =~= pairs@);
    }
}

/// The candidate that two proxies of the trees are.
pub open spec fn candidate_of(
    trees: ColliderTrees,
    key1: ColliderTreeProxyKey,
    key2: ColliderTreeProxyKey,
) -> PairCandidate {
    PairCandidate { key1, proxy1: trees.proxy(key1), key2, proxy2: trees.proxy(key2) }
}

/// Whether the box of a proxy in its tree intersects the box of a moved proxy.
pub open spec fn boxes_meet(
    trees: ColliderTrees,
    key1: ColliderTreeProxyKey,
    key2: ColliderTreeProxyKey,
) -> bool {
    let boxes = trees.tree(key2.spec_tree_type()).boxes();
    &&& boxes.contains_key(key2.spec_id())
    &&& aabb_intersects(boxes[key2.spec_id()], trees.proxy(key1).aabb)
}

/// Whether queries of the trees with the boxes of the given moved proxies are exact.
pub open spec fn queries_exact(trees: ColliderTrees, keys: Seq<ColliderTreeProxyKey>) -> bool {
    forall|i: int, t: ColliderTreeType|
        0 <= i < keys.len() ==> query_exact(
            #[trigger] trees.tree(t),
            trees.proxy(#[trigger] keys[i]).aabb,
        )
}

/// Every accepted pair is a candidate that the decision or the answer lets through.
proof fn lemma_accepted_sound(
    rules: PairRules,
    candidates: Seq<PairCandidate>,
    answers: Seq<bool>,
    i: int,
) -> (j: int)
    requires
        answers.len() == candidates.len(),
        0 <= i < accepted_pairs(rules, candidates, answers).len(),
    ensures
        0 <= j < candidates.len(),
        accepted_pairs(rules, candidates, answers)[i] == (candidates[j].key1, candidates[j].key2),
        decision_accepts(pair_decision(rules, candidates[j]), answers[j]),
    decreases candidates.len(),
{
    let before = accepted_pairs(rules, candidates.drop_last(), answers.drop_last());
    if i < before.len() {
        let j = lemma_accepted_sound(rules, candidates.drop_last(), answers.drop_last(), i);
        assert(candidates.drop_last()[j] == candidates[j]);
        assert(answers.drop_last()[j] == answers[j]);
        j
    } else {
        candidates.len() - 1
    }
}

/// Every candidate that the decision or the answer lets through is accepted.
proof fn lemma_accepted_complete(
    rules: PairRules,
    candidates: Seq<PairCandidate>,
    answers: Seq<bool>,
    j: int,
) -> (i: int)
    requires
        answers.len() == candidates.len(),
        0 <= j < candidates.len(),
        decision_accepts(pair_decision(rules, candidates[j]), answers[j]),
    ensures
        0 <= i < accepted_pairs(rules, candidates, answers).len(),
        accepted_pairs(rules, candidates, answers)[i] == (candidates[j].key1, candidates[j].key2),
    decreases candidates.len(),
{
    if j < candidates.len() - 1 {
        lemma_accepted_complete(rules, candidates.drop_last(), answers.drop_last(), j)
    } else {
        accepted_pairs(rules, candidates, answers).len() - 1
    }
}

/// Every candidate in a queried tree is a proxy whose box meets that of the moved proxy.
proof fn lemma_type_candidates_sound(
    trees: ColliderTrees,
    key1: ColliderTreeProxyKey,
    t: ColliderTreeType,
    j: int,
)
    requires
        trees.wf(),
        0 <= j < type_candidates(trees, key1, t).len(),
        query_exact(trees.tree(t), trees.proxy(key1).aabb),
    ensures
        ({
            let pair = type_candidates(trees, key1, t)[j];
            &&& pair == candidate_of(trees, key1, pair.key2)
            &&& trees.has(pair.key2)
            &&& boxes_meet(trees, key1, pair.key2)
        }),
{
    let tree = trees.tree(t);
    let primitives = tree_primitives(tree, trees.proxy(key1).aabb);
    let p = primitives[j];
    assert(primitives.contains(p));
    assert(tree.boxes().contains_key(p));
    tree.lemma_ids();
    assert(tree.proxies@.contains_key(p as int));
    proxy_key_round_trip(p, t);
}

/// Every proxy whose box meets that of the moved proxy is a candidate in its tree.
proof fn lemma_type_candidates_complete(
    trees: ColliderTrees,
    key1: ColliderTreeProxyKey,
    key2: ColliderTreeProxyKey,
) -> (j: int)
    requires
        query_exact(trees.tree(key2.spec_tree_type()), trees.proxy(key1).aabb),
        trees.tree(key2.spec_tree_type()).tight(),
        trees.tree(key2.spec_tree_type()).walkable(),
        boxes_meet(trees, key1, key2),
    ensures
        0 <= j < type_candidates(trees, key1, key2.spec_tree_type()).len(),
        type_candidates(trees, key1, key2.spec_tree_type())[j] == candidate_of(trees, key1, key2),
{
    let tree = trees.tree(key2.spec_tree_type());
    let primitives = tree_primitives(tree, trees.proxy(key1).aabb);
    let p = key2.spec_id();
    assert(tree.boxes().contains_key(p));
    assert(primitives.contains(p));
    proxy_key_parts(key2);
    choose|j: int| 0 <= j < primitives.len() && primitives[j] == p
}

/// Every candidate is a moved proxy with a proxy whose box meets its own.
proof fn lemma_all_candidates_sound(
    trees: ColliderTrees,
    keys: Seq<ColliderTreeProxyKey>,
    j: int,
)
    requires
        trees.wf(),
        queries_exact(trees, keys),
        0 <= j < all_candidates(trees, keys).len(),
    ensures
        ({
            let pair = all_candidates(trees, keys)[j];
            &&& keys.contains(pair.key1)
            &&& pair == candidate_of(trees, pair.key1, pair.key2)
            &&& trees.has(pair.key2)
            &&& boxes_meet(trees, pair.key1, pair.key2)
        }),
    decreases keys.len(),
{
    let before = all_candidates(trees, keys.drop_last());
    let pair = all_candidates(trees, keys)[j];
    if j < before.len() {
        assert(queries_exact(trees, keys.drop_last())) by {
            assert forall|i: int, t: ColliderTreeType|
                0 <= i < keys.drop_last().len() implies query_exact(
                #[trigger] trees.tree(t),
                trees.proxy(#[trigger] keys.drop_last()[i]).aabb,
            ) by {
                assert(keys.drop_last()[i] == keys[i]);
            }
        }
        lemma_all_candidates_sound(trees, keys.drop_last(), j);
        let i = choose|i: int| 0 <= i < keys.drop_last().len() && keys.drop_last()[i] == pair.key1;
        assert(keys[i] == pair.key1);
    } else {
        let key1 = keys.last();
        assert(keys[keys.len() - 1] == key1);
        let k = j - before.len();
        let c1 = type_candidates(trees, key1, ColliderTreeType::Dynamic);
        let c2 = type_candidates(trees, key1, ColliderTreeType::Kinematic);
        let c3 = type_candidates(trees, key1, ColliderTreeType::Static);
        let c4 = type_candidates(trees, key1, ColliderTreeType::Standalone);
        assert(pair == key_candidates(trees, key1)[k]);
        let (t, m) = if k < c1.len() {
            (ColliderTreeType::Dynamic, k)
        } else if k < c1.len() + c2.len() {
            (ColliderTreeType::Kinematic, k - c1.len())
        } else if k < c1.len() + c2.len() + c3.len() {
            (ColliderTreeType::Static, k - c1.len() - c2.len())
        } else {
            (ColliderTreeType::Standalone, k - c1.len() - c2.len() - c3.len())
        };
        assert(pair == type_candidates(trees, key1, t)[m]);
        assert(query_exact(trees.tree(t), trees.proxy(keys[keys.len() - 1]).aabb));
        lemma_type_candidates_sound(trees, key1, t, m);
    }
}

/// Every moved proxy with a proxy whose box meets its own is a candidate.
proof fn lemma_all_candidates_complete(
    trees: ColliderTrees,
    keys: Seq<ColliderTreeProxyKey>,
    i: int,
    key2: ColliderTreeProxyKey,
) -> (j: int)
    requires
        queries_exact(trees, keys),
        0 <= i < keys.len(),
        trees.tree(key2.spec_tree_type()).tight(),
        trees.tree(key2.spec_tree_type()).walkable(),
        boxes_meet(trees, keys[i], key2),
    ensures
        0 <= j < all_candidates(trees, keys).len(),
        all_candidates(trees, keys)[j] == candidate_of(trees, keys[i], key2),
    decreases keys.len(),
{
    if i < keys.len() - 1 {
        assert(queries_exact(trees, keys.drop_last())) by {
            assert forall|i: int, t: ColliderTreeType|
                0 <= i < keys.drop_last().len() implies query_exact(
                #[trigger] trees.tree(t),
                trees.proxy(#[trigger] keys.drop_last()[i]).aabb,
            ) by {
                assert(keys.drop_last()[i] == keys[i]);
            }
        }
        lemma_all_candidates_complete(trees, keys.drop_last(), i, key2)
    } else {
        let key1 = keys[i];
        let t = key2.spec_tree_type();
        assert(query_exact(trees.tree(t), trees.proxy(keys[i]).aabb));
        let m = lemma_type_candidates_complete(trees, key1, key2);
        let before = all_candidates(trees, keys.drop_last()).len();
        let c1 = type_candidates(trees, key1, ColliderTreeType::Dynamic);
        let c2 = type_candidates(trees, key1, ColliderTreeType::Kinematic);
        let c3 = type_candidates(trees, key1, ColliderTreeType::Static);
        let k = match t {
            ColliderTreeType::Dynamic => m,
            ColliderTreeType::Kinematic => c1.len() + m,
            ColliderTreeType::Static => c1.len() + c2.len() + m,
            ColliderTreeType::Standalone => c1.len() + c2.len() + c3.len() + m,
        };
        assert(key_candidates(trees, key1)[k] == type_candidates(trees, key1, t)[m]);
        before + k
    }
}

/// Adding contacts for pairs keeps the contacts that are there and keeps them distinct, leaves
/// each of the pairs in contact, and adds no contact but those of the pairs.
pub proof fn contacts_after_members(
    trees: ColliderTrees,
    contacts: Seq<Contact>,
    pairs: Seq<(ColliderTreeProxyKey, ColliderTreeProxyKey)>,
)
    requires
        contacts_distinct(contacts),
    ensures
        contacts_distinct(contacts_after(trees, contacts, pairs)),
        contacts.is_prefix_of(contacts_after(trees, contacts, pairs)),
        forall|key: u64| #[trigger]
            contacts_have(contacts, key) ==> contacts_have(
                contacts_after(trees, contacts, pairs),
                key,
            ),
        forall|i: int|
            0 <= i < pairs.len() ==> contacts_have(
                contacts_after(trees, contacts, pairs),
                contact_of(trees.proxy((#[trigger] pairs[i]).0), trees.proxy(pairs[i].1)).key(),
            ),
        forall|i: int|
            contacts.len() <= i < contacts_after(trees, contacts, pairs).len() ==> exists|j: int|
                0 <= j < pairs.len() && #[trigger] contacts_after(trees, contacts, pairs)[i]
                    == contact_of(trees.proxy((#[trigger] pairs[j]).0), trees.proxy(pairs[j].1)),
    decreases pairs.len(),
{
    if pairs.len() > 0 {
        let last = contact_of(trees.proxy(pairs.last().0), trees.proxy(pairs.last().1));
        let before = contacts_after(trees, contacts, pairs.drop_last());
        let after = contacts_after(trees, contacts, pairs);
        contacts_after_members(trees, contacts, pairs.drop_last());
        contacts_with_members(before, last);
        assert forall|i: int| 0 <= i < pairs.len() implies contacts_have(
            after,
            contact_of(trees.proxy((#[trigger] pairs[i]).0), trees.proxy(pairs[i].1)).key(),
        ) by {
            if i < pairs.len() - 1 {
                assert(pairs.drop_last()[i] == pairs[i]);
            }
        }
        assert forall|i: int| contacts.len() <= i < after.len() implies exists|j: int|
            0 <= j < pairs.len() && #[trigger] after[i] == contact_of(
                trees.proxy((#[trigger] pairs[j]).0),
                trees.proxy(pairs[j].1),
            ) by {
            if i < before.len() {
                assert(after[i] == before[i]);
                let j = choose|j: int|
                    0 <= j < pairs.drop_last().len() && before[i] == contact_of(
                        trees.proxy((#[trigger] pairs.drop_last()[j]).0),
                        trees.proxy(pairs.drop_last()[j].1),
                    );
                assert(pairs[j] == pairs.drop_last()[j]);
            } else {
                assert(pairs[pairs.len() - 1] == pairs.last());
            }
        }
    }
}

/// Whether every pair of a moved proxy and a proxy whose box meets its own is in contact, if
/// the pair collides. Trees with too many levels, and trees with boxes that do not fit tightly,
/// are left out.
pub open spec fn contacts_complete<H: CollisionHooks>(
    trees: ColliderTrees,
    hooks: H,
    rules: PairRules,
    contacts: Seq<Contact>,
) -> bool {
    forall|key1: ColliderTreeProxyKey, key2: ColliderTreeProxyKey|
        rules.moved.contains(key1) && #[trigger] boxes_meet(trees, key1, key2) && trees.tree(
            key2.spec_tree_type(),
        ).tight() && trees.tree(key2.spec_tree_type()).walkable() && pair_collides(
            hooks,
            rules,
            candidate_of(trees, key1, key2),
        ) ==> contacts_have(
            contacts,
            contact_of(trees.proxy(key1), trees.proxy(key2)).key(),
        )
}

/// Whether a contact is that of a moved proxy and a proxy whose box meets its own, and the
/// pair can be a collision pair.
pub open spec fn contact_sound<H: CollisionHooks>(
    trees: ColliderTrees,
    hooks: H,
    rules: PairRules,
    contact: Contact,
) -> bool {
    exists|key1: ColliderTreeProxyKey, key2: ColliderTreeProxyKey|
        rules.moved.contains(key1) && trees.has(key2) && #[trigger] boxes_meet(trees, key1, key2)
            && pair_may_collide(hooks, rules, candidate_of(trees, key1, key2)) && contact
            == contact_of(trees.proxy(key1), trees.proxy(key2))
}

/// Finds the collision pairs of all moved proxies, and adds a contact for each of them.
pub fn collect_collision_pairs<H: CollisionHooks>(
    trees: &ColliderTrees,
    moved_proxies: &MovedProxies,
    hooks: &H,
    commands: &mut H::Commands,
    contact_graph: &mut ContactGraph,
    joint_graph: &JointGraph,
)
    requires
        trees.wf(),
        trees.roomy(),
        forall|i: int| 0 <= i < moved_proxies@.len() ==> trees.has(#[trigger] moved_proxies@[i]),
        moved_proxies.wf(),
        old(contact_graph).wf(),
    ensures
        final(contact_graph).wf(),
        exists|pairs: Seq<(ColliderTreeProxyKey, ColliderTreeProxyKey)>| #[trigger]
            pairs_asked(
                *hooks,
                rules_of(*moved_proxies, *old(contact_graph), *joint_graph, false),
                all_candidates(*trees, moved_proxies@),
                pairs,
                *old(commands),
                *final(commands),
            ) && final(contact_graph)@ == contacts_after(*trees, old(contact_graph)@, pairs),
        hooks_unneeded(
            rules_of(*moved_proxies, *old(contact_graph), *joint_graph, false),
            all_candidates(*trees, moved_proxies@),
        ) ==> *final(commands) == *old(commands),
        old(contact_graph)@.is_prefix_of(final(contact_graph)@),
        contacts_complete(
            *trees,
            *hooks,
            rules_of(*moved_proxies, *old(contact_graph), *joint_graph, false),
            final(contact_graph)@,
        ),
        forall|i: int|
            old(contact_graph)@.len() <= i < final(contact_graph)@.len() ==> contact_sound(
                *trees,
                *hooks,
                rules_of(*moved_proxies, *old(contact_graph), *joint_graph, false),
                #[trigger] final(contact_graph)@[i],
            ),
{
    let ghost rules = rules_of(*moved_proxies, *contact_graph, *joint_graph, false);
    let chunk = collect_chunk(
        trees,
        moved_proxies.proxies(),
        moved_proxies,
        hooks,
        commands,
        contact_graph,
        joint_graph,
    );
    let ghost found = chunk@;
    let mut chunks: Vec<Vec<(ColliderTreeProxyKey, ColliderTreeProxyKey)>> = Vec::new();
    chunks.push(chunk);
    let ghost views = chunks@.map_values(
        |chunk: Vec<(ColliderTreeProxyKey, ColliderTreeProxyKey)>| chunk@,
    );
    let pairs = join_chunks(chunks);
    proof {
        assert(views =~= seq![found]);
        views.lemma_flatten_one_element();
        assert(pairs@ == found);
        lemma_pairs_sound(*trees, *hooks, rules, pairs@);
    }
    add_contacts(trees, &pairs, contact_graph);
    proof {
        old(contact_graph).lemma_distinct();
        contacts_after_members(*trees, old(contact_graph)@, pairs@);
        lemma_contacts_complete(*trees, *hooks, rules, pairs@, contact_graph@);
        assert forall|i: int|
            old(contact_graph)@.len() <= i < contact_graph@.len() implies contact_sound(
            *trees,
            *hooks,
            rules,
            #[trigger] contact_graph@[i],
        ) by {
            let j = choose|j: int|
                0 <= j < pairs@.len() && contact_graph@[i] == contact_of(
                    trees.proxy((#[trigger] pairs@[j]).0),
                    trees.proxy(pairs@[j].1),
                );
            assert(boxes_meet(*trees, pairs@[j].0, pairs@[j].1));
        }
    }
}

/// The pairs found for the moved proxies are pairs of proxies whose boxes meet.
proof fn lemma_pairs_sound<H: CollisionHooks>(
    trees: ColliderTrees,
    hooks: H,
    rules: PairRules,
    pairs: Seq<(ColliderTreeProxyKey, ColliderTreeProxyKey)>,
)
    requires
        trees.wf(),
        queries_exact(trees, rules.moved),
        forall|i: int| 0 <= i < rules.moved.len() ==> trees.has(#[trigger] rules.moved[i]),
        pairs_found(hooks, rules, all_candidates(trees, rules.moved), pairs),
    ensures
        forall|i: int|
            0 <= i < pairs.len() ==> {
                &&& trees.has((#[trigger] pairs[i]).0)
                &&& trees.has(pairs[i].1)
                &&& rules.moved.contains(pairs[i].0)
                &&& boxes_meet(trees, pairs[i].0, pairs[i].1)
                &&& pair_may_collide(
                    hooks,
                    rules,
                    candidate_of(trees, pairs[i].0, pairs[i].1),
                )
            },
{
    let candidates = all_candidates(trees, rules.moved);
    let answers = choose|answers: Seq<bool>|
        #![trigger hooks_may_give(hooks, rules, candidates, answers)]
        hooks_may_give(hooks, rules, candidates, answers) && pairs == accepted_pairs(
            rules,
            candidates,
            answers,
        );
    assert forall|i: int| 0 <= i < pairs.len() implies {
        &&& trees.has((#[trigger] pairs[i]).0)
        &&& trees.has(pairs[i].1)
        &&& rules.moved.contains(pairs[i].0)
        &&& boxes_meet(trees, pairs[i].0, pairs[i].1)
        &&& pair_may_collide(hooks, rules, candidate_of(trees, pairs[i].0, pairs[i].1))
    } by {
        let j = lemma_accepted_sound(rules, candidates, answers, i);
        lemma_all_candidates_sound(trees, rules.moved, j);
        let k = choose|k: int|
            0 <= k < rules.moved.len() && rules.moved[k] == candidates[j].key1;
        assert(trees.has(rules.moved[k]));
    }
}

/// Contacts for the pairs found for the moved proxies are complete.
proof fn lemma_contacts_complete<H: CollisionHooks>(
    trees: ColliderTrees,
    hooks: H,
    rules: PairRules,
    pairs: Seq<(ColliderTreeProxyKey, ColliderTreeProxyKey)>,
    contacts: Seq<Contact>,
)
    requires
        queries_exact(trees, rules.moved),
        pairs_found(hooks, rules, all_candidates(trees, rules.moved), pairs),
        forall|i: int|
            0 <= i < pairs.len() ==> contacts_have(
                contacts,
                contact_of(trees.proxy((#[trigger] pairs[i]).0), trees.proxy(pairs[i].1)).key(),
            ),
    ensures
        contacts_complete(trees, hooks, rules, contacts),
{
    let candidates = all_candidates(trees, rules.moved);
    let answers = choose|answers: Seq<bool>|
        #![trigger hooks_may_give(hooks, rules, candidates, answers)]
        hooks_may_give(hooks, rules, candidates, answers) && pairs == accepted_pairs(
            rules,
            candidates,
            answers,
        );
    assert forall|key1: ColliderTreeProxyKey, key2: ColliderTreeProxyKey|
        rules.moved.contains(key1) && #[trigger] boxes_meet(trees, key1, key2) && trees.tree(
            key2.spec_tree_type(),
        ).tight() && trees.tree(key2.spec_tree_type()).walkable() && pair_collides(
            hooks,
            rules,
            candidate_of(trees, key1, key2),
        ) implies contacts_have(
        contacts,
        contact_of(trees.proxy(key1), trees.proxy(key2)).key(),
    ) by {
        let i = choose|i: int| 0 <= i < rules.moved.len() && rules.moved[i] == key1;
        let j = lemma_all_candidates_complete(trees, rules.moved, i, key2);
        let k = lemma_accepted_complete(rules, candidates, answers, j);
        assert(pairs[k] == (key1, key2));
    }
}

/// Of two different keys, exactly one is the greater one.
pub proof fn key_greater_total(key1: ColliderTreeProxyKey, key2: ColliderTreeProxyKey)
    ensures
        key1 != key2 ==> key_greater(key1, key2) != key_greater(key2, key1),
        key1 == key2 ==> !key_greater(key1, key2),
{
    broadcast use proxy_key_ext;

    proxy_key_parts(key1);
    proxy_key_parts(key2);
    tree_type_body_round_trip(key1.spec_tree_type(), None);
    tree_type_body_round_trip(key2.spec_tree_type(), None);
}

/// Whether a contact is allowed does not depend on which of the two proxies is named first.
pub proof fn contact_allowed_symmetric(
    rules: PairRules,
    proxy1: ColliderTreeProxy,
    proxy2: ColliderTreeProxy,
)
    ensures
        contact_allowed(rules, proxy1, proxy2) == contact_allowed(rules, proxy2, proxy1),
{
    contacts_have_unordered(rules.contacts, proxy1.collider.index, proxy2.collider.index);
    if proxy1.body is Some && proxy2.body is Some {
        joints_disable_symmetric(rules.joints, proxy1.body->0, proxy2.body->0);
    }
}

/// Whether a pair is allowed does not depend on which of the two proxies is named first.
pub proof fn pair_allowed_symmetric(rules: PairRules, pair: PairCandidate)
    ensures
        pair_allowed(rules, pair) == pair_allowed(rules, pair.swapped()),
{
    contact_allowed_symmetric(rules, pair.proxy1, pair.proxy2);
}

/// Two moved proxies that are no sensors are handled by exactly one of their two queries if the
/// pair is allowed, and by neither otherwise.
pub proof fn moved_pair_handled_once(rules: PairRules, pair: PairCandidate)
    requires
        pair.key1 != pair.key2,
        rules.moved.contains(pair.key1),
        rules.moved.contains(pair.key2),
        !pair.proxy1.flags.sensor,
        !pair.proxy2.flags.sensor,
    ensures
        pair_allowed(rules, pair) ==> (pair_decision(rules, pair) == PairDecision::Skip) != (
        pair_decision(rules, pair.swapped()) == PairDecision::Skip),
        !pair_allowed(rules, pair) ==> pair_decision(rules, pair) == PairDecision::Skip
            && pair_decision(rules, pair.swapped()) == PairDecision::Skip,
{
    key_greater_total(pair.key1, pair.key2);
    pair_allowed_symmetric(rules, pair);
}

/// A moved sensor handles every pair with another proxy if a contact is allowed, whether or
/// not the other proxy has moved, and whether or not the two are static.
pub proof fn sensor_pair_handled(rules: PairRules, pair: PairCandidate)
    requires
        pair.key1 != pair.key2,
        pair.proxy1.flags.sensor,
    ensures
        pair_decision(rules, pair) != PairDecision::Skip <==> contact_allowed(
            rules,
            pair.proxy1,
            pair.proxy2,
        ),
{
}

/// A proxy that has not moved is left to the query of the moved one.
pub proof fn unmoved_pair_handled(rules: PairRules, pair: PairCandidate)
    requires
        pair.key1 != pair.key2,
        !rules.moved.contains(pair.key2),
    ensures
        pair_decision(rules, pair) != PairDecision::Skip <==> pair_allowed(rules, pair),
{
}

/// A proxy collides neither with itself nor with a proxy of the same body, nor with one in a
/// layer that it does not interact with, nor with one whose body is joined to its own by a
/// joint that disables contacts.
pub proof fn filtered_pair_skipped(rules: PairRules, pair: PairCandidate)
    requires
        pair.key1 == pair.key2 || pair.proxy1.body == pair.proxy2.body || !layers_interact(
            pair.proxy1.layers,
            pair.proxy2.layers,
        ) || (pair.proxy1.body is Some && pair.proxy2.body is Some && joints_disable(
            rules.joints,
            pair.proxy1.body->0,
            pair.proxy2.body->0,
        )),
    ensures
        pair_decision(rules, pair) == PairDecision::Skip,
{
}

/// Two static proxies collide only if at least one of them is a sensor, unless the rules let
/// static pairs through.
pub proof fn static_pair_needs_sensor(rules: PairRules, pair: PairCandidate)
    requires
        !rules.static_pairs,
        pair.key1.spec_tree_type() == ColliderTreeType::Static,
        pair.key2.spec_tree_type() == ColliderTreeType::Static,
        pair_decision(rules, pair) != PairDecision::Skip,
    ensures
        pair.proxy1.flags.sensor || pair.proxy2.flags.sensor,
{
}

/// Without hooks of the user, a pair collides exactly if it is not skipped.
pub proof fn unhooked_pair_collides(rules: PairRules, pair: PairCandidate)
    ensures
        pair_collides((), rules, pair) <==> pair_decision(rules, pair) != PairDecision::Skip,
{
    if hooks_may_answer((), pair.proxy1.collider, pair.proxy2.collider, false) {
        no_hooks_let_pass(pair.proxy1.collider, pair.proxy2.collider, false);
    }
}

/// If the contacts are complete, then two moved proxies whose boxes meet are in contact, if the
/// pair is allowed and the hooks, where they are asked, do not refuse it.
pub proof fn moved_pair_in_contact<H: CollisionHooks>(
    trees: ColliderTrees,
    hooks: H,
    rules: PairRules,
    contacts: Seq<Contact>,
    key1: ColliderTreeProxyKey,
    key2: ColliderTreeProxyKey,
)
    requires
        contacts_complete(trees, hooks, rules, contacts),
        key1 != key2,
        rules.moved.contains(key1),
        rules.moved.contains(key2),
        boxes_meet(trees, key1, key2),
        boxes_meet(trees, key2, key1),
        trees.tree(key1.spec_tree_type()).tight(),
        trees.tree(key1.spec_tree_type()).walkable(),
        trees.tree(key2.spec_tree_type()).tight(),
        trees.tree(key2.spec_tree_type()).walkable(),
        pair_allowed(rules, candidate_of(trees, key1, key2)),
        trees.proxy(key1).flags.custom_filter || trees.proxy(key2).flags.custom_filter
            ==> !hooks_may_answer(
            hooks,
            trees.proxy(key1).collider,
            trees.proxy(key2).collider,
            false,
        ) && !hooks_may_answer(
            hooks,
            trees.proxy(key2).collider,
            trees.proxy(key1).collider,
            false,
        ),
    ensures
        contacts_have(
            contacts,
            pair_key_bits(trees.proxy(key1).collider.index, trees.proxy(key2).collider.index),
        ),
{
    key_greater_total(key1, key2);
    pair_allowed_symmetric(rules, candidate_of(trees, key1, key2));
    contacts_have_unordered(
        contacts,
        trees.proxy(key1).collider.index,
        trees.proxy(key2).collider.index,
    );
    assert(pair_collides(hooks, rules, candidate_of(trees, key1, key2)) || pair_collides(
        hooks,
        rules,
        candidate_of(trees, key2, key1),
    ));
}

/// Whether whatever overlaps the one box overlaps the other.
pub open spec fn box_covers(outer: Aabb, inner: Aabb) -> bool {
    forall|other: Aabb| #[trigger]
        aabb_intersects(inner, other) ==> aabb_intersects(outer, other)
}

/// Whether every proxy has a box in its tree that covers its bounding box.
pub open spec fn boxes_cover(trees: ColliderTrees) -> bool {
    forall|key: ColliderTreeProxyKey| #[trigger]
        trees.has(key) ==> trees.box_map().contains_key(key) && box_covers(
            trees.box_map()[key],
            trees.proxy(key).aabb,
        )
}

/// If the contacts are complete and the boxes in the trees cover those of the proxies, then a
/// moved proxy is in contact with every proxy whose bounding box overlaps its own, whether or not
/// that has moved, if the pair is allowed and the hooks, where they are asked, do not refuse it.
pub proof fn overlapping_pair_in_contact<H: CollisionHooks>(
    trees: ColliderTrees,
    hooks: H,
    rules: PairRules,
    contacts: Seq<Contact>,
    key1: ColliderTreeProxyKey,
    key2: ColliderTreeProxyKey,
)
    requires
        contacts_complete(trees, hooks, rules, contacts),
        boxes_cover(trees),
        key1 != key2,
        trees.has(key1),
        trees.has(key2),
        rules.moved.contains(key1),
        aabb_intersects(trees.proxy(key1).aabb, trees.proxy(key2).aabb),
        aabb_intersects(trees.proxy(key2).aabb, trees.proxy(key1).aabb),
        trees.tree(key1.spec_tree_type()).tight(),
        trees.tree(key1.spec_tree_type()).walkable(),
        trees.tree(key2.spec_tree_type()).tight(),
        trees.tree(key2.spec_tree_type()).walkable(),
        pair_allowed(rules, candidate_of(trees, key1, key2)),
        trees.proxy(key1).flags.custom_filter || trees.proxy(key2).flags.custom_filter
            ==> !hooks_may_answer(
            hooks,
            trees.proxy(key1).collider,
            trees.proxy(key2).collider,
            false,
        ) && !hooks_may_answer(
            hooks,
            trees.proxy(key2).collider,
            trees.proxy(key1).collider,
            false,
        ),
    ensures
        contacts_have(
            contacts,
            pair_key_bits(trees.proxy(key1).collider.index, trees.proxy(key2).collider.index),
        ),
{
    assert(trees.box_map().contains_key(key1) && trees.box_map().contains_key(key2));
    assert(boxes_meet(trees, key1, key2));
    assert(boxes_meet(trees, key2, key1));
    if rules.moved.contains(key2) {
        moved_pair_in_contact(trees, hooks, rules, contacts, key1, key2);
    } else {
        assert(pair_collides(hooks, rules, candidate_of(trees, key1, key2)));
    }
}

/// Candidates with different keys are accepted at most once each.
proof fn lemma_accepted_distinct(
    rules: PairRules,
    candidates: Seq<PairCandidate>,
    answers: Seq<bool>,
)
    requires
        answers.len() == candidates.len(),
        forall|i: int, j: int|
            0 <= i < j < candidates.len() ==> (#[trigger] candidates[i]).key2
                != (#[trigger] candidates[j]).key2,
    ensures
        accepted_pairs(rules, candidates, answers).no_duplicates(),
    decreases candidates.len(),
{
    if candidates.len() > 0 {
        let rest = candidates.drop_last();
        let before = accepted_pairs(rules, rest, answers.drop_last());
        assert forall|i: int, j: int| 0 <= i < j < rest.len() implies (#[trigger] rest[i]).key2
            != (#[trigger] rest[j]).key2 by {
            assert(candidates[i] == rest[i] && candidates[j] == rest[j]);
        }
        lemma_accepted_distinct(rules, rest, answers.drop_last());
        let last = (candidates.last().key1, candidates.last().key2);
        assert forall|i: int| 0 <= i < before.len() implies before[i] != last by {
            let j = lemma_accepted_sound(rules, rest, answers.drop_last(), i);
            assert(candidates[j] == rest[j]);
            assert(candidates[j].key2 != candidates[candidates.len() - 1].key2);
        }
    }
}

/// The query for a moved proxy finds a proxy whose box meets its own exactly once if the pair
/// collides, and not at all if the pair is skipped.
proof fn lemma_found_in_tree<H: CollisionHooks>(
    trees: ColliderTrees,
    hooks: H,
    rules: PairRules,
    key1: ColliderTreeProxyKey,
    key2: ColliderTreeProxyKey,
    pairs: Seq<(ColliderTreeProxyKey, ColliderTreeProxyKey)>,
)
    requires
        trees.wf(),
        query_exact(trees.tree(key2.spec_tree_type()), trees.proxy(key1).aabb),
        pairs_found(hooks, rules, type_candidates(trees, key1, key2.spec_tree_type()), pairs),
        trees.tree(key2.spec_tree_type()).tight(),
        trees.tree(key2.spec_tree_type()).walkable(),
        boxes_meet(trees, key1, key2),
    ensures
        pairs.no_duplicates(),
        pair_collides(hooks, rules, candidate_of(trees, key1, key2)) ==> pairs.contains(
            (key1, key2),
        ),
        pair_decision(rules, candidate_of(trees, key1, key2)) == PairDecision::Skip
            ==> !pairs.contains((key1, key2)),
{
    let t = key2.spec_tree_type();
    let candidates = type_candidates(trees, key1, t);
    let answers = choose|answers: Seq<bool>|
        #![trigger hooks_may_give(hooks, rules, candidates, answers)]
        hooks_may_give(hooks, rules, candidates, answers) && pairs == accepted_pairs(
            rules,
            candidates,
            answers,
        );
    let primitives = tree_primitives(trees.tree(t), trees.proxy(key1).aabb);
    assert forall|i: int, j: int| 0 <= i < j < candidates.len() implies (
    #[trigger] candidates[i]).key2 != (#[trigger] candidates[j]).key2 by {
        assert(trees.tree(t).wf());
        trees.tree(t).lemma_ids();
        assert(primitives.contains(primitives[i]) && primitives.contains(primitives[j]));
        proxy_key_round_trip(primitives[i], t);
        proxy_key_round_trip(primitives[j], t);
    }
    lemma_accepted_distinct(rules, candidates, answers);
    if pair_collides(hooks, rules, candidate_of(trees, key1, key2)) {
        let j = lemma_type_candidates_complete(trees, key1, key2);
        let k = lemma_accepted_complete(rules, candidates, answers, j);
        assert(pairs[k] == (key1, key2));
    }
    if pair_decision(rules, candidate_of(trees, key1, key2)) == PairDecision::Skip {
        assert forall|i: int| 0 <= i < pairs.len() implies pairs[i] != (key1, key2) by {
            let j = lemma_accepted_sound(rules, candidates, answers, i);
            lemma_type_candidates_sound(trees, key1, t, j);
        }
    }
}

/// Of the two queries for two moved proxies that are no sensors and whose boxes meet, the one for
/// the proxy with the smaller key finds the pair, exactly once, and the other one does not, if
/// the pair is allowed and the hooks, where they are asked, do not refuse it.
///
/// `pairs1` and `pairs2` are what the query for the one proxy finds in the tree of the other.
pub proof fn moved_pair_found_once<H: CollisionHooks>(
    trees: ColliderTrees,
    hooks: H,
    rules: PairRules,
    key1: ColliderTreeProxyKey,
    key2: ColliderTreeProxyKey,
    pairs1: Seq<(ColliderTreeProxyKey, ColliderTreeProxyKey)>,
    pairs2: Seq<(ColliderTreeProxyKey, ColliderTreeProxyKey)>,
)
    requires
        trees.wf(),
        key1 != key2,
        rules.moved.contains(key1),
        rules.moved.contains(key2),
        !trees.proxy(key1).flags.sensor,
        !trees.proxy(key2).flags.sensor,
        pair_allowed(rules, candidate_of(trees, key1, key2)),
        boxes_meet(trees, key1, key2),
        boxes_meet(trees, key2, key1),
        trees.tree(key1.spec_tree_type()).tight(),
        trees.tree(key1.spec_tree_type()).walkable(),
        trees.tree(key2.spec_tree_type()).tight(),
        trees.tree(key2.spec_tree_type()).walkable(),
        trees.proxy(key1).flags.custom_filter || trees.proxy(key2).flags.custom_filter
            ==> !hooks_may_answer(
            hooks,
            trees.proxy(key1).collider,
            trees.proxy(key2).collider,
            false,
        ) && !hooks_may_answer(
            hooks,
            trees.proxy(key2).collider,
            trees.proxy(key1).collider,
            false,
        ),
        query_exact(trees.tree(key2.spec_tree_type()), trees.proxy(key1).aabb),
        pairs_found(hooks, rules, type_candidates(trees, key1, key2.spec_tree_type()), pairs1),
        query_exact(trees.tree(key1.spec_tree_type()), trees.proxy(key2).aabb),
        pairs_found(hooks, rules, type_candidates(trees, key2, key1.spec_tree_type()), pairs2),
    ensures
        pairs1.no_duplicates(),
        pairs2.no_duplicates(),
        pairs1.contains((key1, key2)) <==> key_greater(key2, key1),
        pairs2.contains((key2, key1)) <==> key_greater(key1, key2),
        pairs1.contains((key1, key2)) != pairs2.contains((key2, key1)),
{
    key_greater_total(key1, key2);
    pair_allowed_symmetric(rules, candidate_of(trees, key1, key2));
    lemma_found_in_tree(trees, hooks, rules, key1, key2, pairs1);
    lemma_found_in_tree(trees, hooks, rules, key2, key1, pairs2);
}

/// The rules of a broad phase are made of the moved proxies, the contacts and the joints as they
/// are.
pub proof fn rules_are_what_they_are_made_of(
    moved: MovedProxies,
    contact_graph: ContactGraph,
    joint_graph: JointGraph,
    static_pairs: bool,
)
    ensures
        rules_of(moved, contact_graph, joint_graph, static_pairs).moved == moved@,
        rules_of(moved, contact_graph, joint_graph, static_pairs).contacts == contact_graph@,
        rules_of(moved, contact_graph, joint_graph, static_pairs).joints == joint_graph@,
        rules_of(moved, contact_graph, joint_graph, static_pairs).static_pairs == static_pairs,
{
}

/// A contact between two proxies is allowed exactly if some layer of each is one with which the
/// other can interact, their bodies differ, where no body differs from every body, no contact is
/// between their two colliders, and no joint that disables contacts is between their two bodies.
pub proof fn contact_allowed_unless_ruled_out(
    rules: PairRules,
    proxy1: ColliderTreeProxy,
    proxy2: ColliderTreeProxy,
)
    ensures
        contact_allowed(rules, proxy1, proxy2) <==> {
            &&& exists|i: u32|
                i < 32 && (#[trigger] (proxy1.layers.memberships.0 >> i)) & 1 == 1 && (
                proxy2.layers.filters.0 >> i) & 1 == 1
            &&& exists|i: u32|
                i < 32 && (#[trigger] (proxy2.layers.memberships.0 >> i)) & 1 == 1 && (
                proxy1.layers.filters.0 >> i) & 1 == 1
            &&& proxy1.body is None ==> proxy2.body is Some
            &&& proxy1.body is Some && proxy2.body is Some ==> proxy1.body->0 != proxy2.body->0
            &&& forall|i: int|
                0 <= i < rules.contacts.len() ==> !((
                #[trigger] rules.contacts[i]).edge.collider1.index == proxy1.collider.index
                    && rules.contacts[i].edge.collider2.index == proxy2.collider.index) && !(
                rules.contacts[i].edge.collider1.index == proxy2.collider.index
                    && rules.contacts[i].edge.collider2.index == proxy1.collider.index)
            &&& forall|i: int|
                0 <= i < rules.joints.len() && (#[trigger] rules.joints[i]).collision_disabled
                    ==> !(proxy1.body == Some(rules.joints[i].body1) && proxy2.body == Some(
                    rules.joints[i].body2,
                )) && !(proxy1.body == Some(rules.joints[i].body2) && proxy2.body == Some(
                    rules.joints[i].body1,
                ))
        },
{
    layers_interact_in_both_directions(proxy1.layers, proxy2.layers);
    contacts_have_pair(rules.contacts, proxy1.collider.index, proxy2.collider.index);
    if proxy1.body is Some && proxy2.body is Some {
        joints_disable_between_their_ends(rules.joints, proxy1.body->0, proxy2.body->0);
    }
}

/// A pair is skipped exactly if it is a proxy with itself, if the query for the other proxy handles
/// it, if both proxies are static and neither is a sensor, or if a contact between them is ruled
/// out by layers, bodies, contacts or joints.
///
/// The query for the other proxy handles the pair if that has moved and comes first, by tree type
/// and then by ID, unless the proxy of this query is a sensor.
pub proof fn pair_skipped_for_these_reasons(rules: PairRules, pair: PairCandidate)
    ensures
        pair_decision(rules, pair) == PairDecision::Skip <==> {
            ||| pair.key1@ == pair.key2@
            ||| !pair.proxy1.flags.sensor && rules.moved.contains(pair.key2) && (pair.key2@ % 4
                < pair.key1@ % 4 || pair.key2@ % 4 == pair.key1@ % 4 && pair.key2@ < pair.key1@)
            ||| !rules.static_pairs && pair.key1@ % 4 == 2 && pair.key2@ % 4 == 2
                && !pair.proxy1.flags.sensor && !pair.proxy2.flags.sensor
            ||| forall|i: u32|
                i < 32 ==> !((#[trigger] (pair.proxy1.layers.memberships.0 >> i)) & 1 == 1 && (
                pair.proxy2.layers.filters.0 >> i) & 1 == 1)
            ||| forall|i: u32|
                i < 32 ==> !((#[trigger] (pair.proxy2.layers.memberships.0 >> i)) & 1 == 1 && (
                pair.proxy1.layers.filters.0 >> i) & 1 == 1)
            ||| pair.proxy1.body is None && pair.proxy2.body is None
            ||| pair.proxy1.body is Some && pair.proxy2.body is Some && pair.proxy1.body->0
                == pair.proxy2.body->0
            ||| exists|i: int|
                0 <= i < rules.contacts.len() && ((
                #[trigger] rules.contacts[i]).edge.collider1.index == pair.proxy1.collider.index
                    && rules.contacts[i].edge.collider2.index == pair.proxy2.collider.index
                    || rules.contacts[i].edge.collider1.index == pair.proxy2.collider.index
                    && rules.contacts[i].edge.collider2.index == pair.proxy1.collider.index)
            ||| exists|i: int|
                0 <= i < rules.joints.len() && (#[trigger] rules.joints[i]).collision_disabled && (
                pair.proxy1.body == Some(rules.joints[i].body1) && pair.proxy2.body == Some(
                    rules.joints[i].body2,
                ) || pair.proxy1.body == Some(rules.joints[i].body2) && pair.proxy2.body == Some(
                    rules.joints[i].body1,
                ))
        },
{
    broadcast use proxy_key_ext;

    proxy_key_parts(pair.key1);
    proxy_key_parts(pair.key2);
    tree_types_in_order(pair.key1);
    tree_types_in_order(pair.key2);
    contact_allowed_unless_ruled_out(rules, pair.proxy1, pair.proxy2);
}

/// A moved proxy and one that has not moved are no skipped pair, if some layer of each is one with
/// which the other can interact, they are not on the same body, no contact is between their
/// colliders, no joint that disables contacts joins their bodies, and one of them is not static or
/// is a sensor. Proxies without a body meet those with one, and joints do not concern them.
pub proof fn unmoved_pair_not_skipped(rules: PairRules, pair: PairCandidate)
    requires
        pair.key1 != pair.key2,
        !rules.moved.contains(pair.key2),
        pair.proxy1.layers.memberships.0 & pair.proxy2.layers.filters.0 != 0,
        pair.proxy2.layers.memberships.0 & pair.proxy1.layers.filters.0 != 0,
        pair.proxy1.body != pair.proxy2.body,
        forall|i: int|
            0 <= i < rules.contacts.len() ==> !((#[trigger] rules.contacts[i]).edge.collider1.index
                == pair.proxy1.collider.index && rules.contacts[i].edge.collider2.index
                == pair.proxy2.collider.index) && !(rules.contacts[i].edge.collider1.index
                == pair.proxy2.collider.index && rules.contacts[i].edge.collider2.index
                == pair.proxy1.collider.index),
        pair.proxy1.body is Some && pair.proxy2.body is Some ==> forall|i: int|
            0 <= i < rules.joints.len() && (#[trigger] rules.joints[i]).collision_disabled ==> !(
            rules.joints[i].body1 == pair.proxy1.body->0 && rules.joints[i].body2
                == pair.proxy2.body->0) && !(rules.joints[i].body1 == pair.proxy2.body->0
                && rules.joints[i].body2 == pair.proxy1.body->0),
        pair.key1.spec_tree_type() != ColliderTreeType::Static || pair.key2.spec_tree_type()
            != ColliderTreeType::Static || pair.proxy1.flags.sensor || pair.proxy2.flags.sensor,
    ensures
        pair_decision(rules, pair) != PairDecision::Skip,
{
    contacts_have_pair(rules.contacts, pair.proxy1.collider.index, pair.proxy2.collider.index);
    if pair.proxy1.body is Some && pair.proxy2.body is Some {
        joints_disable_between_their_ends(
            rules.joints,
            pair.proxy1.body->0,
            pair.proxy2.body->0,
        );
    }
}

/// The hooks are asked about a pair exactly if it is not skipped and at least one of the two
/// proxies has a custom filter, so that it does not matter which of them is named first.
pub proof fn hooks_asked_for_a_filter_on_either_side(rules: PairRules, pair: PairCandidate)
    ensures
        pair_decision(rules, pair) != PairDecision::Skip && pair.proxy1.flags.custom_filter
            ==> pair_decision(rules, pair) == PairDecision::AskHooks,
        pair_decision(rules, pair) != PairDecision::Skip && pair.proxy2.flags.custom_filter
            ==> pair_decision(rules, pair) == PairDecision::AskHooks,
        pair_decision(rules, pair) == PairDecision::AskHooks ==> pair.proxy1.flags.custom_filter
            || pair.proxy2.flags.custom_filter,
        pair_decision(rules, pair) == PairDecision::AskHooks && pair_decision(rules, pair.swapped())
            != PairDecision::Skip ==> pair_decision(rules, pair.swapped())
            == PairDecision::AskHooks,
        pair_decision(rules, pair) == PairDecision::Collide && pair_decision(rules, pair.swapped())
            != PairDecision::Skip ==> pair_decision(rules, pair.swapped())
            == PairDecision::Collide,
{
}

/// A pair that is seen from its other proxy is the same two proxies the other way round.
pub proof fn swapped_pair(pair: PairCandidate)
    ensures
        pair.swapped().key1 == pair.key2 && pair.swapped().key2 == pair.key1,
        pair.swapped().proxy1 == pair.proxy2 && pair.swapped().proxy2 == pair.proxy1,
        pair.swapped().swapped() == pair,
{
}

/// About a pair that is not skipped and has a custom filter on either side, the hooks are asked
/// with the two colliders in order. For all other pairs they are not asked.
pub proof fn hooks_asked_with_both_colliders<H: CollisionHooks>(
    hooks: H,
    rules: PairRules,
    pair: PairCandidate,
    answer: bool,
    before: H::Commands,
    after: H::Commands,
)
    requires
        hook_asked(hooks, rules, pair, answer, before, after),
    ensures
        pair_decision(rules, pair) != PairDecision::Skip && (pair.proxy1.flags.custom_filter
            || pair.proxy2.flags.custom_filter) ==> hooks.can_answer(
            pair.proxy1.collider,
            pair.proxy2.collider,
            before,
            after,
            answer,
        ),
        pair_decision(rules, pair) == PairDecision::Skip || !pair.proxy1.flags.custom_filter
            && !pair.proxy2.flags.custom_filter ==> after == before,
{
}

/// The collision pairs are the keys of those candidates that are not skipped and about which the
/// hooks, if there is a custom filter on either side, do not answer no, in the order of the
/// candidates.
pub proof fn accepted_pairs_in_order(
    rules: PairRules,
    candidates: Seq<PairCandidate>,
    answers: Seq<bool>,
) -> (picks: Seq<int>)
    requires
        answers.len() == candidates.len(),
    ensures
        picks.len() == accepted_pairs(rules, candidates, answers).len(),
        forall|i: int, j: int|
            0 <= i < j < picks.len() ==> #[trigger] picks[i] < #[trigger] picks[j],
        forall|i: int|
            0 <= i < picks.len() ==> {
                let pick = #[trigger] picks[i];
                &&& 0 <= pick < candidates.len()
                &&& accepted_pairs(rules, candidates, answers)[i].0 == candidates[pick].key1
                &&& accepted_pairs(rules, candidates, answers)[i].1 == candidates[pick].key2
                &&& pair_decision(rules, candidates[pick]) != PairDecision::Skip
                &&& candidates[pick].proxy1.flags.custom_filter
                    || candidates[pick].proxy2.flags.custom_filter ==> answers[pick]
            },
        forall|j: int|
            0 <= j < candidates.len() && pair_decision(rules, #[trigger] candidates[j])
                != PairDecision::Skip && (candidates[j].proxy1.flags.custom_filter
                || candidates[j].proxy2.flags.custom_filter ==> answers[j]) ==> picks.contains(j),
    decreases candidates.len(),
{
    if candidates.len() == 0 {
        Seq::empty()
    } else {
        let rest = candidates.drop_last();
        let n = candidates.len() - 1;
        let before = accepted_pairs_in_order(rules, rest, answers.drop_last());
        let accepted = decision_accepts(pair_decision(rules, candidates.last()), answers.last());
        let picks = if accepted {
            before.push(n)
        } else {
            before
        };
        let pairs = accepted_pairs(rules, candidates, answers);
        assert forall|i: int| 0 <= i < picks.len() implies {
            let pick = #[trigger] picks[i];
            &&& 0 <= pick < candidates.len()
            &&& pairs[i].0 == candidates[pick].key1
            &&& pairs[i].1 == candidates[pick].key2
            &&& pair_decision(rules, candidates[pick]) != PairDecision::Skip
            &&& candidates[pick].proxy1.flags.custom_filter
                || candidates[pick].proxy2.flags.custom_filter ==> answers[pick]
        } by {
            if i < before.len() {
                assert(picks[i] == before[i]);
                assert(candidates[before[i]] == rest[before[i]]);
            }
        }
        assert forall|j: int|
            0 <= j < candidates.len() && pair_decision(rules, #[trigger] candidates[j])
                != PairDecision::Skip && (candidates[j].proxy1.flags.custom_filter
                || candidates[j].proxy2.flags.custom_filter ==> answers[j]) implies picks.contains(
            j,
        ) by {
            if j < n {
                assert(rest[j] == candidates[j]);
                assert(before.contains(j));
                let i = choose|i: int| 0 <= i < before.len() && before[i] == j;
                assert(picks[i] == j);
            } else {
                assert(picks[before.len() as int] == n);
            }
        }
        picks
    }
}

/// What the query for a moved proxy finds in a tree are pairs of it with proxies of that tree whose
/// boxes there intersect its own, each at most once, which are not skipped, and which the hooks can
/// accept if there is a custom filter on either side. If the boxes of the tree fit tightly and the
/// tree does not have too many levels, all such pairs without a custom filter are found, and those
/// with one which the hooks cannot refuse.
pub proof fn query_finds_intersecting_pairs<H: CollisionHooks>(
    tree: ColliderTree,
    tree_type: ColliderTreeType,
    key1: ColliderTreeProxyKey,
    proxy1: ColliderTreeProxy,
    hooks: H,
    rules: PairRules,
    pairs: Seq<(ColliderTreeProxyKey, ColliderTreeProxyKey)>,
)
    requires
        tree.wf(),
        query_exact(tree, proxy1.aabb),
        pairs_found(hooks, rules, tree_candidates(tree, tree_type, key1, proxy1), pairs),
    ensures
        pairs.no_duplicates(),
        forall|i: int|
            0 <= i < pairs.len() ==> {
                let key2 = (#[trigger] pairs[i]).1;
                let proxy2 = tree.proxies@[key2.spec_id() as int];
                &&& pairs[i].0 == key1
                &&& key2.spec_tree_type() == tree_type
                &&& tree.proxies@.contains_key(key2.spec_id() as int)
                &&& tree.boxes().contains_key(key2.spec_id())
                &&& aabb_intersects(tree.boxes()[key2.spec_id()], proxy1.aabb)
                &&& pair_decision(rules, (PairCandidate { key1, proxy1, key2, proxy2 }))
                    != PairDecision::Skip
                &&& proxy1.flags.custom_filter || proxy2.flags.custom_filter ==> exists|
                    before: H::Commands,
                    after: H::Commands,
                | #[trigger]
                    hooks.can_answer(proxy1.collider, proxy2.collider, before, after, true)
            },
        tree.tight() && tree.walkable() ==> forall|key2: ColliderTreeProxyKey|
            key2.spec_tree_type() == tree_type && #[trigger] tree.boxes().contains_key(
                key2.spec_id(),
            ) && aabb_intersects(tree.boxes()[key2.spec_id()], proxy1.aabb) && pair_decision(
                rules,
                (PairCandidate {
                    key1,
                    proxy1,
                    key2,
                    proxy2: tree.proxies@[key2.spec_id() as int],
                }),
            ) != PairDecision::Skip && (proxy1.flags.custom_filter || tree.proxies@[
                key2.spec_id() as int
            ].flags.custom_filter ==> forall|before: H::Commands, after: H::Commands|
                !#[trigger] hooks.can_answer(
                    proxy1.collider,
                    tree.proxies@[key2.spec_id() as int].collider,
                    before,
                    after,
                    false,
                )) ==> pairs.contains((key1, key2)),
{
    broadcast use proxy_key_ext;

    let candidates = tree_candidates(tree, tree_type, key1, proxy1);
    let primitives = tree_primitives(tree, proxy1.aabb);
    let answers = choose|answers: Seq<bool>|
        #![trigger hooks_may_give(hooks, rules, candidates, answers)]
        hooks_may_give(hooks, rules, candidates, answers) && pairs == accepted_pairs(
            rules,
            candidates,
            answers,
        );
    let picks = accepted_pairs_in_order(rules, candidates, answers);
    tree.lemma_ids();
    assert forall|j: int| 0 <= j < primitives.len() implies {
        let key2 = (#[trigger] candidates[j]).key2;
        &&& key2.spec_id() == primitives[j]
        &&& key2.spec_tree_type() == tree_type
        &&& tree.boxes().contains_key(primitives[j])
        &&& aabb_intersects(tree.boxes()[primitives[j]], proxy1.aabb)
        &&& tree.proxies@.contains_key(primitives[j] as int)
    } by {
        assert(primitives.contains(primitives[j]));
        assert(tree.proxies@.contains_key(primitives[j] as int));
        proxy_key_round_trip(primitives[j], tree_type);
    }
    assert forall|i: int, j: int| 0 <= i < j < pairs.len() implies pairs[i] != pairs[j] by {
        assert(picks[i] < picks[j]);
        assert(candidates[picks[i]].key2.spec_id() == primitives[picks[i]]);
        assert(candidates[picks[j]].key2.spec_id() == primitives[picks[j]]);
    }
    assert forall|i: int| 0 <= i < pairs.len() implies {
        let key2 = (#[trigger] pairs[i]).1;
        let proxy2 = tree.proxies@[key2.spec_id() as int];
        &&& pairs[i].0 == key1
        &&& key2.spec_tree_type() == tree_type
        &&& tree.proxies@.contains_key(key2.spec_id() as int)
        &&& tree.boxes().contains_key(key2.spec_id())
        &&& aabb_intersects(tree.boxes()[key2.spec_id()], proxy1.aabb)
        &&& pair_decision(rules, (PairCandidate { key1, proxy1, key2, proxy2 }))
            != PairDecision::Skip
        &&& proxy1.flags.custom_filter || proxy2.flags.custom_filter ==> exists|
            before: H::Commands,
            after: H::Commands,
        | #[trigger] hooks.can_answer(proxy1.collider, proxy2.collider, before, after, true)
    } by {
        let pick = picks[i];
        let pair = candidates[pick];
        assert(pair.key2.spec_id() == primitives[pick]);
        assert(pair == (PairCandidate {
            key1,
            proxy1,
            key2: pair.key2,
            proxy2: tree.proxies@[primitives[pick] as int],
        }));
        if pair.proxy1.flags.custom_filter || pair.proxy2.flags.custom_filter {
            assert(pair_decision(rules, candidates[pick]) == PairDecision::AskHooks);
            assert(hooks_may_answer(hooks, pair.proxy1.collider, pair.proxy2.collider, true));
        }
    }
    if tree.tight() && tree.walkable() {
        assert forall|key2: ColliderTreeProxyKey|
            key2.spec_tree_type() == tree_type && #[trigger] tree.boxes().contains_key(
                key2.spec_id(),
            ) && aabb_intersects(tree.boxes()[key2.spec_id()], proxy1.aabb) && pair_decision(
                rules,
                (PairCandidate {
                    key1,
                    proxy1,
                    key2,
                    proxy2: tree.proxies@[key2.spec_id() as int],
                }),
            ) != PairDecision::Skip && (proxy1.flags.custom_filter || tree.proxies@[
                key2.spec_id() as int
            ].flags.custom_filter ==> forall|before: H::Commands, after: H::Commands|
                !#[trigger] hooks.can_answer(
                    proxy1.collider,
                    tree.proxies@[key2.spec_id() as int].collider,
                    before,
                    after,
                    false,
                )) implies pairs.contains((key1, key2)) by {
            let p = key2.spec_id();
            assert(primitives.contains(p));
            let j = choose|j: int| 0 <= j < primitives.len() && primitives[j] == p;
            proxy_key_parts(key2);
            proxy_key_parts(candidates[j].key2);
            assert(candidates[j].key2 == key2);
            let pair = candidates[j];
            if pair.proxy1.flags.custom_filter || pair.proxy2.flags.custom_filter {
                assert(pair_decision(rules, candidates[j]) == PairDecision::AskHooks);
                assert(hooks_may_answer(
                    hooks,
                    pair.proxy1.collider,
                    pair.proxy2.collider,
                    answers[j],
                ));
                assert(answers[j]);
            }
            assert(picks.contains(j));
            let i = choose|i: int| 0 <= i < picks.len() && picks[i] == j;
            assert(pairs[i] == (key1, key2));
        }
    }
}

/// The queries for a moved proxy go through the trees of dynamic, kinematic, static and standalone
/// colliders in that order. Its candidates are all those that it has in one of them.
pub proof fn candidates_from_tree_after_tree(
    trees: ColliderTrees,
    key1: ColliderTreeProxyKey,
    i: int,
    j: int,
)
    requires
        trees.wf(),
        forall|t: ColliderTreeType| query_exact(#[trigger] trees.tree(t), trees.proxy(key1).aabb),
        0 <= i <= j < key_candidates(trees, key1).len(),
    ensures
        key_candidates(trees, key1)[i].key2@ % 4 <= key_candidates(trees, key1)[j].key2@ % 4,
        key_candidates(trees, key1)[i].key1 == key1,
        key_candidates(trees, key1)[i].proxy1 == trees.proxy(key1),
        key_candidates(trees, key1)[i].proxy2 == trees.proxy(
            key_candidates(trees, key1)[i].key2,
        ),
{
    let ti = lemma_key_candidate(trees, key1, i);
    let tj = lemma_key_candidate(trees, key1, j);
    proxy_key_parts(key_candidates(trees, key1)[i].key2);
    proxy_key_parts(key_candidates(trees, key1)[j].key2);
    tree_types_in_order(key_candidates(trees, key1)[i].key2);
    tree_types_in_order(key_candidates(trees, key1)[j].key2);
}

/// The tree that a candidate comes from, by its place among the candidates.
proof fn lemma_key_candidate(trees: ColliderTrees, key1: ColliderTreeProxyKey, i: int) -> (t:
    ColliderTreeType)
    requires
        trees.wf(),
        forall|t: ColliderTreeType| query_exact(#[trigger] trees.tree(t), trees.proxy(key1).aabb),
        0 <= i < key_candidates(trees, key1).len(),
    ensures
        ({
            let c1 = type_candidates(trees, key1, ColliderTreeType::Dynamic).len();
            let c2 = type_candidates(trees, key1, ColliderTreeType::Kinematic).len();
            let c3 = type_candidates(trees, key1, ColliderTreeType::Static).len();
            let pair = key_candidates(trees, key1)[i];
            &&& pair == candidate_of(trees, key1, pair.key2)
            &&& pair.key2.spec_tree_type() == t
            &&& t == if i < c1 {
                ColliderTreeType::Dynamic
            } else if i < c1 + c2 {
                ColliderTreeType::Kinematic
            } else if i < c1 + c2 + c3 {
                ColliderTreeType::Static
            } else {
                ColliderTreeType::Standalone
            }
        }),
{
    let c1 = type_candidates(trees, key1, ColliderTreeType::Dynamic);
    let c2 = type_candidates(trees, key1, ColliderTreeType::Kinematic);
    let c3 = type_candidates(trees, key1, ColliderTreeType::Static);
    let (t, m) = if i < c1.len() {
        (ColliderTreeType::Dynamic, i)
    } else if i < c1.len() + c2.len() {
        (ColliderTreeType::Kinematic, i - c1.len())
    } else if i < c1.len() + c2.len() + c3.len() {
        (ColliderTreeType::Static, i - c1.len() - c2.len())
    } else {
        (ColliderTreeType::Standalone, i - c1.len() - c2.len() - c3.len())
    };
    assert(key_candidates(trees, key1)[i] == type_candidates(trees, key1, t)[m]);
    assert(query_exact(trees.tree(t), trees.proxy(key1).aabb));
    lemma_type_candidates_sound(trees, key1, t, m);
    let primitives = tree_primitives(trees.tree(t), trees.proxy(key1).aabb);
    assert(primitives.contains(primitives[m]));
    trees.tree(t).lemma_ids();
    assert(trees.tree(t).proxies@.contains_key(primitives[m] as int));
    proxy_key_round_trip(primitives[m], t);
    t
}

/// The contact of two proxies is between their colliders and their bodies, in order. It has an
/// effect on the bodies exactly if neither proxy is a sensor and neither has a disabled body. It
/// can be modified, and causes events, exactly if at least one of the two proxies says so.
pub proof fn contact_has_the_properties_of_both(
    proxy1: ColliderTreeProxy,
    proxy2: ColliderTreeProxy,
)
    ensures
        contact_of(proxy1, proxy2).edge.collider1 == proxy1.collider,
        contact_of(proxy1, proxy2).edge.collider2 == proxy2.collider,
        contact_of(proxy1, proxy2).edge.body1 == proxy1.body,
        contact_of(proxy1, proxy2).edge.body2 == proxy2.body,
        contact_of(proxy1, proxy2).pair.collider1 == proxy1.collider,
        contact_of(proxy1, proxy2).pair.collider2 == proxy2.collider,
        contact_of(proxy1, proxy2).pair.body1 == proxy1.body,
        contact_of(proxy1, proxy2).pair.body2 == proxy2.body,
        proxy1.flags.sensor ==> !contact_of(proxy1, proxy2).pair.generate_constraints,
        proxy2.flags.sensor ==> !contact_of(proxy1, proxy2).pair.generate_constraints,
        proxy1.flags.body_disabled ==> !contact_of(proxy1, proxy2).pair.generate_constraints,
        proxy2.flags.body_disabled ==> !contact_of(proxy1, proxy2).pair.generate_constraints,
        !contact_of(proxy1, proxy2).pair.generate_constraints ==> proxy1.flags.sensor
            || proxy2.flags.sensor || proxy1.flags.body_disabled || proxy2.flags.body_disabled,
        proxy1.flags.modify_contacts ==> contact_of(proxy1, proxy2).pair.modify_contacts,
        proxy2.flags.modify_contacts ==> contact_of(proxy1, proxy2).pair.modify_contacts,
        contact_of(proxy1, proxy2).pair.modify_contacts ==> proxy1.flags.modify_contacts
            || proxy2.flags.modify_contacts,
        proxy1.flags.contact_events ==> contact_of(proxy1, proxy2).edge.contact_events,
        proxy2.flags.contact_events ==> contact_of(proxy1, proxy2).edge.contact_events,
        contact_of(proxy1, proxy2).edge.contact_events ==> proxy1.flags.contact_events
            || proxy2.flags.contact_events,
{
}

/// The flags of the contact of two proxies do not depend on which of them is named first, and
/// neither does whether there is a contact for the same pair already.
pub proof fn contact_of_swapped_proxies(proxy1: ColliderTreeProxy, proxy2: ColliderTreeProxy)
    ensures
        contact_of(proxy1, proxy2).pair.generate_constraints == contact_of(
            proxy2,
            proxy1,
        ).pair.generate_constraints,
        contact_of(proxy1, proxy2).pair.modify_contacts == contact_of(
            proxy2,
            proxy1,
        ).pair.modify_contacts,
        contact_of(proxy1, proxy2).edge.contact_events == contact_of(
            proxy2,
            proxy1,
        ).edge.contact_events,
        contact_of(proxy1, proxy2).key() == contact_of(proxy2, proxy1).key(),
{
    pair_key_identifies_pair(
        proxy1.collider.index,
        proxy2.collider.index,
        proxy2.collider.index,
        proxy1.collider.index,
    );
}

/// A new contact is that of a moved proxy and another one whose box in its tree intersects the box
/// of the moved one. Some layer of each is one with which the other can interact, they are not on
/// the same body, no contact was between their colliders, no joint that disables contacts is
/// between their bodies, one of them is not static or is a sensor unless the rules let static pairs
/// through, and the hooks can accept the pair if one of them has a custom filter.
pub proof fn new_contact_is_between_allowed_proxies<H: CollisionHooks>(
    trees: ColliderTrees,
    hooks: H,
    rules: PairRules,
    contact: Contact,
)
    requires
        contact_sound(trees, hooks, rules, contact),
    ensures
        exists|key1: ColliderTreeProxyKey, key2: ColliderTreeProxyKey|
            {
                let proxy1 = trees.proxy(key1);
                let proxy2 = trees.proxy(key2);
                let boxes = trees.tree(key2.spec_tree_type()).boxes();
                &&& #[trigger] rules.moved.contains(key1)
                &&& #[trigger] trees.has(key2)
                &&& key1 != key2
                &&& boxes.contains_key(key2.spec_id())
                &&& aabb_intersects(boxes[key2.spec_id()], proxy1.aabb)
                &&& contact.edge.collider1 == proxy1.collider
                &&& contact.edge.collider2 == proxy2.collider
                &&& contact.edge.body1 == proxy1.body
                &&& contact.edge.body2 == proxy2.body
                &&& contact.pair.generate_constraints <==> !proxy1.flags.sensor
                    && !proxy2.flags.sensor && !proxy1.flags.body_disabled
                    && !proxy2.flags.body_disabled
                &&& proxy1.layers.memberships.0 & proxy2.layers.filters.0 != 0
                &&& proxy2.layers.memberships.0 & proxy1.layers.filters.0 != 0
                &&& proxy1.body != proxy2.body
                &&& forall|i: int|
                    0 <= i < rules.contacts.len() ==> !((
                    #[trigger] rules.contacts[i]).edge.collider1.index == proxy1.collider.index
                        && rules.contacts[i].edge.collider2.index == proxy2.collider.index) && !(
                    rules.contacts[i].edge.collider1.index == proxy2.collider.index
                        && rules.contacts[i].edge.collider2.index == proxy1.collider.index)
                &&& forall|i: int|
                    0 <= i < rules.joints.len() && (#[trigger] rules.joints[i]).collision_disabled
                        ==> !(proxy1.body == Some(rules.joints[i].body1) && proxy2.body == Some(
                        rules.joints[i].body2,
                    )) && !(proxy1.body == Some(rules.joints[i].body2) && proxy2.body == Some(
                        rules.joints[i].body1,
                    ))
                &&& rules.static_pairs || key1.spec_tree_type() != ColliderTreeType::Static
                    || key2.spec_tree_type() != ColliderTreeType::Static || proxy1.flags.sensor
                    || proxy2.flags.sensor
                &&& proxy1.flags.custom_filter || proxy2.flags.custom_filter ==> exists|
                    before: H::Commands,
                    after: H::Commands,
                | #[trigger]
                    hooks.can_answer(proxy1.collider, proxy2.collider, before, after, true)
            },
{
    let (key1, key2) = choose|key1: ColliderTreeProxyKey, key2: ColliderTreeProxyKey|
        rules.moved.contains(key1) && trees.has(key2) && #[trigger] boxes_meet(trees, key1, key2)
            && pair_may_collide(hooks, rules, candidate_of(trees, key1, key2)) && contact
            == contact_of(trees.proxy(key1), trees.proxy(key2));
    let (proxy1, proxy2) = (trees.proxy(key1), trees.proxy(key2));
    contacts_have_pair(rules.contacts, proxy1.collider.index, proxy2.collider.index);
    if proxy1.body is Some && proxy2.body is Some {
        joints_disable_between_their_ends(rules.joints, proxy1.body->0, proxy2.body->0);
    }
    assert(rules.moved.contains(key1) && trees.has(key2));
}

/// If the contacts are complete and the boxes in the trees cover those of the proxies, then there
/// is a contact between the colliders of a moved proxy and of every other proxy whose bounding box
/// overlaps its own, if some layer of each is one with which the other can interact, they are not
/// on the same body, no joint that disables contacts is between their bodies, one of them is not
/// static or is a sensor, and the hooks cannot refuse the pair if one of them has a custom filter.
pub proof fn overlapping_proxies_are_in_contact<H: CollisionHooks>(
    trees: ColliderTrees,
    hooks: H,
    rules: PairRules,
    contacts: Seq<Contact>,
    key1: ColliderTreeProxyKey,
    key2: ColliderTreeProxyKey,
)
    requires
        contacts_complete(trees, hooks, rules, contacts),
        rules.contacts.is_prefix_of(contacts),
        forall|key: ColliderTreeProxyKey| #[trigger]
            trees.has(key) ==> trees.tree(key.spec_tree_type()).boxes().contains_key(key.spec_id())
                && forall|other: Aabb| #[trigger]
                aabb_intersects(trees.proxy(key).aabb, other) ==> aabb_intersects(
                    trees.tree(key.spec_tree_type()).boxes()[key.spec_id()],
                    other,
                ),
        key1 != key2,
        trees.has(key1),
        trees.has(key2),
        rules.moved.contains(key1),
        aabb_intersects(trees.proxy(key1).aabb, trees.proxy(key2).aabb),
        aabb_intersects(trees.proxy(key2).aabb, trees.proxy(key1).aabb),
        trees.tree(key1.spec_tree_type()).tight(),
        trees.tree(key1.spec_tree_type()).walkable(),
        trees.tree(key2.spec_tree_type()).tight(),
        trees.tree(key2.spec_tree_type()).walkable(),
        trees.proxy(key1).layers.memberships.0 & trees.proxy(key2).layers.filters.0 != 0,
        trees.proxy(key2).layers.memberships.0 & trees.proxy(key1).layers.filters.0 != 0,
        trees.proxy(key1).body != trees.proxy(key2).body,
        forall|i: int|
            0 <= i < rules.joints.len() && (#[trigger] rules.joints[i]).collision_disabled ==> !(
            trees.proxy(key1).body == Some(rules.joints[i].body1) && trees.proxy(key2).body
                == Some(rules.joints[i].body2)) && !(trees.proxy(key1).body == Some(
                rules.joints[i].body2,
            ) && trees.proxy(key2).body == Some(rules.joints[i].body1)),
        key1.spec_tree_type() != ColliderTreeType::Static || key2.spec_tree_type()
            != ColliderTreeType::Static || trees.proxy(key1).flags.sensor || trees.proxy(
            key2,
        ).flags.sensor,
        trees.proxy(key1).flags.custom_filter || trees.proxy(key2).flags.custom_filter ==> forall|
            before: H::Commands,
            after: H::Commands,
        |
            #![trigger hooks.can_answer(
                trees.proxy(key1).collider,
                trees.proxy(key2).collider,
                before,
                after,
                false,
            )]
            #![trigger hooks.can_answer(
                trees.proxy(key2).collider,
                trees.proxy(key1).collider,
                before,
                after,
                false,
            )]
            !hooks.can_answer(
                trees.proxy(key1).collider,
                trees.proxy(key2).collider,
                before,
                after,
                false,
            ) && !hooks.can_answer(
                trees.proxy(key2).collider,
                trees.proxy(key1).collider,
                before,
                after,
                false,
            ),
    ensures
        exists|i: int|
            0 <= i < contacts.len() && ((#[trigger] contacts[i]).edge.collider1.index
                == trees.proxy(key1).collider.index && contacts[i].edge.collider2.index
                == trees.proxy(key2).collider.index || contacts[i].edge.collider1.index
                == trees.proxy(key2).collider.index && contacts[i].edge.collider2.index
                == trees.proxy(key1).collider.index),
{
    let (proxy1, proxy2) = (trees.proxy(key1), trees.proxy(key2));
    let (index1, index2) = (proxy1.collider.index, proxy2.collider.index);
    contacts_have_pair(contacts, index1, index2);
    contacts_have_pair(rules.contacts, index1, index2);
    if contacts_have(rules.contacts, pair_key_bits(index1, index2)) {
        let i = choose|i: int|
            0 <= i < rules.contacts.len() && (#[trigger] rules.contacts[i]).key()
                == pair_key_bits(index1, index2);
        assert(contacts[i] == rules.contacts[i]);
    } else {
        if proxy1.body is Some && proxy2.body is Some {
            joints_disable_between_their_ends(rules.joints, proxy1.body->0, proxy2.body->0);
        }
        assert(boxes_cover(trees)) by {
            assert forall|key: ColliderTreeProxyKey| #[trigger]
                trees.has(key) implies trees.box_map().contains_key(key) && box_covers(
                trees.box_map()[key],
                trees.proxy(key).aabb,
            ) by {}
        }
        assert(pair_allowed(rules, candidate_of(trees, key1, key2)));
        overlapping_pair_in_contact(trees, hooks, rules, contacts, key1, key2);
    }
}

/// One candidate that is not skipped and has a custom filter on either side is a collision pair
/// exactly if the hooks, asked once with its two colliders, answer yes. Without a custom filter it
/// is one, and about a candidate that is skipped or has no custom filter the hooks are not asked.
pub proof fn one_candidate_decided<H: CollisionHooks>(
    hooks: H,
    rules: PairRules,
    pair: PairCandidate,
    pairs: Seq<(ColliderTreeProxyKey, ColliderTreeProxyKey)>,
    before: H::Commands,
    after: H::Commands,
)
    requires
        pairs_asked(hooks, rules, seq![pair], pairs, before, after),
    ensures
        pair_decision(rules, pair) == PairDecision::Skip ==> pairs.len() == 0 && after == before,
        pair_decision(rules, pair) != PairDecision::Skip && !pair.proxy1.flags.custom_filter
            && !pair.proxy2.flags.custom_filter ==> pairs == seq![(pair.key1, pair.key2)] && after
            == before,
        pair_decision(rules, pair) != PairDecision::Skip && (pair.proxy1.flags.custom_filter
            || pair.proxy2.flags.custom_filter) ==> {
            ||| pairs == seq![(pair.key1, pair.key2)] && hooks.can_answer(
                pair.proxy1.collider,
                pair.proxy2.collider,
                before,
                after,
                true,
            )
            ||| pairs.len() == 0 && hooks.can_answer(
                pair.proxy1.collider,
                pair.proxy2.collider,
                before,
                after,
                false,
            )
        },
{
    let candidates = seq![pair];
    let (answers, states) = choose|answers: Seq<bool>, states: Seq<H::Commands>|
        #![trigger hooks_asked(hooks, rules, candidates, answers, states)]
        hooks_asked(hooks, rules, candidates, answers, states) && pairs == accepted_pairs(
            rules,
            candidates,
            answers,
        ) && states.first() == before && states.last() == after;
    assert(hook_asked(hooks, rules, candidates[0], answers[0], states[0], states[1]));
    assert(candidates.drop_last() =~= Seq::<PairCandidate>::empty());
    let none = accepted_pairs(rules, candidates.drop_last(), answers.drop_last());
    assert(none =~= Seq::empty());
    assert(none.push((pair.key1, pair.key2)) =~= seq![(pair.key1, pair.key2)]);
}

/// Candidates are decided one after the other: the pairs among the first of them come first, and
/// the hooks are asked about the first of them first.
pub proof fn candidates_decided_in_order<H: CollisionHooks>(
    hooks: H,
    rules: PairRules,
    candidates1: Seq<PairCandidate>,
    candidates2: Seq<PairCandidate>,
    pairs: Seq<(ColliderTreeProxyKey, ColliderTreeProxyKey)>,
    before: H::Commands,
    after: H::Commands,
) -> (res: (
    Seq<(ColliderTreeProxyKey, ColliderTreeProxyKey)>,
    Seq<(ColliderTreeProxyKey, ColliderTreeProxyKey)>,
    H::Commands,
))
    requires
        pairs_asked(hooks, rules, candidates1 + candidates2, pairs, before, after),
    ensures
        pairs == res.0 + res.1,
        pairs_asked(hooks, rules, candidates1, res.0, before, res.2),
        pairs_asked(hooks, rules, candidates2, res.1, res.2, after),
{
    let all = candidates1 + candidates2;
    let n = candidates1.len() as int;
    let (answers, states) = choose|answers: Seq<bool>, states: Seq<H::Commands>|
        #![trigger hooks_asked(hooks, rules, all, answers, states)]
        hooks_asked(hooks, rules, all, answers, states) && pairs == accepted_pairs(
            rules,
            all,
            answers,
        ) && states.first() == before && states.last() == after;
    let (answers1, answers2) = (answers.take(n), answers.skip(n));
    let (states1, states2) = (states.take(n + 1), states.skip(n));
    assert(answers =~= answers1 + answers2);
    accepted_pairs_append(rules, candidates1, answers1, candidates2, answers2);
    assert forall|i: int| 0 <= i < candidates1.len() implies hook_asked(
        hooks,
        rules,
        #[trigger] candidates1[i],
        answers1[i],
        states1[i],
        states1[i + 1],
    ) by {
        assert(all[i] == candidates1[i]);
    }
    assert forall|i: int| 0 <= i < candidates2.len() implies hook_asked(
        hooks,
        rules,
        #[trigger] candidates2[i],
        answers2[i],
        states2[i],
        states2[i + 1],
    ) by {
        assert(all[n + i] == candidates2[i]);
        assert(states2[i + 1] == states[n + i + 1]);
    }
    assert(hooks_asked(hooks, rules, candidates1, answers1, states1));
    assert(hooks_asked(hooks, rules, candidates2, answers2, states2));
    (
        accepted_pairs(rules, candidates1, answers1),
        accepted_pairs(rules, candidates2, answers2),
        states[n],
    )
}

/// Contacts are added for the pairs in their order: a single pair adds its own contact if there is
/// none for it, and for pairs after others contacts are added after those of the others.
pub proof fn contacts_added_in_order(
    trees: ColliderTrees,
    contacts: Seq<Contact>,
    pairs: Seq<(ColliderTreeProxyKey, ColliderTreeProxyKey)>,
    key1: ColliderTreeProxyKey,
    key2: ColliderTreeProxyKey,
)
    ensures
        contacts_after(trees, contacts, seq![(key1, key2)]) == contacts_with(
            contacts,
            contact_of(trees.proxy(key1), trees.proxy(key2)),
        ),
        contacts_after(trees, contacts, seq![(key1, key2)] + pairs) == contacts_after(
            trees,
            contacts_with(contacts, contact_of(trees.proxy(key1), trees.proxy(key2))),
            pairs,
        ),
    decreases pairs.len(),
{
    let one = seq![(key1, key2)];
    assert(one.drop_last() =~= Seq::empty());
    assert(contacts_after(trees, contacts, one.drop_last()) == contacts);
    if pairs.len() == 0 {
        assert(one + pairs =~= one);
    } else {
        contacts_added_in_order(trees, contacts, pairs.drop_last(), key1, key2);
        assert((one + pairs).drop_last() =~= one + pairs.drop_last());
    }
}

} // verus!
