# avian_bvh

Collider trees and a broad phase for physics simulations, written in Rust and verified with
[Verus](https://github.com/verus-lang/verus).

Colliders are kept as proxies in trees of bounding boxes, one tree for each kind of body. As
colliders come, go, change and move, the trees are kept up to date. The broad phase queries the
trees with the boxes of all moved proxies, and creates contacts for the pairs that may collide.

## Layout

- `src/`: the verified library.
  - `bvh`: the bounding volume hierarchy of `obvhs`, and what is relied on of it.
  - `change_detection`: telling whether something has changed since a system last ran.
  - `collider_tree`: the trees, the keys of proxies, and keeping both up to date.
    - `observers`: colliders that are added, removed, detached or changed.
    - `update`: colliders that move.
    - `optimization`: restoring the quality of the trees.
    - `plugin`: worlds with one tree for moving and one for resting colliders.
  - `collision`: layers, hooks, contacts and the broad phase.
  - `data_structures`: bit vectors, stable vectors, pair keys, and the hash set of `bevy`.
  - `entity`, `joint_graph`, `rigid_body`: what colliders refer to.
- `tests/`: tests of the library, with the outside crates linked.
- `app/`: plugins for Bevy around the library. It computes bounding boxes, stores the trees in
  resources, and runs the library's functions as systems and observers.

## What is proved

- A key identifies one proxy, and gives back its ID and its tree type.
- Every operation on the trees says which proxies and boxes it leaves, and which keys are listed
  as moved.
- Optimizing a tree changes neither its proxies nor their boxes.
- A collider that is added, again or for the first time, has exactly one proxy afterwards, and
  every operation on the trees leaves no collider with two proxies.
- A query asks the collision hooks once for each pair it finds that has a custom filter and passes
  all other tests, in the order in which it finds them, and for no other pair.
- The broad phase creates no contact but for pairs of a moved proxy and a proxy whose box
  overlaps, if the pair is not filtered. It creates one for every such pair if the boxes of the
  trees fit tightly and the trees do not have too many levels for the stack of a walk, which
  `is_walkable` tells. Two moved proxies are found by exactly one of their two queries, unless one
  of them is a sensor. Two static proxies are in contact only if one of them is a sensor.

Adding, removing and reinserting proxies needs boxes that fit tightly: every box of a tree is
exactly the union of the two boxes below it, and all coordinates are numbers. The contracts say
which operations keep that. `refit_all` restores it in trees that do not have too many levels, and
a full rebuild in all.

## What is trusted

The calls into `obvhs` and `bevy` in `bvh`, `change_detection` and `data_structures::key_set`.
Their contracts state what the crates document and, where the documentation is silent, what their
source shows. Floating-point numbers stay outside of the library: boxes are opaque values there,
and ratios are compared by their bits.
