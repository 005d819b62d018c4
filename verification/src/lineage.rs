//! Predecessor maps and the paths that they encode.
//!
//! A search direction records, for every entity it has reached, the entity it
//! was reached from. Following those links from an entity leads back to the
//! origin of the direction; the entities met on the way, read backwards, are
//! the path from the origin to that entity.

use vstd::prelude::*;

verus! {

/// Whether following the predecessor links from `entity` ends, after exactly
/// `steps` links, at an entity that has no predecessor.
pub open spec fn reaches_root<K>(parents: Map<K, K>, entity: K, steps: nat) -> bool
    decreases steps,
{
    if parents.contains_key(entity) {
        steps > 0 && reaches_root(parents, parents[entity], (steps - 1) as nat)
    } else {
        steps == 0
    }
}

/// Whether the predecessor links from `entity` end somewhere.
pub open spec fn rooted<K>(parents: Map<K, K>, entity: K) -> bool {
    exists|steps: nat| reaches_root(parents, entity, steps)
}

/// The number of links between `entity` and the end of its links.
pub open spec fn depth<K>(parents: Map<K, K>, entity: K) -> nat {
    choose|steps: nat| reaches_root(parents, entity, steps)
}

/// Whether the links of every entity end somewhere: no entity is its own
/// ancestor.
pub open spec fn acyclic<K>(parents: Map<K, K>) -> bool {
    forall|entity: K| #[trigger] rooted(parents, entity)
}

/// `entity`, its predecessor, the predecessor of that one, and so on for
/// `steps` links.
pub open spec fn trail<K>(parents: Map<K, K>, entity: K, steps: nat) -> Seq<K>
    decreases steps,
{
    if steps == 0 {
        seq![entity]
    } else {
        seq![entity] + trail(parents, parents[entity], (steps - 1) as nat)
    }
}

/// The labels of the links that `trail` follows, in the order it follows them.
pub open spec fn trail_labels<K, L>(
    parents: Map<K, K>,
    labels: Map<K, L>,
    entity: K,
    steps: nat,
) -> Seq<L>
    decreases steps,
{
    if steps == 0 {
        Seq::empty()
    } else {
        seq![labels[entity]] + trail_labels(
            parents,
            labels,
            parents[entity],
            (steps - 1) as nat,
        )
    }
}

/// The path from the end of the links of `entity` to `entity` itself.
pub open spec fn path_to<K>(parents: Map<K, K>, entity: K) -> Seq<K> {
    trail(parents, entity, depth(parents, entity)).reverse()
}

/// The labels of the links along `path_to`, in the order of that path.
pub open spec fn labels_to<K, L>(parents: Map<K, K>, labels: Map<K, L>, entity: K) -> Seq<L> {
    trail_labels(parents, labels, entity, depth(parents, entity)).reverse()
}

/// The number of links to the end is unique.
pub proof fn lemma_depth_unique<K>(parents: Map<K, K>, entity: K, a: nat, b: nat)
    requires
        reaches_root(parents, entity, a),
        reaches_root(parents, entity, b),
    ensures
        a == b,
    decreases a,
{
    if parents.contains_key(entity) {
        lemma_depth_unique(parents, parents[entity], (a - 1) as nat, (b - 1) as nat);
    }
}

/// An entity whose links end after `steps` links has that depth.
pub proof fn lemma_depth<K>(parents: Map<K, K>, entity: K, steps: nat)
    requires
        reaches_root(parents, entity, steps),
    ensures
        rooted(parents, entity),
        depth(parents, entity) == steps,
{
    lemma_depth_unique(parents, entity, steps, depth(parents, entity));
}

/// A trail over `steps` links holds `steps + 1` entities and `steps` labels.
pub proof fn lemma_trail_len<K, L>(parents: Map<K, K>, labels: Map<K, L>, entity: K, steps: nat)
    ensures
        trail(parents, entity, steps).len() == steps + 1,
        trail_labels(parents, labels, entity, steps).len() == steps,
    decreases steps,
{
    if steps > 0 {
        lemma_trail_len(parents, labels, parents[entity], (steps - 1) as nat);
    }
}

/// What stands at each place of a trail that ends at a root: the entity at
/// place `i` is `steps - i` links from the root, and the next place holds its
/// predecessor, reached over the link with its label.
pub proof fn lemma_trail_index<K, L>(
    parents: Map<K, K>,
    labels: Map<K, L>,
    entity: K,
    steps: nat,
    i: int,
)
    requires
        reaches_root(parents, entity, steps),
        0 <= i <= steps,
    ensures
        trail(parents, entity, steps).len() == steps + 1,
        trail_labels(parents, labels, entity, steps).len() == steps,
        trail(parents, entity, steps)[0] == entity,
        reaches_root(parents, trail(parents, entity, steps)[i], (steps - i) as nat),
        i < steps ==> {
            &&& parents.contains_key(trail(parents, entity, steps)[i])
            &&& trail(parents, entity, steps)[i + 1] == parents[trail(parents, entity, steps)[i]]
            &&& trail_labels(parents, labels, entity, steps)[i] == labels[trail(
                parents,
                entity,
                steps,
            )[i]]
        },
        i == steps ==> !parents.contains_key(trail(parents, entity, steps)[i]),
    decreases steps,
{
    lemma_trail_len(parents, labels, entity, steps);
    if steps > 0 {
        let rest = (steps - 1) as nat;
        lemma_trail_len(parents, labels, parents[entity], rest);
        if i > 0 {
            lemma_trail_index(parents, labels, parents[entity], rest, i - 1);
        } else {
            lemma_trail_index(parents, labels, parents[entity], rest, 0);
        }
    }
}

/// No entity stands twice on a trail that ends at a root.
pub proof fn lemma_trail_distinct<K>(parents: Map<K, K>, entity: K, steps: nat)
    requires
        reaches_root(parents, entity, steps),
    ensures
        trail(parents, entity, steps).no_duplicates(),
{
    let t = trail(parents, entity, steps);
    let labels = Map::<K, K>::empty();
    lemma_trail_len(parents, labels, entity, steps);
    assert forall|i: int, j: int| 0 <= i < t.len() && 0 <= j < t.len() && i != j implies t[i]
        != t[j] by {
        lemma_trail_index(parents, labels, entity, steps, i);
        lemma_trail_index(parents, labels, entity, steps, j);
        if t[i] == t[j] {
            lemma_depth_unique(parents, t[i], (steps - i) as nat, (steps - j) as nat);
        }
    }
}

/// Giving a predecessor to an entity that is not on a trail leaves the trail
/// as it was.
pub proof fn lemma_trail_unchanged<K, L>(
    parents: Map<K, K>,
    labels: Map<K, L>,
    child: K,
    parent: K,
    label: L,
    entity: K,
    steps: nat,
)
    requires
        reaches_root(parents, entity, steps),
        !trail(parents, entity, steps).contains(child),
    ensures
        reaches_root(parents.insert(child, parent), entity, steps),
        trail(parents.insert(child, parent), entity, steps) == trail(parents, entity, steps),
        trail_labels(parents.insert(child, parent), labels.insert(child, label), entity, steps)
            == trail_labels(parents, labels, entity, steps),
    decreases steps,
{
    let t = trail(parents, entity, steps);
    lemma_trail_len(parents, labels, entity, steps);
    assert(t[0] == entity);
    assert(entity != child);
    if steps > 0 {
        let rest = (steps - 1) as nat;
        let tail = trail(parents, parents[entity], rest);
        lemma_trail_len(parents, labels, parents[entity], rest);
        assert forall|i: int| 0 <= i < tail.len() implies tail[i] != child by {
            assert(t[i + 1] == tail[i]);
        }
        lemma_trail_unchanged(parents, labels, child, parent, label, parents[entity], rest);
    }
}

/// Giving `child` the predecessor `parent` keeps every entity rooted, as long
/// as `child` is not on the trail of `parent`.
pub proof fn lemma_reparent_rooted<K>(
    parents: Map<K, K>,
    child: K,
    parent: K,
    entity: K,
    steps: nat,
)
    requires
        reaches_root(parents, entity, steps),
        rooted(parents, parent),
        !path_to(parents, parent).contains(child),
    ensures
        rooted(parents.insert(child, parent), entity),
    decreases steps,
{
    let updated = parents.insert(child, parent);
    if entity == child {
        let d = depth(parents, parent);
        let t = trail(parents, parent, d);
        assert forall|i: int| 0 <= i < t.len() implies t[i] != child by {
            assert(t.reverse()[t.len() - 1 - i] == t[i]);
        }
        lemma_trail_unchanged(parents, parents, child, parent, parent, parent, d);
        assert(reaches_root(updated, child, d + 1));
    } else if parents.contains_key(entity) {
        lemma_reparent_rooted(parents, child, parent, parents[entity], (steps - 1) as nat);
        let m = choose|m: nat| reaches_root(updated, parents[entity], m);
        assert(reaches_root(updated, entity, m + 1));
    } else {
        assert(reaches_root(updated, entity, 0));
    }
}

/// Giving `child` the predecessor `parent` keeps the links free of cycles, as
/// long as `child` is not on the path to `parent`.
pub proof fn lemma_reparent_acyclic<K>(parents: Map<K, K>, child: K, parent: K)
    requires
        acyclic(parents),
        !path_to(parents, parent).contains(child),
    ensures
        acyclic(parents.insert(child, parent)),
{
    assert(rooted(parents, parent));
    assert forall|entity: K| #[trigger] rooted(parents.insert(child, parent), entity) by {
        assert(rooted(parents, entity));
        lemma_reparent_rooted(parents, child, parent, entity, depth(parents, entity));
    }
}

/// Giving `child` the predecessor `parent` leaves the path to every entity
/// that `child` is not on as it was.
pub proof fn lemma_reparent_keeps_path<K, L>(
    parents: Map<K, K>,
    labels: Map<K, L>,
    child: K,
    parent: K,
    label: L,
    entity: K,
)
    requires
        rooted(parents, entity),
        !path_to(parents, entity).contains(child),
    ensures
        rooted(parents.insert(child, parent), entity),
        path_to(parents.insert(child, parent), entity) == path_to(parents, entity),
        labels_to(parents.insert(child, parent), labels.insert(child, label), entity)
            == labels_to(parents, labels, entity),
{
    let d = depth(parents, entity);
    let t = trail(parents, entity, d);
    assert forall|i: int| 0 <= i < t.len() implies t[i] != child by {
        assert(t.reverse()[t.len() - 1 - i] == t[i]);
    }
    lemma_trail_unchanged(parents, labels, child, parent, label, entity, d);
    lemma_depth(parents.insert(child, parent), entity, d);
}

/// The shape of a path: it starts where the links end, ends at the entity,
/// holds one label per link, repeats no entity, and each of its steps is a
/// recorded link.
pub proof fn lemma_path_shape<K, L>(parents: Map<K, K>, labels: Map<K, L>, entity: K)
    requires
        rooted(parents, entity),
    ensures
        path_to(parents, entity).len() == labels_to(parents, labels, entity).len() + 1,
        path_to(parents, entity).len() == depth(parents, entity) + 1,
        path_to(parents, entity).last() == entity,
        !parents.contains_key(path_to(parents, entity)[0]),
        path_to(parents, entity).no_duplicates(),
        forall|i: int|
            0 <= i < labels_to(parents, labels, entity).len() ==> {
                &&& parents.contains_key(#[trigger] path_to(parents, entity)[i + 1])
                &&& parents[path_to(parents, entity)[i + 1]] == path_to(parents, entity)[i]
                &&& labels[path_to(parents, entity)[i + 1]] == labels_to(
                    parents,
                    labels,
                    entity,
                )[i]
            },
{
    let d = depth(parents, entity);
    let t = trail(parents, entity, d);
    let l = trail_labels(parents, labels, entity, d);
    let path = path_to(parents, entity);
    lemma_trail_index(parents, labels, entity, d, 0);
    lemma_trail_index(parents, labels, entity, d, d as int);
    lemma_trail_distinct(parents, entity, d);
    assert(path[0] == t[d as int]);
    assert(path.last() == t[0]);
    assert forall|i: int, j: int| 0 <= i < path.len() && 0 <= j < path.len() && i != j implies path[i]
        != path[j] by {
        assert(path[i] == t[d - i]);
        assert(path[j] == t[d - j]);
    }
    assert forall|i: int| 0 <= i < l.len() implies {
        &&& parents.contains_key(#[trigger] path[i + 1])
        &&& parents[path[i + 1]] == path[i]
        &&& labels[path[i + 1]] == labels_to(parents, labels, entity)[i]
    } by {
        lemma_trail_index(parents, labels, entity, d, d - 1 - i);
        assert(path[i + 1] == t[d - 1 - i]);
        assert(path[i] == t[d - i]);
        assert(l.reverse()[i] == l[d - 1 - i]);
    }
}

/// A trail over one more link is the trail so far, followed by the predecessor
/// of its last entity.
pub proof fn lemma_trail_extend<K, L>(
    parents: Map<K, K>,
    labels: Map<K, L>,
    entity: K,
    steps: nat,
)
    ensures
        trail(parents, entity, steps).len() == steps + 1,
        trail(parents, entity, steps + 1) == trail(parents, entity, steps).push(
            parents[trail(parents, entity, steps).last()],
        ),
        trail_labels(parents, labels, entity, steps + 1) == trail_labels(
            parents,
            labels,
            entity,
            steps,
        ).push(labels[trail(parents, entity, steps).last()]),
    decreases steps,
{
    lemma_trail_len(parents, labels, entity, steps);
    if steps > 0 {
        let rest = (steps - 1) as nat;
        lemma_trail_extend(parents, labels, parents[entity], rest);
        lemma_trail_len(parents, labels, parents[entity], rest);
        let inner = trail(parents, parents[entity], rest);
        assert(trail(parents, entity, steps).last() == inner.last());
        assert(trail(parents, entity, steps + 1) =~= trail(parents, entity, steps).push(
            parents[inner.last()],
        ));
        assert(trail_labels(parents, labels, entity, steps + 1) =~= trail_labels(
            parents,
            labels,
            entity,
            steps,
        ).push(labels[inner.last()]));
    } else {
        assert(trail(parents, parents[entity], 0) =~= seq![parents[entity]]);
        assert(trail(parents, entity, 1) =~= seq![entity].push(parents[entity]));
        assert(trail_labels(parents, labels, parents[entity], 0) =~= Seq::<L>::empty());
        assert(trail_labels(parents, labels, entity, 1) =~= Seq::<L>::empty().push(
            labels[entity],
        ));
    }
}

} // verus!
