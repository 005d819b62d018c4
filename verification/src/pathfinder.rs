//! Bidirectional best-first search between a source and a target entity.
//!
//! The search itself never reads the graph. It chooses the next entity to
//! visit, hands it to the caller, and takes back that entity's outgoing edges
//! together with a cost for each path that one of those edges would extend.
//! The caller owns whatever answers those two questions.

use crate::frontier::{
    frontier_entries, frontier_is_empty, frontier_least_cost, frontier_new, frontier_pop_least,
    frontier_push, frontier_push_decrease, is_least, no_entries, EntityQueue,
};
use crate::lineage::{
    acyclic, depth, labels_to, lemma_path_shape, lemma_reparent_acyclic,
    lemma_reparent_keeps_path, lemma_trail_extend, path_to, reaches_root,
    rooted, trail, trail_labels,
};
use crate::text::{copied, holds, reversed, text_pairs, texts};
use vstd::hash_map::StringHashMap;
use vstd::hash_set::StringHashSet;
use vstd::prelude::*;

verus! {

/// The side a step of the search works on.
#[derive(Clone, Copy, Debug, PartialEq, Eq, Structural)]
pub enum Direction {
    /// From the source entity towards the target entity.
    FromSourceToTarget,
    /// From the target entity towards the source entity.
    FromTargetToSource,
}

/// What the search waits for, or how it ended.
#[derive(Clone, Copy, Debug, PartialEq, Eq, Structural)]
pub enum Status {
    /// The next entity can be chosen.
    Ready,
    /// An entity was chosen and its edges are awaited.
    Expanding,
    /// A path was found.
    Found,
    /// The search ended without a path.
    Exhausted,
}

/// An edge of the graph: the entity it leaves, its property, the entity it
/// enters.
pub type Edge = (Seq<char>, Seq<char>, Seq<char>);

/// The predecessor links of a map from an entity to the name of another.
pub open spec fn link_map(links: Map<Seq<char>, String>) -> Map<Seq<char>, Seq<char>> {
    Map::new(|entity: Seq<char>| links.contains_key(entity), |entity: Seq<char>| links[entity]@)
}

/// One direction of a search, as a mathematical value.
#[verifier::ext_equal]
pub ghost struct SideView {
    /// The entity that the direction starts from.
    pub origin: Seq<char>,
    /// The predecessor of each entity reached.
    pub parents: Map<Seq<char>, Seq<char>>,
    /// The property of the edge from that predecessor.
    pub labels: Map<Seq<char>, Seq<char>>,
    /// The best cost known for each entity reached.
    pub costs: Map<Seq<char>, i64>,
    /// The entities waiting to be visited, with their cost.
    pub frontier: Map<Seq<char>, i64>,
    /// The entities whose edges were followed.
    pub expanded: Set<Seq<char>>,
}

impl SideView {
    /// The direction before its first step.
    pub open spec fn initial(origin: Seq<char>) -> SideView {
        SideView {
            origin,
            parents: Map::empty(),
            labels: Map::empty(),
            costs: Map::empty().insert(origin, 0i64),
            frontier: Map::empty().insert(origin, 0i64),
            expanded: Set::empty(),
        }
    }

    /// What a direction keeps true between any two steps, given the edges
    /// that the search was handed so far.
    pub open spec fn wf(self, edges: Set<Edge>) -> bool {
        &&& !self.parents.contains_key(self.origin)
        &&& acyclic(self.parents)
        &&& self.costs.contains_key(self.origin)
        &&& forall|entity: Seq<char>| #[trigger]
            self.parents.contains_key(entity) ==> {
                &&& self.labels.contains_key(entity)
                &&& self.costs.contains_key(entity)
                &&& self.expanded.contains(self.parents[entity])
                &&& edges.contains((self.parents[entity], self.labels[entity], entity))
            }
        &&& forall|entity: Seq<char>| #[trigger]
            self.labels.contains_key(entity) ==> self.parents.contains_key(entity)
        &&& forall|entity: Seq<char>| #[trigger]
            self.costs.contains_key(entity) ==> entity == self.origin
                || self.parents.contains_key(entity)
        &&& forall|entity: Seq<char>| #[trigger]
            self.expanded.contains(entity) ==> entity == self.origin || self.parents.contains_key(
                entity,
            )
        &&& forall|entity: Seq<char>| #[trigger]
            self.frontier.contains_key(entity) ==> {
                &&& self.costs.contains_key(entity)
                &&& self.costs[entity] == self.frontier[entity]
            }
    }

    /// The direction after `entity` left its frontier.
    pub open spec fn popped(self, entity: Seq<char>) -> SideView {
        SideView { frontier: self.frontier.remove(entity), ..self }
    }

    /// The direction after the edges of `entity` were followed.
    pub open spec fn expanding(self, entity: Seq<char>) -> SideView {
        SideView { expanded: self.expanded.insert(entity), ..self }
    }

    /// The direction after `neighbor` was reached from `current` over `prop`
    /// at `cost`.
    pub open spec fn reached(
        self,
        current: Seq<char>,
        prop: Seq<char>,
        neighbor: Seq<char>,
        cost: i64,
    ) -> SideView {
        SideView {
            parents: self.parents.insert(neighbor, current),
            labels: self.labels.insert(neighbor, prop),
            costs: self.costs.insert(neighbor, cost),
            frontier: self.frontier.insert(neighbor, cost),
            ..self
        }
    }

    /// The direction after the edges of `current`, whose path is `path`, were
    /// relaxed in order. An edge to an entity on `path` is passed over; each
    /// other edge takes the next of `costs` as the cost of the path it extends,
    /// and is recorded where its entity was not reached before or was reached
    /// at a higher cost.
    pub open spec fn relaxed(
        self,
        current: Seq<char>,
        path: Seq<Seq<char>>,
        adjacency: Seq<(Seq<char>, Seq<char>)>,
        costs: Seq<i64>,
    ) -> SideView
        decreases adjacency.len(),
    {
        if adjacency.len() == 0 {
            self
        } else {
            let (prop, neighbor) = adjacency[0];
            if path.contains(neighbor) {
                self.relaxed(current, path, adjacency.drop_first(), costs)
            } else if !self.costs.contains_key(neighbor) || costs[0] < self.costs[neighbor] {
                self.reached(current, prop, neighbor, costs[0]).relaxed(
                    current,
                    path,
                    adjacency.drop_first(),
                    costs.drop_first(),
                )
            } else {
                self.relaxed(current, path, adjacency.drop_first(), costs.drop_first())
            }
        }
    }
}

/// The paths that the edges of an entity would extend: `path` followed by the
/// entity an edge enters, for each edge that does not lead back onto `path`.
pub open spec fn candidate_paths(
    path: Seq<Seq<char>>,
    adjacency: Seq<(Seq<char>, Seq<char>)>,
) -> Seq<Seq<Seq<char>>>
    decreases adjacency.len(),
{
    if adjacency.len() == 0 {
        Seq::empty()
    } else if path.contains(adjacency.last().1) {
        candidate_paths(path, adjacency.drop_last())
    } else {
        candidate_paths(path, adjacency.drop_last()).push(path.push(adjacency.last().1))
    }
}

/// The edges that leave `current` according to `adjacency`.
pub open spec fn edges_from(current: Seq<char>, adjacency: Seq<(Seq<char>, Seq<char>)>) -> Set<
    Edge,
> {
    Set::new(
        |edge: Edge|
            edge.0 == current && exists|i: int|
                0 <= i < adjacency.len() && #[trigger] adjacency[i] == (edge.1, edge.2),
    )
}

/// One direction of a search.
pub struct Side {
    origin: String,
    came_from: StringHashMap<String>,
    prev_prop: StringHashMap<String>,
    costs: StringHashMap<i64>,
    queue: EntityQueue,
    expanded: Ghost<Set<Seq<char>>>,
}

impl View for Side {
    type V = SideView;

    closed spec fn view(&self) -> SideView {
        SideView {
            origin: self.origin@,
            parents: link_map(self.came_from@),
            labels: link_map(self.prev_prop@),
            costs: self.costs@,
            frontier: frontier_entries(self.queue),
            expanded: self.expanded@,
        }
    }
}

impl Side {
    /// A direction that starts at `origin`, which waits in the frontier at
    /// cost 0.
    fn new(origin: &str) -> (side: Side)
        ensures
            side@ == SideView::initial(origin@),
            side@.wf(Set::empty()),
    {
        let mut costs: StringHashMap<i64> = StringHashMap::new();
        costs.insert(origin.to_owned(), 0);
        let mut queue = frontier_new();
        frontier_push(&mut queue, origin.to_owned(), 0);
        let side = Side {
            origin: origin.to_owned(),
            came_from: StringHashMap::new(),
            prev_prop: StringHashMap::new(),
            costs,
            queue,
            expanded: Ghost(Set::empty()),
        };
        proof {
            assert forall|entity: Seq<char>| #[trigger] rooted(side@.parents, entity) by {
                assert(reaches_root(side@.parents, entity, 0));
            }
        }
        side
    }
}

/// Walks the predecessor links from `current` back to where they end, and
/// returns the entities met and the properties of the links followed, both in
/// the order from that end to `current`.
pub fn reconstruct_path(
    came_from: &StringHashMap<String>,
    prev_prop: &StringHashMap<String>,
    current: &str,
) -> (result: (Vec<String>, Vec<String>))
    requires
        rooted(link_map(came_from@), current@),
        forall|entity: Seq<char>| #[trigger]
            link_map(came_from@).contains_key(entity) ==> link_map(prev_prop@).contains_key(
                entity,
            ),
    ensures
        texts(result.0@) == path_to(link_map(came_from@), current@),
        texts(result.1@) == labels_to(link_map(came_from@), link_map(prev_prop@), current@),
        result.0.len() == result.1.len() + 1,
{
    let ghost parents = link_map(came_from@);
    let ghost labels = link_map(prev_prop@);
    let ghost total = depth(parents, current@);
    let ghost mut steps: nat = 0;
    let mut entity: String = current.to_owned();
    let mut trail_entities: Vec<String> = Vec::new();
    let mut trail_props: Vec<String> = Vec::new();
    trail_entities.push(entity.clone());
    loop
        invariant
            parents == link_map(came_from@),
            labels == link_map(prev_prop@),
            forall|key: Seq<char>| #[trigger]
                parents.contains_key(key) ==> labels.contains_key(key),
            reaches_root(parents, current@, total),
            steps <= total,
            reaches_root(parents, entity@, (total - steps) as nat),
            texts(trail_entities@) == trail(parents, current@, steps),
            texts(trail_props@) == trail_labels(parents, labels, current@, steps),
            trail_entities.len() == steps + 1,
            trail_props.len() == steps,
            entity@ == trail(parents, current@, steps).last(),
        ensures
            steps == total,
            texts(trail_entities@) == trail(parents, current@, total),
            texts(trail_props@) == trail_labels(parents, labels, current@, total),
            trail_entities.len() == trail_props.len() + 1,
        decreases total - steps,
    {
        match came_from.get(entity.as_str()) {
            None => {
                break ;
            },
            Some(next) => {
                match prev_prop.get(entity.as_str()) {
                    None => {
                        assert(false);
                    },
                    Some(prop) => {
                        trail_props.push(prop.clone());
                    },
                }
                proof {
                    lemma_trail_extend(parents, labels, current@, steps);
                }
                entity = next.clone();
                trail_entities.push(entity.clone());
                proof {
                    steps = steps + 1;
                }
            },
        }
    }
    let path = reversed(&trail_entities);
    let props = reversed(&trail_props);
    proof {
        assert(path.len() == texts(path@).len());
        assert(props.len() == texts(props@).len());
    }
    (path, props)
}

/// The candidate count never shrinks when more edges are considered.
pub proof fn lemma_candidates_prefix(
    path: Seq<Seq<char>>,
    adjacency: Seq<(Seq<char>, Seq<char>)>,
    count: int,
)
    requires
        0 <= count <= adjacency.len(),
    ensures
        candidate_paths(path, adjacency.take(count)).len() <= candidate_paths(
            path,
            adjacency,
        ).len(),
    decreases adjacency.len(),
{
    if count == adjacency.len() {
        assert(adjacency.take(count) =~= adjacency);
    } else {
        lemma_candidates_prefix(path, adjacency.drop_last(), count);
        assert(adjacency.drop_last().take(count) =~= adjacency.take(count));
    }
}

impl Side {
    /// Relaxes the edges of `current`, whose path on this side is `path`.
    fn relax(
        &mut self,
        current: &String,
        path: &Vec<String>,
        adjacency: &Vec<(String, String)>,
        costs: &Vec<i64>,
        Ghost(edges): Ghost<Set<Edge>>,
    )
        requires
            old(self)@.wf(edges),
            edges_from(current@, text_pairs(adjacency@)).subset_of(edges),
            old(self)@.expanded.contains(current@),
            texts(path@) == path_to(old(self)@.parents, current@),
            costs.len() == candidate_paths(texts(path@), text_pairs(adjacency@)).len(),
        ensures
            final(self)@ == old(self)@.relaxed(
                current@,
                texts(path@),
                text_pairs(adjacency@),
                costs@,
            ),
            final(self)@.wf(edges),
            final(self)@.expanded == old(self)@.expanded,
            final(self)@.origin == old(self)@.origin,
            texts(path@) == path_to(final(self)@.parents, current@),
    {
        let ghost route = texts(path@);
        let ghost links = text_pairs(adjacency@);
        let ghost goal = old(self)@.relaxed(current@, route, links, costs@);
        let mut i: usize = 0;
        let mut j: usize = 0;
        proof {
            assert(links.skip(0) =~= links);
            assert(costs@.skip(0) =~= costs@);
        }
        while i < adjacency.len()
            invariant
                i <= adjacency.len(),
                j <= costs.len(),
                route == texts(path@),
                links == text_pairs(adjacency@),
                links.len() == adjacency.len(),
                costs.len() == candidate_paths(route, links).len(),
                j == candidate_paths(route, links.take(i as int)).len(),
                self@.wf(edges),
                self@.expanded == old(self)@.expanded,
                self@.origin == old(self)@.origin,
                self@.expanded.contains(current@),
                edges_from(current@, links).subset_of(edges),
                route == path_to(self@.parents, current@),
                self@.relaxed(current@, route, links.skip(i as int), costs@.skip(j as int)) == goal,
            decreases adjacency.len() - i,
        {
            let ghost before = self@;
            let ghost rest = links.skip(i as int);
            let prop = &adjacency[i].0;
            let neighbor = &adjacency[i].1;
            proof {
                assert(rest.drop_first() =~= links.skip(i + 1));
                assert(links.take(i + 1).drop_last() =~= links.take(i as int));
                lemma_candidates_prefix(route, links, i + 1);
            }
            if !holds(path, neighbor) {
                let cost = costs[j];
                proof {
                    assert(costs@.skip(j as int).drop_first() =~= costs@.skip(j + 1));
                }
                let improves = match self.costs.get(neighbor.as_str()) {
                    None => true,
                    Some(known) => cost < *known,
                };
                if improves {
                    self.came_from.insert(neighbor.clone(), current.clone());
                    self.prev_prop.insert(neighbor.clone(), prop.clone());
                    self.costs.insert(neighbor.clone(), cost);
                    frontier_push_decrease(&mut self.queue, neighbor.clone(), cost);
                    proof {
                        let after = before.reached(current@, prop@, neighbor@, cost);
                        assert(self@ =~= after);
                        lemma_origin_first(before, edges, current@);
                        lemma_reparent_acyclic(before.parents, neighbor@, current@);
                        lemma_reparent_keeps_path(
                            before.parents,
                            before.labels,
                            neighbor@,
                            current@,
                            prop@,
                            current@,
                        );
                    }
                }
                j = j + 1;
            }
            i = i + 1;
        }
    }
}

/// The path to an entity that a direction has expanded starts at the origin
/// of that direction.
pub proof fn lemma_origin_first(side: SideView, edges: Set<Edge>, entity: Seq<char>)
    requires
        side.wf(edges),
        entity == side.origin || side.parents.contains_key(entity),
    ensures
        path_to(side.parents, entity)[0] == side.origin,
{
    lemma_path_shape(side.parents, side.labels, entity);
    let path = path_to(side.parents, entity);
    if path.len() > 1 {
        assert(side.parents.contains_key(path[0int + 1]));
    }
}

/// A search, as a mathematical value.
#[verifier::ext_equal]
pub ghost struct SearchView {
    /// The entity the path starts at.
    pub source: Seq<char>,
    /// The entity the path ends at.
    pub target: Seq<char>,
    /// The number of entities that may be visited.
    pub entity_limit: nat,
    /// The direction that starts at the source.
    pub forward: SideView,
    /// The direction that starts at the target.
    pub backward: SideView,
    /// The entities visited so far, on either side.
    pub visited: Set<Seq<char>>,
    /// The edges handed to the search so far.
    pub edges: Set<Edge>,
    /// What the search waits for, or how it ended.
    pub status: Status,
    /// The side of the entity visited last.
    pub direction: Direction,
    /// The entity visited last.
    pub current: Seq<char>,
    /// The path to that entity on its side.
    pub path: Seq<Seq<char>>,
    /// The properties along that path.
    pub props: Seq<Seq<char>>,
    /// The path found from the source, or nothing.
    pub path_forward: Seq<Seq<char>>,
    /// The properties along it.
    pub props_forward: Seq<Seq<char>>,
    /// The path found from the target, or nothing.
    pub path_backward: Seq<Seq<char>>,
    /// The properties along it.
    pub props_backward: Seq<Seq<char>>,
}

impl SearchView {
    /// The search before its first step.
    pub open spec fn initial(source: Seq<char>, target: Seq<char>, entity_limit: nat) -> SearchView {
        SearchView {
            source,
            target,
            entity_limit,
            forward: SideView::initial(source),
            backward: SideView::initial(target),
            visited: Set::empty(),
            edges: Set::empty(),
            status: Status::Ready,
            direction: Direction::FromSourceToTarget,
            current: source,
            path: Seq::empty(),
            props: Seq::empty(),
            path_forward: Seq::empty(),
            props_forward: Seq::empty(),
            path_backward: Seq::empty(),
            props_backward: Seq::empty(),
        }
    }

    /// The side that works in `direction`.
    pub open spec fn side(self, direction: Direction) -> SideView {
        match direction {
            Direction::FromSourceToTarget => self.forward,
            Direction::FromTargetToSource => self.backward,
        }
    }

    /// The search with the side of `direction` replaced.
    pub open spec fn with_side(self, direction: Direction, side: SideView) -> SearchView {
        match direction {
            Direction::FromSourceToTarget => SearchView { forward: side, ..self },
            Direction::FromTargetToSource => SearchView { backward: side, ..self },
        }
    }

    /// Whether no further entity can be visited: both frontiers are empty, or
    /// the limit of visited entities is reached.
    pub open spec fn exhausted(self) -> bool {
        ||| self.forward.frontier == no_entries() && self.backward.frontier == no_entries()
        ||| self.visited.len() >= self.entity_limit
    }

    /// Whether `entity` may be the next to be visited, on the side of
    /// `direction`: it has the least cost of its frontier, and that frontier
    /// goes first. The forward frontier goes first unless the backward one
    /// holds a strictly lower cost.
    pub open spec fn selects(self, direction: Direction, entity: Seq<char>) -> bool {
        match direction {
            Direction::FromSourceToTarget => {
                &&& is_least(self.forward.frontier, entity, self.forward.frontier[entity])
                &&& forall|other: Seq<char>| #[trigger]
                    self.backward.frontier.contains_key(other) ==> self.forward.frontier[entity]
                        <= self.backward.frontier[other]
            },
            Direction::FromTargetToSource => {
                &&& is_least(self.backward.frontier, entity, self.backward.frontier[entity])
                &&& forall|other: Seq<char>| #[trigger]
                    self.forward.frontier.contains_key(other) ==> self.backward.frontier[entity]
                        < self.forward.frontier[other]
            },
        }
    }

    /// Whether visiting `entity` on the side of `direction` ends the search
    /// because that side has arrived at the origin of the other.
    pub open spec fn arrives(self, direction: Direction, entity: Seq<char>) -> bool {
        match direction {
            Direction::FromSourceToTarget => entity == self.target,
            Direction::FromTargetToSource => entity == self.source,
        }
    }

    /// Whether both sides have reached `entity` from elsewhere.
    pub open spec fn meets(self, entity: Seq<char>) -> bool {
        self.forward.parents.contains_key(entity) && self.backward.parents.contains_key(entity)
    }

    /// The search after a fruitless attempt to choose an entity.
    pub open spec fn ended(self) -> SearchView {
        SearchView { status: Status::Exhausted, ..self }
    }

    /// The search after `entity` left the frontier of `direction` and was
    /// visited. It has found a path if that side has arrived, or else if both
    /// sides meet at `entity`; otherwise the edges of `entity` are awaited.
    pub open spec fn visit(self, direction: Direction, entity: Seq<char>) -> SearchView {
        let side = self.side(direction).popped(entity);
        let path = path_to(side.parents, entity);
        let props = labels_to(side.parents, side.labels, entity);
        let seen = SearchView {
            visited: self.visited.insert(entity),
            direction,
            current: entity,
            path,
            props,
            ..self.with_side(direction, side)
        };
        if self.arrives(direction, entity) {
            match direction {
                Direction::FromSourceToTarget => SearchView {
                    status: Status::Found,
                    path_forward: path,
                    props_forward: props,
                    ..seen
                },
                Direction::FromTargetToSource => SearchView {
                    status: Status::Found,
                    path_backward: path,
                    props_backward: props,
                    ..seen
                },
            }
        } else if self.meets(entity) {
            SearchView {
                status: Status::Found,
                path_forward: path_to(self.forward.parents, entity),
                props_forward: labels_to(self.forward.parents, self.forward.labels, entity),
                path_backward: path_to(self.backward.parents, entity),
                props_backward: labels_to(self.backward.parents, self.backward.labels, entity),
                ..seen
            }
        } else {
            SearchView { status: Status::Expanding, ..seen.with_side(
                direction,
                side.expanding(entity),
            ) }
        }
    }

    /// The search after the edges of the entity visited last were relaxed.
    pub open spec fn relax(
        self,
        adjacency: Seq<(Seq<char>, Seq<char>)>,
        costs: Seq<i64>,
    ) -> SearchView {
        SearchView {
            status: Status::Ready,
            edges: self.edges.union(edges_from(self.current, adjacency)),
            ..self.with_side(
                self.direction,
                self.side(self.direction).relaxed(self.current, self.path, adjacency, costs),
            )
        }
    }

    /// Whether the paths recorded are those of a search that has found one.
    pub open spec fn found_paths(self) -> bool {
        &&& self.path_forward.len() > 0 || self.path_backward.len() > 0
        &&& if self.path_forward.len() > 0 {
            &&& self.current == self.source || self.forward.parents.contains_key(self.current)
            &&& self.path_forward == path_to(self.forward.parents, self.current)
            &&& self.props_forward == labels_to(
                self.forward.parents,
                self.forward.labels,
                self.current,
            )
        } else {
            &&& self.props_forward.len() == 0
            &&& self.current == self.source
        }
        &&& if self.path_backward.len() > 0 {
            &&& self.current == self.target || self.backward.parents.contains_key(self.current)
            &&& self.path_backward == path_to(self.backward.parents, self.current)
            &&& self.props_backward == labels_to(
                self.backward.parents,
                self.backward.labels,
                self.current,
            )
        } else {
            &&& self.props_backward.len() == 0
            &&& self.current == self.target
        }
    }

    /// Whether no path is recorded.
    pub open spec fn no_paths(self) -> bool {
        &&& self.path_forward.len() == 0
        &&& self.props_forward.len() == 0
        &&& self.path_backward.len() == 0
        &&& self.props_backward.len() == 0
    }

    /// What a search keeps true from its first step to its last.
    pub open spec fn wf(self) -> bool {
        &&& self.forward.origin == self.source
        &&& self.backward.origin == self.target
        &&& self.forward.wf(self.edges)
        &&& self.backward.wf(self.edges)
        &&& self.forward.expanded.disjoint(self.backward.expanded)
        &&& !self.forward.expanded.contains(self.target)
        &&& !self.backward.expanded.contains(self.source)
        &&& self.visited.finite()
        &&& self.visited.len() <= self.entity_limit
        &&& self.status == Status::Expanding ==> {
            &&& self.side(self.direction).expanded.contains(self.current)
            &&& self.path == path_to(self.side(self.direction).parents, self.current)
        }
        &&& if self.status == Status::Found {
            self.found_paths()
        } else {
            self.no_paths()
        }
    }
}

/// A search for a path between two entities.
pub struct Search {
    source: String,
    target: String,
    entity_limit: usize,
    forward: Side,
    backward: Side,
    visited: StringHashSet,
    edges: Ghost<Set<Edge>>,
    status: Status,
    direction: Direction,
    current: String,
    path: Vec<String>,
    props: Vec<String>,
    path_forward: Vec<String>,
    props_forward: Vec<String>,
    path_backward: Vec<String>,
    props_backward: Vec<String>,
}

impl View for Search {
    type V = SearchView;

    closed spec fn view(&self) -> SearchView {
        SearchView {
            source: self.source@,
            target: self.target@,
            entity_limit: self.entity_limit as nat,
            forward: self.forward@,
            backward: self.backward@,
            visited: self.visited@,
            edges: self.edges@,
            status: self.status,
            direction: self.direction,
            current: self.current@,
            path: texts(self.path@),
            props: texts(self.props@),
            path_forward: texts(self.path_forward@),
            props_forward: texts(self.props_forward@),
            path_backward: texts(self.path_backward@),
            props_backward: texts(self.props_backward@),
        }
    }
}

/// The text of each path of a sequence.
pub open spec fn text_lists(paths: Seq<Vec<String>>) -> Seq<Seq<Seq<char>>> {
    Seq::new(paths.len(), |i: int| texts(paths[i]@))
}

impl Search {
    /// A search from `source` to `target` that visits at most `entity_limit`
    /// entities. Both entities wait in their frontier at cost 0.
    pub fn new(source: &str, target: &str, entity_limit: usize) -> (search: Search)
        ensures
            search@ == SearchView::initial(source@, target@, entity_limit as nat),
            search@.wf(),
    {
        let search = Search {
            source: source.to_owned(),
            target: target.to_owned(),
            entity_limit,
            forward: Side::new(source),
            backward: Side::new(target),
            visited: StringHashSet::new(),
            edges: Ghost(Set::empty()),
            status: Status::Ready,
            direction: Direction::FromSourceToTarget,
            current: source.to_owned(),
            path: Vec::new(),
            props: Vec::new(),
            path_forward: Vec::new(),
            props_forward: Vec::new(),
            path_backward: Vec::new(),
            props_backward: Vec::new(),
        };
        search
    }

    /// What the search waits for, or how it ended.
    pub fn status(&self) -> (status: Status)
        ensures
            status == self@.status,
    {
        self.status
    }

    /// The side of the entity visited last.
    pub fn direction(&self) -> (direction: Direction)
        ensures
            direction == self@.direction,
    {
        self.direction
    }

    /// The entity visited last.
    pub fn current(&self) -> (current: &String)
        ensures
            current@ == self@.current,
    {
        &self.current
    }

    /// The path to the entity visited last, on its side.
    pub fn path(&self) -> (path: &Vec<String>)
        ensures
            texts(path@) == self@.path,
    {
        &self.path
    }

    /// The number of entities visited so far.
    pub fn visited_count(&self) -> (count: usize)
        ensures
            count == self@.visited.len(),
    {
        self.visited.len()
    }

    /// Chooses the next entity to visit and visits it.
    ///
    /// Nothing is chosen once both frontiers are empty or the limit of visited
    /// entities is reached. Otherwise an entity of least cost leaves the
    /// frontier that goes first. The search has found a path if that entity
    /// is the origin of the other side, or else if both sides have reached it;
    /// if neither holds, its edges are awaited.
    pub fn next(&mut self) -> (status: Status)
        requires
            old(self)@.wf(),
            old(self)@.status == Status::Ready,
        ensures
            final(self)@.wf(),
            status == final(self)@.status,
            old(self)@.exhausted() ==> final(self)@ == old(self)@.ended(),
            !old(self)@.exhausted() ==> {
                &&& old(self)@.selects(final(self)@.direction, final(self)@.current)
                &&& final(self)@ == old(self)@.visit(final(self)@.direction, final(self)@.current)
            },
    {
        let ghost before = self@;
        let forward_empty = frontier_is_empty(&self.forward.queue);
        let backward_empty = frontier_is_empty(&self.backward.queue);
        if (forward_empty && backward_empty) || self.visited.len() >= self.entity_limit {
            self.status = Status::Exhausted;
            assert(self@ =~= before.ended());
            return Status::Exhausted;
        }
        let direction = if forward_empty {
            Direction::FromTargetToSource
        } else if backward_empty {
            Direction::FromSourceToTarget
        } else {
            let forward_least = frontier_least_cost(&self.forward.queue);
            let backward_least = frontier_least_cost(&self.backward.queue);
            match (forward_least, backward_least) {
                (Some(forward_cost), Some(backward_cost)) => {
                    if forward_cost <= backward_cost {
                        Direction::FromSourceToTarget
                    } else {
                        Direction::FromTargetToSource
                    }
                },
                _ => {
                    assert(false);
                    Direction::FromSourceToTarget
                },
            }
        };
        let popped = match direction {
            Direction::FromSourceToTarget => frontier_pop_least(&mut self.forward.queue),
            Direction::FromTargetToSource => frontier_pop_least(&mut self.backward.queue),
        };
        let current = match popped {
            Some((entity, _)) => entity,
            None => {
                assert(false);
                String::new()
            },
        };
        assert(before.selects(direction, current@));
        let ghost side = before.side(direction).popped(current@);
        assert(self@.side(direction) =~= side);
        assert(side.wf(before.edges));
        assert(rooted(side.parents, current@));
        self.visited.insert(current.clone());
        let (path, props) = match direction {
            Direction::FromSourceToTarget => reconstruct_path(
                &self.forward.came_from,
                &self.forward.prev_prop,
                current.as_str(),
            ),
            Direction::FromTargetToSource => reconstruct_path(
                &self.backward.came_from,
                &self.backward.prev_prop,
                current.as_str(),
            ),
        };
        let arrives = match direction {
            Direction::FromSourceToTarget => current == self.target,
            Direction::FromTargetToSource => current == self.source,
        };
        let status = if arrives {
            match direction {
                Direction::FromSourceToTarget => {
                    self.path_forward = copied(&path);
                    self.props_forward = copied(&props);
                },
                Direction::FromTargetToSource => {
                    self.path_backward = copied(&path);
                    self.props_backward = copied(&props);
                },
            }
            Status::Found
        } else if self.forward.came_from.contains_key(current.as_str())
            && self.backward.came_from.contains_key(current.as_str()) {
            let (path_forward, props_forward) = reconstruct_path(
                &self.forward.came_from,
                &self.forward.prev_prop,
                current.as_str(),
            );
            let (path_backward, props_backward) = reconstruct_path(
                &self.backward.came_from,
                &self.backward.prev_prop,
                current.as_str(),
            );
            self.path_forward = path_forward;
            self.props_forward = props_forward;
            self.path_backward = path_backward;
            self.props_backward = props_backward;
            Status::Found
        } else {
            proof {
                match direction {
                    Direction::FromSourceToTarget => {
                        self.forward.expanded = Ghost(self.forward.expanded@.insert(current@));
                    },
                    Direction::FromTargetToSource => {
                        self.backward.expanded = Ghost(self.backward.expanded@.insert(current@));
                    },
                }
            }
            Status::Expanding
        };
        self.current = current;
        self.direction = direction;
        self.path = path;
        self.props = props;
        self.status = status;
        proof {
            let after = before.visit(direction, self.current@);
            lemma_path_shape(side.parents, side.labels, self.current@);
            assert(self@.forward =~= after.forward);
            assert(self@.backward =~= after.backward);
            assert(self@ =~= after);
            lemma_visit_wf(before, direction, self.current@);
        }
        status
    }

    /// The paths that the edges of the entity visited last would extend, one
    /// for each edge that does not lead back onto the path to that entity, in
    /// the order of the edges.
    pub fn candidates(&self, adjacency: &Vec<(String, String)>) -> (paths: Vec<Vec<String>>)
        ensures
            text_lists(paths@) == candidate_paths(self@.path, text_pairs(adjacency@)),
    {
        let ghost links = text_pairs(adjacency@);
        let mut paths: Vec<Vec<String>> = Vec::new();
        let mut i: usize = 0;
        while i < adjacency.len()
            invariant
                i <= adjacency.len(),
                links == text_pairs(adjacency@),
                text_lists(paths@) == candidate_paths(texts(self.path@), links.take(i as int)),
            decreases adjacency.len() - i,
        {
            let neighbor = &adjacency[i].1;
            proof {
                assert(links.take(i + 1).drop_last() =~= links.take(i as int));
            }
            if !holds(&self.path, neighbor) {
                let mut candidate = copied(&self.path);
                candidate.push(neighbor.clone());
                assert(texts(candidate@) =~= texts(self.path@).push(neighbor@));
                paths.push(candidate);
            }
            i = i + 1;
        }
        proof {
            assert(links.take(i as int) =~= links);
        }
        paths
    }

    /// Relaxes the edges of the entity visited last. `costs` holds the cost
    /// of each candidate path, in the order of `candidates`.
    ///
    /// An edge that leads back onto the path is passed over. Any other edge is
    /// recorded, and the entity it enters waits in the frontier at the cost of
    /// its candidate path, unless that entity was already reached at a cost
    /// that is not higher.
    pub fn relax(&mut self, adjacency: &Vec<(String, String)>, costs: &Vec<i64>)
        requires
            old(self)@.wf(),
            old(self)@.status == Status::Expanding,
            costs.len() == candidate_paths(old(self)@.path, text_pairs(adjacency@)).len(),
        ensures
            final(self)@.wf(),
            final(self)@ == old(self)@.relax(text_pairs(adjacency@), costs@),
    {
        let ghost links = text_pairs(adjacency@);
        proof {
            self.edges = Ghost(self.edges@.union(edges_from(self.current@, links)));
        }
        let ghost edges = self.edges@;
        match self.direction {
            Direction::FromSourceToTarget => {
                self.forward.relax(&self.current, &self.path, adjacency, costs, Ghost(edges));
            },
            Direction::FromTargetToSource => {
                self.backward.relax(&self.current, &self.path, adjacency, costs, Ghost(edges));
            },
        }
        self.status = Status::Ready;
    }
}

/// Visiting an entity that was rightly chosen keeps the search well formed.
pub proof fn lemma_visit_wf(search: SearchView, direction: Direction, entity: Seq<char>)
    requires
        search.wf(),
        search.status == Status::Ready,
        search.selects(direction, entity),
        !search.exhausted(),
    ensures
        search.visit(direction, entity).wf(),
{
    let after = search.visit(direction, entity);
    let side = search.side(direction).popped(entity);
    assert(side.wf(search.edges));
    assert(rooted(side.parents, entity));
    lemma_path_shape(side.parents, side.labels, entity);
    assert(after.visited.len() <= search.visited.len() + 1);
    if search.arrives(direction, entity) {
        assert(after.wf());
    } else if search.meets(entity) {
        assert(rooted(search.forward.parents, entity));
        assert(rooted(search.backward.parents, entity));
        lemma_path_shape(search.forward.parents, search.forward.labels, entity);
        lemma_path_shape(search.backward.parents, search.backward.labels, entity);
        assert(after.wf());
    } else {
        assert(after.wf());
    }
}

/// Whether each step of `path` is one of `edges`, taken over the property
/// that `props` holds for it.
pub open spec fn follows(path: Seq<Seq<char>>, props: Seq<Seq<char>>, edges: Set<Edge>) -> bool {
    &&& path.len() == props.len() + 1
    &&& forall|i: int|
        0 <= i < props.len() ==> edges.contains((path[i], #[trigger] props[i], path[i + 1]))
}

/// The path from the source to the target that the two recorded paths make
/// up: the forward path alone, the backward path read from its end, or the
/// forward path followed by the backward path read from its end without the
/// entity at which both end.
pub open spec fn joined(forward: Seq<Seq<char>>, backward: Seq<Seq<char>>) -> Seq<Seq<char>> {
    if backward.len() == 0 {
        forward
    } else if forward.len() == 0 {
        backward.reverse()
    } else {
        forward + backward.reverse().drop_first()
    }
}

/// The number of edges on the path that the two recorded paths make up.
pub open spec fn joined_length(forward: Seq<Seq<char>>, backward: Seq<Seq<char>>) -> nat {
    if forward.len() == 0 && backward.len() == 0 {
        0
    } else {
        (joined(forward, backward).len() - 1) as nat
    }
}

/// A path on one side of a well-formed search starts at the origin of that
/// side, repeats no entity, follows edges that the search was handed, and
/// passes only through entities that the side has expanded.
pub proof fn lemma_side_path(side: SideView, edges: Set<Edge>, entity: Seq<char>)
    requires
        side.wf(edges),
        entity == side.origin || side.parents.contains_key(entity),
    ensures
        path_to(side.parents, entity)[0] == side.origin,
        path_to(side.parents, entity).last() == entity,
        path_to(side.parents, entity).no_duplicates(),
        follows(
            path_to(side.parents, entity),
            labels_to(side.parents, side.labels, entity),
            edges,
        ),
        forall|i: int|
            0 <= i < path_to(side.parents, entity).len() - 1 ==> side.expanded.contains(
                #[trigger] path_to(side.parents, entity)[i],
            ),
{
    lemma_path_shape(side.parents, side.labels, entity);
    let path = path_to(side.parents, entity);
    assert forall|i: int| 0 <= i < path.len() - 1 implies side.expanded.contains(
        #[trigger] path[i],
    ) by {
        assert(side.parents.contains_key(path[i + 1]));
    }
}

/// Relaxing edges never raises the cost recorded for an entity, and never
/// forgets an entity that was reached.
pub proof fn lemma_relax_never_raises_costs(
    side: SideView,
    current: Seq<char>,
    path: Seq<Seq<char>>,
    adjacency: Seq<(Seq<char>, Seq<char>)>,
    costs: Seq<i64>,
    entity: Seq<char>,
)
    requires
        side.costs.contains_key(entity),
    ensures
        side.relaxed(current, path, adjacency, costs).costs.contains_key(entity),
        side.relaxed(current, path, adjacency, costs).costs[entity] <= side.costs[entity],
    decreases adjacency.len(),
{
    if adjacency.len() > 0 {
        let (prop, neighbor) = adjacency[0];
        if path.contains(neighbor) {
            lemma_relax_never_raises_costs(
                side,
                current,
                path,
                adjacency.drop_first(),
                costs,
                entity,
            );
        } else if !side.costs.contains_key(neighbor) || costs[0] < side.costs[neighbor] {
            lemma_relax_never_raises_costs(
                side.reached(current, prop, neighbor, costs[0]),
                current,
                path,
                adjacency.drop_first(),
                costs.drop_first(),
                entity,
            );
        } else {
            lemma_relax_never_raises_costs(
                side,
                current,
                path,
                adjacency.drop_first(),
                costs.drop_first(),
                entity,
            );
        }
    }
}

/// Over a step of the search, the cost recorded for an entity on either side
/// stays or falls: visiting an entity changes no cost, and relaxing its edges
/// never raises one.
pub proof fn lemma_costs_never_rise(
    search: SearchView,
    direction: Direction,
    visited: Seq<char>,
    adjacency: Seq<(Seq<char>, Seq<char>)>,
    costs: Seq<i64>,
    side: Direction,
    entity: Seq<char>,
)
    requires
        search.side(side).costs.contains_key(entity),
    ensures
        search.visit(direction, visited).side(side).costs == search.side(side).costs,
        search.relax(adjacency, costs).side(side).costs.contains_key(entity),
        search.relax(adjacency, costs).side(side).costs[entity] <= search.side(side).costs[entity],
{
    if side == search.direction {
        lemma_relax_never_raises_costs(
            search.side(side),
            search.current,
            search.path,
            adjacency,
            costs,
            entity,
        );
    }
}

/// Every path that a search has found is made of edges that the search was
/// handed: each two neighbours on it are joined by the property recorded for
/// them, and it holds one entity more than it holds properties.
pub proof fn lemma_found_paths_follow_edges(search: SearchView)
    requires
        search.wf(),
        search.status == Status::Found,
    ensures
        search.path_forward.len() > 0 ==> follows(
            search.path_forward,
            search.props_forward,
            search.edges,
        ),
        search.path_backward.len() > 0 ==> follows(
            search.path_backward,
            search.props_backward,
            search.edges,
        ),
        search.path_forward.len() > 0 ==> search.path_forward[0] == search.source,
        search.path_backward.len() > 0 ==> search.path_backward[0] == search.target,
        search.path_forward.len() > 0 && search.path_backward.len() == 0
            ==> search.path_forward.last() == search.target,
        search.path_backward.len() > 0 && search.path_forward.len() == 0
            ==> search.path_backward.last() == search.source,
{
    if search.path_forward.len() > 0 {
        lemma_side_path(search.forward, search.edges, search.current);
    }
    if search.path_backward.len() > 0 {
        lemma_side_path(search.backward, search.edges, search.current);
    }
}

/// No entity stands twice on a path that a search has found.
pub proof fn lemma_found_paths_simple(search: SearchView)
    requires
        search.wf(),
        search.status == Status::Found,
    ensures
        search.path_forward.no_duplicates(),
        search.path_backward.no_duplicates(),
{
    if search.path_forward.len() > 0 {
        lemma_side_path(search.forward, search.edges, search.current);
    }
    if search.path_backward.len() > 0 {
        lemma_side_path(search.backward, search.edges, search.current);
    }
}

/// Where both sides have contributed a path, both paths end at the same
/// entity, and the path that they make up together holds no entity twice, so
/// that entity stands on it once, where the two halves join.
pub proof fn lemma_joined_path_simple(search: SearchView)
    requires
        search.wf(),
        search.status == Status::Found,
        search.path_forward.len() > 0,
        search.path_backward.len() > 0,
    ensures
        search.path_forward.last() == search.current,
        search.path_backward.last() == search.current,
        joined(search.path_forward, search.path_backward).no_duplicates(),
        joined(search.path_forward, search.path_backward)[search.path_forward.len() - 1]
            == search.current,
        joined(search.path_forward, search.path_backward).len() == search.path_forward.len()
            + search.path_backward.len() - 1,
{
    let forward = search.path_forward;
    let backward = search.path_backward;
    let whole = joined(forward, backward);
    lemma_side_path(search.forward, search.edges, search.current);
    lemma_side_path(search.backward, search.edges, search.current);
    assert forall|i: int, j: int| 0 <= i < whole.len() && 0 <= j < whole.len() && i != j implies whole[i]
        != whole[j] by {
        if i < forward.len() && j < forward.len() {
        } else if i >= forward.len() && j >= forward.len() {
            let a = i - forward.len();
            let b = j - forward.len();
            assert(whole[i] == backward[backward.len() - 2 - a]);
            assert(whole[j] == backward[backward.len() - 2 - b]);
        } else {
            let (low, high) = if i < j {
                (i, j)
            } else {
                (j, i)
            };
            let b = high - forward.len();
            let place = backward.len() - 2 - b;
            assert(whole[high] == backward[place]);
            assert(search.backward.expanded.contains(backward[place]));
            if low < forward.len() - 1 {
                assert(search.forward.expanded.contains(forward[low]));
            } else {
                assert(forward[low] == backward.last());
            }
        }
    }
}

/// The outcome of a search.
pub struct Outcome {
    /// The path found from the source, or nothing.
    pub path_forward: Vec<String>,
    /// The path found from the target, or nothing.
    pub path_backward: Vec<String>,
    /// The properties along the forward path.
    pub props_forward: Vec<String>,
    /// The properties along the backward path.
    pub props_backward: Vec<String>,
    /// The number of entities visited.
    pub visited_count: usize,
}

impl Outcome {
    /// Whether a path was found.
    pub open spec fn found(&self) -> bool {
        self.path_forward.len() > 0 || self.path_backward.len() > 0
    }

    /// Whether a path was found.
    pub fn is_found(&self) -> (found: bool)
        ensures
            found == self.found(),
    {
        self.path_forward.len() > 0 || self.path_backward.len() > 0
    }

    /// The path from the source to the target, or nothing if none was found.
    pub fn full_path(&self) -> (path: Vec<String>)
        ensures
            texts(path@) == joined(texts(self.path_forward@), texts(self.path_backward@)),
    {
        full_path(&self.path_forward, &self.path_backward)
    }
}

/// The path from the source to the target that the two recorded paths make
/// up.
pub fn full_path(path_forward: &Vec<String>, path_backward: &Vec<String>) -> (path: Vec<String>)
    ensures
        texts(path@) == joined(texts(path_forward@), texts(path_backward@)),
{
    if path_backward.len() == 0 {
        return copied(path_forward);
    }
    let turned = reversed(path_backward);
    assert(texts(turned@).len() == turned.len());
    if path_forward.len() == 0 {
        return turned;
    }
    let mut path = copied(path_forward);
    proof {
        assert(texts(path@).len() == path.len());
        assert forall|j: int| 0 <= j < path_forward.len() implies path[j]@ == path_forward[j]@ by {
            assert(texts(path@)[j] == texts(path_forward@)[j]);
        }
    }
    let mut i: usize = 1;
    while i < turned.len()
        invariant
            1 <= i <= turned.len(),
            turned.len() == path_backward.len(),
            path.len() == path_forward.len() + i - 1,
            texts(turned@) == texts(path_backward@).reverse(),
            forall|j: int| 0 <= j < path_forward.len() ==> path[j]@ == path_forward[j]@,
            forall|j: int| 1 <= j < i ==> path[path_forward.len() + j - 1]@ == turned[j]@,
        decreases turned.len() - i,
    {
        path.push(turned[i].clone());
        i = i + 1;
    }
    proof {
        let wanted = joined(texts(path_forward@), texts(path_backward@));
    }
    path
}

impl Search {
    /// The outcome of the search as it stands: the paths found, if any, and
    /// the number of entities visited, which never exceeds the limit.
    pub fn outcome(&self) -> (outcome: Outcome)
        requires
            self@.wf(),
        ensures
            texts(outcome.path_forward@) == self@.path_forward,
            texts(outcome.path_backward@) == self@.path_backward,
            texts(outcome.props_forward@) == self@.props_forward,
            texts(outcome.props_backward@) == self@.props_backward,
            outcome.visited_count == self@.visited.len(),
            outcome.visited_count <= self@.entity_limit,
            outcome.found() == (self@.status == Status::Found),
    {
        let outcome = Outcome {
            path_forward: copied(&self.path_forward),
            path_backward: copied(&self.path_backward),
            props_forward: copied(&self.props_forward),
            props_backward: copied(&self.props_backward),
            visited_count: self.visited.len(),
        };
        outcome
    }
}

/// A path finder that visits at most a given number of entities per search.
pub struct Pathfinder {
    entity_limit: usize,
}

impl Pathfinder {
    /// The number of entities that a search may visit.
    pub closed spec fn limit(&self) -> nat {
        self.entity_limit as nat
    }

    /// A path finder with the given limit of visited entities.
    pub fn new(entity_limit: usize) -> (pathfinder: Self)
        ensures
            pathfinder.limit() == entity_limit,
    {
        Self { entity_limit }
    }

    /// The number of entities that a search may visit.
    pub fn entity_limit(&self) -> (limit: usize)
        ensures
            limit == self.limit(),
    {
        self.entity_limit
    }

    /// Starts a search from `source` to `target`.
    pub fn begin(&self, source: &str, target: &str) -> (search: Search)
        ensures
            search@ == SearchView::initial(source@, target@, self.limit()),
            search@.wf(),
    {
        Search::new(source, target, self.entity_limit)
    }
}

} // verus!
