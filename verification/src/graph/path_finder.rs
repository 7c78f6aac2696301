use crate::collections::entity_set::EntitySet;
use crate::collections::parent_map::ParentMap;
use crate::graph::graph_view::GraphView;
use crate::graph::road_graph::RoadGraph;
use crate::random::{choose_two, shuffle, thread_rng};
use vstd::prelude::*;
use vstd::seq_lib::to_multiset_contains;

verus! {

/// A step that the search takes from `from` on its way to `goal`: from a
/// segment along the goal to the goal and nowhere else, from any other
/// segment to an intersection at one of its ends, from an intersection
/// to what one of its slots holds.
pub open spec fn search_step(graph: GraphView, goal: u64, from: u64, to: u64) -> bool {
    if graph.segments.contains_key(from) {
        if graph.segments[from].dests.contains(goal) {
            to == goal
        } else {
            graph.intersections.contains_key(to) && exists|end: int|
                0 <= end < 2 && #[trigger] graph.segments[from].ends[end] == Some(to)
        }
    } else if graph.intersections.contains_key(from) {
        exists|slot: int|
            0 <= slot < 4 && #[trigger] graph.intersections[from].roads[slot] == Some(to)
    } else {
        false
    }
}

/// `path` leads from `from` to `goal` by steps of the search.
pub open spec fn is_route(graph: GraphView, goal: u64, from: u64, path: Seq<u64>) -> bool {
    &&& path.len() >= 1
    &&& path[0] == from
    &&& path.last() == goal
    &&& forall|i: int|
        0 <= i < path.len() - 1 ==> search_step(graph, goal, #[trigger] path[i], path[i + 1])
}

/// The search, once on `from`, can get to `goal`.
pub open spec fn reaches(graph: GraphView, goal: u64, from: u64) -> bool {
    exists|path: Seq<u64>| is_route(graph, goal, from, path)
}

/// `path` leads from `start` to `goal`, and each record on it is linked
/// to the next.
pub open spec fn is_trip(graph: GraphView, start: u64, goal: u64, path: Seq<u64>) -> bool {
    &&& path.len() >= 1
    &&& path[0] == start
    &&& path.last() == goal
    &&& forall|i: int|
        0 <= i < path.len() - 1 ==> graph.adjacent(#[trigger] path[i], path[i + 1])
}

/// A trip that starts along the segment `road`: the path is the start
/// alone where the start is the goal, and otherwise the start followed
/// by a route of the search from `road` to the goal.
pub open spec fn is_trip_via(
    graph: GraphView,
    start: u64,
    road: Option<u64>,
    goal: u64,
    path: Seq<u64>,
) -> bool {
    if start == goal {
        path == seq![start]
    } else {
        &&& road is Some
        &&& graph.buildings[start].roads.contains(road.unwrap())
        &&& path.len() >= 2
        &&& path[0] == start
        &&& is_route(graph, goal, road.unwrap(), path.subrange(1, path.len() as int))
    }
}

/// Whether there is a trip from the building `start` to the building
/// `goal` that starts along the segment `road`.
pub open spec fn has_trip_via(graph: GraphView, start: u64, road: Option<u64>, goal: u64) -> bool {
    &&& graph.buildings.contains_key(start)
    &&& graph.buildings.contains_key(goal)
    &&& start == goal || (road is Some && graph.buildings[start].roads.contains(road.unwrap())
        && reaches(graph, goal, road.unwrap()))
}

/// A step of the search joins two records that are linked.
pub proof fn lemma_search_step_adjacent(graph: GraphView, goal: u64, from: u64, to: u64)
    requires
        graph.wf(),
        search_step(graph, goal, from, to),
    ensures
        graph.adjacent(from, to),
{
    if graph.segments.contains_key(from) {
        if !graph.segments[from].dests.contains(goal) {
            let end = choose|end: int|
                0 <= end < 2 && #[trigger] graph.segments[from].ends[end] == Some(to);
            assert(graph.segments[from].ends[end] == Some(to));
        }
    } else {
        let slot = choose|slot: int|
            0 <= slot < 4 && #[trigger] graph.intersections[from].roads[slot] == Some(to);
        assert(graph.intersections[from].roads[slot] == Some(to));
    }
}

/// A trip that starts along a segment is a trip: it leads from the start
/// to the goal over records that are linked one to the next.
pub proof fn lemma_trip_via_is_trip(
    graph: GraphView,
    start: u64,
    road: Option<u64>,
    goal: u64,
    path: Seq<u64>,
)
    requires
        graph.wf(),
        graph.buildings.contains_key(start),
        is_trip_via(graph, start, road, goal, path),
    ensures
        is_trip(graph, start, goal, path),
{
    if start != goal {
        let rest = path.subrange(1, path.len() as int);
        assert forall|i: int| 0 <= i < path.len() - 1 implies graph.adjacent(
            #[trigger] path[i],
            path[i + 1],
        ) by {
            if i == 0 {
                assert(path[1] == rest[0]);
            } else {
                assert(path[i] == rest[i - 1]);
                assert(path[i + 1] == rest[i]);
                lemma_search_step_adjacent(graph, goal, rest[i - 1], rest[i]);
            }
        }
        assert(path.last() == rest.last());
    }
}

/// A link that a vehicle can drive over on its way to `goal`: from a
/// segment to an intersection at one of its ends, from an intersection
/// to a segment in one of its slots, or from a segment along the goal to
/// the goal.
pub open spec fn drive_link(graph: GraphView, goal: u64, from: u64, to: u64) -> bool {
    ||| graph.segments.contains_key(from) && graph.intersections.contains_key(to) && exists|
        end: int,
    |
        0 <= end < 2 && #[trigger] graph.segments[from].ends[end] == Some(to)
    ||| graph.intersections.contains_key(from) && exists|slot: int|
        0 <= slot < 4 && #[trigger] graph.intersections[from].roads[slot] == Some(to)
    ||| graph.segments.contains_key(from) && to == goal && graph.segments[from].dests.contains(
        goal,
    )
}

/// `path` leads from `from` to `goal` over links that a vehicle can
/// drive over.
pub open spec fn is_walk(graph: GraphView, goal: u64, from: u64, path: Seq<u64>) -> bool {
    &&& path.len() >= 1
    &&& path[0] == from
    &&& path.last() == goal
    &&& forall|i: int|
        0 <= i < path.len() - 1 ==> drive_link(graph, goal, #[trigger] path[i], path[i + 1])
}

/// The goal can be driven to from `from`.
pub open spec fn connected(graph: GraphView, goal: u64, from: u64) -> bool {
    exists|path: Seq<u64>| is_walk(graph, goal, from, path)
}

/// From every record of a walk but the goal at its end, the search can
/// get to the goal.
proof fn lemma_walk_suffix_reaches(graph: GraphView, goal: u64, path: Seq<u64>, i: int)
    requires
        graph.wf(),
        graph.buildings.contains_key(goal),
        is_walk(graph, goal, path[0], path),
        0 <= i < path.len() - 1,
    ensures
        reaches(graph, goal, path[i]),
    decreases path.len() - i,
{
    let from = path[i];
    let to = path[i + 1];
    assert(drive_link(graph, goal, from, to));
    if graph.segments.contains_key(from) && graph.segments[from].dests.contains(goal) {
        let route = seq![from, goal];
        assert(is_route(graph, goal, from, route));
    } else {
        assert(search_step(graph, goal, from, to));
        if i + 1 == path.len() - 1 {
            // The last link of a walk leads into the goal, a building,
            // and only a segment along it has such a link.
            if graph.intersections.contains_key(from) {
                let slot = choose|slot: int|
                    0 <= slot < 4 && #[trigger] graph.intersections[from].roads[slot] == Some(to);
                assert(graph.slot_ok(from, slot));
            }
            assert(false);
        } else {
            lemma_walk_suffix_reaches(graph, goal, path, i + 1);
            let rest = choose|rest: Seq<u64>| is_route(graph, goal, to, rest);
            let route = seq![from] + rest;
            assert forall|j: int| 0 <= j < route.len() - 1 implies search_step(
                graph,
                goal,
                #[trigger] route[j],
                route[j + 1],
            ) by {
                if j > 0 {
                    assert(route[j] == rest[j - 1]);
                    assert(route[j + 1] == rest[j]);
                }
            }
            assert(route.last() == rest.last());
            assert(is_route(graph, goal, from, route));
        }
    }
}

/// Where the goal can be driven to from a segment, the search can get to
/// it from there, and the other way round: the search misses no way.
pub proof fn lemma_reaches_iff_connected(graph: GraphView, goal: u64, road: u64)
    requires
        graph.wf(),
        graph.buildings.contains_key(goal),
        graph.segments.contains_key(road),
    ensures
        reaches(graph, goal, road) <==> connected(graph, goal, road),
{
    if connected(graph, goal, road) {
        let path = choose|path: Seq<u64>| is_walk(graph, goal, road, path);
        assert(path.len() >= 2);
        lemma_walk_suffix_reaches(graph, goal, path, 0);
    }
    if reaches(graph, goal, road) {
        let path = choose|path: Seq<u64>| is_route(graph, goal, road, path);
        assert forall|i: int| 0 <= i < path.len() - 1 implies drive_link(
            graph,
            goal,
            #[trigger] path[i],
            path[i + 1],
        ) by {
            assert(search_step(graph, goal, path[i], path[i + 1]));
        }
        assert(is_walk(graph, goal, road, path));
    }
}

/// Between two buildings of a consistent network the search finds a trip
/// whenever the goal can be driven to from every segment along the
/// start, of which there is at least one; and it finds none when the goal
/// can be driven to from no segment along the start.
pub proof fn lemma_found_when_connected(graph: GraphView, start: u64, goal: u64)
    requires
        graph.wf(),
        graph.buildings.contains_key(start),
        graph.buildings.contains_key(goal),
        start != goal,
    ensures
        graph.buildings[start].roads != Set::<u64>::empty() && (forall|road: u64|
            graph.buildings[start].roads.contains(road) ==> connected(graph, goal, road))
            ==> always_found(graph, start, goal),
        (forall|road: u64|
            graph.buildings[start].roads.contains(road) ==> !connected(graph, goal, road))
            ==> never_found(graph, start, goal),
{
    assert forall|road: u64| graph.buildings[start].roads.contains(road) implies (reaches(
        graph,
        goal,
        road,
    ) <==> connected(graph, goal, road)) by {
        lemma_reaches_iff_connected(graph, goal, road);
    }
}

/// What the search knows while it runs.
ghost struct SearchState {
    frontier: Seq<u64>,
    visited: Set<u64>,
    parents: Map<u64, u64>,
    rank: Map<u64, nat>,
    ticks: nat,
    unvisited: Set<u64>,
}

/// What the search is asked for.
ghost struct SearchTask {
    graph: GraphView,
    start: u64,
    road: u64,
    goal: u64,
}

impl SearchTask {
    spec fn wf(self) -> bool {
        &&& self.graph.wf()
        &&& self.graph.buildings.contains_key(self.start)
        &&& self.graph.buildings.contains_key(self.goal)
        &&& self.start != self.goal
        &&& self.graph.buildings[self.start].roads.contains(self.road)
    }

    /// A record that the search may come to.
    spec fn node_ok(self, entity: u64) -> bool {
        entity == self.goal || self.graph.segments.contains_key(entity)
            || self.graph.intersections.contains_key(entity)
    }

    /// The search goes from `from` to `to`: from the start to the first
    /// segment, from any other record by a step of the search.
    spec fn edge(self, from: u64, to: u64) -> bool {
        if from == self.start {
            to == self.road
        } else {
            search_step(self.graph, self.goal, from, to)
        }
    }
}

impl SearchState {
    /// Every record of the frontier has a parent, every parent was
    /// visited before its child and leads to it by a step of the search.
    spec fn chain(self, task: SearchTask) -> bool {
        &&& self.visited.contains(task.start)
        &&& !self.parents.contains_key(task.start)
        &&& forall|k: int|
            0 <= k < self.frontier.len() ==> self.parents.contains_key(
                #[trigger] self.frontier[k],
            )
        &&& forall|entity: u64| #[trigger]
            self.visited.contains(entity) ==> self.rank.contains_key(entity) && self.rank[entity]
                < self.ticks && (entity == task.start || self.parents.contains_key(entity))
        &&& forall|entity: u64| #[trigger]
            self.parents.contains_key(entity) ==> task.node_ok(entity) && self.visited.contains(
                self.parents[entity],
            ) && task.edge(self.parents[entity], entity)
        &&& forall|entity: u64|
            self.visited.contains(entity) && entity != task.start
                ==> self.rank[#[trigger] self.parents[entity]] < self.rank[entity]
    }

    /// Whatever the search goes to from a visited record, but from
    /// `pending`, is visited or waits in the frontier.
    spec fn settled(self, task: SearchTask, pending: Option<u64>) -> bool {
        forall|from: u64, to: u64|
            self.visited.contains(from) && pending != Some(from) && #[trigger] task.edge(from, to)
                ==> self.visited.contains(to) || self.frontier.contains(to)
    }

    /// The records that are still to be visited are finitely many.
    spec fn bounded(self, task: SearchTask) -> bool {
        &&& self.unvisited.finite()
        &&& forall|entity: u64|
            task.node_ok(entity) ==> self.visited.contains(entity) || #[trigger] self.unvisited.contains(
                entity,
            )
        &&& forall|entity: u64| #[trigger]
            self.visited.contains(entity) ==> !self.unvisited.contains(entity)
    }
}

/// How many records of the frontier are visited already.
spec fn visited_count(frontier: Seq<u64>, visited: Set<u64>) -> nat
    decreases frontier.len(),
{
    if frontier.len() == 0 {
        0
    } else {
        visited_count(frontier.drop_last(), visited) + if visited.contains(frontier.last()) {
            1nat
        } else {
            0nat
        }
    }
}

proof fn lemma_visited_count_push(frontier: Seq<u64>, visited: Set<u64>, entity: u64)
    ensures
        visited_count(frontier.push(entity), visited) == visited_count(frontier, visited)
            + if visited.contains(entity) {
            1nat
        } else {
            0nat
        },
{
    assert(frontier.push(entity).drop_last() =~= frontier);
}

/// In a set of records that the search cannot leave, every record of a
/// route that starts in the set is in the set.
proof fn lemma_closed_holds_route(task: SearchTask, visited: Set<u64>, path: Seq<u64>, i: int)
    requires
        task.wf(),
        is_route(task.graph, task.goal, task.road, path),
        visited.contains(task.start),
        forall|from: u64, to: u64|
            visited.contains(from) && #[trigger] task.edge(from, to) ==> visited.contains(to),
        0 <= i < path.len(),
    ensures
        visited.contains(path[i]),
    decreases i,
{
    if i == 0 {
        assert(task.edge(task.start, task.road));
    } else {
        lemma_closed_holds_route(task, visited, path, i - 1);
        let from = path[i - 1];
        assert(search_step(task.graph, task.goal, from, path[i]));
        assert(from != task.start) by {
            assert(!task.graph.segments.contains_key(task.start));
            assert(!task.graph.intersections.contains_key(task.start));
        }
        assert(task.edge(from, path[i]));
    }
}

/// Pushes onto the frontier each candidate that is not visited yet, and
/// records `curr` as its parent. With `nodes_only` a candidate that is
/// no intersection of the network is passed over.
fn push_unvisited(
    candidates: &Vec<Option<u64>>,
    curr: u64,
    nodes_only: bool,
    graph: &RoadGraph,
    visited: &EntitySet,
    frontier: &mut Vec<u64>,
    parent_map: &mut ParentMap,
)
    ensures
        old(frontier)@.len() <= final(frontier)@.len(),
        final(frontier)@.subrange(0, old(frontier)@.len() as int) == old(frontier)@,
        forall|k: int|
            old(frontier)@.len() <= k < final(frontier)@.len() ==> final(parent_map)@.contains_key(
                #[trigger] final(frontier)@[k],
            ) && final(parent_map)@[final(frontier)@[k]] == curr,
        forall|entity: u64| #[trigger]
            final(parent_map)@.contains_key(entity) ==> (old(parent_map)@.contains_key(entity)
                && final(parent_map)@[entity] == old(parent_map)@[entity])
                || (final(parent_map)@[entity] == curr && !visited@.contains(entity)
                && candidates@.contains(Some(entity)) && (nodes_only
                ==> graph@.intersections.contains_key(entity))),
        forall|entity: u64| #[trigger]
            old(parent_map)@.contains_key(entity) ==> final(parent_map)@.contains_key(entity),
        forall|entity: u64|
            #[trigger] candidates@.contains(Some(entity)) && (nodes_only
                ==> graph@.intersections.contains_key(entity)) ==> visited@.contains(entity)
                || final(frontier)@.contains(entity),
        visited_count(final(frontier)@, visited@) == visited_count(old(frontier)@, visited@),
{
    let ghost base = frontier@.len();
    let mut i: usize = 0;
    proof {
        assert(frontier@.subrange(0, base as int) =~= frontier@);
    }
    while i < candidates.len()
        invariant
            i <= candidates@.len(),
            base == old(frontier)@.len(),
            base <= frontier@.len(),
            frontier@.subrange(0, base as int) == old(frontier)@,
            forall|k: int|
                base <= k < frontier@.len() ==> parent_map@.contains_key(#[trigger] frontier@[k])
                    && parent_map@[frontier@[k]] == curr,
            forall|entity: u64| #[trigger]
                parent_map@.contains_key(entity) ==> (old(parent_map)@.contains_key(entity)
                    && parent_map@[entity] == old(parent_map)@[entity]) || (parent_map@[entity]
                    == curr && !visited@.contains(entity) && candidates@.contains(Some(entity))
                    && (nodes_only ==> graph@.intersections.contains_key(entity))),
            forall|entity: u64| #[trigger]
                old(parent_map)@.contains_key(entity) ==> parent_map@.contains_key(entity),
            forall|j: int|
                0 <= j < i ==> match #[trigger] candidates@[j] {
                    Some(entity) => (nodes_only ==> graph@.intersections.contains_key(entity))
                        ==> visited@.contains(entity) || frontier@.contains(entity),
                    None => true,
                },
            visited_count(frontier@, visited@) == visited_count(old(frontier)@, visited@),
        decreases candidates@.len() - i,
    {
        let ghost before = frontier@;
        let ghost parents_before = parent_map@;
        match candidates[i] {
            Some(entity) => {
                let known = if nodes_only {
                    graph.intersection(entity).is_some()
                } else {
                    true
                };
                if known && !visited.contains(entity) {
                    frontier.push(entity);
                    parent_map.insert(entity, curr);
                    proof {
                        lemma_visited_count_push(before, visited@, entity);
                        assert(frontier@.subrange(0, base as int) =~= before.subrange(
                            0,
                            base as int,
                        ));
                        assert(frontier@[before.len() as int] == entity);
                        assert(candidates@[i as int] == Some(entity));
                        assert(candidates@.contains(Some(entity)));
                        assert(nodes_only ==> graph@.intersections.contains_key(entity));
                        assert(parent_map@ == parents_before.insert(entity, curr));
                        assert forall|other: u64| #[trigger]
                            parent_map@.contains_key(other) implies (old(
                            parent_map,
                        )@.contains_key(other) && parent_map@[other] == old(parent_map)@[other])
                            || (parent_map@[other] == curr && !visited@.contains(other)
                            && candidates@.contains(Some(other)) && (nodes_only
                            ==> graph@.intersections.contains_key(other))) by {
                            if other != entity {
                                assert(parents_before.contains_key(other));
                            }
                        }
                    }
                }
                proof {
                    assert forall|j: int| 0 <= j < i + 1 implies match #[trigger] candidates@[j] {
                        Some(other) => (nodes_only ==> graph@.intersections.contains_key(other))
                            ==> visited@.contains(other) || frontier@.contains(other),
                        None => true,
                    } by {
                        match candidates@[j] {
                            Some(other) => {
                                if before.contains(other) {
                                    let k = choose|k: int|
                                        0 <= k < before.len() && before[k] == other;
                                    assert(frontier@[k] == other);
                                }
                            },
                            None => {},
                        }
                    }
                }
            },
            None => {},
        }
        i = i + 1;
    }
    proof {
        assert forall|entity: u64|
            #[trigger] candidates@.contains(Some(entity)) && (nodes_only
                ==> graph@.intersections.contains_key(entity)) implies visited@.contains(entity)
            || frontier@.contains(entity) by {
            let j = choose|j: int| 0 <= j < candidates@.len() && candidates@[j] == Some(entity);
            assert(candidates@[j] == Some(entity));
        }
    }
}

/// Walks the parents back from the goal to the start and turns the walk
/// around.
fn reconstruct(
    parent_map: &ParentMap,
    start: u64,
    goal: u64,
    Ghost(task): Ghost<SearchTask>,
    Ghost(state): Ghost<SearchState>,
) -> (path: Vec<u64>)
    requires
        task.wf(),
        task.start == start,
        task.goal == goal,
        state.chain(task),
        state.parents == parent_map@,
        state.visited.contains(goal),
    ensures
        is_trip_via(task.graph, start, Some(task.road), goal, path@),
{
    let mut reversed: Vec<u64> = Vec::new();
    let mut curr = goal;
    while curr != start
        invariant
            task.wf(),
            task.start == start,
            task.goal == goal,
            state.chain(task),
            state.parents == parent_map@,
            state.visited.contains(curr),
            reversed@.len() == 0 ==> curr == goal,
            reversed@.len() > 0 ==> reversed@[0] == goal && task.edge(curr, reversed@.last()),
            forall|i: int|
                0 <= i < reversed@.len() - 1 ==> task.edge(reversed@[i + 1], #[trigger] reversed@[i]),
            forall|i: int| 0 <= i < reversed@.len() ==> #[trigger] reversed@[i] != start,
        decreases state.rank[curr],
    {
        let ghost before = reversed@;
        reversed.push(curr);
        match parent_map.get(curr) {
            Some(parent) => {
                proof {
                    assert(state.parents.contains_key(curr));
                    assert(state.rank[state.parents[curr]] < state.rank[curr]);
                }
                curr = parent;
            },
            None => {
                proof {
                    assert(state.parents.contains_key(curr));
                }
            },
        }
    }
    let ghost walked = reversed@;
    reversed.push(start);
    let mut path: Vec<u64> = Vec::new();
    let mut i: usize = reversed.len();
    while i > 0
        invariant
            i <= reversed@.len(),
            path@.len() == reversed@.len() - i,
            forall|k: int|
                0 <= k < path@.len() ==> #[trigger] path@[k] == reversed@[reversed@.len() - 1 - k],
        decreases i,
    {
        i = i - 1;
        path.push(reversed[i]);
    }
    proof {
        let n = walked.len() as int;
        assert(n >= 1);
        assert(reversed@.len() == n + 1);
        assert(path@[0] == start);
        let rest = path@.subrange(1, path@.len() as int);
        assert forall|j: int| 0 <= j < rest.len() implies #[trigger] rest[j] == walked[n - 1 - j] by {
            assert(rest[j] == path@[j + 1]);
        }
        assert(rest[0] == walked[n - 1]);
        assert(task.edge(start, walked.last()));
        assert(rest.last() == walked[0]);
        assert forall|j: int| 0 <= j < rest.len() - 1 implies search_step(
            task.graph,
            goal,
            #[trigger] rest[j],
            rest[j + 1],
        ) by {
            let m = n - 2 - j;
            assert(rest[j] == walked[m + 1]);
            assert(rest[j + 1] == walked[m]);
            assert(task.edge(walked[m + 1], walked[m]));
            assert(walked[m + 1] != start);
        }
    }
    path
}

/// Searches for a trip from the building `start` to the building `goal`
/// that leaves the start along the segment `first_road`.
///
/// The search goes depth first: it takes the record that came last to
/// the frontier, marks it visited, and puts what follows it on the
/// frontier, in an order that chance picks. From a segment along the goal
/// it goes to the goal only. It ends when the goal is taken from the
/// frontier or the frontier is empty.
///
/// A trip is found exactly if both handles name buildings and either
/// they are the same or the search can get from `first_road`, a segment
/// along the start, to the goal.
pub fn find_path_via(graph: &RoadGraph, start: u64, first_road: Option<u64>, goal: u64) -> (found:
    Option<Vec<u64>>)
    requires
        graph.wf(),
    ensures
        found is Some <==> has_trip_via(graph@, start, first_road, goal),
        match found {
            Some(path) => is_trip_via(graph@, start, first_road, goal, path@) && is_trip(
                graph@,
                start,
                goal,
                path@,
            ),
            None => true,
        },
{
    proof {
        graph.lemma_wf_view();
        graph.lemma_finite();
    }
    let start_record = match graph.building(start) {
        Some(record) => record,
        None => {
            return None;
        },
    };
    if graph.building(goal).is_none() {
        return None;
    }
    if start == goal {
        let mut path: Vec<u64> = Vec::new();
        path.push(start);
        proof {
            assert(path@ =~= seq![start]);
            lemma_trip_via_is_trip(graph@, start, first_road, goal, path@);
        }
        return Some(path);
    }
    let road = match first_road {
        Some(road) => road,
        None => {
            return None;
        },
    };
    if !start_record.has_road(road) {
        return None;
    }
    let ghost task = SearchTask { graph: graph@, start, road, goal };
    let mut rng = thread_rng();

    let mut frontier: Vec<u64> = Vec::new();
    let mut visited = EntitySet::new();
    let mut parent_map = ParentMap::new();
    visited.insert(start);
    frontier.push(road);
    parent_map.insert(road, start);

    let ghost mut rank: Map<u64, nat> = Map::<u64, nat>::empty().insert(start, 0nat);
    let ghost mut ticks: nat = 1;
    let ghost mut unvisited: Set<u64> = graph@.segments.dom().union(
        graph@.intersections.dom(),
    ).insert(goal);
    proof {
        assert(parent_map@ =~= Map::<u64, u64>::empty().insert(road, start));
        assert(visited@ =~= set![start]);
        assert(frontier@ =~= seq![road]);
        assert(frontier@[0] == road);
        assert(graph@.buildings[start].roads.contains(road));
        assert(task.graph.segments.contains_key(road));
        assert(task.edge(start, road));
        let state = SearchState {
            frontier: frontier@,
            visited: visited@,
            parents: parent_map@,
            rank,
            ticks,
            unvisited,
        };
        assert(state.settled(task, None)) by {
            assert forall|from: u64, to: u64|
                state.visited.contains(from) && #[trigger] task.edge(from, to) implies state.visited.contains(
                to,
            ) || state.frontier.contains(to) by {
                assert(from == start);
                assert(to == road);
            }
        }
    }

    while frontier.len() > 0
        invariant
            graph.wf(),
            task == (SearchTask { graph: graph@, start, road, goal }),
            task.wf(),
            first_road == Some(road),
            !visited@.contains(goal),
            (SearchState {
                frontier: frontier@,
                visited: visited@,
                parents: parent_map@,
                rank,
                ticks,
                unvisited,
            }).chain(task),
            (SearchState {
                frontier: frontier@,
                visited: visited@,
                parents: parent_map@,
                rank,
                ticks,
                unvisited,
            }).settled(task, None),
            (SearchState {
                frontier: frontier@,
                visited: visited@,
                parents: parent_map@,
                rank,
                ticks,
                unvisited,
            }).bounded(task),
        decreases unvisited.len(), visited_count(frontier@, visited@),
    {
        let ghost before = SearchState {
            frontier: frontier@,
            visited: visited@,
            parents: parent_map@,
            rank,
            ticks,
            unvisited,
        };
        let popped = frontier.pop();
        let curr = popped.unwrap();
        let fresh = visited.insert(curr);
        proof {
            if fresh {
                rank = rank.insert(curr, ticks);
                unvisited = unvisited.remove(curr);
            }
            ticks = ticks + 1;
        }
        let ghost popped_state = SearchState {
            frontier: frontier@,
            visited: visited@,
            parents: parent_map@,
            rank,
            ticks,
            unvisited,
        };
        proof {
            assert(before.frontier.drop_last() =~= frontier@);
            if !fresh {
                assert(visited@ =~= before.visited);
            }
            lemma_after_pop(task, before, popped_state, curr, fresh);
        }
        match graph.building(curr) {
            Some(_) => {
                proof {
                    assert(curr == goal);
                }
                let path = reconstruct(&parent_map, start, goal, Ghost(task), Ghost(popped_state));
                proof {
                    lemma_trip_via_is_trip(graph@, start, first_road, goal, path@);
                    assert(is_route(
                        graph@,
                        goal,
                        road,
                        path@.subrange(1, path@.len() as int),
                    ));
                }
                return Some(path);
            },
            None => {},
        }
        match graph.segment(curr) {
            Some(edge) => {
                if edge.has_dest(goal) {
                    frontier.push(goal);
                    parent_map.insert(goal, curr);
                    proof {
                        lemma_visited_count_push(popped_state.frontier, visited@, goal);
                        let state = SearchState {
                            frontier: frontier@,
                            visited: visited@,
                            parents: parent_map@,
                            rank,
                            ticks,
                            unvisited,
                        };
                        lemma_after_goal_push(task, popped_state, state, curr);
                    }
                } else {
                    let mut choices: Vec<Option<u64>> = Vec::new();
                    choices.push(edge.ends[0]);
                    choices.push(edge.ends[1]);
                    let ghost ends = choices@;
                    shuffle(&mut choices, &mut rng);
                    push_unvisited(
                        &choices,
                        curr,
                        true,
                        graph,
                        &visited,
                        &mut frontier,
                        &mut parent_map,
                    );
                    proof {
                        let state = SearchState {
                            frontier: frontier@,
                            visited: visited@,
                            parents: parent_map@,
                            rank,
                            ticks,
                            unvisited,
                        };
                        assert forall|entity: u64|
                            choices@.contains(Some(entity)) == ends.contains(Some(entity)) by {
                            to_multiset_contains(choices@, Some(entity));
                            to_multiset_contains(ends, Some(entity));
                        }
                        assert forall|entity: u64| #[trigger]
                            ends.contains(Some(entity)) implies exists|end: int|
                            0 <= end < 2 && #[trigger] task.graph.segments[curr].ends[end] == Some(
                                entity,
                            ) by {
                            let j = choose|j: int| 0 <= j < ends.len() && ends[j] == Some(entity);
                            assert(task.graph.segments[curr].ends[j] == Some(entity));
                        }
                        assert forall|entity: u64|
                            task.graph.intersections.contains_key(entity) && (exists|end: int|
                                0 <= end < 2 && #[trigger] task.graph.segments[curr].ends[end]
                                    == Some(entity)) implies ends.contains(Some(entity)) by {
                            let end = choose|end: int|
                                0 <= end < 2 && #[trigger] task.graph.segments[curr].ends[end]
                                    == Some(entity);
                            assert(ends[end] == Some(entity));
                        }
                        assert(curr != start);
                        assert(!task.graph.segments[curr].dests.contains(goal));
                        assert forall|entity: u64| #[trigger]
                            choices@.contains(Some(entity))
                                && task.graph.intersections.contains_key(
                                entity,
                            ) implies task.edge(curr, entity) by {
                            assert(ends.contains(Some(entity)));
                            let end = choose|end: int|
                                0 <= end < 2 && #[trigger] task.graph.segments[curr].ends[end]
                                    == Some(entity);
                            assert(search_step(task.graph, goal, curr, entity));
                        }
                        assert forall|entity: u64| #[trigger]
                            task.edge(curr, entity) implies choices@.contains(Some(entity))
                            && task.graph.intersections.contains_key(entity) by {
                            assert(search_step(task.graph, goal, curr, entity));
                            assert(ends.contains(Some(entity)));
                        }
                        lemma_after_push(task, popped_state, state, curr, choices@, true);
                    }
                }
            },
            None => {
                match graph.intersection(curr) {
                    Some(node) => {
                        let mut choices: Vec<Option<u64>> = Vec::new();
                        choices.push(node.roads[0]);
                        choices.push(node.roads[1]);
                        choices.push(node.roads[2]);
                        choices.push(node.roads[3]);
                        let ghost slots = choices@;
                        shuffle(&mut choices, &mut rng);
                        push_unvisited(
                            &choices,
                            curr,
                            false,
                            graph,
                            &visited,
                            &mut frontier,
                            &mut parent_map,
                        );
                        proof {
                            let state = SearchState {
                                frontier: frontier@,
                                visited: visited@,
                                parents: parent_map@,
                                rank,
                                ticks,
                                unvisited,
                            };
                            assert forall|entity: u64|
                                choices@.contains(Some(entity)) == slots.contains(
                                    Some(entity),
                                ) by {
                                to_multiset_contains(choices@, Some(entity));
                                to_multiset_contains(slots, Some(entity));
                            }
                            assert forall|entity: u64| #[trigger]
                                slots.contains(Some(entity)) implies exists|slot: int|
                                0 <= slot < 4 && #[trigger] task.graph.intersections[curr].roads[slot]
                                    == Some(entity) by {
                                let j = choose|j: int|
                                    0 <= j < slots.len() && slots[j] == Some(entity);
                                assert(task.graph.intersections[curr].roads[j] == Some(entity));
                            }
                            assert forall|entity: u64|
                                (exists|slot: int|
                                    0 <= slot < 4
                                        && #[trigger] task.graph.intersections[curr].roads[slot]
                                        == Some(entity)) implies slots.contains(Some(entity)) by {
                                let slot = choose|slot: int|
                                    0 <= slot < 4
                                        && #[trigger] task.graph.intersections[curr].roads[slot]
                                        == Some(entity);
                                assert(slots[slot] == Some(entity));
                            }
                            assert(curr != start);
                            assert forall|entity: u64| #[trigger]
                                choices@.contains(Some(entity)) implies task.edge(
                                curr,
                                entity,
                            ) by {
                                assert(slots.contains(Some(entity)));
                                let slot = choose|slot: int|
                                    0 <= slot < 4
                                        && #[trigger] task.graph.intersections[curr].roads[slot]
                                        == Some(entity);
                                assert(search_step(task.graph, goal, curr, entity));
                            }
                            assert forall|entity: u64| #[trigger]
                                task.edge(curr, entity) implies choices@.contains(
                                Some(entity),
                            ) by {
                                assert(search_step(task.graph, goal, curr, entity));
                                assert(slots.contains(Some(entity)));
                            }
                            lemma_after_push(task, popped_state, state, curr, choices@, false);
                        }
                    },
                    None => {
                        proof {
                            assert(false);
                        }
                    },
                }
            },
        }
    }
    proof {
        let state = SearchState {
            frontier: frontier@,
            visited: visited@,
            parents: parent_map@,
            rank,
            ticks,
            unvisited,
        };
        if reaches(graph@, goal, road) {
            let path = choose|path: Seq<u64>| is_route(graph@, goal, road, path);
            assert forall|from: u64, to: u64|
                visited@.contains(from) && #[trigger] task.edge(from, to) implies visited@.contains(
                to,
            ) by {
                assert(state.visited.contains(to) || state.frontier.contains(to));
            }
            lemma_closed_holds_route(task, visited@, path, path.len() - 1);
        }
    }
    None
}

/// A choice of the segment along which a trip leaves the building
/// `start`: one of the segments along the building, or none where the
/// building has none.
pub open spec fn is_first_road(graph: GraphView, start: u64, road: Option<u64>) -> bool {
    match road {
        Some(entity) => graph.buildings[start].roads.contains(entity),
        None => graph.buildings[start].roads == Set::<u64>::empty(),
    }
}

/// The search gets to `goal` along whichever segment it leaves `start`:
/// both are buildings, and they are the same or the start has a segment
/// along it and the search can get from each such segment to the goal.
pub open spec fn always_found(graph: GraphView, start: u64, goal: u64) -> bool {
    &&& graph.buildings.contains_key(start)
    &&& graph.buildings.contains_key(goal)
    &&& start == goal || (graph.buildings[start].roads != Set::<u64>::empty() && forall|road: u64|
        graph.buildings[start].roads.contains(road) ==> reaches(graph, goal, road))
}

/// The search gets to `goal` along no segment: one of the two is no
/// building, or they differ and from no segment along the start can the
/// search get to the goal.
pub open spec fn never_found(graph: GraphView, start: u64, goal: u64) -> bool {
    ||| !graph.buildings.contains_key(start)
    ||| !graph.buildings.contains_key(goal)
    ||| start != goal && forall|road: u64|
        graph.buildings[start].roads.contains(road) ==> !reaches(graph, goal, road)
}

/// Searches for a trip from the building `start` to the building `goal`.
///
/// The trip leaves the start along one of the segments along it; which
/// one is not fixed. From there the search goes on as `find_path_via`
/// does. The result is a trip along that segment if there is one, and
/// `None` if there is none: no other segment is tried.
pub fn find_path(graph: &RoadGraph, start: u64, goal: u64) -> (found: Option<Vec<u64>>)
    requires
        graph.wf(),
    ensures
        exists|road: Option<u64>|
            {
                &&& graph@.buildings.contains_key(start) ==> is_first_road(graph@, start, road)
                &&& found is Some <==> #[trigger] has_trip_via(graph@, start, road, goal)
                &&& found is Some ==> is_trip_via(graph@, start, road, goal, found.unwrap()@)
            },
        found is Some ==> is_trip(graph@, start, goal, found.unwrap()@),
        always_found(graph@, start, goal) ==> found is Some,
        never_found(graph@, start, goal) ==> found is None,
{
    let first_road = match graph.building(start) {
        Some(record) => record.roads.first(),
        None => None,
    };
    let found = find_path_via(graph, start, first_road, goal);
    proof {
        assert(has_trip_via(graph@, start, first_road, goal) == (found is Some));
        if always_found(graph@, start, goal) && start != goal {
            match first_road {
                Some(road) => {},
                None => {},
            }
        }
    }
    found
}

/// Picks the two ends of a trip among `buildings`: two buildings from two
/// places of the list, by chance, in an order that chance picks. There is
/// no trip where the list holds fewer than two.
pub fn choose_trip(buildings: &Vec<u64>) -> (trip: Option<(u64, u64)>)
    ensures
        trip is None <==> buildings@.len() < 2,
        match trip {
            Some((start, goal)) => exists|i: int, j: int|
                0 <= i < buildings@.len() && 0 <= j < buildings@.len() && i != j
                    && #[trigger] buildings@[i] == start && #[trigger] buildings@[j] == goal,
            None => true,
        },
{
    let mut rng = thread_rng();
    let mut choose = choose_two(buildings, &mut rng);
    let ghost drawn = choose@;
    shuffle(&mut choose, &mut rng);
    proof {
        choose@.to_multiset_ensures();
        drawn.to_multiset_ensures();
    }
    if choose.len() < 2 {
        return None;
    }
    let start = choose[0];
    let goal = choose[1];
    proof {
        let (i, j) = choose|i: int, j: int|
            0 <= i < buildings@.len() && 0 <= j < buildings@.len() && i != j
                && #[trigger] buildings@[i] == drawn[0] && #[trigger] buildings@[j] == drawn[1];
        to_multiset_contains(choose@, start);
        to_multiset_contains(drawn, start);
        to_multiset_contains(choose@, goal);
        to_multiset_contains(drawn, goal);
        to_multiset_contains(choose@, drawn[0]);
        to_multiset_contains(drawn, drawn[0]);
        to_multiset_contains(choose@, drawn[1]);
        to_multiset_contains(drawn, drawn[1]);
        assert(drawn.contains(drawn[0]));
        assert(drawn.contains(drawn[1]));
        assert(choose@.contains(start));
        assert(choose@.contains(goal));
        assert(drawn.contains(start));
        assert(drawn.contains(goal));
        assert(start == drawn[0] || start == drawn[1]);
        assert(goal == drawn[0] || goal == drawn[1]);
        if start == drawn[0] && goal == drawn[1] {
            assert(buildings@[i] == start && buildings@[j] == goal);
        } else if start == drawn[1] && goal == drawn[0] {
            assert(buildings@[j] == start && buildings@[i] == goal);
        } else {
            // Both places of the shuffled pair hold the same handle, so
            // the pair that was drawn held it twice.
            assert(choose@.contains(drawn[0]) && choose@.contains(drawn[1]));
            let a = choose|a: int| 0 <= a < 2 && choose@[a] == drawn[0];
            let b = choose|b: int| 0 <= b < 2 && choose@[b] == drawn[1];
            assert(drawn[0] == drawn[1]);
            assert(buildings@[i] == start && buildings@[j] == goal);
        }
    }
    Some((start, goal))
}

/// What holds after the records that follow `curr` have been put on the
/// frontier: the chain of parents stands, nothing that the search goes
/// to from a visited record is missing, and the frontier holds no more
/// visited records than before.
proof fn lemma_after_push(
    task: SearchTask,
    before: SearchState,
    after: SearchState,
    curr: u64,
    candidates: Seq<Option<u64>>,
    nodes_only: bool,
)
    requires
        task.wf(),
        before.chain(task),
        before.settled(task, Some(curr)),
        before.bounded(task),
        before.visited.contains(curr),
        curr != task.start,
        !before.visited.contains(task.goal),
        after.visited == before.visited,
        after.rank == before.rank,
        after.ticks == before.ticks,
        after.unvisited == before.unvisited,
        nodes_only ==> task.graph.segments.contains_key(curr)
            && !task.graph.segments[curr].dests.contains(task.goal),
        !nodes_only ==> !task.graph.segments.contains_key(curr)
            && task.graph.intersections.contains_key(curr),
        forall|entity: u64| #[trigger]
            candidates.contains(Some(entity)) && (nodes_only
                ==> task.graph.intersections.contains_key(entity)) ==> task.edge(curr, entity),
        forall|entity: u64| #[trigger]
            task.edge(curr, entity) ==> candidates.contains(Some(entity)) && (nodes_only
                ==> task.graph.intersections.contains_key(entity)),
        before.frontier.len() <= after.frontier.len(),
        after.frontier.subrange(0, before.frontier.len() as int) == before.frontier,
        forall|k: int|
            before.frontier.len() <= k < after.frontier.len() ==> after.parents.contains_key(
                #[trigger] after.frontier[k],
            ) && after.parents[after.frontier[k]] == curr,
        forall|entity: u64| #[trigger]
            after.parents.contains_key(entity) ==> (before.parents.contains_key(entity)
                && after.parents[entity] == before.parents[entity]) || (after.parents[entity]
                == curr && !before.visited.contains(entity) && candidates.contains(Some(entity))
                && (nodes_only ==> task.graph.intersections.contains_key(entity))),
        forall|entity: u64| #[trigger]
            before.parents.contains_key(entity) ==> after.parents.contains_key(entity),
        forall|entity: u64|
            #[trigger] candidates.contains(Some(entity)) && (nodes_only
                ==> task.graph.intersections.contains_key(entity)) ==> before.visited.contains(
                entity,
            ) || after.frontier.contains(entity),
    ensures
        after.chain(task),
        after.settled(task, None),
        after.bounded(task),
{
    assert forall|k: int| 0 <= k < after.frontier.len() implies after.parents.contains_key(
        #[trigger] after.frontier[k],
    ) by {
        if k < before.frontier.len() {
            assert(after.frontier[k] == before.frontier[k]);
            assert(before.parents.contains_key(before.frontier[k]));
        }
    }
    assert forall|entity: u64| #[trigger] after.parents.contains_key(entity) implies task.node_ok(
        entity,
    ) && after.visited.contains(after.parents[entity]) && task.edge(
        after.parents[entity],
        entity,
    ) by {
        if before.parents.contains_key(entity) && after.parents[entity]
            == before.parents[entity] {
        } else {
            assert(task.edge(curr, entity));
            if !nodes_only {
                let slot = choose|slot: int|
                    0 <= slot < 4 && #[trigger] task.graph.intersections[curr].roads[slot] == Some(
                        entity,
                    );
                assert(task.graph.slot_ok(curr, slot));
            }
        }
    }
    assert forall|entity: u64|
        after.visited.contains(entity) && entity
            != task.start implies after.rank[#[trigger] after.parents[entity]]
        < after.rank[entity] by {
        assert(before.parents.contains_key(entity));
        assert(after.parents.contains_key(entity));
        assert(before.rank[before.parents[entity]] < before.rank[entity]);
    }
    assert(!after.parents.contains_key(task.start)) by {
        if after.parents.contains_key(task.start) {
            assert(task.node_ok(task.start));
        }
    }
    assert forall|from: u64, to: u64|
        after.visited.contains(from) && #[trigger] task.edge(from, to) implies after.visited.contains(
        to,
    ) || after.frontier.contains(to) by {
        if from == curr {
            assert(candidates.contains(Some(to)));
        } else {
            if before.frontier.contains(to) {
                let k = choose|k: int| 0 <= k < before.frontier.len() && before.frontier[k] == to;
                assert(after.frontier[k] == to);
            }
        }
    }
}

/// What holds after the last record of the frontier has been taken from
/// it and marked visited: the chain of parents stands, and nothing that
/// the search goes to from a visited record other than the one just
/// taken is missing.
proof fn lemma_after_pop(
    task: SearchTask,
    before: SearchState,
    after: SearchState,
    curr: u64,
    fresh: bool,
)
    requires
        task.wf(),
        before.chain(task),
        before.settled(task, None),
        before.bounded(task),
        !before.visited.contains(task.goal),
        before.frontier.len() > 0,
        curr == before.frontier.last(),
        fresh == !before.visited.contains(curr),
        after.frontier == before.frontier.drop_last(),
        after.visited == before.visited.insert(curr),
        after.parents == before.parents,
        after.ticks == before.ticks + 1,
        after.rank == if fresh {
            before.rank.insert(curr, before.ticks)
        } else {
            before.rank
        },
        after.unvisited == if fresh {
            before.unvisited.remove(curr)
        } else {
            before.unvisited
        },
    ensures
        after.chain(task),
        after.settled(task, Some(curr)),
        after.bounded(task),
        task.node_ok(curr),
        curr != task.start,
        after.visited.contains(curr),
        fresh ==> after.unvisited.len() < before.unvisited.len(),
        !fresh ==> after.unvisited == before.unvisited && after.visited == before.visited
            && visited_count(after.frontier, after.visited) < visited_count(
            before.frontier,
            before.visited,
        ),
{
    let last = before.frontier.len() - 1;
    assert(before.frontier[last] == curr);
    assert(before.parents.contains_key(curr));
    assert(task.node_ok(curr));
    assert(curr != task.start) by {
        assert(!task.graph.segments.contains_key(task.start));
        assert(!task.graph.intersections.contains_key(task.start));
    }
    assert forall|k: int| 0 <= k < after.frontier.len() implies after.parents.contains_key(
        #[trigger] after.frontier[k],
    ) by {
        assert(after.frontier[k] == before.frontier[k]);
    }
    assert(before.visited.contains(before.parents[curr]));
    assert forall|entity: u64| #[trigger]
        after.visited.contains(entity) implies after.rank.contains_key(entity)
        && after.rank[entity] < after.ticks && (entity == task.start
        || after.parents.contains_key(entity)) by {
        if entity != curr {
            assert(before.visited.contains(entity));
        } else if !fresh {
            assert(before.visited.contains(entity));
        }
    }
    assert forall|entity: u64|
        after.visited.contains(entity) && entity
            != task.start implies after.rank[#[trigger] after.parents[entity]]
        < after.rank[entity] by {
        let parent = before.parents[entity];
        assert(before.parents.contains_key(entity));
        assert(before.visited.contains(parent));
        if before.visited.contains(entity) {
            assert(before.rank[parent] < before.rank[entity]);
        } else {
            assert(entity == curr);
            assert(before.rank[parent] < before.ticks);
        }
    }
    assert forall|entity: u64| #[trigger] after.parents.contains_key(entity) implies task.node_ok(
        entity,
    ) && after.visited.contains(after.parents[entity]) && task.edge(
        after.parents[entity],
        entity,
    ) by {
        assert(before.visited.contains(before.parents[entity]));
    }
    assert forall|from: u64, to: u64|
        after.visited.contains(from) && Some(curr) != Some(from) && #[trigger] task.edge(
            from,
            to,
        ) implies after.visited.contains(to) || after.frontier.contains(to) by {
        assert(before.visited.contains(from));
        if before.frontier.contains(to) && to != curr {
            let k = choose|k: int| 0 <= k < before.frontier.len() && before.frontier[k] == to;
            assert(k < last);
            assert(after.frontier[k] == to);
        }
    }
    if fresh {
        assert(before.unvisited.contains(curr));
    } else {
        assert(after.visited =~= before.visited);
    }
}

/// What holds after the goal has been put on the frontier from a segment
/// along it.
proof fn lemma_after_goal_push(
    task: SearchTask,
    before: SearchState,
    after: SearchState,
    curr: u64,
)
    requires
        task.wf(),
        before.chain(task),
        before.settled(task, Some(curr)),
        before.bounded(task),
        before.visited.contains(curr),
        curr != task.start,
        !before.visited.contains(task.goal),
        task.graph.segments.contains_key(curr),
        task.graph.segments[curr].dests.contains(task.goal),
        after.frontier == before.frontier.push(task.goal),
        after.parents == before.parents.insert(task.goal, curr),
        after.visited == before.visited,
        after.rank == before.rank,
        after.ticks == before.ticks,
        after.unvisited == before.unvisited,
    ensures
        after.chain(task),
        after.settled(task, None),
        after.bounded(task),
{
    let goal = task.goal;
    assert(after.frontier[before.frontier.len() as int] == goal);
    assert(task.edge(curr, goal));
    assert forall|k: int| 0 <= k < after.frontier.len() implies after.parents.contains_key(
        #[trigger] after.frontier[k],
    ) by {
        if k < before.frontier.len() {
            assert(after.frontier[k] == before.frontier[k]);
        }
    }
    assert forall|entity: u64| #[trigger] after.parents.contains_key(entity) implies task.node_ok(
        entity,
    ) && after.visited.contains(after.parents[entity]) && task.edge(
        after.parents[entity],
        entity,
    ) by {
        if entity != goal {
            assert(before.parents.contains_key(entity));
        }
    }
    assert forall|entity: u64|
        after.visited.contains(entity) && entity
            != task.start implies after.rank[#[trigger] after.parents[entity]]
        < after.rank[entity] by {
        assert(before.rank[before.parents[entity]] < before.rank[entity]);
    }
    assert forall|from: u64, to: u64|
        after.visited.contains(from) && #[trigger] task.edge(from, to) implies after.visited.contains(
        to,
    ) || after.frontier.contains(to) by {
        if from == curr {
            assert(to == goal);
        } else {
            if before.frontier.contains(to) {
                let k = choose|k: int| 0 <= k < before.frontier.len() && before.frontier[k] == to;
                assert(after.frontier[k] == to);
            }
        }
    }
}

} // verus!
