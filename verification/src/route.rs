//! The route stitcher.
//!
//! A request arrives as an ordered list of snapped node ids, one per
//! waypoint. For each consecutive pair the engine is asked for a node path;
//! the paths are concatenated in waypoint order, each node annotated with the
//! waypoint position it corresponds to, where it is a segment endpoint.

use vstd::prelude::*;

use crate::engine::ch_node_count;
use crate::engine::ch_route_path;
use crate::engine::ch_well_formed;
use crate::engine::engine_node_count;
use crate::engine::route_query;

verus! {

/// A geographic coordinate. The two components are stored as IEEE-754
/// single-precision bit patterns, so that the stitcher can carry them around
/// and compare nothing about them; interpreting them as degrees is left to
/// the callers at the process boundary.
#[derive(Clone, Copy, PartialEq, Eq, Structural, Debug)]
pub struct Coordinate {
    pub longitude: u32,
    pub latitude: u32,
}

/// One node of an assembled route: its stored coordinate, and the position of
/// the waypoint it corresponds to when it is a segment endpoint.
#[derive(Clone, Copy, PartialEq, Eq, Debug)]
pub struct RouteNode {
    pub coordinate: Coordinate,
    pub stop_index: Option<u32>,
}

/// Why a request failed. Either error leaves the shared network state intact:
/// it aborts only the request it arose in.
#[derive(Clone, Copy, PartialEq, Eq, Structural, Debug)]
pub enum RouteError {
    /// The engine found no path connecting the snapped pair.
    Unreachable { from: u32, to: u32 },
    /// The path returned for the pair names a node id with no stored
    /// coordinate: the node file and the engine file disagree.
    UnknownNode { from: u32, to: u32 },
    /// The path returned for the pair revisits one of its endpoints in its
    /// interior, so waypoint annotations could repeat out of order; a
    /// minimum-weight path does not do this, and such a path is rejected
    /// rather than trusted.
    MalformedPath { from: u32, to: u32 },
}

/// The route node built for node `id` of the segment of waypoint pair
/// `(leg, leg + 1)`. The departure check comes first: when `from == to`, a
/// node equal to both carries `leg`, never `leg + 1`.
pub open spec fn route_node_for(points: Seq<Coordinate>, id: u32, from: u32, to: u32, leg: u32) -> RouteNode {
    RouteNode {
        coordinate: points[id as int],
        stop_index: if id == from {
            Some(leg)
        } else if id == to {
            Some((leg + 1) as u32)
        } else {
            None
        },
    }
}

/// The route nodes of one segment, in engine-returned path order.
pub open spec fn segment_nodes(points: Seq<Coordinate>, path: Seq<u32>, from: u32, to: u32, leg: u32) -> Seq<RouteNode> {
    path.map(|j: int, id: u32| route_node_for(points, id, from, to, leg))
}

/// Every node id of `path` has a stored coordinate.
pub open spec fn ids_in_range(path: Seq<u32>, count: int) -> bool {
    forall|j: int| 0 <= j < path.len() ==> path[j] < count
}

/// A segment path of the shape the stitcher accepts: it runs from `from` to
/// `to` and touches neither endpoint in its interior, so each of the two
/// waypoint annotations of the segment appears exactly once per endpoint
/// position.
pub open spec fn well_shaped_path(path: Seq<u32>, from: u32, to: u32) -> bool {
    &&& path.len() >= 1
    &&& path.first() == from
    &&& path.last() == to
    &&& forall|j: int| 1 <= j < path.len() - 1 ==> path[j] != from && path[j] != to
}

/// The route assembled from waypoint pairs `i, i + 1, ...` onward: the
/// concatenation of the per-pair segments, or the error of the first pair
/// that fails. Fewer than two remaining waypoints leave nothing to compute.
pub open spec fn stitch_from(
    points: Seq<Coordinate>,
    ch: ch_router::ContractionHierarchy,
    snapped: Seq<u32>,
    i: nat,
) -> Result<Seq<RouteNode>, RouteError>
    decreases snapped.len() - i,
{
    if i + 1 >= snapped.len() {
        Ok(Seq::empty())
    } else {
        let from = snapped[i as int];
        let to = snapped[i as int + 1];
        if !(from < ch_node_count(ch) && to < ch_node_count(ch)) {
            Err(RouteError::UnknownNode { from, to })
        } else {
            match ch_route_path(ch, from, to) {
                None => Err(RouteError::Unreachable { from, to }),
                Some(path) => {
                    if !well_shaped_path(path, from, to) {
                        Err(RouteError::MalformedPath { from, to })
                    } else if !ids_in_range(path, points.len() as int) {
                        Err(RouteError::UnknownNode { from, to })
                    } else {
                        match stitch_from(points, ch, snapped, i + 1) {
                            Ok(rest) => Ok(segment_nodes(points, path, from, to, i as u32) + rest),
                            Err(e) => Err(e),
                        }
                    }
                },
            }
        }
    }
}

/// For a waypoint pair snapping to one and the same node — and an engine
/// that answers such a query with the single-node path, as the path-engine
/// contract states — the assembled route is exactly one node, and it carries
/// stop index 0: the departure check is evaluated first, so the node never
/// receives the arrival index 1.
pub proof fn lemma_identical_pair_route(points: Seq<Coordinate>, ch: ch_router::ContractionHierarchy, a: u32)
    requires
        a < ch_node_count(ch),
        ch_route_path(ch, a, a) == Some(seq![a]),
        (a as int) < points.len(),
    ensures
        stitch_from(points, ch, seq![a, a], 0) matches Ok(route)
            && route == seq![(RouteNode { coordinate: points[a as int], stop_index: Some(0u32) })],
{
    let s = seq![a, a];
    let p = seq![a];
    assert(stitch_from(points, ch, s, 1) == Ok::<Seq<RouteNode>, RouteError>(Seq::empty()));
    assert(well_shaped_path(p, a, a));
    assert(ids_in_range(p, points.len() as int));
    let seg = segment_nodes(points, p, a, a, 0);
    assert(seg[0] == route_node_for(points, a, a, a, 0));
    assert(seg + Seq::<RouteNode>::empty()
        =~= seq![(RouteNode { coordinate: points[a as int], stop_index: Some(0u32) })]);
}

/// A request of three waypoints is stitched from two segments: the route is
/// their concatenation, `k1 + k2` nodes long, with no de-duplication at the
/// boundary — the node ending the first segment and the node starting the
/// second are both present, and both carry stop index 1.
pub proof fn lemma_two_segment_route(
    points: Seq<Coordinate>,
    ch: ch_router::ContractionHierarchy,
    a: u32,
    b: u32,
    c: u32,
    p1: Seq<u32>,
    p2: Seq<u32>,
)
    requires
        a < ch_node_count(ch),
        b < ch_node_count(ch),
        c < ch_node_count(ch),
        ch_route_path(ch, a, b) == Some(p1),
        ch_route_path(ch, b, c) == Some(p2),
        well_shaped_path(p1, a, b),
        well_shaped_path(p2, b, c),
        a != b,
        ids_in_range(p1, points.len() as int),
        ids_in_range(p2, points.len() as int),
    ensures
        stitch_from(points, ch, seq![a, b, c], 0) matches Ok(route)
            && route.len() == p1.len() + p2.len()
            && route[p1.len() - 1].stop_index == Some(1u32)
            && route[p1.len() as int].stop_index == Some(1u32),
{
    let s = seq![a, b, c];
    let seg1 = segment_nodes(points, p1, a, b, 0);
    let seg2 = segment_nodes(points, p2, b, c, 1);
    assert(stitch_from(points, ch, s, 2) == Ok::<Seq<RouteNode>, RouteError>(Seq::empty()));
    assert(stitch_from(points, ch, s, 1) == Ok::<Seq<RouteNode>, RouteError>(seg2 + Seq::empty()));
    assert(stitch_from(points, ch, s, 0)
        == Ok::<Seq<RouteNode>, RouteError>(seg1 + (seg2 + Seq::empty())));
    let route = seg1 + (seg2 + Seq::<RouteNode>::empty());
    assert(route.len() == p1.len() + p2.len());
    assert(route[p1.len() - 1] == seg1[p1.len() - 1]);
    assert(seg1[p1.len() - 1] == route_node_for(points, b, a, b, 0));
    assert(route_node_for(points, b, a, b, 0).stop_index == Some(1u32));
    assert(route[p1.len() as int] == (seg2 + Seq::<RouteNode>::empty())[0]);
    assert((seg2 + Seq::<RouteNode>::empty())[0] == seg2[0]);
    assert(seg2[0] == route_node_for(points, b, b, c, 1));
    assert(route_node_for(points, b, b, c, 1).stop_index == Some(1u32));
}

/// Waypoint pair `k` of the request is answered without error: both snaps
/// lie in the engine, the engine connects them with a well-shaped path, and
/// every node of that path has a stored coordinate.
pub open spec fn pair_succeeds(
    points: Seq<Coordinate>,
    ch: ch_router::ContractionHierarchy,
    snapped: Seq<u32>,
    k: int,
) -> bool {
    &&& snapped[k] < ch_node_count(ch)
    &&& snapped[k + 1] < ch_node_count(ch)
    &&& ch_route_path(ch, snapped[k], snapped[k + 1]) matches Some(path)
        && well_shaped_path(path, snapped[k], snapped[k + 1])
        && ids_in_range(path, points.len() as int)
}

proof fn lemma_unreachable_pair_from(
    points: Seq<Coordinate>,
    ch: ch_router::ContractionHierarchy,
    snapped: Seq<u32>,
    j: int,
    i: int,
)
    requires
        0 <= i <= j,
        j + 1 < snapped.len(),
        forall|k: int| i <= k < j ==> #[trigger] pair_succeeds(points, ch, snapped, k),
        snapped[j] < ch_node_count(ch),
        snapped[j + 1] < ch_node_count(ch),
        ch_route_path(ch, snapped[j], snapped[j + 1]) is None,
    ensures
        stitch_from(points, ch, snapped, i as nat) == Err::<Seq<RouteNode>, RouteError>(
            RouteError::Unreachable { from: snapped[j], to: snapped[j + 1] },
        ),
    decreases j - i,
{
    if i < j {
        assert(pair_succeeds(points, ch, snapped, i));
        lemma_unreachable_pair_from(points, ch, snapped, j, i + 1);
        assert(i as nat + 1 == (i + 1) as nat);
    }
}

/// Failure isolation in a request of any length: when every pair before `j`
/// succeeds and pair `j` snaps into disconnected components, the request
/// fails with exactly the unreachable error naming that pair — and with
/// nothing else, so the shared state and every other request stay untouched.
pub proof fn lemma_first_unreachable_pair(
    points: Seq<Coordinate>,
    ch: ch_router::ContractionHierarchy,
    snapped: Seq<u32>,
    j: int,
)
    requires
        0 <= j,
        j + 1 < snapped.len(),
        forall|k: int| 0 <= k < j ==> #[trigger] pair_succeeds(points, ch, snapped, k),
        snapped[j] < ch_node_count(ch),
        snapped[j + 1] < ch_node_count(ch),
        ch_route_path(ch, snapped[j], snapped[j + 1]) is None,
    ensures
        stitch_from(points, ch, snapped, 0) == Err::<Seq<RouteNode>, RouteError>(
            RouteError::Unreachable { from: snapped[j], to: snapped[j + 1] },
        ),
{
    lemma_unreachable_pair_from(points, ch, snapped, j, 0);
}

/// The stop indices present in `route`, read in route order, never decrease.
pub open spec fn stops_non_decreasing(route: Seq<RouteNode>) -> bool {
    forall|p: int, q: int| 0 <= p < q < route.len()
        ==> ((#[trigger] route[p]).stop_index matches Some(sp)
            ==> ((#[trigger] route[q]).stop_index matches Some(sq) ==> sp <= sq))
}

/// Some node of `route` carries waypoint position `w`.
pub open spec fn stop_appears(route: Seq<RouteNode>, w: int) -> bool {
    exists|p: int| 0 <= p < route.len() && (#[trigger] route[p]).stop_index == Some(w as u32)
}

/// The stop-index shape of the route stitched from pair `i` onward, for
/// adjacent snaps that are distinct: every present stop index lies in
/// `i .. W`, they never decrease, and (where at least one pair remains) each
/// waypoint position from `i` on is carried by some node.
pub proof fn lemma_stitch_stops(
    points: Seq<Coordinate>,
    ch: ch_router::ContractionHierarchy,
    snapped: Seq<u32>,
    i: nat,
)
    requires
        snapped.len() < 0x1_0000_0000,
        stitch_from(points, ch, snapped, i) is Ok,
        forall|k: int| i <= k < snapped.len() - 1 ==> #[trigger] snapped[k] != snapped[k + 1],
    ensures
        stitch_from(points, ch, snapped, i) matches Ok(rest) && {
            &&& forall|p: int| 0 <= p < rest.len()
                    ==> ((#[trigger] rest[p]).stop_index matches Some(s)
                        ==> i as int <= s as int && (s as int) < snapped.len() as int)
            &&& stops_non_decreasing(rest)
            &&& forall|w: int| i as int <= w < snapped.len() as int && i + 1 < snapped.len()
                    ==> #[trigger] stop_appears(rest, w)
        },
    decreases snapped.len() - i,
{
    if i + 1 >= snapped.len() {
        assert(stitch_from(points, ch, snapped, i) == Ok::<Seq<RouteNode>, RouteError>(Seq::empty()));
    } else {
        let from = snapped[i as int];
        let to = snapped[i as int + 1];
        assert(from != to);
        assert(ch_route_path(ch, from, to) is Some);
        let path = match ch_route_path(ch, from, to) {
            Some(p) => p,
            None => Seq::empty(),
        };
        assert(well_shaped_path(path, from, to));
        assert(stitch_from(points, ch, snapped, i + 1) is Ok);
        lemma_stitch_stops(points, ch, snapped, i + 1);
        let rest2 = match stitch_from(points, ch, snapped, i + 1) {
            Ok(v) => v,
            Err(_) => Seq::empty(),
        };
        let seg = segment_nodes(points, path, from, to, i as u32);
        let result = seg + rest2;
        assert(stitch_from(points, ch, snapped, i) == Ok::<Seq<RouteNode>, RouteError>(result));

        assert(path.len() >= 2) by {
            if path.len() == 1 {
                assert(path.first() == path.last());
            }
        }
        let plen = path.len() as int;
        assert(seg.len() == plen);
        assert(seg[0] == route_node_for(points, path[0], from, to, i as u32));
        assert(seg[0].stop_index == Some(i as u32));
        assert(seg[plen - 1] == route_node_for(points, path[plen - 1], from, to, i as u32));
        assert(seg[plen - 1].stop_index == Some((i + 1) as u32));
        assert forall|p: int| 0 < p < plen - 1 implies seg[p].stop_index is None by {
            assert(seg[p] == route_node_for(points, path[p], from, to, i as u32));
            assert(path[p] != from && path[p] != to);
        }
        // Every present stop in the segment sits at an end, with a known value.
        assert forall|p: int| 0 <= p < plen && seg[p].stop_index is Some
            implies (p == 0 && seg[p].stop_index == Some(i as u32))
                || (p == plen - 1 && seg[p].stop_index == Some((i + 1) as u32)) by {
        }

        assert forall|p: int| 0 <= p < result.len() implies ((#[trigger] result[p]).stop_index matches Some(s)
            ==> i as int <= s as int && (s as int) < snapped.len() as int) by {
            if p < plen {
                assert(result[p] == seg[p]);
            } else {
                assert(result[p] == rest2[p - plen]);
            }
        }

        assert forall|p: int, q: int| 0 <= p < q < result.len()
            implies ((#[trigger] result[p]).stop_index matches Some(sp)
                ==> ((#[trigger] result[q]).stop_index matches Some(sq) ==> sp <= sq)) by {
            if p < plen {
                assert(result[p] == seg[p]);
            } else {
                assert(result[p] == rest2[p - plen]);
            }
            if q < plen {
                assert(result[q] == seg[q]);
            } else {
                assert(result[q] == rest2[q - plen]);
            }
        }

        assert forall|w: int| i as int <= w < snapped.len() as int && i + 1 < snapped.len()
            implies #[trigger] stop_appears(result, w) by {
            if w == i as int {
                assert(result[0] == seg[0]);
                assert(result[0].stop_index == Some(w as u32));
            } else if w == i as int + 1 {
                assert(result[plen - 1] == seg[plen - 1]);
                assert(result[plen - 1].stop_index == Some(w as u32));
            } else {
                assert(stop_appears(rest2, w));
                let p0 = choose|p0: int| 0 <= p0 < rest2.len()
                    && (#[trigger] rest2[p0]).stop_index == Some(w as u32);
                assert(result[plen + p0] == rest2[p0]);
                assert(result[plen + p0].stop_index == Some(w as u32));
            }
        }
    }
}

/// Route invariant: the waypoint annotations of an assembled route never run
/// backwards — the stop indices present, read in route order, are
/// non-decreasing — and when no two consecutive waypoints snap to the same
/// node, every waypoint position `0 ..= W - 1` is carried by some node.
pub proof fn lemma_route_stop_indices(
    points: Seq<Coordinate>,
    ch: ch_router::ContractionHierarchy,
    snapped: Seq<u32>,
)
    requires
        snapped.len() >= 2,
        snapped.len() < 0x1_0000_0000,
        stitch_from(points, ch, snapped, 0) is Ok,
        forall|k: int| 0 <= k < snapped.len() - 1 ==> #[trigger] snapped[k] != snapped[k + 1],
    ensures
        stitch_from(points, ch, snapped, 0) matches Ok(route) && {
            &&& stops_non_decreasing(route)
            &&& forall|w: int| 0 <= w < snapped.len() as int ==> #[trigger] stop_appears(route, w)
        },
{
    lemma_stitch_stops(points, ch, snapped, 0);
}

/// The process-wide immutable routing state: the loaded node coordinates
/// (position is the node id) and the precomputed shortest-path engine. Built
/// once at startup; requests only read it.
pub struct Router {
    ch: ch_router::ContractionHierarchy,
    points: Vec<Coordinate>,
}

impl Router {
    /// Every router holds an engine trusted well-formed: `new` demands it, so
    /// it can be assumed wherever a router value exists.
    #[verifier::type_invariant]
    spec fn type_inv(&self) -> bool {
        ch_well_formed(self.ch)
    }

    /// The loaded node coordinates; position is the node id.
    pub closed spec fn spec_points(&self) -> Seq<Coordinate> {
        self.points@
    }

    /// The shortest-path engine value the router was built over.
    pub closed spec fn spec_engine(&self) -> ch_router::ContractionHierarchy {
        self.ch
    }

    /// Builds the shared routing state. The caller owes `ch_well_formed` for
    /// the engine it hands over: nothing in this library can establish it, so
    /// the unverified startup code that loads the engine file carries that
    /// obligation, acknowledged — handing over a hierarchy read from an
    /// inconsistent file voids the query contract and can abort inside the
    /// engine at request time, as in any program that trusts such a file.
    pub fn new(ch: ch_router::ContractionHierarchy, points: Vec<Coordinate>) -> (r: Router)
        requires
            ch_well_formed(ch),
        ensures
            r.spec_engine() == ch,
            r.spec_points() == points@,
    {
        Router { ch, points }
    }

    /// How many nodes the network has.
    pub fn node_count(&self) -> (n: usize)
        ensures
            n == self.spec_points().len(),
    {
        self.points.len()
    }

    /// The stored coordinate of node `id`.
    pub fn point(&self, id: u32) -> (c: Option<Coordinate>)
        ensures
            (id as int) < self.spec_points().len() ==> c == Some(self.spec_points()[id as int]),
            (id as int) >= self.spec_points().len() ==> c is None,
    {
        if (id as usize) < self.points.len() {
            Some(self.points[id as usize])
        } else {
            None
        }
    }

    /// Assembles the route for the snapped waypoint list: exactly the result
    /// of `stitch_from` over the router's immutable state — so the outcome is
    /// a function of that state and the request alone, and concurrent
    /// requests cannot influence one another. Fewer than two waypoints yield
    /// an empty route, not an error.
    #[verifier::loop_isolation(false)]
    pub fn get_route(&self, snapped: &[u32]) -> (r: Result<Vec<RouteNode>, RouteError>)
        requires
            snapped@.len() < 0x1_0000_0000,
        ensures
            (match stitch_from(self.spec_points(), self.spec_engine(), snapped@, 0) {
                Ok(route) => r matches Ok(v) && v@ == route,
                Err(e) => (r matches Err(e2) && e2 == e),
            }),
            snapped@.len() < 2 ==> (r matches Ok(v) && v@.len() == 0),
    {
        proof {
            use_type_invariant(self);
        }
        let mut route: Vec<RouteNode> = Vec::new();
        if snapped.len() < 2 {
            return Ok(route);
        }
        let engine_nodes = engine_node_count(&self.ch);
        let last = snapped.len() - 1;
        let mut i: usize = 0;
        while i < last
            invariant
                i <= last,
                (match stitch_from(self.spec_points(), self.spec_engine(), snapped@, i as nat) {
                    Ok(rest) => stitch_from(self.spec_points(), self.spec_engine(), snapped@, 0)
                        matches Ok(full) && full == route@ + rest,
                    Err(e) => stitch_from(self.spec_points(), self.spec_engine(), snapped@, 0)
                        == Err::<Seq<RouteNode>, RouteError>(e),
                }),
            decreases last - i,
        {
            let from = snapped[i];
            let to = snapped[i + 1];
            if from >= engine_nodes || to >= engine_nodes {
                return Err(RouteError::UnknownNode { from, to });
            }
            match route_query(&self.ch, from, to) {
                None => {
                    return Err(RouteError::Unreachable { from, to });
                },
                Some(path) => {
                    let path_len = path.len();
                    let mut t: usize = 0;
                    while t < path_len
                        invariant
                            t <= path_len,
                            path_len == path@.len(),
                            forall|u: int| 1 <= u < t && u + 1 < path_len
                                ==> path@[u] != from && path@[u] != to,
                        decreases path_len - t,
                    {
                        if t > 0 && t + 1 < path_len {
                            let id = path[t];
                            if id == from || id == to {
                                proof {
                                    assert(!well_shaped_path(path@, from, to));
                                    assert(stitch_from(self.spec_points(), self.spec_engine(), snapped@, i as nat)
                                        == Err::<Seq<RouteNode>, RouteError>(RouteError::MalformedPath { from, to }));
                                }
                                return Err(RouteError::MalformedPath { from, to });
                            }
                        }
                        t = t + 1;
                    }
                    proof {
                        assert(well_shaped_path(path@, from, to));
                    }
                    let ghost route0 = route@;
                    let ghost seg = segment_nodes(self.spec_points(), path@, from, to, i as u32);
                    let mut j: usize = 0;
                    while j < path.len()
                        invariant
                            j <= path@.len(),
                            forall|t: int| 0 <= t < j ==> path@[t] < self.spec_points().len(),
                            route@ == route0 + seg.subrange(0, j as int),
                        decreases path@.len() - j,
                    {
                        let id = path[j];
                        if (id as usize) >= self.points.len() {
                            proof {
                                assert(!ids_in_range(path@, self.spec_points().len() as int));
                                assert(stitch_from(self.spec_points(), self.spec_engine(), snapped@, i as nat)
                                    == Err::<Seq<RouteNode>, RouteError>(RouteError::UnknownNode { from, to }));
                            }
                            return Err(RouteError::UnknownNode { from, to });
                        }
                        let node = RouteNode {
                            coordinate: self.points[id as usize],
                            stop_index: if id == from {
                                Some(i as u32)
                            } else if id == to {
                                Some(i as u32 + 1)
                            } else {
                                None
                            },
                        };
                        proof {
                            assert(node == seg[j as int]);
                            assert(seg.subrange(0, j as int + 1)
                                =~= seg.subrange(0, j as int) + seq![seg[j as int]]);
                        }
                        route.push(node);
                        j = j + 1;
                    }
                    proof {
                        assert(ids_in_range(path@, self.spec_points().len() as int));
                        assert(seg.subrange(0, path@.len() as int) =~= seg);
                        let ghost st_i = stitch_from(self.spec_points(), self.spec_engine(), snapped@, i as nat);
                        let ghost st_next = stitch_from(self.spec_points(), self.spec_engine(), snapped@, i as nat + 1);
                        match st_next {
                            Ok(rest) => {
                                assert(st_i == Ok::<Seq<RouteNode>, RouteError>(seg + rest));
                                assert(route0 + (seg + rest) =~= (route0 + seg) + rest);
                            },
                            Err(e) => {
                                assert(st_i == Err::<Seq<RouteNode>, RouteError>(e));
                            },
                        }
                    }
                    i = i + 1;
                },
            }
        }
        proof {
            assert(stitch_from(self.spec_points(), self.spec_engine(), snapped@, last as nat)
                == Ok::<Seq<RouteNode>, RouteError>(Seq::empty()));
            assert(route@ + Seq::<RouteNode>::empty() =~= route@);
        }
        Ok(route)
    }
}

} // verus!

