//! Adapter for the precomputed shortest-path engine.
//!
//! The engine is the `ch_router` contraction hierarchy. It is opaque to the
//! rest of the library: everything stated about a query result is stated over
//! the uninterpreted path function `ch_route_path`, and everything the query
//! contract relies on beyond its own source is gathered into the one stated
//! assumption `ch_well_formed`, which no code of this library grants — the
//! startup code that loads the engine file owes it.

use vstd::prelude::*;

verus! {

#[verifier::external_type_specification]
#[verifier::external_body]
pub struct ExContractionHierarchy(ch_router::ContractionHierarchy);

/// The node path that the engine yields for the query `(from, to)` on a given
/// hierarchy value: `None` when the two nodes are not connected, else the
/// ordered node ids of a minimum-weight path under the metric baked into the
/// hierarchy.
pub uninterp spec fn ch_route_path(ch: ch_router::ContractionHierarchy, from: u32, to: u32) -> Option<Seq<u32>>;

/// How many nodes the hierarchy was built over; only queries between node ids
/// below this count are meaningful.
pub uninterp spec fn ch_node_count(ch: ch_router::ContractionHierarchy) -> u32;

/// The one assumption this library makes of a hierarchy value beyond what the
/// engine's source shows: it is a consistent serialization of a road network,
/// that is, every stored edge target lies below the node count, the unfolding
/// tables agree with the search tables and their shortcut chains are acyclic,
/// and the edge weights are non-negative and never NaN. Nothing in the
/// engine's reader validates this and nothing in this library grants it:
/// `Router::new` demands it of its caller, so the trust rests, acknowledged,
/// on the unverified startup code that loads the engine file. A file that
/// breaks it is the corrupt-file case the design reserves for startup
/// failure.
pub uninterp spec fn ch_well_formed(ch: ch_router::ContractionHierarchy) -> bool;

/// Relies on `ch_router::ContractionHierarchy::node_count`: a pure accessor
/// of the hierarchy value.
#[verifier::external_body]
pub(crate) fn engine_node_count(ch: &ch_router::ContractionHierarchy) -> (r: u32)
    ensures
        r == ch_node_count(*ch),
{
    ch.node_count()
}

/// Relies on `ch_router::ContractionHierarchy::route`. For a fixed hierarchy
/// value the query is a deterministic function of its arguments (the search
/// uses a binary heap and fixed-seed hash maps, and every call starts from a
/// fresh search state), so its result can be named by `ch_route_path`. The
/// path unfolding starts the returned vector at `start`, ends it at `target`,
/// and never leaves it empty; for `start == target` the searches meet at that
/// node at distance zero, which no non-negative total undercuts, and the
/// unfolding of that meeting is the single-node path. The call is free of
/// panics and unbounded recursion only on a hierarchy satisfying
/// `ch_well_formed`, which the `requires` therefore demands together with
/// in-range endpoints (the search indexes its edge tables by them); the last
/// `ensures` clause repeats that premise so the named assumption stands
/// recorded beside the facts it underwrites. The unfolding also writes debug
/// lines to the standard error stream on every successful query — a side
/// effect, hidden here, that aborts if that stream cannot be written.
#[verifier::external_body]
pub(crate) fn route_query(ch: &ch_router::ContractionHierarchy, from: u32, to: u32) -> (r: Option<Vec<u32>>)
    requires
        ch_well_formed(*ch),
        from < ch_node_count(*ch),
        to < ch_node_count(*ch),
    ensures
        r matches Some(p) ==> ch_route_path(*ch, from, to) matches Some(q) && p@ == q,
        r is None ==> ch_route_path(*ch, from, to) is None,
        r matches Some(p) ==> p@.len() >= 1 && p@[0] == from && p@[p@.len() - 1] == to,
        r is Some || from != to,
        r matches Some(p) ==> (from == to ==> p@ == seq![from]),
        r is Some ==> ch_well_formed(*ch),
{
    ch.route(from, to).map(|found| found.path)
}

} // verus!
