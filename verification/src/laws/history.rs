//! Laws of histories: which version of a node or an edge is read.

use crate::briefs::{brief_read, NodeBrief};
use crate::clock::second_of;
use crate::model::{
    an_assertion_reads_back, decides, live, one_version_decides, reads_as, retracting_hides,
    retracting_keeps_the_past, stamp_at, untouched, Contents, NodeV,
};
use crate::nodes::{completed, forget_outcome, full_read, upsert_outcome, NodeFull};
use crate::store::StoreError;
use crate::substrate::{optional_text, texts_view, touching};
use vstd::prelude::*;

verus! {

/// A read finds the latest version up to its moment, if that is an assertion: it is the one with the
/// greatest stamp, and a retraction of the same second does not outrank it.
pub proof fn the_latest_assertion_is_read<K, V>(
    versions: Map<(K, int, bool), V>,
    key: K,
    stamp: int,
    at: int,
)
    requires
        versions.dom().contains((key, stamp, true)),
        stamp <= at,
        forall|t: int, asserted: bool| #[trigger]
            versions.dom().contains((key, t, asserted)) ==> t <= stamp || at < t,
    ensures
        reads_as(versions, key, at) == Some(versions[(key, stamp, true)]),
        stamp_at(versions, key, at) == stamp,
{
    assert(decides(versions, key, stamp, at));
    one_version_decides(versions, key, stamp, at);
}

/// What was retracted after its last assertion is not read, nor is what was never asserted.
pub proof fn what_was_retracted_is_not_read<K, V>(
    versions: Map<(K, int, bool), V>,
    key: K,
    at: int,
)
    requires
        forall|t: int| #[trigger]
            versions.dom().contains((key, t, true)) && t <= at ==> exists|u: int|
                t < u <= at && #[trigger] versions.dom().contains((key, u, false)),
    ensures
        reads_as(versions, key, at) is None,
{
    if live(versions, key, at) {
        let s = stamp_at(versions, key, at);
        assert(decides(versions, key, s, at));
        assert(versions.dom().contains((key, s, true)));
    }
}

/// The second that a moment falls into has begun by then, and the next one has not.
pub proof fn a_moment_falls_into_its_second(now: int)
    ensures
        second_of(now) * 1000000 <= now < second_of(now) * 1000000 + 1000000,
{
}

/// What is upserted is read from then on, field by field as it was given, until something else is
/// written under its id; properties that were not given stay what they were.
pub proof fn an_upserted_node_is_read_field_by_field(
    c: Contents,
    d: Contents,
    id: Seq<char>,
    n: NodeV,
    init: Option<Seq<char>>,
    at: int,
    later: int,
    read: NodeFull,
)
    requires
        upsert_outcome(c, d, id, n, init, at, Ok(())),
        at <= later,
        forall|t: int, asserted: bool| #[trigger]
            c.nodes.dom().contains((id, t, asserted)) ==> t <= at || later < t,
        full_read(d, id, later, Ok(Some(read))),
    ensures
        read.id@ == id,
        read.node_type@ == n.node_type,
        read.tier@ == n.tier,
        read.name@ == n.name,
        optional_text(read.body) == n.body,
        texts_view(read.tags@) == n.tags,
        read.visibility@ == n.visibility,
        read.layer@ == n.layer,
        n.properties is Some ==> optional_text(read.properties) == n.properties,
        n.properties is None ==> optional_text(read.properties) == (match reads_as(
            c.nodes,
            id,
            at,
        ) {
            Some(before) => before.properties,
            None => None,
        }),
        init matches Some(i) ==> d.members.contains((i, id)),
{
    assert(untouched(c.nodes, id, at, later));
    let v = completed(n, reads_as(c.nodes, id, at));
    an_assertion_reads_back(c.nodes, id, at, v, later);
}

/// An upsert is read from then on, at all: nothing takes it back.
pub proof fn an_upserted_node_is_there(
    c: Contents,
    d: Contents,
    id: Seq<char>,
    n: NodeV,
    init: Option<Seq<char>>,
    at: int,
    later: int,
    chars: nat,
    read: Option<NodeBrief>,
)
    requires
        upsert_outcome(c, d, id, n, init, at, Ok(())),
        at <= later,
        forall|t: int, asserted: bool| #[trigger]
            c.nodes.dom().contains((id, t, asserted)) ==> t <= at || later < t,
        brief_read(d, id, chars, later, Ok(read)),
    ensures
        read matches Some(b) && b@.id == id && b@.name == n.name && b@.node_type == n.node_type
            && b@.ts == Some(at),
{
    assert(untouched(c.nodes, id, at, later));
    let v = completed(n, reads_as(c.nodes, id, at));
    an_assertion_reads_back(c.nodes, id, at, v, later);
    assert forall|t: int, asserted: bool| #[trigger]
        d.nodes.dom().contains((id, t, asserted)) implies t <= at || later < t by {
        if (id, t, asserted) != (id, at, true) {
            assert(c.nodes.dom().contains((id, t, asserted)));
        }
    }
    the_latest_assertion_is_read(d.nodes, id, at, later);
}

/// An upsert writes one version of one node and adds at most one membership: all else stays.
pub proof fn an_upsert_touches_one_node(
    c: Contents,
    d: Contents,
    id: Seq<char>,
    n: NodeV,
    init: Option<Seq<char>>,
    at: int,
    r: Result<(), StoreError>,
)
    requires
        upsert_outcome(c, d, id, n, init, at, r),
    ensures
        forall|k: (Seq<char>, int, bool)|
            k != (id, at, true) ==> (#[trigger] d.nodes.dom().contains(k) <==> c.nodes.dom().contains(
                k,
            )) && (c.nodes.dom().contains(k) ==> d.nodes[k] == c.nodes[k]),
        forall|p: (Seq<char>, Seq<char>)| #[trigger]
            d.members.contains(p) ==> c.members.contains(p) || (init matches Some(i) && p == (
                i,
                id,
            )),
        forall|p: (Seq<char>, Seq<char>)| c.members.contains(p) ==> #[trigger] d.members.contains(p),
        d.edges == c.edges,
        d.edge_members == c.edge_members,
        d.policies == c.policies,
        d.audit == c.audit,
        r matches Err(e) ==> e is Substrate,
{
}

/// What is forgotten after its last write is read no more, neither it nor any edge at either of its
/// ends; every earlier moment reads as before.
pub proof fn a_forgotten_node_goes_with_its_edges(
    c: Contents,
    d: Contents,
    id: Seq<char>,
    at: int,
    edge: crate::model::EdgeId,
    moment: int,
)
    requires
        forget_outcome(c, d, id, at, Ok(())),
        edge.src == id || edge.dst == id,
        forall|t: int, asserted: bool| #[trigger]
            c.nodes.dom().contains((id, t, asserted)) ==> t < at,
        forall|t: int, asserted: bool| #[trigger]
            c.edges.dom().contains((edge, t, asserted)) ==> t < at,
    ensures
        at <= moment ==> reads_as(d.nodes, id, moment) is None && reads_as(d.edges, edge, moment)
            is None,
        moment < at ==> reads_as(d.nodes, id, moment) == reads_as(c.nodes, id, moment) && reads_as(
            d.edges,
            edge,
            moment,
        ) == reads_as(c.edges, edge, moment),
{
    if at <= moment {
        assert(untouched(c.nodes, id, at, moment));
        assert(untouched(c.edges, edge, at, moment));
        retracting_hides(c.nodes, set![id], at, id, moment);
        retracting_hides(c.edges, touching(set![id]), at, edge, moment);
    } else {
        retracting_keeps_the_past(c.nodes, set![id], at, id, moment);
        retracting_keeps_the_past(c.edges, touching(set![id]), at, edge, moment);
    }
}

/// Forgetting touches nothing but the one node and the edges at its ends, and erases no version.
pub proof fn forgetting_touches_nothing_else(
    c: Contents,
    d: Contents,
    id: Seq<char>,
    at: int,
    other: Seq<char>,
    edge: crate::model::EdgeId,
    moment: int,
    r: Result<(), StoreError>,
)
    requires
        forget_outcome(c, d, id, at, r),
        other != id,
        edge.src != id,
        edge.dst != id,
    ensures
        reads_as(d.nodes, other, moment) == reads_as(c.nodes, other, moment),
        reads_as(d.edges, edge, moment) == reads_as(c.edges, edge, moment),
        d.members == c.members,
        d.edge_members == c.edge_members,
        d.policies == c.policies,
        d.audit == c.audit,
        forall|k: (Seq<char>, int, bool)| #[trigger]
            c.nodes.dom().contains(k) ==> d.nodes.dom().contains(k),
        forall|k: (Seq<char>, int)| #[trigger]
            c.nodes.dom().contains((k.0, k.1, true)) ==> d.nodes[(k.0, k.1, true)] == c.nodes[(
                k.0,
                k.1,
                true,
            )],
        r matches Err(e) ==> e is Substrate,
{
    retracting_keeps_the_past(c.nodes, set![id], at, other, moment);
    retracting_keeps_the_past(c.edges, touching(set![id]), at, edge, moment);
}

} // verus!
