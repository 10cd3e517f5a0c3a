//! Single edges: written and retracted.

use crate::clock::{now_seconds, present, second_showed};
use crate::listing::LOCAL;
use crate::model::{
    an_assertion_reads_back, reads_as, retracted_all, retracting_hides, retracting_keeps_the_past,
    untouched, Contents, EdgeId, EdgeV,
};
use crate::store::{three, two, Store, StoreError};
use crate::rows::text_cell;
use crate::substrate::{cells, edge_params, Cell, ATTACH_EDGE, PUT_EDGE, RETRACT_EDGE};
use crate::text::join;
use vstd::prelude::*;

verus! {

/// The bits of the double `1.0`.
pub const ONE_BITS: i64 = 4607182418800017408;

/// The bits of the double `+inf`.
pub const INFINITY_BITS: i64 = 9218868437227405312;

/// The bits of the double `-inf`, as a signed number.
pub const NEGATIVE_INFINITY_BITS: i64 = -4503599627370496;

/// A weight held to the range from zero to one, on the bits of doubles: what is below zero becomes
/// zero, what is above one becomes one, and what is no number stays what it is. The bits of
/// positive doubles ascend with them; as signed numbers, those of the negative ones lie between the
/// bits of `-0.0`, the least of all, and those of `-inf`.
pub open spec fn clamped(bits: int) -> int {
    if i64::MIN < bits <= NEGATIVE_INFINITY_BITS {
        0
    } else if ONE_BITS < bits <= INFINITY_BITS {
        ONE_BITS as int
    } else {
        bits
    }
}

/// Holds a weight to the range from zero to one.
pub fn clamp_weight(bits: i64) -> (r: i64)
    ensures
        r == clamped(bits as int),
{
    if i64::MIN < bits && bits <= NEGATIVE_INFINITY_BITS {
        0
    } else if ONE_BITS < bits && bits <= INFINITY_BITS {
        ONE_BITS
    } else {
        bits
    }
}

/// A weight in range is left alone, so holding it to the range twice is holding it once.
pub proof fn clamping_is_idempotent(bits: int)
    ensures
        clamped(clamped(bits)) == clamped(bits),
        0 <= bits <= ONE_BITS ==> clamped(bits) == bits,
{
}

pub open spec fn edge_id(src: Seq<char>, dst: Seq<char>, edge_type: Seq<char>) -> EdgeId {
    EdgeId { src, dst, edge_type }
}

/// What a store holds after an edge was upserted at the moment `at`.
pub open spec fn connected(c: Contents, e: EdgeId, weight: int, at: int) -> Contents {
    Contents {
        edges: c.edges.insert(
            (e, at, true),
            EdgeV { weight: clamped(weight), dst_store: LOCAL@ },
        ),
        ..c
    }
}

/// Writes a version of an edge at the moment `at`, its weight held to the range from zero to one.
/// An edge that exists is updated in place.
pub fn upsert_edge_at(
    store: &mut Store,
    src: &str,
    dst: &str,
    edge_type: &str,
    weight: i64,
    at: i64,
) -> (r: Result<(), StoreError>)
    ensures
        final(store).settings() == old(store).settings(),
        r is Ok ==> final(store).held() == connected(
            old(store).held(),
            edge_id(src@, dst@, edge_type@),
            weight as int,
            at as int,
        ),
        r matches Err(e) ==> e is Substrate && final(store).held() == old(store).held(),
{
    let held: i64 = clamp_weight(weight);
    let params = vec![
        text_cell("src", src),
        text_cell("dst", dst),
        text_cell("edge_type", edge_type),
        ("weight".to_owned(), Cell::Int(held)),
        text_cell("dst_store", LOCAL),
    ];
    proof {
        let e = edge_id(src@, dst@, edge_type@);
        let v = EdgeV { weight: held as int, dst_store: LOCAL@ };
        assert(cells(params@) =~= edge_params(e, v));
    }
    store.run_put(PUT_EDGE, &params, at)
}

/// What a store holds after an edge was retracted at the moment `at`.
pub open spec fn disconnected(c: Contents, e: EdgeId, at: int) -> Contents {
    Contents { edges: retracted_all(c.edges, set![e], at), ..c }
}

/// Retracts an edge at the moment `at`. An edge that does not read there is left as it is.
pub fn unlink_at(store: &mut Store, src: &str, dst: &str, edge_type: &str, at: i64) -> (r: Result<
    (),
    StoreError,
>)
    ensures
        final(store).settings() == old(store).settings(),
        r is Ok ==> final(store).held() == disconnected(
            old(store).held(),
            edge_id(src@, dst@, edge_type@),
            at as int,
        ),
        r matches Err(e) ==> e is Substrate && final(store).held() == old(store).held(),
{
    store.run_mut(RETRACT_EDGE, &three("src", src, "dst", dst, "edge_type", edge_type), at)
}

/// The key under which an edge is attached to an initiative.
pub open spec fn edge_key(e: EdgeId) -> Seq<char> {
    e.src + "|"@ + e.edge_type + "|"@ + e.dst
}

/// What a store holds after two nodes were linked at the moment `at`, with full weight: the edge,
/// attached to the initiative in scope, if there is one.
pub open spec fn linked(c: Contents, scope: Option<Seq<char>>, e: EdgeId, at: int) -> Contents {
    let d = connected(c, e, ONE_BITS as int, at);
    match scope {
        Some(init) => Contents { edge_members: d.edge_members.insert((init, edge_key(e))), ..d },
        None => d,
    }
}

/// Links two nodes at the moment `at` under the initiative in scope.
pub fn link_at(store: &mut Store, src: &str, dst: &str, edge_type: &str, at: i64) -> (r: Result<
    (),
    StoreError,
>)
    ensures
        final(store).settings() == old(store).settings(),
        r is Ok ==> final(store).held() == linked(
            old(store).held(),
            old(store).settings().scope,
            edge_id(src@, dst@, edge_type@),
            at as int,
        ),
        r matches Err(e) ==> e is Substrate && (final(store).held() == old(store).held()
            || final(store).held() == connected(
            old(store).held(),
            edge_id(src@, dst@, edge_type@),
            ONE_BITS as int,
            at as int,
        )),
{
    upsert_edge_at(store, src, dst, edge_type, ONE_BITS, at)?;
    if let Some(init) = store.current_initiative() {
        let from = join(join(src, "|").as_str(), edge_type);
        let key = join(join(from.as_str(), "|").as_str(), dst);
        store.run_mut(ATTACH_EDGE, &two("init", init.as_str(), "pk", key.as_str()), at)?;
    }
    Ok(())
}

/// Links two nodes as [`link_at`] does, at the present moment.
pub fn link(store: &mut Store, src: &str, dst: &str, edge_type: &str) -> (r: Result<
    (),
    StoreError,
>)
    ensures
        final(store).settings() == old(store).settings(),
        r is Ok ==> exists|at: int|
            0 <= at && second_showed(at) && final(store).held() == #[trigger] linked(
                old(store).held(),
                old(store).settings().scope,
                edge_id(src@, dst@, edge_type@),
                at,
            ),
        r matches Err(e) ==> e is Substrate,
        r is Err ==> final(store).held() == old(store).held() || exists|at: int|
            0 <= at && second_showed(at) && final(store).held() == #[trigger] connected(
                old(store).held(),
                edge_id(src@, dst@, edge_type@),
                ONE_BITS as int,
                at,
            ),
{
    let at = now_seconds();
    link_at(store, src, dst, edge_type, at)
}

/// An upserted edge reads back with its clamped weight, from then on up to its next write.
pub proof fn an_edge_reads_back(c: Contents, e: EdgeId, weight: int, at: int, later: int)
    requires
        at <= later,
        untouched(c.edges, e, at, later),
    ensures
        reads_as(connected(c, e, weight, at).edges, e, later) == Some(
            EdgeV { weight: clamped(weight), dst_store: LOCAL@ },
        ),
{
    let v = EdgeV { weight: clamped(weight), dst_store: LOCAL@ };
    an_assertion_reads_back(c.edges, e, at, v, later);
}

/// A retracted edge reads no more, from then on up to its next write, unless the second of the
/// retraction also asserts it; it reads as before at every earlier moment, and no node changes.
pub proof fn an_edge_goes_without_its_ends(c: Contents, e: EdgeId, at: int, moment: int)
    requires
        at <= moment ==> !c.edges.dom().contains((e, at, true)),
        untouched(c.edges, e, at, moment),
    ensures
        reads_as(disconnected(c, e, at).edges, e, moment) == (if moment < at {
            reads_as(c.edges, e, moment)
        } else {
            None
        }),
        disconnected(c, e, at).nodes == c.nodes,
        disconnected(c, e, at).members == c.members,
{
    if moment < at {
        retracting_keeps_the_past(c.edges, set![e], at, e, moment);
    } else {
        retracting_hides(c.edges, set![e], at, e, moment);
    }
}

} // verus!
