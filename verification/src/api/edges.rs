//! Edge endpoints: ingest an edge between two shared nodes, and retract one.
//!
//! An edge is named by its source, destination and type. Retraction is not erasure: the edge stops
//! reading and leaves the listing of its initiative, while a read of an earlier moment still finds
//! it. Both nodes stay.

use super::{accepts, answer, unknown, unknown_message, ApiError, Vocabulary, VocabularyV};
use crate::clock::{now_seconds, present, second_showed};
use crate::edges::{
    an_edge_goes_without_its_ends, clamp_weight, clamped, connected, disconnected, edge_id,
    unlink_at, upsert_edge_at, ONE_BITS,
};
use crate::model::{live, untouched, Contents, EdgeId};
use crate::store::Store;
use crate::text::{trim, trimmed};
use vstd::prelude::*;

verus! {

/// An edge pushed up from a local vault. Both ends must already be shared so that it resolves.
#[derive(Debug, PartialEq, Eq)]
pub struct EdgeIngestReq {
    pub src: String,
    pub dst: String,
    pub edge_type: String,
    /// Connection strength from zero to one, as the bits of its double. Posting an edge again with
    /// a new weight changes it.
    pub weight: i64,
}

/// The weight of an edge whose request leaves it out: full.
pub fn default_weight() -> (r: i64)
    ensures
        r == ONE_BITS,
{
    ONE_BITS
}

/// An edge as it was stored.
#[derive(Debug, PartialEq, Eq)]
pub struct EdgeView {
    pub src: String,
    pub dst: String,
    pub edge_type: String,
    /// The weight, as the bits of its double.
    pub weight: i64,
}

/// Which edge to retract.
#[derive(Debug, PartialEq, Eq)]
pub struct EdgeRetractReq {
    pub src: String,
    pub dst: String,
    pub edge_type: String,
}

/// Why a request that names an edge is refused, if it is.
pub open spec fn edge_refusal(vocab: VocabularyV, e: EdgeId) -> Option<Seq<char>> {
    if !vocab.edge_types.contains(e.edge_type) {
        Some(unknown_message("edge_type"@, e.edge_type))
    } else if trimmed(e.src).len() == 0 || trimmed(e.dst).len() == 0 {
        Some("src and dst must not be empty"@)
    } else {
        None
    }
}

/// Checks a request that names an edge.
pub fn check_edge(vocab: &Vocabulary, src: &str, dst: &str, edge_type: &str) -> (r: Result<
    (),
    ApiError,
>)
    ensures
        match r {
            Ok(()) => edge_refusal(vocab@, edge_id(src@, dst@, edge_type@)) is None,
            Err(ApiError::BadRequest(why)) => edge_refusal(
                vocab@,
                edge_id(src@, dst@, edge_type@),
            ) == Some(why@),
            Err(_) => false,
        },
{
    if !accepts(&vocab.edge_types, edge_type) {
        return Err(ApiError::BadRequest(unknown("edge_type", edge_type)));
    }
    if trim(src).is_empty() || trim(dst).is_empty() {
        return Err(ApiError::BadRequest("src and dst must not be empty".to_owned()));
    }
    Ok(())
}

/// How an ingest of an edge ends: with contents `c` before and `d` after.
pub open spec fn ingest_edge_outcome(
    c: Contents,
    d: Contents,
    vocab: VocabularyV,
    e: EdgeId,
    weight: int,
    at: int,
    r: Result<(u16, EdgeView), ApiError>,
) -> bool {
    match r {
        Ok((status, view)) => {
            &&& edge_refusal(vocab, e) is None
            &&& d == connected(c, e, weight, at)
            &&& status == 201
            &&& edge_id(view.src@, view.dst@, view.edge_type@) == e
            &&& view.weight == clamped(weight)
        },
        Err(ApiError::BadRequest(why)) => edge_refusal(vocab, e) == Some(why@) && d == c,
        Err(ApiError::Internal(_)) => edge_refusal(vocab, e) is None && d == c,
        Err(_) => false,
    }
}

/// Stores an edge at the moment `at`, or a new version of it, and answers 201 with what was
/// stored.
pub fn ingest_edge_at(store: &mut Store, vocab: &Vocabulary, req: EdgeIngestReq, at: i64) -> (r:
    Result<(u16, EdgeView), ApiError>)
    ensures
        final(store).settings() == old(store).settings(),
        ingest_edge_outcome(
            old(store).held(),
            final(store).held(),
            vocab@,
            edge_id(req.src@, req.dst@, req.edge_type@),
            req.weight as int,
            at as int,
            r,
        ),
{
    check_edge(vocab, req.src.as_str(), req.dst.as_str(), req.edge_type.as_str())?;
    match upsert_edge_at(
        store,
        req.src.as_str(),
        req.dst.as_str(),
        req.edge_type.as_str(),
        req.weight,
        at,
    ) {
        Ok(()) => {},
        Err(e) => {
            return Err(answer(e));
        },
    }
    Ok(
        (
            201,
            EdgeView {
                src: req.src,
                dst: req.dst,
                edge_type: req.edge_type,
                weight: clamp_weight(req.weight),
            },
        ),
    )
}

/// Stores an edge as [`ingest_edge_at`] does, at the present moment.
pub fn ingest_edge(store: &mut Store, vocab: &Vocabulary, req: EdgeIngestReq) -> (r: Result<
    (u16, EdgeView),
    ApiError,
>)
    ensures
        final(store).settings() == old(store).settings(),
        exists|at: int|
            0 <= at && second_showed(at) && #[trigger] ingest_edge_outcome(
                old(store).held(),
                final(store).held(),
                vocab@,
                edge_id(req.src@, req.dst@, req.edge_type@),
                req.weight as int,
                at,
                r,
            ),
{
    let at = now_seconds();
    ingest_edge_at(store, vocab, req, at)
}

/// How a retraction of an edge ends: with contents `c` before and `d` after.
pub open spec fn retract_edge_outcome(
    c: Contents,
    d: Contents,
    vocab: VocabularyV,
    e: EdgeId,
    at: int,
    r: Result<u16, ApiError>,
) -> bool {
    match r {
        Ok(status) => {
            &&& edge_refusal(vocab, e) is None
            &&& d == disconnected(c, e, at)
            &&& status == 204
        },
        Err(ApiError::BadRequest(why)) => edge_refusal(vocab, e) == Some(why@) && d == c,
        Err(ApiError::Internal(_)) => edge_refusal(vocab, e) is None && d == c,
        Err(_) => false,
    }
}

/// Retracts an edge at the moment `at` and answers 204, also where it is already gone: a caller
/// who tries again after a dropped connection is not told that their success was a failure.
pub fn retract_edge_at(store: &mut Store, vocab: &Vocabulary, req: &EdgeRetractReq, at: i64) -> (r:
    Result<u16, ApiError>)
    ensures
        final(store).settings() == old(store).settings(),
        retract_edge_outcome(
            old(store).held(),
            final(store).held(),
            vocab@,
            edge_id(req.src@, req.dst@, req.edge_type@),
            at as int,
            r,
        ),
{
    check_edge(vocab, req.src.as_str(), req.dst.as_str(), req.edge_type.as_str())?;
    match unlink_at(store, req.src.as_str(), req.dst.as_str(), req.edge_type.as_str(), at) {
        Ok(()) => Ok(204),
        Err(e) => Err(answer(e)),
    }
}

/// Retracts an edge as [`retract_edge_at`] does, at the present moment.
pub fn retract_edge(store: &mut Store, vocab: &Vocabulary, req: &EdgeRetractReq) -> (r: Result<
    u16,
    ApiError,
>)
    ensures
        final(store).settings() == old(store).settings(),
        exists|at: int|
            0 <= at && second_showed(at) && #[trigger] retract_edge_outcome(
                old(store).held(),
                final(store).held(),
                vocab@,
                edge_id(req.src@, req.dst@, req.edge_type@),
                at,
                r,
            ),
{
    let at = now_seconds();
    retract_edge_at(store, vocab, req, at)
}

/// Retracting is idempotent: once a retraction took an edge out, retracting it again changes
/// nothing; and retracting one that never read changes nothing.
pub proof fn edge_retraction_is_idempotent(c: Contents, e: EdgeId, at: int, later: int)
    requires
        at <= later,
        !c.edges.dom().contains((e, at, true)),
        untouched(c.edges, e, at, later),
    ensures
        !live(disconnected(c, e, at).edges, e, later),
        disconnected(disconnected(c, e, at), e, later) == disconnected(c, e, at),
        !live(c.edges, e, at) ==> disconnected(c, e, at) == c,
{
    an_edge_goes_without_its_ends(c, e, at, later);
    let d = disconnected(c, e, at);
    assert(disconnected(d, e, later).edges =~= d.edges);
    if !live(c.edges, e, at) {
        assert(d.edges =~= c.edges);
    }
}

} // verus!
