//! Laws of the REST surface: what is answered, what is stored, and what is refused.

use crate::api::docs::{
    closed_vocabulary, completed_outline, layers, published, OutlineV, BEARER, EDGES_TAG,
    HEALTH_TAG, INITIATIVES_TAG, NODES_TAG, TITLE,
};
use crate::api::edges::{ingest_edge_outcome, retract_edge_outcome, EdgeView};
use crate::api::nodes::{
    get_node_answer, ingest_node_outcome, is_layer, named_initiative, node_refusal,
    retract_node_outcome, Layer, NodeIngestReq, NodeView,
};
use crate::api::{answered, passes, ApiError, VocabularyV};
use crate::edges::{clamped, edge_id, linked};
use crate::model::{
    an_assertion_reads_back, reads_as, retracting_hides, retracting_keeps_the_past, untouched,
    Contents, EdgeId, EdgeV, NodeV,
};
use crate::nodes::{an_upsert_reads_back, NodeFull};
use crate::policy::{policy_of, SharePolicy};
use crate::store::StoreError;
use crate::substrate::{optional_text, texts_view, touching, NodeRecord};
use crate::text::trimmed;
use vstd::prelude::*;

verus! {

// ---- nodes -------------------------------------------------------------------

/// Whether a view shows a node as a request sent it: every field that was sent as it was sent, shared,
/// on the layer that was named or else on `warm`.
pub open spec fn shows_as_sent(view: NodeView, req: NodeIngestReq) -> bool {
    &&& view.id@ == req.id@
    &&& view.node_type@ == req.node_type@
    &&& view.tier@ == req.tier@
    &&& view.name@ == req.name@
    &&& optional_text(view.body) == optional_text(req.body)
    &&& texts_view(view.tags@) == texts_view(req.tags@)
    &&& view.visibility@ == "shared"@
    &&& view.layer@ == (if req.layer is Some && trimmed(req.layer->0@).len() > 0 {
        trimmed(req.layer->0@)
    } else {
        "warm"@
    })
    &&& req.properties is Some ==> optional_text(view.properties) == optional_text(req.properties)
}

/// After a successful ingest, the view answered and every later read, up to the next write under the
/// id, show the node as it was sent; properties that were left out are those held before. The node is
/// attached to the initiative it names.
pub proof fn an_ingested_node_is_shown_as_sent(
    c: Contents,
    d: Contents,
    vocab: VocabularyV,
    req: NodeIngestReq,
    now: int,
    at: int,
    status: u16,
    view: NodeView,
    later: int,
    read: Result<NodeView, ApiError>,
)
    requires
        ingest_node_outcome(c, d, vocab, req, now, at, Ok((status, view))),
        at <= now <= later,
        forall|t: int, asserted: bool| #[trigger]
            c.nodes.dom().contains((req.id@, t, asserted)) ==> t <= at || later < t,
        get_node_answer(d, req.id@, later, read),
    ensures
        status == 201,
        shows_as_sent(view, req),
        read matches Ok(seen) ==> shows_as_sent(seen, req) && optional_text(seen.properties)
            == optional_text(view.properties),
        read matches Err(e) ==> e is Internal,
        req.properties is None ==> optional_text(view.properties) == (match reads_as(
            c.nodes,
            req.id@,
            at,
        ) {
            Some(before) => before.properties,
            None => None,
        }),
        d.members.contains((trimmed(req.initiative->0@), req.id@)),
{
    let id = req.id@;
    assert(untouched(c.nodes, id, at, later));
    assert(untouched(c.nodes, id, at, now));
    let asked = crate::api::nodes::asked_for(req);
    an_upsert_reads_back(c, id, asked, Some(named_initiative(req)), at, now);
    an_upsert_reads_back(c, id, asked, Some(named_initiative(req)), at, later);
    assert(node_refusal(vocab, req) is None);
}

/// An ingest touches one node: no other one is written, no edge, no policy, and no membership but that
/// of the node in the initiative it names.
pub proof fn an_ingest_touches_one_node(
    c: Contents,
    d: Contents,
    vocab: VocabularyV,
    req: NodeIngestReq,
    now: int,
    at: int,
    r: Result<(u16, NodeView), ApiError>,
)
    requires
        ingest_node_outcome(c, d, vocab, req, now, at, r),
    ensures
        forall|k: (Seq<char>, int, bool)|
            k != (req.id@, at, true) ==> (#[trigger] d.nodes.dom().contains(k)
                <==> c.nodes.dom().contains(k)) && (c.nodes.dom().contains(k) ==> d.nodes[k]
                == c.nodes[k]),
        forall|p: (Seq<char>, Seq<char>)|
            p != (trimmed(req.initiative->0@), req.id@) ==> (#[trigger] d.members.contains(p)
                <==> c.members.contains(p)),
        forall|p: (Seq<char>, Seq<char>)| c.members.contains(p) ==> #[trigger] d.members.contains(p),
        d.edges == c.edges,
        d.edge_members == c.edge_members,
        d.policies == c.policies,
        d.audit == c.audit,
{
}

/// A layer is one of five.
pub proof fn there_are_five_layers(s: Seq<char>)
    ensures
        is_layer(s) <==> s == "core"@ || s == "hot"@ || s == "warm"@ || s == "cold"@ || s
            == "frozen"@,
{
    assert(Layer::Core.text() == "core"@);
    assert(Layer::Hot.text() == "hot"@);
    assert(Layer::Warm.text() == "warm"@);
    assert(Layer::Cold.text() == "cold"@);
    assert(Layer::Frozen.text() == "frozen"@);
}

/// Why a node may not be ingested, if it may not: the first of its faults, in the order in which the
/// fields are looked at.
pub open spec fn fault(vocab: VocabularyV, req: NodeIngestReq) -> Option<Seq<char>> {
    let layer = if req.layer is Some {
        trimmed(req.layer->0@)
    } else {
        Seq::empty()
    };
    if !vocab.node_types.contains(req.node_type@) {
        Some("unknown node_type `"@ + req.node_type@ + "`"@)
    } else if !vocab.tiers.contains(req.tier@) {
        Some("unknown tier `"@ + req.tier@ + "`"@)
    } else if trimmed(req.name@).len() == 0 {
        Some("name must not be empty"@)
    } else if req.initiative is None || trimmed(req.initiative->0@).len() == 0 {
        Some(
            "initiative is required \u{2014} a node without one is invisible to `cloud_recall` and to the initiative listings, which is never what a share intends"@,
        )
    } else if layer.len() > 0 && layer != "core"@ && layer != "hot"@ && layer != "warm"@ && layer
        != "cold"@ && layer != "frozen"@ {
        Some("unknown layer `"@ + layer + "`"@)
    } else {
        None
    }
}

proof fn faults_are_refused(vocab: VocabularyV, req: NodeIngestReq)
    ensures
        node_refusal(vocab, req) == fault(vocab, req),
{
    if let Some(l) = req.layer {
        there_are_five_layers(trimmed(l@));
    }
    reveal_strlit("unknown node_type `");
    reveal_strlit("unknown tier `");
    reveal_strlit("unknown layer `");
    reveal_strlit("unknown ");
    reveal_strlit("node_type");
    reveal_strlit("tier");
    reveal_strlit("layer");
    reveal_strlit(" `");
    assert("unknown "@ + "node_type"@ + " `"@ =~= "unknown node_type `"@);
    assert("unknown "@ + "tier"@ + " `"@ =~= "unknown tier `"@);
    assert("unknown "@ + "layer"@ + " `"@ =~= "unknown layer `"@);
}

/// A node is refused exactly for a fault in its request, with 400 and that fault, and nothing is
/// stored then. A request without a fault fails only with the database, or where something that was
/// stamped later hides the node.
pub proof fn a_node_is_refused_for_its_fault(
    c: Contents,
    d: Contents,
    vocab: VocabularyV,
    req: NodeIngestReq,
    now: int,
    at: int,
    r: Result<(u16, NodeView), ApiError>,
)
    requires
        ingest_node_outcome(c, d, vocab, req, now, at, r),
    ensures
        fault(vocab, req) matches Some(why) ==> d == c && (r matches Err(e) && e is BadRequest
            && e.code() == 400 && e.reason() == why),
        fault(vocab, req) is None ==> (r matches Err(e) ==> e is Internal || (e is NotFound
            && reads_as(d.nodes, req.id@, now) is None)),
        fault(vocab, req) is None && at <= now && (forall|t: int, asserted: bool| #[trigger]
            c.nodes.dom().contains((req.id@, t, asserted)) ==> t <= at || now < t) ==> (r matches
            Err(e) ==> e is Internal),
        r is Ok ==> fault(vocab, req) is None,
{
    faults_are_refused(vocab, req);
    if at <= now && (forall|t: int, asserted: bool| #[trigger]
        c.nodes.dom().contains((req.id@, t, asserted)) ==> t <= at || now < t) {
        assert(untouched(c.nodes, req.id@, at, now));
    }
}

/// A node is found exactly if it reads, and is shown as it reads, field by field.
pub proof fn a_node_is_shown_as_it_reads(
    c: Contents,
    id: Seq<char>,
    at: int,
    r: Result<NodeView, ApiError>,
)
    requires
        get_node_answer(c, id, at, r),
    ensures
        r matches Ok(view) ==> {
            &&& reads_as(c.nodes, id, at) is Some
            &&& view.id@ == id
            &&& reads_as(c.nodes, id, at) == Some(
                NodeV {
                    node_type: view.node_type@,
                    tier: view.tier@,
                    name: view.name@,
                    body: optional_text(view.body),
                    tags: texts_view(view.tags@),
                    properties: optional_text(view.properties),
                    visibility: view.visibility@,
                    layer: view.layer@,
                },
            )
        },
        reads_as(c.nodes, id, at) is None ==> (r matches Err(e) && (e is NotFound || e is Internal)),
        r matches Err(e) ==> e is Internal || (e is NotFound && reads_as(c.nodes, id, at) is None),
{
}

/// A retracted node that was last written before the second of the retraction is found no more, from
/// then on; what is already gone is answered with 204 too, and left as it is.
pub proof fn a_retracted_node_is_found_no_more(
    c: Contents,
    d: Contents,
    id: Seq<char>,
    now: int,
    at: int,
    status: u16,
    later: int,
    read: Result<NodeView, ApiError>,
)
    requires
        retract_node_outcome(c, d, id, now, at, Ok(status)),
        at <= now <= later,
        forall|t: int, asserted: bool| #[trigger]
            c.nodes.dom().contains((id, t, asserted)) ==> t < at,
        get_node_answer(d, id, later, read),
    ensures
        status == 204,
        read is Err,
        reads_as(d.nodes, id, later) is None,
        reads_as(c.nodes, id, now) is None ==> d == c,
{
    assert(untouched(c.nodes, id, at, later));
    if reads_as(c.nodes, id, now) is Some {
        retracting_hides(c.nodes, set![id], at, id, later);
    } else if crate::model::live(c.nodes, id, later) {
        let s = crate::model::stamp_at(c.nodes, id, later);
        assert(crate::model::decides(c.nodes, id, s, later));
        assert(c.nodes.dom().contains((id, s, true)));
        assert(crate::model::decides(c.nodes, id, s, now));
        assert(crate::model::live(c.nodes, id, now));
    }
}

/// A retracted node takes its edges with it: one from or to it that was last written before the second
/// of the retraction reads no more from then on.
pub proof fn a_retracted_node_takes_its_edges(
    c: Contents,
    d: Contents,
    id: Seq<char>,
    now: int,
    at: int,
    status: u16,
    edge: EdgeId,
    later: int,
)
    requires
        retract_node_outcome(c, d, id, now, at, Ok(status)),
        reads_as(c.nodes, id, now) is Some,
        edge.src == id || edge.dst == id,
        forall|t: int, asserted: bool| #[trigger]
            c.edges.dom().contains((edge, t, asserted)) ==> t < at,
        at <= later,
    ensures
        reads_as(d.edges, edge, later) is None,
{
    assert(untouched(c.edges, edge, at, later));
    retracting_hides(c.edges, touching(set![id]), at, edge, later);
}

/// A retraction takes one node and its edges: every other node, and every edge between others, reads
/// as before at every moment; so does the node itself before the second of the retraction, for no
/// version is erased. Memberships and policies stay.
pub proof fn a_retraction_takes_one_node(
    c: Contents,
    d: Contents,
    id: Seq<char>,
    now: int,
    at: int,
    r: Result<u16, ApiError>,
    other: Seq<char>,
    edge: EdgeId,
    moment: int,
)
    requires
        retract_node_outcome(c, d, id, now, at, r),
        other != id,
        edge.src != id,
        edge.dst != id,
    ensures
        reads_as(d.nodes, other, moment) == reads_as(c.nodes, other, moment),
        reads_as(d.edges, edge, moment) == reads_as(c.edges, edge, moment),
        moment < at ==> reads_as(d.nodes, id, moment) == reads_as(c.nodes, id, moment),
        forall|t: int|
            c.nodes.dom().contains((id, t, true)) ==> #[trigger] d.nodes.dom().contains(
                (id, t, true),
            ) && d.nodes[(id, t, true)] == c.nodes[(id, t, true)],
        d.members == c.members,
        d.edge_members == c.edge_members,
        d.policies == c.policies,
        d.audit == c.audit,
        r matches Err(e) ==> e is Internal,
{
    retracting_keeps_the_past(c.nodes, set![id], at, other, moment);
    retracting_keeps_the_past(c.edges, touching(set![id]), at, edge, moment);
    if moment < at {
        retracting_keeps_the_past(c.nodes, set![id], at, id, moment);
    }
}

/// A record stands for the version with its fields, and so does a whole node.
pub proof fn records_stand_for_their_fields(record: NodeRecord, full: NodeFull)
    ensures
        record@ == (NodeV {
            node_type: record.node_type@,
            tier: record.tier@,
            name: record.name@,
            body: optional_text(record.body),
            tags: texts_view(record.tags@),
            properties: optional_text(record.properties),
            visibility: record.visibility@,
            layer: record.layer@,
        }),
        full.version() == (NodeV {
            node_type: full.node_type@,
            tier: full.tier@,
            name: full.name@,
            body: optional_text(full.body),
            tags: texts_view(full.tags@),
            properties: optional_text(full.properties),
            visibility: full.visibility@,
            layer: full.layer@,
        }),
{
}

// ---- edges -------------------------------------------------------------------

/// An edge is named by its source, its destination and its type, in these places.
pub proof fn an_edge_is_named_by_its_ends(src: Seq<char>, dst: Seq<char>, edge_type: Seq<char>)
    ensures
        edge_id(src, dst, edge_type).src == src,
        edge_id(src, dst, edge_type).dst == dst,
        edge_id(src, dst, edge_type).edge_type == edge_type,
{
}

/// A weight is held to the range from zero to one, on the bits of doubles: those of zero to one stay,
/// those of every greater one up to infinity become those of one, those below zero become zero, and
/// what is no number stays what it is.
pub proof fn a_weight_is_held_between_zero_and_one(bits: int)
    ensures
        0 <= bits <= 4607182418800017408 ==> clamped(bits) == bits,
        4607182418800017408 < bits <= 9218868437227405312 ==> clamped(bits) == 4607182418800017408,
        9218868437227405312 < bits <= i64::MAX ==> clamped(bits) == bits,
        i64::MIN < bits <= -4503599627370496 ==> clamped(bits) == 0,
        -4503599627370496 < bits < 0 ==> clamped(bits) == bits,
        bits == i64::MIN ==> clamped(bits) == bits,
{
}

/// An ingested edge is answered with 201 and as it was sent, its weight held to its range, and reads
/// so from then on, up to its next write; nothing else changes.
pub proof fn an_ingested_edge_is_shown_as_sent(
    c: Contents,
    d: Contents,
    vocab: VocabularyV,
    src: Seq<char>,
    dst: Seq<char>,
    edge_type: Seq<char>,
    weight: int,
    at: int,
    status: u16,
    view: EdgeView,
    later: int,
)
    requires
        ingest_edge_outcome(
            c,
            d,
            vocab,
            EdgeId { src, dst, edge_type },
            weight,
            at,
            Ok((status, view)),
        ),
        at <= later,
        forall|t: int, asserted: bool| #[trigger]
            c.edges.dom().contains((EdgeId { src, dst, edge_type }, t, asserted)) ==> t <= at
                || later < t,
    ensures
        status == 201,
        view.src@ == src,
        view.dst@ == dst,
        view.edge_type@ == edge_type,
        view.weight == clamped(weight),
        reads_as(d.edges, EdgeId { src, dst, edge_type }, later) == Some(
            EdgeV { weight: clamped(weight), dst_store: "local"@ },
        ),
        forall|e: EdgeId, moment: int|
            e != (EdgeId { src, dst, edge_type }) || moment < at ==> #[trigger] reads_as(
                d.edges,
                e,
                moment,
            ) == reads_as(c.edges, e, moment),
        d.nodes == c.nodes,
        d.members == c.members,
        d.edge_members == c.edge_members,
        d.policies == c.policies,
        d.audit == c.audit,
{
    let e = EdgeId { src, dst, edge_type };
    let v = EdgeV { weight: clamped(weight), dst_store: "local"@ };
    assert(untouched(c.edges, e, at, later));
    an_assertion_reads_back(c.edges, e, at, v, later);
    assert forall|other: EdgeId, moment: int| other != e || moment < at implies #[trigger] reads_as(
        d.edges,
        other,
        moment,
    ) == reads_as(c.edges, other, moment) by {
        crate::model::a_write_keeps_the_past(c.edges, e, at, true, v, other, moment);
    }
}

/// Why a request may not name an edge, if it may not.
pub open spec fn edge_fault(
    vocab: VocabularyV,
    src: Seq<char>,
    dst: Seq<char>,
    edge_type: Seq<char>,
) -> Option<Seq<char>> {
    if !vocab.edge_types.contains(edge_type) {
        Some("unknown edge_type `"@ + edge_type + "`"@)
    } else if trimmed(src).len() == 0 || trimmed(dst).len() == 0 {
        Some("src and dst must not be empty"@)
    } else {
        None
    }
}

/// An edge is refused exactly for a fault in its request, with 400 and that fault, whether it is to be
/// stored or retracted, and nothing changes then.
pub proof fn an_edge_is_refused_for_its_fault(
    c: Contents,
    d: Contents,
    vocab: VocabularyV,
    src: Seq<char>,
    dst: Seq<char>,
    edge_type: Seq<char>,
    weight: int,
    at: int,
    stored: Result<(u16, EdgeView), ApiError>,
    retracted: Result<u16, ApiError>,
)
    ensures
        ({
            let e = EdgeId { src, dst, edge_type };
            let why = edge_fault(vocab, src, dst, edge_type);
            &&& ingest_edge_outcome(c, d, vocab, e, weight, at, stored) ==> {
                &&& why is Some ==> d == c && (stored matches Err(x) && x is BadRequest && x.code()
                    == 400 && x.reason() == why->0)
                &&& why is None ==> (stored matches Err(x) ==> x is Internal && d == c)
            }
            &&& retract_edge_outcome(c, d, vocab, e, at, retracted) ==> {
                &&& why is Some ==> d == c && (retracted matches Err(x) && x is BadRequest
                    && x.code() == 400 && x.reason() == why->0)
                &&& why is None ==> (retracted matches Err(x) ==> x is Internal && d == c)
            }
        }),
{
    reveal_strlit("unknown edge_type `");
    reveal_strlit("unknown ");
    reveal_strlit("edge_type");
    reveal_strlit(" `");
    assert("unknown "@ + "edge_type"@ + " `"@ =~= "unknown edge_type `"@);
}

/// A retracted edge that was last written before the second of the retraction reads no more, from then
/// on; before that it reads as it did. It is answered with 204, also where it is already gone. No node
/// and no other edge changes.
pub proof fn a_retracted_edge_reads_no_more(
    c: Contents,
    d: Contents,
    vocab: VocabularyV,
    e: EdgeId,
    at: int,
    status: u16,
    other: EdgeId,
    moment: int,
)
    requires
        retract_edge_outcome(c, d, vocab, e, at, Ok(status)),
        forall|t: int, asserted: bool| #[trigger]
            c.edges.dom().contains((e, t, asserted)) ==> t < at,
        other != e,
    ensures
        status == 204,
        at <= moment ==> reads_as(d.edges, e, moment) is None,
        moment < at ==> reads_as(d.edges, e, moment) == reads_as(c.edges, e, moment),
        reads_as(d.edges, other, moment) == reads_as(c.edges, other, moment),
        d.nodes == c.nodes,
        d.members == c.members,
        d.edge_members == c.edge_members,
        d.policies == c.policies,
        d.audit == c.audit,
{
    if at <= moment {
        assert(untouched(c.edges, e, at, moment));
        retracting_hides(c.edges, set![e], at, e, moment);
    } else {
        retracting_keeps_the_past(c.edges, set![e], at, e, moment);
    }
    retracting_keeps_the_past(c.edges, set![e], at, other, moment);
}

/// Two nodes that are linked have an edge of full weight between them, from then on up to its next
/// write; where an initiative is in scope, the edge is attached to it under its source, type and
/// destination, parted by bars.
pub proof fn a_link_is_an_edge_of_full_weight(
    c: Contents,
    scope: Option<Seq<char>>,
    e: EdgeId,
    at: int,
    later: int,
)
    requires
        at <= later,
        forall|t: int, asserted: bool| #[trigger]
            c.edges.dom().contains((e, t, asserted)) ==> t <= at || later < t,
    ensures
        ({
            let d = linked(c, scope, e, at);
            &&& reads_as(d.edges, e, later) == Some(
                EdgeV { weight: 4607182418800017408, dst_store: "local"@ },
            )
            &&& forall|i: Seq<char>, key: Seq<char>| #[trigger]
                d.edge_members.contains((i, key)) <==> c.edge_members.contains((i, key)) || (scope
                    == Some(i) && key == e.src + "|"@ + e.edge_type + "|"@ + e.dst)
            &&& d.nodes == c.nodes
            &&& d.members == c.members
            &&& d.policies == c.policies
            &&& d.audit == c.audit
        }),
{
    let v = EdgeV { weight: 4607182418800017408, dst_store: "local"@ };
    assert(untouched(c.edges, e, at, later));
    an_assertion_reads_back(c.edges, e, at, v, later);
}

// ---- policies ----------------------------------------------------------------

/// An initiative is open to the team exactly if its policy is held as `team`, and private where none
/// is held; the two policies are held under their names.
pub proof fn an_initiative_is_private_unless_opened(c: Contents, name: Seq<char>)
    ensures
        SharePolicy::Private.text() == "private"@,
        SharePolicy::Team.text() == "team"@,
        policy_of(c, name) == SharePolicy::Team <==> c.policies.dom().contains(name)
            && c.policies[name] == "team"@,
        !c.policies.dom().contains(name) ==> policy_of(c, name) == SharePolicy::Private,
{
}

/// A policy that is set is the one that is read, and no other name's changes.
pub proof fn a_policy_is_that_of_one_name(
    c: Contents,
    name: Seq<char>,
    policy: SharePolicy,
    other: Seq<char>,
)
    ensures
        ({
            let d = Contents { policies: c.policies.insert(name, policy.text()), ..c };
            &&& policy_of(d, name) == policy
            &&& other != name ==> policy_of(d, other) == policy_of(c, other)
        }),
{
    crate::policy::a_policy_reads_back(c, name, policy);
}

// ---- answers -----------------------------------------------------------------

/// Each failure has its status: 400 for a bad request, with what to change; 401 without the token; 404
/// for what is not there; 500 where the database failed, without its words.
pub proof fn each_failure_has_its_status(e: ApiError)
    ensures
        e matches ApiError::BadRequest(why) ==> e.code() == 400 && e.reason() == why@,
        e is Unauthorized ==> e.code() == 401 && e.reason() == "missing or invalid bearer token"@,
        e is NotFound ==> e.code() == 404 && e.reason() == "not found"@,
        e is Internal ==> e.code() == 500 && e.reason() == "internal error"@,
{
}

/// What the store refuses as invalid is a bad request, with the store's words; what it does not find
/// is not found; a failure of the database stays inside.
pub proof fn failures_of_the_store_are_answered_in_kind(e: StoreError)
    ensures
        e matches StoreError::Invalid(why) ==> answered(e).code() == 400 && answered(e).reason()
            == why@,
        e is NotFound ==> answered(e).code() == 404 && answered(e).reason() == "not found"@,
        e is Substrate ==> answered(e).code() == 500 && answered(e).reason() == "internal error"@,
{
}

/// Where a token is set, only a request that bears it passes; where none is set, every one does.
pub proof fn only_the_bearer_passes(token: Seq<char>, header: Option<Seq<char>>)
    ensures
        token.len() == 0 ==> passes(token, header),
        token.len() > 0 && header is None ==> !passes(token, header),
        token.len() > 0 ==> (passes(token, header) <==> header == Some("Bearer "@ + token)),
{
}

// ---- the published document ----------------------------------------------------

/// The endpoints come in four groups, and the scheme that guards them is a bearer token.
pub proof fn the_groups_of_endpoints_have_their_names()
    ensures
        HEALTH_TAG@ == "health"@,
        NODES_TAG@ == "nodes"@,
        EDGES_TAG@ == "edges"@,
        INITIATIVES_TAG@ == "initiatives"@,
        BEARER@ == "bearer"@,
        TITLE@ == "kaeru-cloud"@,
{
}

/// A completed document has a bearer scheme, and every scheme it had.
pub proof fn a_completed_document_has_its_scheme(vocab: VocabularyV, o: OutlineV)
    ensures
        ({
            let done = completed_outline(vocab, o);
            &&& done.schemes.contains("bearer"@)
            &&& forall|i: int| 0 <= i < o.schemes.len() ==> #[trigger] done.schemes[i] == o.schemes[i]
            &&& forall|i: int|
                o.schemes.len() <= i < done.schemes.len() ==> #[trigger] done.schemes[i]
                    == "bearer"@ && !o.schemes.contains("bearer"@)
            &&& done.schemes.len() <= o.schemes.len() + 1
            &&& done.title == o.title
            &&& done.description == o.description
            &&& done.tags == o.tags
            &&& done.fields.len() == o.fields.len()
        }),
{
    let done = completed_outline(vocab, o);
    if !o.schemes.contains("bearer"@) {
        assert(done.schemes[o.schemes.len() as int] == "bearer"@);
    }
}

/// Whether the values published for a field are those of a list, in its order, and null after them if
/// the field may be left out.
pub open spec fn lists_values(
    allowed: Option<Seq<Option<Seq<char>>>>,
    values: Seq<Seq<char>>,
    nullable: bool,
) -> bool {
    &&& allowed is Some
    &&& allowed->0.len() == values.len() + (if nullable {
        1int
    } else {
        0
    })
    &&& forall|i: int| 0 <= i < values.len() ==> #[trigger] allowed->0[i] == Some(values[i])
    &&& nullable ==> allowed->0[values.len() as int] is None
}

/// The closed fields of a completed document list the values by which requests are checked: node
/// types, tiers and layers of a node, of which the layer may be null, and edge types of an edge.
/// Every other field is as it was.
pub proof fn the_closed_fields_list_what_is_accepted(vocab: VocabularyV, o: OutlineV, i: int)
    requires
        0 <= i < o.fields.len(),
    ensures
        ({
            let (was, f) = (o.fields[i], completed_outline(vocab, o).fields[i]);
            &&& f.schema == was.schema
            &&& f.field == was.field
            &&& if was.schema == "NodeIngestReq"@ && was.field == "node_type"@ {
                lists_values(f.allowed, vocab.node_types, false)
            } else if was.schema == "NodeIngestReq"@ && was.field == "tier"@ {
                lists_values(f.allowed, vocab.tiers, false)
            } else if was.schema == "NodeIngestReq"@ && was.field == "layer"@ {
                lists_values(
                    f.allowed,
                    seq!["core"@, "hot"@, "warm"@, "cold"@, "frozen"@],
                    true,
                )
            } else if was.schema == "EdgeIngestReq"@ && was.field == "edge_type"@ {
                lists_values(f.allowed, vocab.edge_types, false)
            } else if was.schema == "EdgeRetractReq"@ && was.field == "edge_type"@ {
                lists_values(f.allowed, vocab.edge_types, false)
            } else {
                f.allowed == was.allowed
            }
        }),
{
    let was = o.fields[i];
    let f = completed_outline(vocab, o).fields[i];
    if let Some((values, nullable)) = closed_vocabulary(vocab, was.schema, was.field) {
        assert(f.allowed == Some(published(values, nullable)));
        assert forall|k: int| 0 <= k < values.len() implies #[trigger] published(
            values,
            nullable,
        )[k] == Some(values[k]) by {}
    }
    assert(layers() =~= seq!["core"@, "hot"@, "warm"@, "cold"@, "frozen"@]);
}

} // verus!
