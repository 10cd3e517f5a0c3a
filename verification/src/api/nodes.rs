//! Node endpoints: ingest a shared node, read it, retract it.
//!
//! The id of a node is preserved from the local vault it comes from. Ingesting is an upsert: the
//! same id again writes a new version under it. Retracting is not erasing: the node stops reading,
//! while a read of an earlier moment still finds it.

use super::{accepts, answer, unknown, unknown_message, ApiError, Vocabulary, VocabularyV};
use crate::clock::{clock_showed, present, second_of, stamp_of};
use crate::model::{decides, live, reads_as, stamp_at, untouched, Contents, NodeV};
use crate::nodes::{
    an_upsert_reads_back, completed, forget_at, forgetting_hides, forgotten, read_node_full_at,
    upsert_node_at, upserted, written, NodeFull,
};
use crate::store::{Store, StoreError};
use crate::substrate::{optional_text, texts_view, NodeRecord};
use crate::text::{same, trim, trimmed};
use vstd::prelude::*;

verus! {

// ---- layers ------------------------------------------------------------------------

/// A memory layer. It travels with a node so that recall priority survives sharing.
#[derive(Debug, Clone, Copy, PartialEq, Eq, Structural)]
pub enum Layer {
    Core,
    Hot,
    Warm,
    Cold,
    Frozen,
}

impl Layer {
    /// The text of a layer.
    pub open spec fn text(&self) -> Seq<char> {
        match *self {
            Layer::Core => "core"@,
            Layer::Hot => "hot"@,
            Layer::Warm => "warm"@,
            Layer::Cold => "cold"@,
            Layer::Frozen => "frozen"@,
        }
    }

    /// The text of a layer.
    pub fn as_str(&self) -> (r: &'static str)
        ensures
            r@ == self.text(),
    {
        match self {
            Layer::Core => "core",
            Layer::Hot => "hot",
            Layer::Warm => "warm",
            Layer::Cold => "cold",
            Layer::Frozen => "frozen",
        }
    }

    /// The layer with a text.
    pub fn parse(s: &str) -> (r: Option<Layer>)
        ensures
            r matches Some(l) ==> l.text() == s@,
            r is None ==> forall|l: Layer| (#[trigger] l.text()) != s@,
    {
        if same(s, "core") {
            Some(Layer::Core)
        } else if same(s, "hot") {
            Some(Layer::Hot)
        } else if same(s, "warm") {
            Some(Layer::Warm)
        } else if same(s, "cold") {
            Some(Layer::Cold)
        } else if same(s, "frozen") {
            Some(Layer::Frozen)
        } else {
            None
        }
    }
}

impl Default for Layer {
    fn default() -> (r: Self)
        ensures
            r == Layer::Warm,
    {
        Layer::Warm
    }
}

/// Whether a text is that of a layer.
pub open spec fn is_layer(s: Seq<char>) -> bool {
    exists|l: Layer| (#[trigger] l.text()) == s
}

// ---- requests and views --------------------------------------------------------------

/// A node being pushed up from a local vault.
#[derive(Debug, PartialEq, Eq)]
pub struct NodeIngestReq {
    pub id: String,
    pub node_type: String,
    pub tier: String,
    pub name: String,
    pub body: Option<String>,
    pub tags: Vec<String>,
    /// Initiative this node belongs to: the shared scope on both sides.
    pub initiative: Option<String>,
    /// Memory layer (`core`/`hot`/`warm`/`cold`/`frozen`). Defaults to `warm`.
    pub layer: Option<String>,
    /// The node's properties, as JSON text: a reference's URL, a board's status registry. Where
    /// they are left out, what is already held is kept rather than cleared.
    pub properties: Option<String>,
}

/// Full node view returned to the caller: nothing is cut, so a puller can materialise the node
/// locally verbatim.
#[derive(Debug, PartialEq, Eq)]
pub struct NodeView {
    pub id: String,
    pub node_type: String,
    pub tier: String,
    pub name: String,
    pub body: Option<String>,
    pub tags: Vec<String>,
    pub visibility: String,
    pub layer: String,
    pub properties: Option<String>,
}

impl NodeView {
    /// The version that this shows.
    pub open spec fn version(&self) -> NodeV {
        NodeV {
            node_type: self.node_type@,
            tier: self.tier@,
            name: self.name@,
            body: optional_text(self.body),
            tags: texts_view(self.tags@),
            properties: optional_text(self.properties),
            visibility: self.visibility@,
            layer: self.layer@,
        }
    }
}

/// The view of a whole node.
pub fn full_to_view(full: NodeFull) -> (r: NodeView)
    ensures
        r.id@ == full.id@,
        r.version() == full.version(),
{
    NodeView {
        id: full.id,
        node_type: full.node_type,
        tier: full.tier,
        name: full.name,
        body: full.body,
        tags: full.tags,
        visibility: full.visibility,
        layer: full.layer,
        properties: full.properties,
    }
}

// ---- ingest --------------------------------------------------------------------------

/// Why a node without an initiative is refused.
pub const INITIATIVE_REQUIRED: &'static str =
    "initiative is required \u{2014} a node without one is invisible to `cloud_recall` and to the initiative listings, which is never what a share intends";

/// The initiative that a request names, trimmed.
pub open spec fn named_initiative(req: NodeIngestReq) -> Seq<char> {
    match req.initiative {
        Some(i) => trimmed(i@),
        None => Seq::empty(),
    }
}

/// The layer that a request names, trimmed; none, where it names a blank one.
pub open spec fn named_layer(req: NodeIngestReq) -> Option<Seq<char>> {
    match req.layer {
        Some(l) => if trimmed(l@).len() > 0 {
            Some(trimmed(l@))
        } else {
            None
        },
        None => None,
    }
}

/// Why a request to ingest a node is refused, if it is.
pub open spec fn node_refusal(vocab: VocabularyV, req: NodeIngestReq) -> Option<Seq<char>> {
    if !vocab.node_types.contains(req.node_type@) {
        Some(unknown_message("node_type"@, req.node_type@))
    } else if !vocab.tiers.contains(req.tier@) {
        Some(unknown_message("tier"@, req.tier@))
    } else if trimmed(req.name@).len() == 0 {
        Some("name must not be empty"@)
    } else if named_initiative(req).len() == 0 {
        Some(INITIATIVE_REQUIRED@)
    } else {
        match named_layer(req) {
            Some(l) => if is_layer(l) {
                None
            } else {
                Some(unknown_message("layer"@, l))
            },
            None => None,
        }
    }
}

/// The node version that a request asks for. A node living in the cloud is shared by definition.
pub open spec fn asked_for(req: NodeIngestReq) -> NodeV {
    NodeV {
        node_type: req.node_type@,
        tier: req.tier@,
        name: req.name@,
        body: optional_text(req.body),
        tags: texts_view(req.tags@),
        properties: optional_text(req.properties),
        visibility: "shared"@,
        layer: match named_layer(req) {
            Some(l) => l,
            None => "warm"@,
        },
    }
}

/// The layer of a request.
fn chosen_layer(layer: &Option<String>) -> (r: Result<Layer, ApiError>)
    ensures
        ({
            let named = match *layer {
                Some(l) => if trimmed(l@).len() > 0 {
                    Some(trimmed(l@))
                } else {
                    None
                },
                None => None,
            };
            match r {
                Ok(l) => l.text() == (match named {
                    Some(n) => n,
                    None => "warm"@,
                }) && (named matches Some(n) ==> is_layer(n)),
                Err(ApiError::BadRequest(why)) => named matches Some(n) && !is_layer(n) && why@
                    == unknown_message("layer"@, n),
                Err(_) => false,
            }
        }),
{
    match layer {
        Some(given) => {
            let l = trim(given.as_str());
            if l.is_empty() {
                return Ok(Layer::default());
            }
            match Layer::parse(l) {
                Some(found) => Ok(found),
                None => Err(ApiError::BadRequest(unknown("layer", l))),
            }
        },
        None => Ok(Layer::default()),
    }
}

/// Checks a request to ingest a node, up to its layer.
fn check_node(vocab: &Vocabulary, req: &NodeIngestReq) -> (r: Result<String, ApiError>)
    ensures
        ({
            let fine = vocab@.node_types.contains(req.node_type@) && vocab@.tiers.contains(
                req.tier@,
            ) && trimmed(req.name@).len() > 0 && named_initiative(*req).len() > 0;
            match r {
                Ok(init) => fine && init@ == named_initiative(*req),
                Err(ApiError::BadRequest(why)) => !fine && node_refusal(vocab@, *req) == Some(why@),
                Err(_) => false,
            }
        }),
{
    if !accepts(&vocab.node_types, req.node_type.as_str()) {
        return Err(ApiError::BadRequest(unknown("node_type", req.node_type.as_str())));
    }
    if !accepts(&vocab.tiers, req.tier.as_str()) {
        return Err(ApiError::BadRequest(unknown("tier", req.tier.as_str())));
    }
    if trim(req.name.as_str()).is_empty() {
        return Err(ApiError::BadRequest("name must not be empty".to_owned()));
    }
    let initiative = match &req.initiative {
        Some(i) => trim(i.as_str()).to_owned(),
        None => String::new(),
    };
    assert(req.initiative is None ==> initiative@ =~= named_initiative(*req));
    if initiative.as_str().is_empty() {
        return Err(ApiError::BadRequest(INITIATIVE_REQUIRED.to_owned()));
    }
    Ok(initiative)
}

/// How an ingest of a node ends: with contents `c` before and `d` after. The version is stamped `at`,
/// and the answer is what the node reads as at the moment `now`: what was written, unless something
/// stamped later is there.
///
/// A failure of the database may leave the version written and the node unattached, or all done
/// and only the answer missing.
pub open spec fn ingest_node_outcome(
    c: Contents,
    d: Contents,
    vocab: VocabularyV,
    req: NodeIngestReq,
    now: int,
    at: int,
    r: Result<(u16, NodeView), ApiError>,
) -> bool {
    let done = upserted(c, req.id@, asked_for(req), Some(named_initiative(req)), at);
    match r {
        Ok((status, view)) => {
            &&& node_refusal(vocab, req) is None
            &&& d == done
            &&& status == 201
            &&& view.id@ == req.id@
            &&& reads_as(done.nodes, req.id@, now) == Some(view.version())
            &&& at <= now && untouched(c.nodes, req.id@, at, now) ==> view.version() == completed(
                asked_for(req),
                reads_as(c.nodes, req.id@, at),
            )
        },
        Err(ApiError::BadRequest(why)) => node_refusal(vocab, req) == Some(why@) && d == c,
        Err(ApiError::NotFound) => {
            &&& node_refusal(vocab, req) is None
            &&& d == done
            &&& reads_as(done.nodes, req.id@, now) is None
            &&& !(at <= now && untouched(c.nodes, req.id@, at, now))
        },
        Err(ApiError::Internal(_)) => {
            &&& node_refusal(vocab, req) is None
            &&& d == c || d == written(c, req.id@, asked_for(req), at) || d == done
        },
        Err(ApiError::Unauthorized) => false,
    }
}

/// Stores a node at the moment `at`, or a new version of it, under the initiative it names, and
/// answers 201 with the node as the cloud holds it at the moment `now`.
///
/// A node without an initiative would be accepted and then invisible to everything that walks
/// initiatives, so it is refused.
pub fn ingest_node_at(
    store: &mut Store,
    vocab: &Vocabulary,
    req: NodeIngestReq,
    now: i64,
    at: i64,
) -> (r: Result<(u16, NodeView), ApiError>)
    ensures
        final(store).settings() == old(store).settings(),
        ingest_node_outcome(
            old(store).held(),
            final(store).held(),
            vocab@,
            req,
            now as int,
            at as int,
            r,
        ),
{
    let ghost c = store.held();
    let ghost asked = asked_for(req);
    let ghost init = named_initiative(req);
    let initiative = check_node(vocab, &req)?;
    let layer = chosen_layer(&req.layer)?;
    assert(node_refusal(vocab@, req) is None);
    let id = req.id;
    let record = NodeRecord {
        node_type: req.node_type,
        tier: req.tier,
        name: req.name,
        body: req.body,
        tags: req.tags,
        properties: req.properties,
        visibility: "shared".to_owned(),
        layer: layer.as_str().to_owned(),
    };
    assert(record@ == asked);
    match upsert_node_at(store, id.as_str(), record, Some(initiative.as_str()), at) {
        Ok(()) => {},
        Err(e) => {
            return Err(answer(e));
        },
    }
    proof {
        if at <= now && untouched(c.nodes, id@, at as int, now as int) {
            an_upsert_reads_back(c, id@, asked, Some(init), at as int, now as int);
        }
    }
    match read_node_full_at(store, id.as_str(), now) {
        Ok(Some(full)) => Ok((201, full_to_view(full))),
        Ok(None) => Err(ApiError::NotFound),
        Err(e) => Err(answer(e)),
    }
}

/// Stores a node as [`ingest_node_at`] does, at the present moment.
pub fn ingest_node(store: &mut Store, vocab: &Vocabulary, req: NodeIngestReq) -> (r: Result<
    (u16, NodeView),
    ApiError,
>)
    ensures
        final(store).settings() == old(store).settings(),
        exists|now: int|
            0 <= now && clock_showed(now) && #[trigger] ingest_node_outcome(
                old(store).held(),
                final(store).held(),
                vocab@,
                req,
                now,
                second_of(now),
                r,
            ),
{
    let now = present();
    ingest_node_at(store, vocab, req, now, stamp_of(now))
}

// ---- read ----------------------------------------------------------------------------

/// Whether a read of a node at the moment `at` may be answered with `r`.
pub open spec fn get_node_answer(
    c: Contents,
    id: Seq<char>,
    at: int,
    r: Result<NodeView, ApiError>,
) -> bool {
    match r {
        Ok(view) => view.id@ == id && reads_as(c.nodes, id, at) == Some(view.version()),
        Err(ApiError::NotFound) => reads_as(c.nodes, id, at) is None,
        Err(ApiError::Internal(_)) => true,
        Err(_) => false,
    }
}

/// The node at the moment `at`, untruncated; 404 where it does not read there.
pub fn get_node_at(store: &Store, id: &str, at: i64) -> (r: Result<NodeView, ApiError>)
    ensures
        get_node_answer(store.held(), id@, at as int, r),
{
    match read_node_full_at(store, id, at) {
        Ok(Some(full)) => Ok(full_to_view(full)),
        Ok(None) => Err(ApiError::NotFound),
        Err(e) => Err(answer(e)),
    }
}

/// The node as [`get_node_at`] gives it, at the present moment.
pub fn get_node(store: &Store, id: &str) -> (r: Result<NodeView, ApiError>)
    ensures
        exists|at: int|
            0 <= at && clock_showed(at) && #[trigger] get_node_answer(store.held(), id@, at, r),
{
    let at = present();
    get_node_at(store, id, at)
}

// ---- retract -------------------------------------------------------------------------

/// What a store holds after a node was retracted: where it reads at the moment `now`, it is
/// forgotten at the moment `at`; where it is already gone, nothing happens.
pub open spec fn node_retracted(c: Contents, id: Seq<char>, now: int, at: int) -> Contents {
    if live(c.nodes, id, now) {
        forgotten(c, set![id], at)
    } else {
        c
    }
}

/// How a retraction of a node ends: with contents `c` before and `d` after.
pub open spec fn retract_node_outcome(
    c: Contents,
    d: Contents,
    id: Seq<char>,
    now: int,
    at: int,
    r: Result<u16, ApiError>,
) -> bool {
    match r {
        Ok(status) => status == 204 && d == node_retracted(c, id, now, at),
        Err(ApiError::Internal(e)) => d == c || (live(c.nodes, id, now)
            && crate::nodes::forget_outcome(c, d, id, at, Err(StoreError::Substrate(e)))),
        Err(_) => false,
    }
}

/// Retracts a node that reads at the moment `now`, with the stamp `at`, and answers 204, also where
/// it is already gone: a caller who tries again after a dropped connection is not told that their
/// success was a failure.
///
/// Validities are whole seconds: a node retracted inside the second it was ingested in still reads,
/// for the two cannot be ordered. Retracting it again a second later settles it.
pub fn retract_node_at(store: &mut Store, id: &str, now: i64, at: i64) -> (r: Result<u16, ApiError>)
    ensures
        final(store).settings() == old(store).settings(),
        retract_node_outcome(
            old(store).held(),
            final(store).held(),
            id@,
            now as int,
            at as int,
            r,
        ),
{
    let found = match read_node_full_at(store, id, now) {
        Ok(found) => found,
        Err(e) => {
            return Err(answer(e));
        },
    };
    if found.is_some() {
        match forget_at(store, id, at) {
            Ok(()) => {},
            Err(e) => {
                return Err(answer(e));
            },
        }
    }
    Ok(204)
}

/// Retracts a node as [`retract_node_at`] does, at the present moment.
pub fn retract_node(store: &mut Store, id: &str) -> (r: Result<u16, ApiError>)
    ensures
        final(store).settings() == old(store).settings(),
        exists|now: int|
            0 <= now && clock_showed(now) && #[trigger] retract_node_outcome(
                old(store).held(),
                final(store).held(),
                id@,
                now,
                second_of(now),
                r,
            ),
{
    let now = present();
    retract_node_at(store, id, now, stamp_of(now))
}

/// Retracting is idempotent: once a retraction took a node out, it reads no more, and retracting it
/// again changes nothing.
pub proof fn node_retraction_is_idempotent(
    c: Contents,
    id: Seq<char>,
    now: int,
    at: int,
    later: int,
    stamp: int,
)
    requires
        at <= now <= later,
        !c.nodes.dom().contains((id, at, true)),
        untouched(c.nodes, id, at, later),
    ensures
        !live(node_retracted(c, id, now, at).nodes, id, later),
        node_retracted(node_retracted(c, id, now, at), id, later, stamp) == node_retracted(
            c,
            id,
            now,
            at,
        ),
{
    forgetting_hides(c, id, at, later);
    if !live(c.nodes, id, now) && live(c.nodes, id, later) {
        let s = stamp_at(c.nodes, id, later);
        assert(decides(c.nodes, id, s, later));
        assert(c.nodes.dom().contains((id, s, true)));
        assert(decides(c.nodes, id, s, now));
    }
}

/// What was ingested is what is read, at the moment of the ingest and later, up to the next write
/// under its id: all fields as they were sent, and the properties kept where none were sent.
pub proof fn an_ingested_node_reads_back(
    c: Contents,
    d: Contents,
    vocab: VocabularyV,
    req: NodeIngestReq,
    now: int,
    at: int,
    answer: (u16, NodeView),
    later: int,
    read: NodeView,
)
    requires
        ingest_node_outcome(c, d, vocab, req, now, at, Ok(answer)),
        at <= now <= later,
        untouched(c.nodes, req.id@, at, later),
        get_node_answer(d, req.id@, later, Ok(read)),
    ensures
        read.version() == answer.1.version(),
        read.version() == completed(asked_for(req), reads_as(c.nodes, req.id@, at)),
        d.members.contains((named_initiative(req), req.id@)),
{
    let init = named_initiative(req);
    assert(untouched(c.nodes, req.id@, at, now));
    an_upsert_reads_back(c, req.id@, asked_for(req), Some(init), at, later);
}

/// Properties that a request leaves out do not erase those that are held.
pub proof fn omitted_properties_are_kept(c: Contents, req: NodeIngestReq, at: int, held: NodeV)
    requires
        req.properties is None,
        reads_as(c.nodes, req.id@, at) == Some(held),
    ensures
        completed(asked_for(req), reads_as(c.nodes, req.id@, at)).properties == held.properties,
{
}

} // verus!
