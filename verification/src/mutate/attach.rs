//! Attaching a node to one more initiative.

use super::audited;
use crate::briefs::node_brief_by_id_at;
use crate::clock::{clock_showed, present, second_of, stamp_of};
use crate::model::{live, Contents};
use crate::rows::{first_texts, lists};
use crate::store::{two, write_audit, Store, StoreError};
use crate::substrate::{homes_of, texts_view, ATTACH, MEMBERSHIP};
use crate::text::{join, quotation, quote, trim, trimmed};
use vstd::prelude::*;

verus! {

/// Result of [`attach_node`].
#[derive(Debug, Clone, Copy, PartialEq, Eq, Structural)]
pub struct AttachStats {
    /// True if the node already belonged to the initiative, so the attach was a no-op.
    pub already_member: bool,
}

/// What a store holds after a node was attached to an initiative.
pub open spec fn attached(c: Contents, init: Seq<char>, node_id: Seq<char>) -> Contents {
    Contents { members: c.members.insert((init, node_id)), ..c }
}

/// Why attaching a node that does not exist is refused, given its id in quotation marks.
pub open spec fn no_node_message(quoted: Seq<char>) -> Seq<char> {
    "no node "@ + quoted + " at NOW"@
}

/// How an attach ends: with contents `c` before and `d` after. The node is looked for at the moment
/// `now`, and `at` is the second of the audit entry.
pub open spec fn attach_outcome(
    c: Contents,
    d: Contents,
    node_id: Seq<char>,
    init: Seq<char>,
    now: int,
    at: int,
    r: Result<AttachStats, StoreError>,
) -> bool {
    match r {
        Ok(stats) => {
            &&& init.len() > 0
            &&& live(c.nodes, node_id, now)
            &&& d == audited(attached(c, init, node_id), at, "attach_node"@, seq![init, node_id])
            &&& stats.already_member == c.members.contains((init, node_id))
        },
        Err(StoreError::Invalid(why)) => {
            &&& init.len() == 0
            &&& d == c
            &&& why@ == "initiative name must not be empty"@
        },
        Err(StoreError::NotFound(why)) => {
            &&& init.len() > 0
            &&& !live(c.nodes, node_id, now)
            &&& d == c
            &&& why@ == no_node_message(quotation(node_id))
        },
        Err(StoreError::Substrate(_)) => {
            &&& init.len() > 0
            &&& d == c || (live(c.nodes, node_id, now) && d == attached(c, init, node_id))
        },
    }
}

/// The refusal to attach a node that does not exist, given its id in quotation marks.
pub fn missing_node(quoted: &str) -> (r: StoreError)
    ensures
        r matches StoreError::NotFound(why) && why@ == no_node_message(quoted@),
{
    let why = join("no node ", quoted);
    StoreError::NotFound(join(why.as_str(), " at NOW"))
}

/// Adds `node_id` to `initiative` as an additive membership: the node gains a second home without
/// losing any it already has, and without copying. Attaching a member again changes nothing but the
/// audit trail, where the entry is stamped `at`. Fails if the node does not exist at the moment
/// `now`, so no dangling membership is created for a bogus id.
pub fn attach_node_at(
    store: &mut Store,
    node_id: &str,
    initiative: &str,
    now: i64,
    at: i64,
) -> (r: Result<AttachStats, StoreError>)
    ensures
        final(store).settings() == old(store).settings(),
        attach_outcome(
            old(store).held(),
            final(store).held(),
            node_id@,
            trimmed(initiative@),
            now as int,
            at as int,
            r,
        ),
{
    let ghost c = store.held();
    let init = trim(initiative);
    if init.is_empty() {
        return Err(StoreError::Invalid("initiative name must not be empty".to_owned()));
    }
    if node_brief_by_id_at(store, node_id, now)?.is_none() {
        return Err(missing_node(quote(node_id).as_str()));
    }

    let params = two("init", init, "nid", node_id);
    let rows = store.run_read(MEMBERSHIP, &params, at)?;
    let held = first_texts(&rows);
    proof {
        let s = Set::new(|i: Seq<char>| i == init@ && c.members.contains((init@, node_id@)));
        let texts = texts_view(held@);
        assert(lists(texts, s));
        if held@.len() > 0 {
            assert(texts.contains(texts[0]));
            assert(s.contains(texts[0]));
        }
        if c.members.contains((init@, node_id@)) {
            assert(s.contains(init@));
            assert(texts.contains(init@));
        }
    }
    let already_member = held.len() > 0;

    store.run_mut(ATTACH, &params, at)?;
    let refs = vec![init.to_owned(), node_id.to_owned()];
    assert(texts_view(refs@) =~= seq![init@, node_id@]);
    write_audit(store, at, "attach_node", "system", &refs)?;
    Ok(AttachStats { already_member })
}

/// Adds `node_id` to `initiative` as [`attach_node_at`] does, at the present moment.
pub fn attach_node(store: &mut Store, node_id: &str, initiative: &str) -> (r: Result<
    AttachStats,
    StoreError,
>)
    ensures
        final(store).settings() == old(store).settings(),
        exists|now: int|
            0 <= now && clock_showed(now) && #[trigger] attach_outcome(
                old(store).held(),
                final(store).held(),
                node_id@,
                trimmed(initiative@),
                now,
                second_of(now),
                r,
            ),
{
    let now = present();
    attach_node_at(store, node_id, initiative, now, stamp_of(now))
}

/// Attaching is additive: the node gains this home and keeps every other, no other node's homes
/// change, and no node or edge is written.
pub proof fn attaching_is_additive(c: Contents, init: Seq<char>, node_id: Seq<char>)
    ensures
        homes_of(attached(c, init, node_id), node_id) == homes_of(c, node_id).insert(init),
        forall|other: Seq<char>|
            other != node_id ==> #[trigger] homes_of(attached(c, init, node_id), other)
                == homes_of(c, other),
        attached(c, init, node_id).nodes == c.nodes,
        attached(c, init, node_id).edges == c.edges,
{
    let d = attached(c, init, node_id);
    assert(homes_of(d, node_id) =~= homes_of(c, node_id).insert(init));
    assert forall|other: Seq<char>| other != node_id implies #[trigger] homes_of(d, other)
        == homes_of(c, other) by {
        assert(homes_of(d, other) =~= homes_of(c, other));
    }
}

/// Attaching a member again changes nothing, and says so.
pub proof fn attaching_is_idempotent(c: Contents, init: Seq<char>, node_id: Seq<char>)
    ensures
        attached(attached(c, init, node_id), init, node_id) == attached(c, init, node_id),
        attached(c, init, node_id).members.contains((init, node_id)),
        c.members.contains((init, node_id)) ==> attached(c, init, node_id) == c,
{
    let d = attached(c, init, node_id);
    assert(attached(d, init, node_id).members =~= d.members);
    if c.members.contains((init, node_id)) {
        assert(d.members =~= c.members);
    }
}

} // verus!
