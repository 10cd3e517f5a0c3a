//! What every verb keeps.

use crate::edges::{connected, disconnected, linked};
use crate::model::{decides, live, nothing, stamp_at, Contents, EdgeId, NodeV};
use crate::mutate::attach::attached;
use crate::mutate::audited;
use crate::mutate::delete::deleted;
use crate::mutate::merge::{merge_steps, merged};
use crate::mutate::rename::{rename_steps, renamed};
use crate::nodes::{forgotten, upserted, written};
use vstd::prelude::*;

verus! {

/// Whether a node was ever written.
pub open spec fn ever_written(c: Contents, id: Seq<char>) -> bool {
    exists|t: int| c.nodes.dom().contains((id, t, true))
}

/// No membership dangles: whatever is attached to an initiative was written once.
pub open spec fn grounded(c: Contents) -> bool {
    forall|i: Seq<char>, n: Seq<char>| #[trigger] c.members.contains((i, n)) ==> ever_written(c, n)
}

/// What is written stays written, so memberships that come from others stay grounded.
proof fn stays_grounded(c: Contents, d: Contents)
    requires
        grounded(c),
        forall|k: (Seq<char>, int, bool)|
            c.nodes.dom().contains(k) ==> #[trigger] d.nodes.dom().contains(k),
        forall|i: Seq<char>, n: Seq<char>| #[trigger]
            d.members.contains((i, n)) ==> exists|j: Seq<char>| c.members.contains((j, n)),
    ensures
        grounded(d),
{
    assert forall|i: Seq<char>, n: Seq<char>| #[trigger]
        d.members.contains((i, n)) implies ever_written(d, n) by {
        let j = choose|j: Seq<char>| c.members.contains((j, n));
        assert(ever_written(c, n));
        let t = choose|t: int| c.nodes.dom().contains((n, t, true));
        assert(d.nodes.dom().contains((n, t, true)));
    }
}

/// An empty store is grounded.
pub proof fn an_empty_store_is_grounded()
    ensures
        grounded(nothing()),
{
}

/// Renaming and merging keep memberships grounded, at every step on the way.
pub proof fn moving_keeps_memberships_grounded(
    c: Contents,
    from: Seq<char>,
    to: Seq<char>,
    k: int,
)
    requires
        grounded(c),
    ensures
        grounded(rename_steps(c, from, to, k)),
        grounded(merge_steps(c, from, to, k)),
        grounded(renamed(c, from, to)),
        grounded(merged(c, from, to)),
    decreases k,
{
    if k > 0 {
        moving_keeps_memberships_grounded(c, from, to, k - 1);
        stays_grounded(rename_steps(c, from, to, k - 1), rename_steps(c, from, to, k));
        stays_grounded(merge_steps(c, from, to, k - 1), merge_steps(c, from, to, k));
    }
    stays_grounded(c, renamed(c, from, to));
    stays_grounded(c, merged(c, from, to));
}

/// Forgetting and deleting keep memberships grounded.
pub proof fn forgetting_keeps_memberships_grounded(
    c: Contents,
    ids: Set<Seq<char>>,
    name: Seq<char>,
    at: int,
)
    requires
        grounded(c),
    ensures
        grounded(forgotten(c, ids, at)),
        grounded(deleted(c, name, at)),
{
    stays_grounded(c, forgotten(c, ids, at));
    stays_grounded(c, deleted(c, name, at));
}

/// Attaching keeps memberships grounded, for it attaches only what reads: no dangling membership
/// is created for a bogus id.
pub proof fn attaching_keeps_memberships_grounded(
    c: Contents,
    init: Seq<char>,
    id: Seq<char>,
    at: int,
)
    requires
        grounded(c),
        live(c.nodes, id, at),
    ensures
        grounded(attached(c, init, id)),
{
    let d = attached(c, init, id);
    let s = stamp_at(c.nodes, id, at);
    assert(decides(c.nodes, id, s, at));
    assert(c.nodes.dom().contains((id, s, true)));
    assert forall|i: Seq<char>, n: Seq<char>| #[trigger]
        d.members.contains((i, n)) implies ever_written(d, n) by {
        if n == id {
            assert(d.nodes.dom().contains((id, s, true)));
        } else {
            assert(c.members.contains((i, n)));
            assert(ever_written(c, n));
            let t = choose|t: int| c.nodes.dom().contains((n, t, true));
            assert(d.nodes.dom().contains((n, t, true)));
        }
    }
}

/// Writing nodes and edges keeps memberships grounded, and so does the audit trail.
pub proof fn writing_keeps_memberships_grounded(
    c: Contents,
    id: Seq<char>,
    n: NodeV,
    init: Option<Seq<char>>,
    e: EdgeId,
    weight: int,
    at: int,
    op: Seq<char>,
    refs: Seq<Seq<char>>,
)
    requires
        grounded(c),
    ensures
        grounded(upserted(c, id, n, init, at)),
        grounded(written(c, id, n, at)),
        grounded(connected(c, e, weight, at)),
        grounded(disconnected(c, e, at)),
        grounded(linked(c, init, e, at)),
        grounded(audited(c, at, op, refs)),
{
    stays_grounded(c, written(c, id, n, at));
    stays_grounded(c, connected(c, e, weight, at));
    stays_grounded(c, disconnected(c, e, at));
    stays_grounded(c, linked(c, init, e, at));
    stays_grounded(c, audited(c, at, op, refs));
    let d = upserted(c, id, n, init, at);
    assert(d.nodes.dom().contains((id, at, true)));
    assert forall|i: Seq<char>, m: Seq<char>| #[trigger]
        d.members.contains((i, m)) implies ever_written(d, m) by {
        if m != id {
            assert(c.members.contains((i, m)));
            let t = choose|t: int| c.nodes.dom().contains((m, t, true));
            assert(ever_written(c, m));
            assert(d.nodes.dom().contains((m, t, true)));
        }
    }
}

} // verus!
