//! Laws of whole initiatives: what a rename, a merge, a delete and an attach leave behind.

use crate::briefs::{brief_read, NodeBrief};
use crate::model::{
    reads_as, retracting_hides, retracting_keeps_the_past, untouched, AuditV, Contents, EdgeId,
};
use crate::mutate::attach::{attach_outcome, AttachStats};
use crate::mutate::delete::{
    delete_outcome, exclusive_to, homed_elsewhere, impact_read, shared_from, DeleteStats,
};
use crate::mutate::merge::{a_merge_leaves_no_node_homeless, merge_outcome, merge_steps, MergeStats};
use crate::mutate::rename::{rename_outcome, rename_steps, RenameStats};
use crate::recall::in_order;
use crate::store::StoreError;
use crate::substrate::{edges_of, initiatives_of, members_of, touching};
use crate::text::{quotation, text_lt};
use vstd::prelude::*;

verus! {

// ---- delete ------------------------------------------------------------------

/// After a delete, a node that was attached to the name alone and was last written before the second
/// that the clock shows is read no more: not at that moment, and not later.
pub proof fn a_delete_takes_what_lives_only_there(
    c: Contents,
    d: Contents,
    name: Seq<char>,
    at: int,
    now: int,
    stats: DeleteStats,
    node_id: Seq<char>,
    later: int,
    chars: nat,
    read: Option<NodeBrief>,
)
    requires
        delete_outcome(c, d, name, at, Ok(stats)),
        0 <= at,
        at * 1000000 <= now < at * 1000000 + 1000000,
        c.members.contains((name, node_id)),
        forall|i: Seq<char>| #[trigger] c.members.contains((i, node_id)) ==> i == name,
        forall|t: int, asserted: bool| #[trigger]
            c.nodes.dom().contains((node_id, t, asserted)) ==> t < at,
        now <= later,
        brief_read(d, node_id, chars, later, Ok(read)),
    ensures
        read is None,
        reads_as(d.nodes, node_id, now) is None,
        reads_as(d.nodes, node_id, later) is None,
{
    assert(exclusive_to(c, name).contains(node_id));
    assert(untouched(c.nodes, node_id, at, later));
    assert(untouched(c.nodes, node_id, at, now));
    retracting_hides(c.nodes, exclusive_to(c, name), at, node_id, later);
    retracting_hides(c.nodes, exclusive_to(c, name), at, node_id, now);
}

/// After a delete, no edge from or to a node that was attached to the name alone is read, if it was
/// last written before the second of the delete.
pub proof fn a_delete_takes_the_edges_there(
    c: Contents,
    d: Contents,
    name: Seq<char>,
    at: int,
    stats: DeleteStats,
    node_id: Seq<char>,
    edge: EdgeId,
    later: int,
)
    requires
        delete_outcome(c, d, name, at, Ok(stats)),
        c.members.contains((name, node_id)),
        forall|i: Seq<char>| #[trigger] c.members.contains((i, node_id)) ==> i == name,
        edge.src == node_id || edge.dst == node_id,
        forall|t: int, asserted: bool| #[trigger]
            c.edges.dom().contains((edge, t, asserted)) ==> t < at,
        at <= later,
    ensures
        reads_as(d.edges, edge, later) is None,
{
    assert(exclusive_to(c, name).contains(node_id));
    assert(untouched(c.edges, edge, at, later));
    retracting_hides(c.edges, touching(exclusive_to(c, name)), at, edge, later);
}

/// A node with a home besides the deleted name, or with none at it, reads after the delete as it did
/// before, at every moment; so does every edge between two such nodes. This holds of a delete that
/// the database cut short, too.
pub proof fn a_delete_spares_what_has_another_home(
    c: Contents,
    d: Contents,
    name: Seq<char>,
    at: int,
    r: Result<DeleteStats, StoreError>,
    a: Seq<char>,
    b: Seq<char>,
    edge: EdgeId,
    moment: int,
)
    requires
        delete_outcome(c, d, name, at, r),
        c.members.contains((name, a)) ==> exists|i: Seq<char>|
            i != name && #[trigger] c.members.contains((i, a)),
        c.members.contains((name, b)) ==> exists|i: Seq<char>|
            i != name && #[trigger] c.members.contains((i, b)),
        edge.src == a,
        edge.dst == b,
    ensures
        reads_as(d.nodes, a, moment) == reads_as(c.nodes, a, moment),
        reads_as(d.edges, edge, moment) == reads_as(c.edges, edge, moment),
{
    assert(c.members.contains((name, a)) ==> homed_elsewhere(c, name, a));
    assert(c.members.contains((name, b)) ==> homed_elsewhere(c, name, b));
    let all = exclusive_to(c, name);
    assert(!all.contains(a) && !all.contains(b));
    if r is Ok {
        retracting_keeps_the_past(c.nodes, all, at, a, moment);
        retracting_keeps_the_past(c.edges, touching(all), at, edge, moment);
    } else {
        if !(exists|k: int|
            0 <= k <= 2 && d == #[trigger] crate::mutate::delete::delete_steps(c, name, k)) {
            let done = crate::mutate::delete::delete_steps(c, name, 3);
            let (nodes, edges) = choose|nodes: Set<Seq<char>>, edges: Set<Seq<char>>|
                {
                    &&& nodes.subset_of(all)
                    &&& edges.subset_of(nodes)
                    &&& d == #[trigger] crate::mutate::delete::retracted_at(done, nodes, edges, at)
                };
            assert(!nodes.contains(a));
            assert(!edges.contains(a) && !edges.contains(b)) by {
                assert(edges.contains(a) ==> nodes.contains(a));
                assert(edges.contains(b) ==> nodes.contains(b));
            }
            retracting_keeps_the_past(c.nodes, nodes, at, a, moment);
            retracting_keeps_the_past(c.edges, touching(edges), at, edge, moment);
        }
    }
}

/// A delete takes every membership and the policy of its name, and nothing of any other name; it
/// leaves one entry in the audit trail.
pub proof fn a_delete_takes_one_name(
    c: Contents,
    d: Contents,
    name: Seq<char>,
    at: int,
    stats: DeleteStats,
)
    requires
        delete_outcome(c, d, name, at, Ok(stats)),
    ensures
        forall|i: Seq<char>, n: Seq<char>| #[trigger]
            d.members.contains((i, n)) <==> c.members.contains((i, n)) && i != name,
        forall|i: Seq<char>, e: Seq<char>| #[trigger]
            d.edge_members.contains((i, e)) <==> c.edge_members.contains((i, e)) && i != name,
        forall|i: Seq<char>| #[trigger]
            d.policies.dom().contains(i) <==> c.policies.dom().contains(i) && i != name,
        forall|i: Seq<char>|
            c.policies.dom().contains(i) && i != name ==> #[trigger] d.policies[i] == c.policies[i],
        d.audit == c.audit.push(
            AuditV { at, op: "delete_initiative"@, actor: "system"@, refs: seq![name] },
        ),
{
}

/// A delete that the database cut short takes no membership or policy of any other name, and adds
/// none.
pub proof fn a_delete_cut_short_takes_nothing_more(
    c: Contents,
    d: Contents,
    name: Seq<char>,
    at: int,
    e: StoreError,
)
    requires
        delete_outcome(c, d, name, at, Err(e)),
    ensures
        e is Substrate,
        forall|i: Seq<char>, n: Seq<char>| #[trigger]
            d.members.contains((i, n)) ==> c.members.contains((i, n)),
        forall|i: Seq<char>, n: Seq<char>|
            i != name && c.members.contains((i, n)) ==> #[trigger] d.members.contains((i, n)),
        forall|i: Seq<char>|
            i != name ==> (#[trigger] d.policies.dom().contains(i) <==> c.policies.dom().contains(i)),
        d.audit == c.audit,
{
}

/// A delete is recoverable: every version that was held is still held, and reads before the second of
/// the delete find what they found.
pub proof fn a_delete_erases_nothing(
    c: Contents,
    d: Contents,
    name: Seq<char>,
    at: int,
    stats: DeleteStats,
    node_id: Seq<char>,
    edge: EdgeId,
    moment: int,
)
    requires
        delete_outcome(c, d, name, at, Ok(stats)),
    ensures
        forall|t: int|
            c.nodes.dom().contains((node_id, t, true)) ==> #[trigger] d.nodes.dom().contains(
                (node_id, t, true),
            ) && d.nodes[(node_id, t, true)] == c.nodes[(node_id, t, true)],
        forall|t: int|
            c.edges.dom().contains((edge, t, true)) ==> #[trigger] d.edges.dom().contains(
                (edge, t, true),
            ) && d.edges[(edge, t, true)] == c.edges[(edge, t, true)],
        moment < at ==> reads_as(d.nodes, node_id, moment) == reads_as(c.nodes, node_id, moment),
        moment < at ==> reads_as(d.edges, edge, moment) == reads_as(c.edges, edge, moment),
{
    let all = exclusive_to(c, name);
    if moment < at {
        retracting_keeps_the_past(c.nodes, all, at, node_id, moment);
        retracting_keeps_the_past(c.edges, touching(all), at, edge, moment);
    }
}

/// The nodes that are attached to a name and to no other.
pub open spec fn only_at(c: Contents, name: Seq<char>) -> Set<Seq<char>> {
    Set::new(
        |n: Seq<char>|
            c.members.contains((name, n)) && forall|i: Seq<char>| #[trigger]
                c.members.contains((i, n)) ==> i == name,
    )
}

/// The nodes that are attached to a name.
pub open spec fn all_at(c: Contents, name: Seq<char>) -> Set<Seq<char>> {
    Set::new(|n: Seq<char>| c.members.contains((name, n)))
}

/// The keys of the edges that are attached to a name.
pub open spec fn edges_at(c: Contents, name: Seq<char>) -> Set<Seq<char>> {
    Set::new(|e: Seq<char>| c.edge_members.contains((name, e)))
}

proof fn only_at_is_exclusive(c: Contents, name: Seq<char>)
    ensures
        only_at(c, name) == exclusive_to(c, name),
        shared_from(c, name) == all_at(c, name).difference(only_at(c, name)),
        all_at(c, name) == members_of(c, name),
        edges_at(c, name) == edges_of(c, name),
{
    assert forall|n: Seq<char>| only_at(c, name).contains(n) == exclusive_to(c, name).contains(
        n,
    ) by {
        if c.members.contains((name, n)) && !only_at(c, name).contains(n) {
            let i = choose|i: Seq<char>| #[trigger] c.members.contains((i, n)) && i != name;
            assert(homed_elsewhere(c, name, n));
        }
    }
    assert(only_at(c, name) =~= exclusive_to(c, name));
    assert(shared_from(c, name) =~= all_at(c, name).difference(only_at(c, name)));
    assert(all_at(c, name) =~= members_of(c, name));
    assert(edges_at(c, name) =~= edges_of(c, name));
}

/// What a delete reports, and what its impact predicts: as many nodes are forgotten as live at the
/// name alone, and as many are unscoped as have another home; together they are all that is attached
/// to it.
pub proof fn a_delete_counts_what_it_takes(
    c: Contents,
    d: Contents,
    name: Seq<char>,
    at: int,
    stats: DeleteStats,
    impact: DeleteStats,
)
    requires
        delete_outcome(c, d, name, at, Ok(stats)),
        impact_read(c, name, Ok(impact)),
    ensures
        only_at(c, name).finite() && all_at(c, name).finite(),
        stats.forgotten == only_at(c, name).len(),
        stats.forgotten + stats.unscoped == all_at(c, name).len(),
        impact.forgotten == only_at(c, name).len(),
        impact.forgotten + impact.unscoped == all_at(c, name).len(),
{
    only_at_is_exclusive(c, name);
    let (only, rest) = (only_at(c, name), shared_from(c, name));
    assert(all_at(c, name) =~= only.union(rest));
    assert(only.disjoint(rest));
    vstd::set_lib::lemma_set_disjoint_lens(only, rest);
}

// ---- rename ------------------------------------------------------------------

/// A rename moves every membership and the policy of the old name to the new, leaves those of every
/// other name, writes no node or edge, and counts what it moved.
pub proof fn a_rename_moves_one_name(
    c: Contents,
    d: Contents,
    from: Seq<char>,
    to: Seq<char>,
    at: int,
    stats: RenameStats,
)
    requires
        rename_outcome(c, d, from, to, at, Ok(stats)),
    ensures
        forall|n: Seq<char>| #[trigger]
            d.members.contains((to, n)) <==> c.members.contains((from, n)),
        forall|n: Seq<char>| !(#[trigger] d.members.contains((from, n))),
        forall|i: Seq<char>, n: Seq<char>|
            i != from && i != to ==> (#[trigger] d.members.contains((i, n)) <==> c.members.contains(
                (i, n),
            )),
        forall|e: Seq<char>| #[trigger]
            d.edge_members.contains((to, e)) <==> c.edge_members.contains((from, e))
                || c.edge_members.contains((to, e)),
        forall|e: Seq<char>| !(#[trigger] d.edge_members.contains((from, e))),
        forall|i: Seq<char>, e: Seq<char>|
            i != from && i != to ==> (#[trigger] d.edge_members.contains((i, e))
                <==> c.edge_members.contains((i, e))),
        d.policies.dom().contains(to) <==> c.policies.dom().contains(from),
        c.policies.dom().contains(from) ==> d.policies[to] == c.policies[from],
        !d.policies.dom().contains(from),
        forall|i: Seq<char>|
            i != from && i != to ==> (#[trigger] d.policies.dom().contains(i)
                <==> c.policies.dom().contains(i)) && (c.policies.dom().contains(i)
                ==> d.policies[i] == c.policies[i]),
        d.nodes == c.nodes,
        d.edges == c.edges,
        d.audit == c.audit.push(
            AuditV { at, op: "rename_initiative"@, actor: "system"@, refs: seq![from, to] },
        ),
        all_at(c, from).finite() && stats.nodes == all_at(c, from).len(),
        edges_at(c, from).finite() && stats.edges == edges_at(c, from).len(),
{
    only_at_is_exclusive(c, from);
    assert forall|n: Seq<char>| !c.members.contains((to, n)) by {}
}

/// A rename goes through exactly for a new name that is not empty, not the old one, and has neither a
/// node nor a policy; else it says why, and changes nothing.
pub proof fn a_rename_needs_a_free_name(
    c: Contents,
    d: Contents,
    from: Seq<char>,
    to: Seq<char>,
    at: int,
    r: Result<RenameStats, StoreError>,
)
    requires
        rename_outcome(c, d, from, to, at, r),
    ensures
        ({
            let free = to.len() > 0 && from != to && !c.policies.dom().contains(to) && forall|
                n: Seq<char>,
            | !(#[trigger] c.members.contains((to, n)));
            &&& r is Ok ==> free
            &&& !free ==> d == c
            &&& r matches Err(StoreError::Invalid(why)) ==> !free && d == c && why@ == (if to.len()
                == 0 {
                "new initiative name must not be empty"@
            } else if from == to {
                "old and new names are identical"@
            } else {
                "target initiative `"@ + to
                    + "` already exists \u{2014} rename into a fresh name"@
            })
            &&& !(r matches Err(StoreError::NotFound(_)))
            &&& free ==> (r matches Err(e) ==> e is Substrate)
        }),
{
}

/// A rename that the database cut short loses nothing: every node that had a home has one, every name
/// but the two is as it was, and no node or edge is written.
pub proof fn a_rename_cut_short_loses_nothing(
    c: Contents,
    d: Contents,
    from: Seq<char>,
    to: Seq<char>,
    at: int,
    e: StoreError,
    i: Seq<char>,
    n: Seq<char>,
)
    requires
        rename_outcome(c, d, from, to, at, Err(e)),
        c.members.contains((i, n)),
    ensures
        i != from ==> d.members.contains((i, n)),
        i == from ==> d.members.contains((from, n)) || d.members.contains((to, n)),
        forall|other: Seq<char>, m: Seq<char>|
            other != from && other != to ==> (#[trigger] d.members.contains((other, m))
                <==> c.members.contains((other, m))),
        forall|other: Seq<char>|
            other != from && other != to ==> (#[trigger] d.policies.dom().contains(other)
                <==> c.policies.dom().contains(other)),
        d.nodes == c.nodes,
        d.edges == c.edges,
        d.audit == c.audit,
{
    if d != c {
        let k = choose|k: int| 0 <= k <= 6 && d == #[trigger] rename_steps(c, from, to, k);
        rename_keeps_or_moves(c, from, to, k, i, n);
    }
}

proof fn rename_keeps_or_moves(
    c: Contents,
    from: Seq<char>,
    to: Seq<char>,
    k: int,
    i: Seq<char>,
    n: Seq<char>,
)
    requires
        from != to,
        c.members.contains((i, n)),
    ensures
        ({
            let b = rename_steps(c, from, to, k);
            &&& i != from ==> b.members.contains((i, n))
            &&& i == from && k >= 1 ==> b.members.contains((to, n))
            &&& i == from && k < 2 ==> b.members.contains((from, n))
            &&& forall|other: Seq<char>, m: Seq<char>|
                other != from && other != to ==> (#[trigger] b.members.contains((other, m))
                    <==> c.members.contains((other, m)))
            &&& forall|other: Seq<char>|
                other != from && other != to ==> (#[trigger] b.policies.dom().contains(other)
                    <==> c.policies.dom().contains(other))
            &&& b.nodes == c.nodes
            &&& b.edges == c.edges
            &&& b.audit == c.audit
        }),
    decreases k,
{
    if k > 0 {
        rename_keeps_or_moves(c, from, to, k - 1, i, n);
    }
}

// ---- merge -------------------------------------------------------------------

/// A merge gives the target every membership of the source beside its own, leaves the source none,
/// and writes no node or edge: nothing that read before stops reading. It counts what the source had.
pub proof fn a_merge_joins_two_names(
    c: Contents,
    d: Contents,
    source: Seq<char>,
    target: Seq<char>,
    at: int,
    stats: MergeStats,
)
    requires
        merge_outcome(c, d, source, target, at, Ok(stats)),
    ensures
        forall|n: Seq<char>| #[trigger]
            d.members.contains((target, n)) <==> c.members.contains((source, n))
                || c.members.contains((target, n)),
        forall|n: Seq<char>| !(#[trigger] d.members.contains((source, n))),
        forall|i: Seq<char>, n: Seq<char>|
            i != source && i != target ==> (#[trigger] d.members.contains((i, n))
                <==> c.members.contains((i, n))),
        forall|e: Seq<char>| #[trigger]
            d.edge_members.contains((target, e)) <==> c.edge_members.contains((source, e))
                || c.edge_members.contains((target, e)),
        forall|e: Seq<char>| !(#[trigger] d.edge_members.contains((source, e))),
        forall|i: Seq<char>, e: Seq<char>|
            i != source && i != target ==> (#[trigger] d.edge_members.contains((i, e))
                <==> c.edge_members.contains((i, e))),
        d.nodes == c.nodes,
        d.edges == c.edges,
        d.audit == c.audit.push(
            AuditV { at, op: "merge_initiative"@, actor: "system"@, refs: seq![source, target] },
        ),
        all_at(c, source).finite() && stats.nodes == all_at(c, source).len(),
        edges_at(c, source).finite() && stats.edges == edges_at(c, source).len(),
{
    only_at_is_exclusive(c, source);
}

/// The target's own policy outlives a merge, whatever the source's; a target without one inherits the
/// source's, and the source keeps none. The report says when the source's was passed over.
pub proof fn a_merge_does_not_loosen_the_target(
    c: Contents,
    d: Contents,
    source: Seq<char>,
    target: Seq<char>,
    at: int,
    stats: MergeStats,
)
    requires
        merge_outcome(c, d, source, target, at, Ok(stats)),
    ensures
        c.policies.dom().contains(target) ==> d.policies.dom().contains(target)
            && d.policies[target] == c.policies[target],
        !c.policies.dom().contains(target) && c.policies.dom().contains(source)
            ==> d.policies.dom().contains(target) && d.policies[target] == c.policies[source],
        !c.policies.dom().contains(target) && !c.policies.dom().contains(source)
            ==> !d.policies.dom().contains(target),
        !d.policies.dom().contains(source),
        forall|i: Seq<char>|
            i != source && i != target ==> (#[trigger] d.policies.dom().contains(i)
                <==> c.policies.dom().contains(i)) && (c.policies.dom().contains(i)
                ==> d.policies[i] == c.policies[i]),
        stats.policy_kept_target <==> c.policies.dom().contains(source)
            && c.policies.dom().contains(target),
{
}

/// A merge goes through exactly for two different names, neither empty, of which the source has a
/// node; else it says why, and changes nothing.
pub proof fn a_merge_needs_something_to_merge(
    c: Contents,
    d: Contents,
    source: Seq<char>,
    target: Seq<char>,
    at: int,
    r: Result<MergeStats, StoreError>,
)
    requires
        merge_outcome(c, d, source, target, at, r),
    ensures
        ({
            let named = source.len() > 0 && target.len() > 0 && source != target;
            let held = exists|n: Seq<char>| #[trigger] c.members.contains((source, n));
            &&& r is Ok ==> named && held
            &&& !(named && held) ==> d == c
            &&& r matches Err(StoreError::Invalid(why)) ==> !named && why@ == (if source.len() == 0
                || target.len() == 0 {
                "both initiative names must be non-empty"@
            } else {
                "source and target are the same initiative"@
            })
            &&& r matches Err(StoreError::NotFound(why)) ==> named && !held && why@
                == "initiative `"@ + source + "` has no nodes \u{2014} nothing to merge"@
            &&& !named ==> (r matches Err(e) && e is Invalid)
        }),
{
}

/// A merge that the database cut short leaves no node without a home it had, and every node and edge
/// as it was.
pub proof fn a_merge_cut_short_loses_nothing(
    c: Contents,
    d: Contents,
    source: Seq<char>,
    target: Seq<char>,
    at: int,
    e: StoreError,
    i: Seq<char>,
    n: Seq<char>,
)
    requires
        merge_outcome(c, d, source, target, at, Err(e)),
        c.members.contains((i, n)),
    ensures
        exists|j: Seq<char>| #[trigger] d.members.contains((j, n)),
        forall|other: Seq<char>, m: Seq<char>|
            other != source && other != target ==> (#[trigger] d.members.contains((other, m))
                <==> c.members.contains((other, m))),
        forall|other: Seq<char>|
            other != source && other != target ==> (#[trigger] d.policies.dom().contains(other)
                <==> c.policies.dom().contains(other)),
        c.policies.dom().contains(target) ==> d.policies.dom().contains(target)
            && d.policies[target] == c.policies[target],
        d.nodes == c.nodes,
        d.edges == c.edges,
        d.audit == c.audit,
{
    if d != c {
        let k = choose|k: int| 0 <= k <= 6 && d == #[trigger] merge_steps(c, source, target, k);
        a_merge_leaves_no_node_homeless(c, source, target, k, n);
        merge_spares_the_rest(c, source, target, k);
    } else {
        assert(d.members.contains((i, n)));
    }
}

proof fn merge_spares_the_rest(c: Contents, source: Seq<char>, target: Seq<char>, k: int)
    requires
        source != target,
    ensures
        ({
            let b = merge_steps(c, source, target, k);
            &&& forall|other: Seq<char>, m: Seq<char>|
                other != source && other != target ==> (#[trigger] b.members.contains((other, m))
                    <==> c.members.contains((other, m)))
            &&& forall|other: Seq<char>|
                other != source && other != target ==> (#[trigger] b.policies.dom().contains(other)
                    <==> c.policies.dom().contains(other))
            &&& c.policies.dom().contains(target) ==> b.policies.dom().contains(target)
                && b.policies[target] == c.policies[target]
            &&& b.audit == c.audit
        }),
    decreases k,
{
    if k > 0 {
        merge_spares_the_rest(c, source, target, k - 1);
    }
}

// ---- attach ------------------------------------------------------------------

/// An attach adds one membership and takes none, for a node that reads now and a name that is not
/// empty; it says whether the membership was there. Anything else is refused and changes nothing.
pub proof fn an_attach_adds_one_home(
    c: Contents,
    d: Contents,
    node_id: Seq<char>,
    init: Seq<char>,
    now: int,
    at: int,
    r: Result<AttachStats, StoreError>,
)
    requires
        attach_outcome(c, d, node_id, init, now, at, r),
    ensures
        r matches Ok(stats) ==> {
            &&& init.len() > 0
            &&& reads_as(c.nodes, node_id, now) is Some
            &&& forall|i: Seq<char>, n: Seq<char>| #[trigger]
                d.members.contains((i, n)) <==> c.members.contains((i, n)) || (i == init && n
                    == node_id)
            &&& stats.already_member <==> c.members.contains((init, node_id))
            &&& d.audit == c.audit.push(
                AuditV { at, op: "attach_node"@, actor: "system"@, refs: seq![init, node_id] },
            )
        },
        d.nodes == c.nodes,
        d.edges == c.edges,
        d.edge_members == c.edge_members,
        d.policies == c.policies,
        forall|i: Seq<char>, n: Seq<char>|
            c.members.contains((i, n)) ==> #[trigger] d.members.contains((i, n)),
        forall|i: Seq<char>, n: Seq<char>| #[trigger]
            d.members.contains((i, n)) ==> c.members.contains((i, n)) || (i == init && n == node_id),
        r is Err ==> d.audit == c.audit,
        init.len() == 0 ==> d == c && (r matches Err(StoreError::Invalid(why)) && why@
            == "initiative name must not be empty"@),
        reads_as(c.nodes, node_id, now) is None ==> d == c && r is Err,
        r matches Err(StoreError::NotFound(why)) ==> reads_as(c.nodes, node_id, now) is None && why@
            == "no node "@ + quotation(node_id) + " at NOW"@,
        r matches Err(StoreError::Invalid(_)) ==> init.len() == 0,
{
}

// ---- list --------------------------------------------------------------------

/// The initiatives are the names with a node, each once, in ascending order.
pub proof fn initiatives_are_the_names_with_a_node(c: Contents, names: Seq<Seq<char>>)
    requires
        in_order(names, initiatives_of(c)),
    ensures
        forall|i: Seq<char>| #[trigger]
            names.contains(i) <==> exists|n: Seq<char>| #[trigger] c.members.contains((i, n)),
        forall|a: int, b: int|
            #![trigger names[a], names[b]]
            0 <= a < b < names.len() ==> text_lt(names[a], names[b]),
{
}

} // verus!
