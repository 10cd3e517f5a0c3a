//! Merging one initiative into another.

use super::{audited, edge_keys_in, node_ids_in, policies_under};
use crate::clock::{now_seconds, present, second_showed};
use crate::model::Contents;
use crate::rows::listed_count;
use crate::store::{one, two, write_audit, Store, StoreError};
use crate::substrate::{
    copied, dropped, edges_of, members_of, policy_copied, texts_view, COPY_EDGE_MEMBERS,
    COPY_MEMBERS, COPY_POLICY, DROP_EDGE_MEMBERS, DROP_MEMBERS, DROP_POLICY,
};
use crate::text::{join, same, trim, trimmed};
use vstd::prelude::*;

verus! {

/// Counts moved by [`merge_initiative`].
#[derive(Debug, Clone, Copy, PartialEq, Eq, Structural)]
pub struct MergeStats {
    /// Nodes re-homed into the target (some may already have been members).
    pub nodes: usize,
    /// Edges re-homed into the target.
    pub edges: usize,
    /// True when the source carried a share policy the target already had, so the source's was
    /// dropped rather than overwriting the target's.
    pub policy_kept_target: bool,
}

/// Policies with that of `source` under `target`, where only `source` has one.
pub open spec fn policy_inherited(
    policies: Map<Seq<char>, Seq<char>>,
    source: Seq<char>,
    target: Seq<char>,
) -> Map<Seq<char>, Seq<char>> {
    if policies.dom().contains(target) {
        policies
    } else {
        policy_copied(policies, source, target)
    }
}

/// The steps of a merge, in order: everything is added to the target before anything is dropped
/// from the source.
pub open spec fn merge_steps(
    c: Contents,
    source: Seq<char>,
    target: Seq<char>,
    k: int,
) -> Contents
    decreases k,
{
    if k <= 0 {
        c
    } else {
        let b = merge_steps(c, source, target, k - 1);
        if k == 1 {
            Contents { members: copied(b.members, source, target), ..b }
        } else if k == 2 {
            Contents { edge_members: copied(b.edge_members, source, target), ..b }
        } else if k == 3 {
            Contents { policies: policy_inherited(b.policies, source, target), ..b }
        } else if k == 4 {
            Contents { members: dropped(b.members, source), ..b }
        } else if k == 5 {
            Contents { edge_members: dropped(b.edge_members, source), ..b }
        } else if k == 6 {
            Contents { policies: b.policies.remove(source), ..b }
        } else {
            b
        }
    }
}

/// What a store holds after `source` was merged into `target`.
pub open spec fn merged(c: Contents, source: Seq<char>, target: Seq<char>) -> Contents {
    Contents {
        members: dropped(copied(c.members, source, target), source),
        edge_members: dropped(copied(c.edge_members, source, target), source),
        policies: policy_inherited(c.policies, source, target).remove(source),
        ..c
    }
}

/// Why a merge of an initiative without nodes is refused.
pub open spec fn nothing_to_merge_message(source: Seq<char>) -> Seq<char> {
    "initiative `"@ + source + "` has no nodes \u{2014} nothing to merge"@
}

/// How a merge ends: with contents `c` before and `d` after.
///
/// A failure of the database leaves the store at one of the steps.
pub open spec fn merge_outcome(
    c: Contents,
    d: Contents,
    s: Seq<char>,
    t: Seq<char>,
    at: int,
    r: Result<MergeStats, StoreError>,
) -> bool {
    match r {
        Ok(stats) => {
            &&& s.len() > 0
            &&& t.len() > 0
            &&& s != t
            &&& exists|n: Seq<char>| c.members.contains((s, n))
            &&& d == audited(merged(c, s, t), at, "merge_initiative"@, seq![s, t])
            &&& members_of(c, s).finite() && stats.nodes == members_of(c, s).len()
            &&& edges_of(c, s).finite() && stats.edges == edges_of(c, s).len()
            &&& stats.policy_kept_target == (c.policies.dom().contains(s)
                && c.policies.dom().contains(t))
        },
        Err(StoreError::Invalid(why)) => {
            &&& d == c
            &&& if s.len() == 0 || t.len() == 0 {
                why@ == "both initiative names must be non-empty"@
            } else {
                s == t && why@ == "source and target are the same initiative"@
            }
        },
        Err(StoreError::NotFound(why)) => {
            &&& s.len() > 0
            &&& t.len() > 0
            &&& s != t
            &&& d == c
            &&& forall|n: Seq<char>| !c.members.contains((s, n))
            &&& why@ == nothing_to_merge_message(s)
        },
        Err(StoreError::Substrate(_)) => {
            &&& s.len() > 0
            &&& t.len() > 0
            &&& s != t
            &&& if exists|n: Seq<char>| c.members.contains((s, n)) {
                exists|k: int| 0 <= k <= 6 && d == #[trigger] merge_steps(c, s, t, k)
            } else {
                d == c
            }
        },
    }
}

/// Whether the two names, trimmed, can be those of a merge.
pub fn merge_names<'a>(source: &'a str, target: &'a str) -> (r: Result<
    (&'a str, &'a str),
    StoreError,
>)
    ensures
        r is Ok <==> trimmed(source@).len() > 0 && trimmed(target@).len() > 0 && trimmed(source@)
            != trimmed(target@),
        r matches Ok(names) ==> names.0@ == trimmed(source@) && names.1@ == trimmed(target@),
        r matches Err(e) ==> (e matches StoreError::Invalid(why) && why@ == (if trimmed(
            source@,
        ).len() == 0 || trimmed(target@).len() == 0 {
            "both initiative names must be non-empty"@
        } else {
            "source and target are the same initiative"@
        })),
{
    let source = trim(source);
    let target = trim(target);
    if source.is_empty() || target.is_empty() {
        return Err(StoreError::Invalid("both initiative names must be non-empty".to_owned()));
    }
    if same(source, target) {
        return Err(StoreError::Invalid("source and target are the same initiative".to_owned()));
    }
    Ok((source, target))
}

/// Whether there is anything to merge, given the nodes of the source.
pub fn refuse_empty(source: &str, nodes: &Vec<String>) -> (r: Result<(), StoreError>)
    ensures
        r is Ok <==> nodes@.len() > 0,
        r matches Err(e) ==> (e matches StoreError::NotFound(why) && why@
            == nothing_to_merge_message(source@)),
{
    if nodes.len() == 0 {
        let why = join("initiative `", source);
        Err(
            StoreError::NotFound(
                join(why.as_str(), "` has no nodes \u{2014} nothing to merge"),
            ),
        )
    } else {
        Ok(())
    }
}

/// Merges initiative `source` into `target`, stamping the audit entry `at`: every node and edge of
/// the source becomes a member of the target, and the source name is removed.
///
/// Memberships are added to the target before the source's rows are dropped, so at no moment is a
/// node without a home it had. Nothing is retracted. The target's share policy wins when both have
/// one: a merge does not loosen where an initiative may go.
pub fn merge_initiative_at(store: &mut Store, source: &str, target: &str, at: i64) -> (r: Result<
    MergeStats,
    StoreError,
>)
    ensures
        final(store).settings() == old(store).settings(),
        merge_outcome(
            old(store).held(),
            final(store).held(),
            trimmed(source@),
            trimmed(target@),
            at as int,
            r,
        ),
{
    let ghost c = store.held();
    let (source, target) = merge_names(source, target)?;
    let ghost s = source@;
    let ghost t = target@;
    proof {
        assert(merge_steps(c, s, t, 0) == c);
        reveal_with_fuel(merge_steps, 7);
    }
    let nodes = node_ids_in(store, source)?;
    proof {
        listed_count(texts_view(nodes@), members_of(c, s));
        if nodes@.len() == 0 {
            assert forall|n: Seq<char>| !c.members.contains((s, n)) by {
                assert(!texts_view(nodes@).contains(n));
                assert(!members_of(c, s).contains(n));
            }
        }
    }
    refuse_empty(source, &nodes)?;
    proof {
        let texts = texts_view(nodes@);
        assert(texts.contains(texts[0]));
        assert(members_of(c, s).contains(texts[0]));
        assert(c.members.contains((s, texts[0])));
    }
    let edges = edge_keys_in(store, source)?;
    proof {
        listed_count(texts_view(edges@), edges_of(c, s));
    }
    let both = two("old", source, "new", target);
    let from = one("old", source);

    store.run_mut(COPY_MEMBERS, &both, at)?;
    assert(store.held() == merge_steps(c, s, t, 1));
    store.run_mut(COPY_EDGE_MEMBERS, &both, at)?;
    assert(store.held() == merge_steps(c, s, t, 2));

    let target_policies = policies_under(store, target)?;
    let source_policies = policies_under(store, source)?;
    let target_has_policy = target_policies.len() > 0;
    let source_has_policy = source_policies.len() > 0;
    if !target_has_policy && source_has_policy {
        store.run_mut(COPY_POLICY, &both, at)?;
    }
    assert(store.held() == merge_steps(c, s, t, 3));

    store.run_mut(DROP_MEMBERS, &from, at)?;
    assert(store.held() == merge_steps(c, s, t, 4));
    store.run_mut(DROP_EDGE_MEMBERS, &from, at)?;
    assert(store.held() == merge_steps(c, s, t, 5));
    store.run_mut(DROP_POLICY, &from, at)?;
    assert(store.held() == merge_steps(c, s, t, 6));
    assert(merge_steps(c, s, t, 6) == merged(c, s, t));

    let refs = vec![source.to_owned(), target.to_owned()];
    assert(texts_view(refs@) =~= seq![s, t]);
    write_audit(store, at, "merge_initiative", "system", &refs)?;
    Ok(
        MergeStats {
            nodes: nodes.len(),
            edges: edges.len(),
            policy_kept_target: target_has_policy && source_has_policy,
        },
    )
}

/// Merges initiative `source` into `target` as [`merge_initiative_at`] does, at the present moment.
pub fn merge_initiative(store: &mut Store, source: &str, target: &str) -> (r: Result<
    MergeStats,
    StoreError,
>)
    ensures
        final(store).settings() == old(store).settings(),
        exists|at: int|
            0 <= at && second_showed(at) && #[trigger] merge_outcome(
                old(store).held(),
                final(store).held(),
                trimmed(source@),
                trimmed(target@),
                at,
                r,
            ),
{
    let at = now_seconds();
    merge_initiative_at(store, source, target, at)
}

/// A merge leaves the target with what both names had, the source with nothing, every other name
/// as it was, and writes no node or edge.
pub proof fn a_merge_rehomes_everything(c: Contents, source: Seq<char>, target: Seq<char>)
    requires
        source != target,
    ensures
        members_of(merged(c, source, target), target) == members_of(c, source).union(
            members_of(c, target),
        ),
        edges_of(merged(c, source, target), target) == edges_of(c, source).union(
            edges_of(c, target),
        ),
        members_of(merged(c, source, target), source) == Set::<Seq<char>>::empty(),
        edges_of(merged(c, source, target), source) == Set::<Seq<char>>::empty(),
        !merged(c, source, target).policies.dom().contains(source),
        forall|other: Seq<char>|
            other != source && other != target ==> #[trigger] members_of(
                merged(c, source, target),
                other,
            ) == members_of(c, other) && edges_of(merged(c, source, target), other) == edges_of(
                c,
                other,
            ),
        merged(c, source, target).nodes == c.nodes,
        merged(c, source, target).edges == c.edges,
{
    let d = merged(c, source, target);
    assert(members_of(d, target) =~= members_of(c, source).union(members_of(c, target)));
    assert(edges_of(d, target) =~= edges_of(c, source).union(edges_of(c, target)));
    assert(members_of(d, source) =~= Set::<Seq<char>>::empty());
    assert(edges_of(d, source) =~= Set::<Seq<char>>::empty());
    assert forall|other: Seq<char>|
        other != source && other != target implies #[trigger] members_of(d, other) == members_of(
        c,
        other,
    ) && edges_of(d, other) == edges_of(c, other) by {
        assert(members_of(d, other) =~= members_of(c, other));
        assert(edges_of(d, other) =~= edges_of(c, other));
    }
}

/// At no step of a merge is a node without a home, if it had one before: a merge that fails half
/// way leaves nothing behind to lose.
pub proof fn a_merge_leaves_no_node_homeless(
    c: Contents,
    source: Seq<char>,
    target: Seq<char>,
    k: int,
    node_id: Seq<char>,
)
    requires
        source != target,
        exists|i: Seq<char>| c.members.contains((i, node_id)),
    ensures
        exists|i: Seq<char>| merge_steps(c, source, target, k).members.contains((i, node_id)),
        merge_steps(c, source, target, k).nodes == c.nodes,
        merge_steps(c, source, target, k).edges == c.edges,
    decreases k,
{
    let i = choose|i: Seq<char>| c.members.contains((i, node_id));
    if k > 0 {
        a_merge_leaves_no_node_homeless(c, source, target, k - 1, node_id);
    }
    merge_keeps_or_moves(c, source, target, k, i, node_id);
}

proof fn merge_keeps_or_moves(
    c: Contents,
    source: Seq<char>,
    target: Seq<char>,
    k: int,
    i: Seq<char>,
    node_id: Seq<char>,
)
    requires
        source != target,
        c.members.contains((i, node_id)),
    ensures
        ({
            let m = merge_steps(c, source, target, k).members;
            &&& i != source ==> m.contains((i, node_id))
            &&& i == source && k >= 1 ==> m.contains((target, node_id))
            &&& i == source && k < 4 ==> m.contains((source, node_id))
        }),
    decreases k,
{
    if k > 0 {
        merge_keeps_or_moves(c, source, target, k - 1, i, node_id);
    }
}

/// The target's own share policy outlives a merge; a target without one inherits the source's.
pub proof fn a_merge_does_not_replace_the_targets_policy(
    c: Contents,
    source: Seq<char>,
    target: Seq<char>,
)
    requires
        source != target,
    ensures
        ({
            let after = merged(c, source, target).policies;
            &&& c.policies.dom().contains(target) ==> after.dom().contains(target) && after[target]
                == c.policies[target]
            &&& !c.policies.dom().contains(target) && c.policies.dom().contains(source)
                ==> after.dom().contains(target) && after[target] == c.policies[source]
            &&& !c.policies.dom().contains(target) && !c.policies.dom().contains(source)
                ==> !after.dom().contains(target)
        }),
{
}

} // verus!
