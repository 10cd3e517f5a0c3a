//! Renaming an initiative.

use super::{audited, edge_keys_in, node_ids_in, policies_under};
use crate::clock::{now_seconds, present, second_showed};
use crate::model::Contents;
use crate::rows::listed_count;
use crate::store::{one, two, write_audit, Store, StoreError};
use crate::substrate::{
    copied, dropped, edges_of, members_of, policy_copied, texts_view, COPY_EDGE_MEMBERS,
    COPY_MEMBERS, COPY_POLICY, DROP_EDGE_MEMBERS, DROP_MEMBERS, DROP_POLICY,
};
use crate::text::{join, same, trim, trimmed};
use vstd::prelude::*;

verus! {

/// Counts moved by [`rename_initiative`].
#[derive(Debug, Clone, Copy, PartialEq, Eq, Structural)]
pub struct RenameStats {
    pub nodes: usize,
    pub edges: usize,
}

/// Whether a name is taken: it has a node or a share policy.
pub open spec fn taken(c: Contents, name: Seq<char>) -> bool {
    (exists|n: Seq<char>| c.members.contains((name, n))) || c.policies.dom().contains(name)
}

/// The steps of a rename, in order: both memberships and the policy, each added to the new name
/// before it is dropped from the old.
pub open spec fn rename_steps(c: Contents, old: Seq<char>, new: Seq<char>, k: int) -> Contents
    decreases k,
{
    if k <= 0 {
        c
    } else {
        let b = rename_steps(c, old, new, k - 1);
        if k == 1 {
            Contents { members: copied(b.members, old, new), ..b }
        } else if k == 2 {
            Contents { members: dropped(b.members, old), ..b }
        } else if k == 3 {
            Contents { edge_members: copied(b.edge_members, old, new), ..b }
        } else if k == 4 {
            Contents { edge_members: dropped(b.edge_members, old), ..b }
        } else if k == 5 {
            Contents { policies: policy_copied(b.policies, old, new), ..b }
        } else if k == 6 {
            Contents { policies: b.policies.remove(old), ..b }
        } else {
            b
        }
    }
}

/// What a store holds after `old` was renamed to `new`.
pub open spec fn renamed(c: Contents, old: Seq<char>, new: Seq<char>) -> Contents {
    Contents {
        members: dropped(copied(c.members, old, new), old),
        edge_members: dropped(copied(c.edge_members, old, new), old),
        policies: policy_copied(c.policies, old, new).remove(old),
        ..c
    }
}

/// Why a rename to a taken name is refused.
pub open spec fn taken_message(new: Seq<char>) -> Seq<char> {
    "target initiative `"@ + new + "` already exists \u{2014} rename into a fresh name"@
}

/// Whether the two names, trimmed, can be those of a rename.
pub fn rename_names<'a>(old: &'a str, new: &'a str) -> (r: Result<(&'a str, &'a str), StoreError>)
    ensures
        r is Ok <==> trimmed(new@).len() > 0 && trimmed(old@) != trimmed(new@),
        r matches Ok(names) ==> names.0@ == trimmed(old@) && names.1@ == trimmed(new@),
        r matches Err(e) ==> (e matches StoreError::Invalid(why) && why@ == (if trimmed(
            new@,
        ).len() == 0 {
            "new initiative name must not be empty"@
        } else {
            "old and new names are identical"@
        })),
{
    let old = trim(old);
    let new = trim(new);
    if new.is_empty() {
        return Err(StoreError::Invalid("new initiative name must not be empty".to_owned()));
    }
    if same(old, new) {
        return Err(StoreError::Invalid("old and new names are identical".to_owned()));
    }
    Ok((old, new))
}

/// Whether a name with these nodes and policies is free to be renamed into.
pub fn refuse_taken(new: &str, nodes: &Vec<String>, policies: &Vec<String>) -> (r: Result<
    (),
    StoreError,
>)
    ensures
        r is Ok <==> nodes@.len() == 0 && policies@.len() == 0,
        r matches Err(e) ==> (e matches StoreError::Invalid(why) && why@ == taken_message(new@)),
{
    if nodes.len() > 0 || policies.len() > 0 {
        let why = join("target initiative `", new);
        Err(
            StoreError::Invalid(
                join(why.as_str(), "` already exists \u{2014} rename into a fresh name"),
            ),
        )
    } else {
        Ok(())
    }
}

/// How a rename ends: with contents `c` before and `d` after.
///
/// A failure of the database leaves the store at one of the steps.
pub open spec fn rename_outcome(
    c: Contents,
    d: Contents,
    o: Seq<char>,
    n: Seq<char>,
    at: int,
    r: Result<RenameStats, StoreError>,
) -> bool {
    match r {
        Ok(stats) => {
            &&& n.len() > 0
            &&& o != n
            &&& !taken(c, n)
            &&& d == audited(renamed(c, o, n), at, "rename_initiative"@, seq![o, n])
            &&& members_of(c, o).finite() && stats.nodes == members_of(c, o).len()
            &&& edges_of(c, o).finite() && stats.edges == edges_of(c, o).len()
        },
        Err(StoreError::Invalid(why)) => {
            &&& d == c
            &&& if n.len() == 0 {
                why@ == "new initiative name must not be empty"@
            } else if o == n {
                why@ == "old and new names are identical"@
            } else {
                taken(c, n) && why@ == taken_message(n)
            }
        },
        Err(StoreError::NotFound(_)) => false,
        Err(StoreError::Substrate(_)) => {
            &&& n.len() > 0
            &&& o != n
            &&& if taken(c, n) {
                d == c
            } else {
                exists|k: int| 0 <= k <= 6 && d == #[trigger] rename_steps(c, o, n, k)
            }
        },
    }
}

/// Renames initiative `from` to `to` across both memberships and the share policies, stamping the
/// audit entry `at`. Fails if `to` is taken: pick a fresh name rather than silently merging.
pub fn rename_initiative_at(store: &mut Store, from: &str, to: &str, at: i64) -> (r: Result<
    RenameStats,
    StoreError,
>)
    ensures
        final(store).settings() == old(store).settings(),
        rename_outcome(
            old(store).held(),
            final(store).held(),
            trimmed(from@),
            trimmed(to@),
            at as int,
            r,
        ),
{
    let ghost c = store.held();
    let (from, to) = rename_names(from, to)?;
    let ghost o = from@;
    let ghost n = to@;
    proof {
        assert(rename_steps(c, o, n, 0) == c);
    }
    let target_nodes = node_ids_in(store, to)?;
    let target_policies = policies_under(store, to)?;
    proof {
        let texts = texts_view(target_nodes@);
        if target_nodes@.len() > 0 {
            assert(texts.contains(texts[0]));
            assert(members_of(c, n).contains(texts[0]));
        }
        if exists|m: Seq<char>| c.members.contains((n, m)) {
            let m = choose|m: Seq<char>| c.members.contains((n, m));
            assert(members_of(c, n).contains(m));
            assert(texts.contains(m));
        }
        assert(taken(c, n) <==> target_nodes@.len() > 0 || target_policies@.len() > 0);
    }
    refuse_taken(to, &target_nodes, &target_policies)?;

    let nodes = node_ids_in(store, from)?;
    let edges = edge_keys_in(store, from)?;
    proof {
        listed_count(texts_view(nodes@), members_of(c, o));
        listed_count(texts_view(edges@), edges_of(c, o));
        reveal_with_fuel(rename_steps, 7);
    }
    let both = two("old", from, "new", to);
    let source = one("old", from);

    store.run_mut(COPY_MEMBERS, &both, at)?;
    assert(store.held() == rename_steps(c, o, n, 1));
    store.run_mut(DROP_MEMBERS, &source, at)?;
    assert(store.held() == rename_steps(c, o, n, 2));
    store.run_mut(COPY_EDGE_MEMBERS, &both, at)?;
    assert(store.held() == rename_steps(c, o, n, 3));
    store.run_mut(DROP_EDGE_MEMBERS, &source, at)?;
    assert(store.held() == rename_steps(c, o, n, 4));
    store.run_mut(COPY_POLICY, &both, at)?;
    assert(store.held() == rename_steps(c, o, n, 5));
    store.run_mut(DROP_POLICY, &source, at)?;
    assert(store.held() == rename_steps(c, o, n, 6));
    assert(rename_steps(c, o, n, 6) == renamed(c, o, n));

    let refs = vec![from.to_owned(), to.to_owned()];
    assert(texts_view(refs@) =~= seq![o, n]);
    write_audit(store, at, "rename_initiative", "system", &refs)?;
    Ok(RenameStats { nodes: nodes.len(), edges: edges.len() })
}

/// Renames initiative `from` to `to` as [`rename_initiative_at`] does, at the present moment.
pub fn rename_initiative(store: &mut Store, from: &str, to: &str) -> (r: Result<
    RenameStats,
    StoreError,
>)
    ensures
        final(store).settings() == old(store).settings(),
        exists|at: int|
            0 <= at && second_showed(at) && #[trigger] rename_outcome(
                old(store).held(),
                final(store).held(),
                trimmed(from@),
                trimmed(to@),
                at,
                r,
            ),
{
    let at = now_seconds();
    rename_initiative_at(store, from, to, at)
}

/// A rename into a free name moves every node, edge and policy: the new name has what the old one
/// had (beside edges it may have had already), the old name has nothing, no other name changes, and
/// no node or edge is written.
pub proof fn a_rename_moves_everything(c: Contents, old: Seq<char>, new: Seq<char>)
    requires
        old != new,
        !taken(c, new),
    ensures
        members_of(renamed(c, old, new), new) == members_of(c, old),
        edges_of(renamed(c, old, new), new) == edges_of(c, old).union(edges_of(c, new)),
        renamed(c, old, new).policies.dom().contains(new) == c.policies.dom().contains(old),
        c.policies.dom().contains(old) ==> renamed(c, old, new).policies[new] == c.policies[old],
        members_of(renamed(c, old, new), old) == Set::<Seq<char>>::empty(),
        edges_of(renamed(c, old, new), old) == Set::<Seq<char>>::empty(),
        !renamed(c, old, new).policies.dom().contains(old),
        forall|other: Seq<char>|
            other != old && other != new ==> #[trigger] members_of(renamed(c, old, new), other)
                == members_of(c, other) && edges_of(renamed(c, old, new), other) == edges_of(
                c,
                other,
            ),
        renamed(c, old, new).nodes == c.nodes,
        renamed(c, old, new).edges == c.edges,
{
    let d = renamed(c, old, new);
    assert(members_of(d, new) =~= members_of(c, old));
    assert(edges_of(d, new) =~= edges_of(c, old).union(edges_of(c, new)));
    assert(members_of(d, old) =~= Set::<Seq<char>>::empty());
    assert(edges_of(d, old) =~= Set::<Seq<char>>::empty());
    assert forall|other: Seq<char>| other != old && other != new implies #[trigger] members_of(
        d,
        other,
    ) == members_of(c, other) && edges_of(d, other) == edges_of(c, other) by {
        assert(members_of(d, other) =~= members_of(c, other));
        assert(edges_of(d, other) =~= edges_of(c, other));
    }
}

/// A rename into a wholly unused name and back again restores what was held.
pub proof fn a_rename_can_be_undone(c: Contents, old: Seq<char>, new: Seq<char>)
    requires
        old != new,
        !taken(c, new),
        edges_of(c, new) == Set::<Seq<char>>::empty(),
    ensures
        renamed(renamed(c, old, new), new, old) == c,
{
    let d = renamed(c, old, new);
    let e = renamed(d, new, old);
    assert forall|p: (Seq<char>, Seq<char>)| e.members.contains(p) == c.members.contains(p) by {
        assert(c.members.contains((new, p.1)) ==> taken(c, new));
        assert(p == (p.0, p.1));
    }
    assert forall|p: (Seq<char>, Seq<char>)|
        e.edge_members.contains(p) == c.edge_members.contains(p) by {
        assert(edges_of(c, new).contains(p.1) == c.edge_members.contains((new, p.1)));
        assert(p == (p.0, p.1));
    }
    assert(e.members =~= c.members);
    assert(e.edge_members =~= c.edge_members);
    assert(e.policies =~= c.policies);
}

} // verus!
