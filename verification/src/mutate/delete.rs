//! Deleting an initiative, and knowing beforehand what that destroys.

use super::merge::merged;
use super::{audited, node_ids_in};
use crate::clock::{now_seconds, present, second_showed};
use crate::model::{
    live, reads_as, retracted_all, retracting_hides, retracting_in_turn, retracting_keeps_the_past,
    untouched, Contents, EdgeId,
};
use crate::nodes::{forget_at, forgetting_in_turn, forgotten};
use crate::rows::{first_texts, listed_count, lists, one_more};
use crate::store::{one, write_audit, Store, StoreError};
use crate::substrate::{
    dropped, edges_of, homes_of, members_of, texts_view, touching, DROP_EDGE_MEMBERS, DROP_MEMBERS,
    DROP_POLICY, HOMES,
};
use crate::text::{trim, trimmed};
use vstd::prelude::*;

verus! {

/// Counts affected by [`delete_initiative`].
#[derive(Debug, Clone, Copy, PartialEq, Eq, Structural)]
pub struct DeleteStats {
    /// Nodes that lost this membership but remain in other initiatives.
    pub unscoped: usize,
    /// Nodes that were exclusive to this initiative and got forgotten.
    pub forgotten: usize,
}

/// Whether a node has a home besides `name`.
pub open spec fn homed_elsewhere(c: Contents, name: Seq<char>, node_id: Seq<char>) -> bool {
    exists|i: Seq<char>| i != name && c.members.contains((i, node_id))
}

/// The nodes attached to `name` and to no other initiative.
pub open spec fn exclusive_to(c: Contents, name: Seq<char>) -> Set<Seq<char>> {
    Set::new(|n: Seq<char>| c.members.contains((name, n)) && !homed_elsewhere(c, name, n))
}

/// The nodes attached to `name` and to another initiative too.
pub open spec fn shared_from(c: Contents, name: Seq<char>) -> Set<Seq<char>> {
    Set::new(|n: Seq<char>| c.members.contains((name, n)) && homed_elsewhere(c, name, n))
}

/// Initiatives a node is attached to.
fn homes(store: &Store, node_id: &str) -> (r: Result<Vec<String>, StoreError>)
    ensures
        r matches Ok(names) ==> lists(texts_view(names@), homes_of(store.held(), node_id@)),
        r matches Err(e) ==> e is Substrate,
{
    let rows = store.run_read(HOMES, &one("nid", node_id), 0)?;
    Ok(first_texts(&rows))
}

/// Of a node attached to `name`: it has a second home exactly if more than one is listed.
proof fn counts_homes(c: Contents, name: Seq<char>, node_id: Seq<char>, names: Seq<Seq<char>>)
    requires
        c.members.contains((name, node_id)),
        lists(names, homes_of(c, node_id)),
    ensures
        names.len() > 1 <==> homed_elsewhere(c, name, node_id),
{
    assert(homes_of(c, node_id).contains(name));
    assert(names.contains(name));
    let at = names.index_of(name);
    if names.len() > 1 {
        let other = if at == 0 {
            names[1]
        } else {
            names[0]
        };
        assert(names.contains(other));
        assert(homes_of(c, node_id).contains(other));
    }
    if homed_elsewhere(c, name, node_id) {
        let i = choose|i: Seq<char>| i != name && c.members.contains((i, node_id));
        assert(homes_of(c, node_id).contains(i));
        assert(names.contains(i));
        assert(names.index_of(i) != at);
    }
}

/// Whether the impact of deleting `name` may read as `r`.
pub open spec fn impact_read(
    c: Contents,
    name: Seq<char>,
    r: Result<DeleteStats, StoreError>,
) -> bool {
    match r {
        Ok(stats) => {
            &&& exclusive_to(c, name).finite() && stats.forgotten == exclusive_to(c, name).len()
            &&& shared_from(c, name).finite() && stats.unscoped == shared_from(c, name).len()
        },
        Err(e) => e is Substrate,
    }
}

/// What [`delete_initiative`] would destroy, without destroying it.
///
/// Deleting forgets every node exclusive to the name it removes. That is reasonable for an
/// initiative genuinely not wanted and a trap for a duplicate; say the number before acting on it.
pub fn delete_initiative_impact(store: &Store, name: &str) -> (r: Result<DeleteStats, StoreError>)
    ensures
        impact_read(store.held(), trimmed(name@), r),
{
    let name = trim(name);
    let ghost c = store.held();
    let ghost n = name@;
    let nodes = node_ids_in(store, name)?;
    let ghost texts = texts_view(nodes@);
    let mut unscoped: usize = 0;
    let mut forgotten: usize = 0;
    let ghost mut kept: Set<Seq<char>> = Set::empty();
    let ghost mut gone: Set<Seq<char>> = Set::empty();
    let mut k: usize = 0;
    while k < nodes.len()
        invariant
            k <= nodes@.len(),
            c == store.held(),
            n == name@,
            texts == texts_view(nodes@),
            lists(texts, members_of(c, n)),
            counted(c, n, texts, k as int, gone, kept),
            forgotten == gone.len(),
            unscoped == kept.len(),
            unscoped + forgotten == k,
        decreases nodes.len() - k,
    {
        let elsewhere = homes(store, nodes[k].as_str())?;
        proof {
            let id = texts[k as int];
            assert(id == nodes@[k as int]@);
            assert(texts.contains(id));
            assert(members_of(c, n).contains(id));
            counts_homes(c, n, id, texts_view(elsewhere@));
            count_one(c, n, texts, k as int, gone, kept);
            if elsewhere@.len() > 1 {
                kept = kept.insert(id);
            } else {
                gone = gone.insert(id);
            }
        }
        if elsewhere.len() > 1 {
            unscoped += 1;
        } else {
            forgotten += 1;
        }
        k += 1;
    }
    proof {
        counted_all(c, n, texts, gone, kept);
    }
    Ok(DeleteStats { unscoped, forgotten })
}

/// `gone` and `kept` part the first `k` listed nodes of `n` into those that live only there and
/// those with another home.
spec fn counted(
    c: Contents,
    n: Seq<char>,
    texts: Seq<Seq<char>>,
    k: int,
    gone: Set<Seq<char>>,
    kept: Set<Seq<char>>,
) -> bool {
    &&& gone.finite()
    &&& kept.finite()
    &&& forall|t: Seq<char>| #[trigger]
        gone.contains(t) <==> texts.take(k).contains(t) && exclusive_to(c, n).contains(t)
    &&& forall|t: Seq<char>| #[trigger]
        kept.contains(t) <==> texts.take(k).contains(t) && shared_from(c, n).contains(t)
}

proof fn count_one(
    c: Contents,
    n: Seq<char>,
    texts: Seq<Seq<char>>,
    k: int,
    gone: Set<Seq<char>>,
    kept: Set<Seq<char>>,
)
    requires
        0 <= k < texts.len(),
        lists(texts, members_of(c, n)),
        counted(c, n, texts, k, gone, kept),
    ensures
        !gone.contains(texts[k]),
        !kept.contains(texts[k]),
        if homed_elsewhere(c, n, texts[k]) {
            counted(c, n, texts, k + 1, gone, kept.insert(texts[k]))
        } else {
            counted(c, n, texts, k + 1, gone.insert(texts[k]), kept)
        },
{
    let id = texts[k];
    assert(texts.contains(id));
    assert(members_of(c, n).contains(id));
    one_more(texts, k);
}

proof fn counted_all(
    c: Contents,
    n: Seq<char>,
    texts: Seq<Seq<char>>,
    gone: Set<Seq<char>>,
    kept: Set<Seq<char>>,
)
    requires
        lists(texts, members_of(c, n)),
        counted(c, n, texts, texts.len() as int, gone, kept),
    ensures
        gone == exclusive_to(c, n),
        kept == shared_from(c, n),
{
    assert(texts.take(texts.len() as int) =~= texts);
    assert forall|t: Seq<char>| members_of(c, n).contains(t) implies texts.contains(t) by {}
    assert forall|t: Seq<char>|
        exclusive_to(c, n).contains(t) || shared_from(c, n).contains(t) implies texts.contains(
        t,
    ) by {
        assert(members_of(c, n).contains(t));
    }
    assert(gone =~= exclusive_to(c, n));
    assert(kept =~= shared_from(c, n));
}

/// The first steps of a delete, in order: both memberships and the policy are dropped.
pub open spec fn delete_steps(c: Contents, name: Seq<char>, k: int) -> Contents {
    Contents {
        members: if k >= 1 {
            dropped(c.members, name)
        } else {
            c.members
        },
        edge_members: if k >= 2 {
            dropped(c.edge_members, name)
        } else {
            c.edge_members
        },
        policies: if k >= 3 {
            c.policies.remove(name)
        } else {
            c.policies
        },
        ..c
    }
}

/// What a store holds after `name` was deleted at the moment `at`.
pub open spec fn deleted(c: Contents, name: Seq<char>, at: int) -> Contents {
    forgotten(delete_steps(c, name, 3), exclusive_to(c, name), at)
}

/// What a store may hold after a delete that the database failed half way: at most what the whole
/// delete would have dropped is dropped, and at most what it would have retracted is retracted.
pub open spec fn partly_deleted(c: Contents, d: Contents, name: Seq<char>, at: int) -> bool {
    ||| exists|k: int| 0 <= k <= 2 && d == #[trigger] delete_steps(c, name, k)
    ||| exists|nodes: Set<Seq<char>>, edges: Set<Seq<char>>|
        {
            &&& nodes.subset_of(exclusive_to(c, name))
            &&& edges.subset_of(nodes)
            &&& d == #[trigger] retracted_at(delete_steps(c, name, 3), nodes, edges, at)
        }
}

/// `c` with some nodes retracted, and the edges of some nodes.
pub open spec fn retracted_at(
    c: Contents,
    nodes: Set<Seq<char>>,
    edges: Set<Seq<char>>,
    at: int,
) -> Contents {
    Contents {
        nodes: retracted_all(c.nodes, nodes, at),
        edges: retracted_all(c.edges, touching(edges), at),
        ..c
    }
}

/// How a delete ends: with contents `c` before and `d` after.
pub open spec fn delete_outcome(
    c: Contents,
    d: Contents,
    name: Seq<char>,
    at: int,
    r: Result<DeleteStats, StoreError>,
) -> bool {
    match r {
        Ok(stats) => {
            &&& d == audited(deleted(c, name, at), at, "delete_initiative"@, seq![name])
            &&& exclusive_to(c, name).finite() && stats.forgotten == exclusive_to(c, name).len()
            &&& shared_from(c, name).finite() && stats.unscoped == shared_from(c, name).len()
        },
        Err(StoreError::Substrate(_)) => partly_deleted(c, d, name, at),
        Err(_) => false,
    }
}

/// The listed nodes that are in no initiative at all.
pub open spec fn homeless(c: Contents, texts: Seq<Seq<char>>) -> Set<Seq<char>> {
    Set::new(
        |t: Seq<char>| texts.contains(t) && forall|i: Seq<char>| !c.members.contains((i, t)),
    )
}

/// Forgets those of the listed nodes that are in no initiative at all, and counts them.
fn forget_homeless(store: &mut Store, nodes: &Vec<String>, at: i64) -> (r: Result<
    usize,
    StoreError,
>)
    requires
        texts_view(nodes@).no_duplicates(),
    ensures
        final(store).settings() == old(store).settings(),
        r matches Ok(count) ==> {
            let gone = homeless(old(store).held(), texts_view(nodes@));
            &&& final(store).held() == forgotten(old(store).held(), gone, at as int)
            &&& gone.finite()
            &&& count == gone.len()
        },
        r matches Err(e) ==> e is Substrate && exists|some: Set<Seq<char>>, edges: Set<Seq<char>>|
            {
                &&& some.subset_of(homeless(old(store).held(), texts_view(nodes@)))
                &&& edges.subset_of(some)
                &&& final(store).held() == #[trigger] retracted_at(
                    old(store).held(),
                    some,
                    edges,
                    at as int,
                )
            },
{
    let ghost c = store.held();
    let ghost texts = texts_view(nodes@);
    let mut count: usize = 0;
    let ghost mut gone: Set<Seq<char>> = Set::empty();
    let mut k: usize = 0;
    proof {
        nothing_forgotten(c, at as int);
        assert(homeless(c, texts.take(0)) =~= gone);
    }
    while k < nodes.len()
        invariant
            k <= nodes@.len(),
            texts == texts_view(nodes@),
            texts.no_duplicates(),
            c == old(store).held(),
            gone == homeless(c, texts.take(k as int)),
            gone.finite(),
            count == gone.len(),
            count <= k,
            store.held() == forgotten(c, gone, at as int),
            store.settings() == old(store).settings(),
        decreases nodes.len() - k,
    {
        let ghost id = texts[k as int];
        proof {
            assert(id == nodes@[k as int]@);
            homeless_so_far(c, texts, k as int);
            assert(store.held() == retracted_at(c, gone, gone, at as int));
        }
        let still = homes(store, nodes[k].as_str())?;
        proof {
            let names = texts_view(still@);
            if still@.len() > 0 {
                assert(names.contains(names[0]));
                assert(homes_of(store.held(), id).contains(names[0]));
            }
            assert forall|i: Seq<char>| c.members.contains((i, id)) implies still@.len() > 0 by {
                assert(homes_of(store.held(), id).contains(i));
                assert(names.contains(i));
            }
        }
        if still.len() == 0 {
            let done = forget_at(store, nodes[k].as_str(), at);
            proof {
                forgetting_in_turn(c, gone, set![id], at as int);
                assert(gone.union(set![id]) =~= gone.insert(id));
                retracting_in_turn(c.nodes, gone, set![id], at as int);
                if done is Err {
                    assert(store.held() == retracted_at(c, gone, gone, at as int) || store.held()
                        == retracted_at(c, gone.insert(id), gone, at as int));
                }
                gone = gone.insert(id);
            }
            done?;
            count += 1;
        }
        k += 1;
    }
    proof {
        assert(texts.take(k as int) =~= texts);
    }
    Ok(count)
}

/// Forgetting no node changes nothing.
proof fn nothing_forgotten(c: Contents, at: int)
    ensures
        forgotten(c, Set::empty(), at) == c,
{
    assert(touching(Set::empty()) =~= Set::empty());
    assert(retracted_all(c.nodes, Set::empty(), at) =~= c.nodes);
    assert(retracted_all(c.edges, touching(Set::empty()), at) =~= c.edges);
}

proof fn homeless_so_far(c: Contents, texts: Seq<Seq<char>>, k: int)
    requires
        0 <= k < texts.len(),
        texts.no_duplicates(),
    ensures
        homeless(c, texts.take(k)).subset_of(homeless(c, texts)),
        homeless(c, texts.take(k + 1)).subset_of(homeless(c, texts)),
        !homeless(c, texts.take(k)).contains(texts[k]),
        homeless(c, texts.take(k + 1)) == (if exists|i: Seq<char>|
            c.members.contains((i, texts[k])) {
            homeless(c, texts.take(k))
        } else {
            homeless(c, texts.take(k)).insert(texts[k])
        }),
{
    let id = texts[k];
    one_more(texts, k);
    assert forall|t: Seq<char>| texts.take(k + 1).contains(t) implies texts.contains(t) by {
        let j = texts.take(k + 1).index_of(t);
        assert(texts[j] == t);
    }
    assert(homeless(c, texts.take(k + 1)) =~= (if exists|i: Seq<char>|
        c.members.contains((i, id)) {
        homeless(c, texts.take(k))
    } else {
        homeless(c, texts.take(k)).insert(id)
    }));
}

/// Deletes initiative `name` at the moment `at`: drops its memberships and policy, then forgets
/// every node that was exclusive to it and is now in no initiative at all. Nodes shared with other
/// initiatives only lose this one membership. Forgetting is bi-temporal: a read of a moment before
/// `at` still finds what was forgotten.
pub fn delete_initiative_at(store: &mut Store, name: &str, at: i64) -> (r: Result<
    DeleteStats,
    StoreError,
>)
    ensures
        final(store).settings() == old(store).settings(),
        delete_outcome(old(store).held(), final(store).held(), trimmed(name@), at as int, r),
{
    let name = trim(name);
    let ghost c = store.held();
    let ghost n = name@;
    assert(delete_steps(c, n, 0) == c);
    let nodes = node_ids_in(store, name)?;
    let ghost texts = texts_view(nodes@);
    let params = one("old", name);
    store.run_mut(DROP_MEMBERS, &params, at)?;
    assert(store.held() == delete_steps(c, n, 1));
    store.run_mut(DROP_EDGE_MEMBERS, &params, at)?;
    assert(store.held() == delete_steps(c, n, 2));
    store.run_mut(DROP_POLICY, &params, at)?;
    assert(store.held() == delete_steps(c, n, 3));
    proof {
        losing_the_last_home(c, n, texts);
        listed_count(texts, members_of(c, n));
    }
    let forgotten = forget_homeless(store, &nodes, at)?;
    proof {
        let gone = exclusive_to(c, n);
        assert(store.held() == retracted_at(delete_steps(c, n, 3), gone, gone, at as int));
        exclusive_and_shared(c, n);
    }
    let refs = vec![name.to_owned()];
    assert(texts_view(refs@) =~= seq![n]);
    write_audit(store, at, "delete_initiative", "system", &refs)?;
    Ok(DeleteStats { unscoped: nodes.len() - forgotten, forgotten })
}

/// The nodes of a dropped name that are left without a home are those that were exclusive to it.
proof fn losing_the_last_home(c: Contents, n: Seq<char>, texts: Seq<Seq<char>>)
    requires
        lists(texts, members_of(c, n)),
    ensures
        homeless(delete_steps(c, n, 3), texts) == exclusive_to(c, n),
{
    let d = delete_steps(c, n, 3);
    assert forall|t: Seq<char>| homeless(d, texts).contains(t) == exclusive_to(c, n).contains(
        t,
    ) by {
        assert(texts.contains(t) <==> members_of(c, n).contains(t));
        if homed_elsewhere(c, n, t) {
            let i = choose|i: Seq<char>| i != n && c.members.contains((i, t));
            assert(d.members.contains((i, t)));
        }
        if exists|i: Seq<char>| d.members.contains((i, t)) {
            let i = choose|i: Seq<char>| d.members.contains((i, t));
            assert(c.members.contains((i, t)));
        }
    }
    assert(homeless(d, texts) =~= exclusive_to(c, n));
}

/// Every node of an initiative is either exclusive to it or shared with another.
pub proof fn exclusive_and_shared(c: Contents, name: Seq<char>)
    ensures
        exclusive_to(c, name).union(shared_from(c, name)) == members_of(c, name),
        exclusive_to(c, name).disjoint(shared_from(c, name)),
        members_of(c, name).finite() ==> exclusive_to(c, name).finite() && shared_from(
            c,
            name,
        ).finite() && exclusive_to(c, name).len() + shared_from(c, name).len() == members_of(
            c,
            name,
        ).len(),
{
    let e = exclusive_to(c, name);
    let s = shared_from(c, name);
    assert(e.union(s) =~= members_of(c, name));
    if members_of(c, name).finite() {
        vstd::set_lib::lemma_len_subset(e, members_of(c, name));
        vstd::set_lib::lemma_len_subset(s, members_of(c, name));
        vstd::set_lib::lemma_set_disjoint_lens(e, s);
    }
}

/// Deletes initiative `name` as [`delete_initiative_at`] does, at the present moment.
pub fn delete_initiative(store: &mut Store, name: &str) -> (r: Result<DeleteStats, StoreError>)
    ensures
        final(store).settings() == old(store).settings(),
        exists|at: int|
            0 <= at && second_showed(at) && #[trigger] delete_outcome(
                old(store).held(),
                final(store).held(),
                trimmed(name@),
                at,
                r,
            ),
{
    let at = now_seconds();
    delete_initiative_at(store, name, at)
}

/// The impact read before a delete is what the delete then reports.
pub proof fn the_impact_predicts_the_delete(
    c: Contents,
    d: Contents,
    name: Seq<char>,
    at: int,
    impact: DeleteStats,
    stats: DeleteStats,
)
    requires
        impact_read(c, name, Ok(impact)),
        delete_outcome(c, d, name, at, Ok(stats)),
    ensures
        impact == stats,
{
}

/// A delete leaves every node that has another home as it was: it reads the same at every moment,
/// and it keeps its other homes.
pub proof fn a_delete_keeps_what_is_shared(
    c: Contents,
    name: Seq<char>,
    at: int,
    node_id: Seq<char>,
    moment: int,
)
    requires
        !exclusive_to(c, name).contains(node_id),
    ensures
        reads_as(deleted(c, name, at).nodes, node_id, moment) == reads_as(
            c.nodes,
            node_id,
            moment,
        ),
        homes_of(deleted(c, name, at), node_id) == homes_of(c, node_id).remove(name),
        c.members.contains((name, node_id)) ==> exists|i: Seq<char>|
            deleted(c, name, at).members.contains((i, node_id)),
{
    retracting_keeps_the_past(c.nodes, exclusive_to(c, name), at, node_id, moment);
    assert(homes_of(deleted(c, name, at), node_id) =~= homes_of(c, node_id).remove(name));
    if c.members.contains((name, node_id)) {
        assert(homed_elsewhere(c, name, node_id));
        let i = choose|i: Seq<char>| i != name && c.members.contains((i, node_id));
        assert(deleted(c, name, at).members.contains((i, node_id)));
    }
}

/// A delete forgets every node that lives only there: it reads no more, from then on up to the
/// next write under its id, unless the second of the delete also asserts it.
pub proof fn a_delete_forgets_what_is_exclusive(
    c: Contents,
    name: Seq<char>,
    at: int,
    node_id: Seq<char>,
    later: int,
)
    requires
        exclusive_to(c, name).contains(node_id),
        at <= later,
        !c.nodes.dom().contains((node_id, at, true)),
        untouched(c.nodes, node_id, at, later),
    ensures
        !live(deleted(c, name, at).nodes, node_id, later),
{
    retracting_hides(c.nodes, exclusive_to(c, name), at, node_id, later);
}

/// A delete takes the edges of what it forgets: from then on up to its next write, such an edge
/// reads no more, unless the second of the delete also asserts it.
pub proof fn a_delete_takes_the_edges_of_what_it_forgets(
    c: Contents,
    name: Seq<char>,
    at: int,
    e: EdgeId,
    later: int,
)
    requires
        exclusive_to(c, name).contains(e.src) || exclusive_to(c, name).contains(e.dst),
        at <= later,
        !c.edges.dom().contains((e, at, true)),
        untouched(c.edges, e, at, later),
    ensures
        !live(deleted(c, name, at).edges, e, later),
{
    retracting_hides(c.edges, touching(exclusive_to(c, name)), at, e, later);
}

/// An edge between nodes that a delete does not forget reads as before, at every moment.
pub proof fn a_delete_keeps_the_edges_of_what_stays(
    c: Contents,
    name: Seq<char>,
    at: int,
    e: EdgeId,
    moment: int,
)
    requires
        !exclusive_to(c, name).contains(e.src),
        !exclusive_to(c, name).contains(e.dst),
    ensures
        reads_as(deleted(c, name, at).edges, e, moment) == reads_as(c.edges, e, moment),
{
    retracting_keeps_the_past(c.edges, touching(exclusive_to(c, name)), at, e, moment);
}

/// A delete is recoverable: every read of an earlier moment finds what it found before.
pub proof fn a_delete_keeps_the_past(
    c: Contents,
    name: Seq<char>,
    at: int,
    node_id: Seq<char>,
    edge: EdgeId,
    moment: int,
)
    requires
        moment < at,
    ensures
        reads_as(deleted(c, name, at).nodes, node_id, moment) == reads_as(
            c.nodes,
            node_id,
            moment,
        ),
        reads_as(deleted(c, name, at).edges, edge, moment) == reads_as(c.edges, edge, moment),
{
    retracting_keeps_the_past(c.nodes, exclusive_to(c, name), at, node_id, moment);
    retracting_keeps_the_past(c.edges, touching(exclusive_to(c, name)), at, edge, moment);
}

/// A deleted name keeps nothing, and no other name changes.
pub proof fn a_delete_removes_the_name(c: Contents, name: Seq<char>, at: int)
    ensures
        members_of(deleted(c, name, at), name) == Set::<Seq<char>>::empty(),
        edges_of(deleted(c, name, at), name) == Set::<Seq<char>>::empty(),
        !deleted(c, name, at).policies.dom().contains(name),
        forall|other: Seq<char>|
            other != name ==> #[trigger] members_of(deleted(c, name, at), other) == members_of(
                c,
                other,
            ) && edges_of(deleted(c, name, at), other) == edges_of(c, other),
{
    let d = deleted(c, name, at);
    assert(members_of(d, name) =~= Set::<Seq<char>>::empty());
    assert(edges_of(d, name) =~= Set::<Seq<char>>::empty());
    assert forall|other: Seq<char>| other != name implies #[trigger] members_of(d, other)
        == members_of(c, other) && edges_of(d, other) == edges_of(c, other) by {
        assert(members_of(d, other) =~= members_of(c, other));
        assert(edges_of(d, other) =~= edges_of(c, other));
    }
}

/// A merge keeps what a delete of the same name would destroy: where the delete takes a node out
/// of every read from `at` on, the merge leaves all its reads as they were.
pub proof fn a_merge_keeps_what_a_delete_destroys(
    c: Contents,
    source: Seq<char>,
    target: Seq<char>,
    at: int,
    node_id: Seq<char>,
    later: int,
)
    requires
        source != target,
        exclusive_to(c, source).contains(node_id),
        at <= later,
        live(c.nodes, node_id, later),
        !c.nodes.dom().contains((node_id, at, true)),
        untouched(c.nodes, node_id, at, later),
    ensures
        live(merged(c, source, target).nodes, node_id, later),
        merged(c, source, target).members.contains((target, node_id)),
        !live(deleted(c, source, at).nodes, node_id, later),
{
    a_delete_forgets_what_is_exclusive(c, source, at, node_id, later);
}

} // verus!
