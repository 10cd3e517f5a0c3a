//! Laws of whole calls: what a call of a verb that ended with `r` has done, and what it says.

use super::initiatives::{
    a_delete_counts_what_it_takes, a_delete_spares_what_has_another_home, a_delete_takes_one_name,
    a_merge_does_not_loosen_the_target, a_merge_joins_two_names, a_merge_needs_something_to_merge,
    a_rename_moves_one_name, a_rename_needs_a_free_name, all_at, an_attach_adds_one_home,
    initiatives_are_the_names_with_a_node, only_at,
};
use super::listings::{
    a_brief_is_that_of_its_node, says_of_its_node, the_edges_of_an_initiative_are_listed,
    the_nodes_of_an_initiative_are_listed,
};
use super::open_work::{
    is_looked_at, the_due_reminders_are_shown, the_open_claims_are_shown, the_open_tasks_are_shown,
};
use super::recall::{
    a_known_name_gets_no_suggestion, a_misspelt_name_gets_a_suggestion,
    a_name_around_or_within_a_known_one_gets_a_suggestion, a_suggestion_is_no_stranger, at_both,
    nothing_related_is_nearer, the_report_says_why,
};
use super::rest::{
    a_node_is_refused_for_its_fault, a_node_is_shown_as_it_reads, an_edge_is_refused_for_its_fault,
    edge_fault, fault, shows_as_sent,
};
use crate::api::edges::{
    ingest_edge, ingest_edge_outcome, retract_edge, retract_edge_outcome, EdgeIngestReq,
    EdgeRetractReq, EdgeView,
};
use crate::api::nodes::{
    get_node, get_node_answer, ingest_node, ingest_node_outcome, retract_node,
    retract_node_outcome, NodeIngestReq, NodeView,
};
use crate::api::{ApiError, Vocabulary};
use crate::briefs::{brief_read, node_brief_by_id, NodeBrief};
use crate::clock::{clock_showed, day_showed, second_of, second_showed};
use crate::edges::{clamped, link, linked};
use crate::listing::{
    count_nodes_in_initiative, count_read, edges_in_initiative, edges_read, nodes_in_initiative,
    nodes_read,
};
use crate::model::{reads_as, retracting_hides, untouched, Contents, EdgeId, EdgeV, NodeV};
use crate::mutate::attach::{attach_node, attach_outcome, AttachStats};
use crate::mutate::delete::{
    delete_initiative, delete_initiative_impact, delete_outcome, exclusive_to, DeleteStats,
};
use crate::mutate::merge::{merge_initiative, merge_outcome, MergeStats};
use crate::mutate::rename::{rename_initiative, rename_outcome, RenameStats};
use crate::nodes::{
    forget, forget_outcome, full_read, read_node_full, upsert_node, upsert_outcome, NodeFull,
};
use crate::open_work::{
    claims_read, due_on, due_reminders, due_reminders_at, open_claims, open_tasks, open_tasks_at,
    reminders_read, tasks_read, terminal_key, DueReminder, OpenTask,
};
use crate::policy::{get_share_policy, set_share_policy, SharePolicy};
use crate::recall::duplicates::{
    all_counted, findings, near_duplicate_initiatives, normalised, triples_view,
};
use crate::recall::suggest::{
    all_with_lowercase, suggest_initiative, suggestion, with_lowercase,
};
use crate::recall::{in_order, list_initiatives};
use crate::spelling::{distance, reaches};
use crate::store::{Store, StoreError};
use crate::substrate::{initiatives_of, optional_text, texts_view, NodeRecord};
use crate::tags::said;
use crate::text::{decimal, lowercase, occurs_in, text_lt, trimmed};
use vstd::prelude::*;

verus! {

/// Whether a name has a node.
pub open spec fn has_a_node(c: Contents, name: Seq<char>) -> bool {
    exists|n: Seq<char>| #[trigger] c.members.contains((name, n))
}

// ---- initiatives ---------------------------------------------------------------

/// A delete happens in a second that the clock showed, and takes out of every read from then on what
/// was attached to the trimmed name alone and last written before that second.
pub proof fn deleting_forgets_what_lives_only_there(
    store: &mut Store,
    name: &str,
    r: Result<DeleteStats, StoreError>,
    node_id: Seq<char>,
)
    requires
        call_ensures(delete_initiative, (store, name), r),
        r is Ok,
        only_at(old(store).held(), trimmed(name@)).contains(node_id),
    ensures
        exists|at: int| #[trigger]
            second_showed(at) && 0 <= at && ((forall|t: int, asserted: bool| #[trigger]
                old(store).held().nodes.dom().contains((node_id, t, asserted)) ==> t < at)
                ==> forall|later: int|
                at <= later ==> #[trigger] reads_as(final(store).held().nodes, node_id, later)
                    is None),
{
    let (c, d) = (old(store).held(), final(store).held());
    let n = trimmed(name@);
    let at = choose|at: int|
        0 <= at && second_showed(at) && #[trigger] delete_outcome(c, d, n, at, r);
    assert(forall|i: Seq<char>| #[trigger] c.members.contains((i, node_id)) ==> i == n);
    assert(exclusive_to(c, n).contains(node_id));
    if forall|t: int, asserted: bool| #[trigger]
        c.nodes.dom().contains((node_id, t, asserted)) ==> t < at {
        assert forall|later: int| at <= later implies #[trigger] reads_as(d.nodes, node_id, later)
            is None by {
            assert(untouched(c.nodes, node_id, at, later));
            retracting_hides(c.nodes, exclusive_to(c, n), at, node_id, later);
        }
    }
}

/// A delete leaves every node that is not attached to the trimmed name alone as it reads, every
/// membership of another name and no membership of this one; it reports how many it forgot, how many
/// it kept, and the impact read before it says the same.
pub proof fn deleting_keeps_the_rest(
    store: &mut Store,
    name: &str,
    r: Result<DeleteStats, StoreError>,
    impact: Result<DeleteStats, StoreError>,
    node_id: Seq<char>,
    i: Seq<char>,
    moment: int,
)
    requires
        call_ensures(delete_initiative, (store, name), r),
        call_ensures(delete_initiative_impact, (&*old(store), name), impact),
        r is Ok,
    ensures
        ({
            let (c, d, n) = (old(store).held(), final(store).held(), trimmed(name@));
            &&& final(store).settings() == old(store).settings()
            &&& !only_at(c, n).contains(node_id) ==> reads_as(d.nodes, node_id, moment) == reads_as(
                c.nodes,
                node_id,
                moment,
            )
            &&& d.members.contains((i, node_id)) <==> c.members.contains((i, node_id)) && i != n
            &&& d.policies.dom().contains(i) <==> c.policies.dom().contains(i) && i != n
            &&& impact is Ok ==> {
                &&& impact->Ok_0 == r->Ok_0
                &&& r->Ok_0.forgotten == only_at(c, n).len()
                &&& r->Ok_0.forgotten + r->Ok_0.unscoped == all_at(c, n).len()
            }
        }),
{
    let (c, d, n) = (old(store).held(), final(store).held(), trimmed(name@));
    let at = choose|at: int|
        0 <= at && second_showed(at) && #[trigger] delete_outcome(c, d, n, at, r);
    a_delete_takes_one_name(c, d, n, at, r->Ok_0);
    if impact is Ok {
        a_delete_counts_what_it_takes(c, d, n, at, r->Ok_0, impact->Ok_0);
    }
    if !only_at(c, n).contains(node_id) {
        if c.members.contains((n, node_id)) {
            let j = choose|j: Seq<char>| #[trigger] c.members.contains((j, node_id)) && j != n;
            assert(j != n && c.members.contains((j, node_id)));
        }
        let edge = EdgeId { src: node_id, dst: node_id, edge_type: Seq::empty() };
        a_delete_spares_what_has_another_home(c, d, n, at, r, node_id, node_id, edge, moment);
    }
}

/// A rename that went through moved every node and the policy of the trimmed old name to the trimmed
/// new one, which had neither; and every other name kept its own.
pub proof fn renaming_moves_one_name(
    store: &mut Store,
    from: &str,
    to: &str,
    r: Result<RenameStats, StoreError>,
    i: Seq<char>,
    n: Seq<char>,
)
    requires
        call_ensures(rename_initiative, (store, from, to), r),
    ensures
        ({
            let (c, d) = (old(store).held(), final(store).held());
            let (o, t) = (trimmed(from@), trimmed(to@));
            let free = t.len() > 0 && o != t && !has_a_node(c, t) && !c.policies.dom().contains(t);
            &&& final(store).settings() == old(store).settings()
            &&& r is Ok ==> {
                &&& free
                &&& d.members.contains((i, n)) <==> i != o && (c.members.contains((i, n)) || (i == t
                    && c.members.contains((o, n))))
                &&& d.policies.dom().contains(i) <==> i != o && (c.policies.dom().contains(i) || (i
                    == t && c.policies.dom().contains(o)))
                &&& i == t && d.policies.dom().contains(t) ==> d.policies[t] == c.policies[o]
                &&& d.nodes == c.nodes && d.edges == c.edges
                &&& r->Ok_0.nodes == all_at(c, o).len()
            }
            &&& !free ==> d == c && r is Err
            &&& free ==> (r matches Err(e) ==> e is Substrate)
        }),
{
    let (c, d) = (old(store).held(), final(store).held());
    let (o, t) = (trimmed(from@), trimmed(to@));
    let at = choose|at: int|
        0 <= at && second_showed(at) && #[trigger] rename_outcome(c, d, o, t, at, r);
    a_rename_needs_a_free_name(c, d, o, t, at, r);
    if r is Ok {
        a_rename_moves_one_name(c, d, o, t, at, r->Ok_0);
    }
}

/// A merge that went through gave the trimmed target every node of the trimmed source, took the
/// source's name away, and left every other name, and every node and edge, as it was.
pub proof fn merging_joins_two_names(
    store: &mut Store,
    source: &str,
    target: &str,
    r: Result<MergeStats, StoreError>,
    i: Seq<char>,
    n: Seq<char>,
)
    requires
        call_ensures(merge_initiative, (store, source, target), r),
    ensures
        ({
            let (c, d) = (old(store).held(), final(store).held());
            let (s, t) = (trimmed(source@), trimmed(target@));
            let fit = s.len() > 0 && t.len() > 0 && s != t && has_a_node(c, s);
            &&& final(store).settings() == old(store).settings()
            &&& r is Ok ==> {
                &&& fit
                &&& d.members.contains((i, n)) <==> i != s && (c.members.contains((i, n)) || (i == t
                    && c.members.contains((s, n))))
                &&& d.policies.dom().contains(t) <==> c.policies.dom().contains(t)
                    || c.policies.dom().contains(s)
                &&& c.policies.dom().contains(t) ==> d.policies[t] == c.policies[t]
                &&& r->Ok_0.nodes == all_at(c, s).len()
                &&& r->Ok_0.policy_kept_target <==> c.policies.dom().contains(s)
                    && c.policies.dom().contains(t)
            }
            &&& !fit ==> d == c && r is Err
            &&& d.nodes == c.nodes && d.edges == c.edges
        }),
{
    let (c, d) = (old(store).held(), final(store).held());
    let (s, t) = (trimmed(source@), trimmed(target@));
    let at = choose|at: int|
        0 <= at && second_showed(at) && #[trigger] merge_outcome(c, d, s, t, at, r);
    a_merge_needs_something_to_merge(c, d, s, t, at, r);
    if r is Ok {
        a_merge_joins_two_names(c, d, s, t, at, r->Ok_0);
        a_merge_does_not_loosen_the_target(c, d, s, t, at, r->Ok_0);
    } else if d != c {
        let m = choose|m: Seq<char>| #[trigger] c.members.contains((s, m));
        super::initiatives::a_merge_cut_short_loses_nothing(c, d, s, t, at, r->Err_0, s, m);
    }
}

/// An attach adds the node to the trimmed name and to no other, takes it from none, and goes through
/// only for a node that read at a moment the clock showed.
pub proof fn attaching_adds_one_home(
    store: &mut Store,
    node_id: &str,
    initiative: &str,
    r: Result<AttachStats, StoreError>,
    i: Seq<char>,
    n: Seq<char>,
)
    requires
        call_ensures(attach_node, (store, node_id, initiative), r),
    ensures
        ({
            let (c, d, init) = (old(store).held(), final(store).held(), trimmed(initiative@));
            &&& final(store).settings() == old(store).settings()
            &&& c.members.contains((i, n)) ==> d.members.contains((i, n))
            &&& d.members.contains((i, n)) ==> c.members.contains((i, n)) || (i == init && n
                == node_id@)
            &&& d.nodes == c.nodes && d.edges == c.edges && d.policies == c.policies
            &&& r matches Ok(stats) ==> d.members.contains((init, node_id@)) && init.len() > 0
                && stats.already_member == c.members.contains((init, node_id@))
            &&& init.len() == 0 ==> d == c && r is Err
            &&& exists|now: int| #[trigger]
                clock_showed(now) && (r is Ok ==> reads_as(c.nodes, node_id@, now) is Some) && (r
                    matches Err(StoreError::NotFound(_)) ==> reads_as(c.nodes, node_id@, now)
                    is None)
        }),
{
    let (c, d, init) = (old(store).held(), final(store).held(), trimmed(initiative@));
    let now = choose|now: int|
        0 <= now && clock_showed(now) && #[trigger] attach_outcome(
            c,
            d,
            node_id@,
            init,
            now,
            second_of(now),
            r,
        );
    an_attach_adds_one_home(c, d, node_id@, init, now, second_of(now), r);
}

/// The initiatives that are listed are the names with a node, in ascending order.
pub proof fn listing_names_every_initiative(
    store: Store,
    r: Result<Vec<String>, StoreError>,
    name: Seq<char>,
    i: int,
    j: int,
)
    requires
        call_ensures(list_initiatives, (&store,), r),
        r is Ok,
    ensures
        texts_view(r->Ok_0@).contains(name) <==> has_a_node(store.held(), name),
        0 <= i < j < r->Ok_0@.len() ==> text_lt(r->Ok_0@[i]@, r->Ok_0@[j]@),
{
    let texts = texts_view(r->Ok_0@);
    initiatives_are_the_names_with_a_node(store.held(), texts);
    if 0 <= i < j < r->Ok_0@.len() {
        assert(texts[i] == r->Ok_0@[i]@ && texts[j] == r->Ok_0@[j]@);
    }
}

// ---- discovery -------------------------------------------------------------------

/// Whether two names, in lower case, are related: one contains the other, or few edits lead from one
/// to the other, two or a third of the known one's length.
pub open spec fn related(req: Seq<char>, known: Seq<char>) -> bool {
    let (l, k) = (lowercase(req), lowercase(known));
    ||| occurs_in(l, k)
    ||| occurs_in(k, l)
    ||| distance(l, k) <= 2
    ||| 3 * distance(l, k) <= known.len()
}

/// A suggestion is made exactly where the trimmed name is no initiative and not empty, and some
/// initiative is related to it; and none that is related takes fewer edits than the suggested one.
pub proof fn suggesting_finds_the_nearest_relation(
    store: Store,
    requested: &str,
    r: Result<Option<String>, StoreError>,
    other: Seq<char>,
)
    requires
        call_ensures(suggest_initiative, (&store, requested), r),
        r is Ok,
    ensures
        ({
            let (c, req) = (store.held(), trimmed(requested@));
            let s = optional_text(r->Ok_0);
            &&& req.len() == 0 || has_a_node(c, req) ==> s is None
            &&& req.len() > 0 && !has_a_node(c, req) && has_a_node(c, other) && related(req, other)
                ==> s is Some && distance(lowercase(req), lowercase(s->0)) <= distance(
                lowercase(req),
                lowercase(other),
            )
            &&& s matches Some(name) ==> has_a_node(c, name) && name != req && related(req, name)
        }),
{
    let (c, req) = (store.held(), trimmed(requested@));
    let s = optional_text(r->Ok_0);
    let known = choose|known: Seq<Seq<char>>| #[trigger]
        in_order(known, initiatives_of(c)) && suggestion(
            all_with_lowercase(known),
            with_lowercase(req),
            s,
        );
    initiatives_are_the_names_with_a_node(c, known);
    assert forall|name: Seq<char>| #[trigger] known.contains(name) <==> has_a_node(c, name) by {}
    if req.len() == 0 || known.contains(req) {
        a_known_name_gets_no_suggestion(known, req, s);
    }
    if let Some(name) = s {
        a_suggestion_is_no_stranger(known, req, name);
        let (l, k) = (lowercase(req), lowercase(name));
        super::texts::what_occurs_is_in_the_midst(l, k);
        super::texts::what_occurs_is_in_the_midst(k, l);
        if exists|edits: nat| #[trigger]
            reaches(l, k, edits) && (edits <= 2 || 3 * edits <= name.len()) {
            let edits = choose|edits: nat| #[trigger]
                reaches(l, k, edits) && (edits <= 2 || 3 * edits <= name.len());
            crate::spelling::the_distance_is_the_fewest_edits(l, k, edits);
        }
    }
    if req.len() > 0 && !known.contains(req) && known.contains(other) && related(req, other) {
        let j = known.index_of(other);
        let (l, k) = (lowercase(req), lowercase(other));
        super::texts::what_occurs_is_in_the_midst(l, k);
        super::texts::what_occurs_is_in_the_midst(k, l);
        if occurs_in(l, k) {
            let (a, b) = choose|a: Seq<char>, b: Seq<char>| l == #[trigger] (a + k + b);
            a_name_around_or_within_a_known_one_gets_a_suggestion(known, req, s, j, a, b);
        } else if occurs_in(k, l) {
            let (a, b) = choose|a: Seq<char>, b: Seq<char>| k == #[trigger] (a + l + b);
            a_name_around_or_within_a_known_one_gets_a_suggestion(known, req, s, j, a, b);
        } else {
            crate::spelling::the_distance_is_the_fewest_edits(l, k, 0);
            a_misspelt_name_gets_a_suggestion(known, req, s, j, distance(l, k));
        }
        nothing_related_is_nearer(known, req, s->0, j);
    }
}

/// The report holds exactly the pairs of initiatives, in ascending order, whose names are the same but
/// for case and separators, or that share nodes, with their number.
pub proof fn reporting_finds_names_for_one_thing(
    store: Store,
    r: Result<Vec<(String, String, String)>, StoreError>,
    a: Seq<char>,
    b: Seq<char>,
    why: Seq<char>,
)
    requires
        call_ensures(near_duplicate_initiatives, (&store,), r),
        r is Ok,
    ensures
        triples_view(r->Ok_0@).contains((a, b, why)) <==> {
            let c = store.held();
            &&& has_a_node(c, a) && has_a_node(c, b) && text_lt(a, b)
            &&& if normalised(a) == normalised(b) {
                why == "same name apart from case and separators"@
            } else {
                &&& exists|n: Seq<char>| #[trigger]
                    c.members.contains((a, n)) && c.members.contains((b, n))
                &&& why == decimal(at_both(c, a, b).len()) + " node(s) in both"@
            }
        },
{
    let c = store.held();
    let known = choose|known: Seq<Seq<char>>| #[trigger]
        in_order(known, initiatives_of(c)) && triples_view(r->Ok_0@) == findings(
            c,
            known,
            known.len() as int,
        ) && all_counted(c, known);
    initiatives_are_the_names_with_a_node(c, known);
    the_report_says_why(c, known, a, b, why);
    if exists|i: int, j: int|
        #![trigger known[i], known[j]]
        0 <= i < j < known.len() && known[i] == a && known[j] == b {
        let (i, j) = choose|i: int, j: int|
            #![trigger known[i], known[j]]
            0 <= i < j < known.len() && known[i] == a && known[j] == b;
        assert(known.contains(a) && known.contains(b));
        assert(text_lt(known[i], known[j]));
    }
    if known.contains(a) && known.contains(b) && text_lt(a, b) {
        let (i, j) = (known.index_of(a), known.index_of(b));
        crate::text::text_lt_is_irreflexive(a);
        if j < i {
            assert(text_lt(known[j], known[i]));
            crate::text::text_lt_is_transitive(a, b, a);
        }
        assert(0 <= i < j < known.len() && known[i] == a && known[j] == b);
    }
    assert(known.contains(a) <==> has_a_node(c, a));
    assert(known.contains(b) <==> has_a_node(c, b));
}

// ---- open work -------------------------------------------------------------------

/// The tasks that are shown on a day are the nodes of type `task` in scope whose first status is not
/// that of the last column; and the plain read shows those of a day that the calendar showed.
pub proof fn showing_the_open_tasks(
    store: Store,
    today: &str,
    at: i64,
    r: Result<Vec<OpenTask>, StoreError>,
    plain: Result<Vec<OpenTask>, StoreError>,
    id: Seq<char>,
)
    requires
        call_ensures(open_tasks_at, (&store, today, at), r),
        call_ensures(open_tasks, (&store,), plain),
    ensures
        ({
            let (c, settings) = (store.held(), store.settings());
            &&& r matches Ok(out) ==> {
                (exists|i: int| 0 <= i < out@.len() && (#[trigger] out@[i]).id@ == id) <==> exists|
                    n: NodeV,
                | #[trigger]
                    is_looked_at(c, settings.scope, id, at as int, n) && n.node_type == "task"@ && (
                    match said(n.tags, "status:"@) {
                        Some(status) => status,
                        None => Seq::empty(),
                    }) != terminal_key(settings)
            }
            &&& exists|day: Seq<char>, now: int| #[trigger]
                day_showed(day) && #[trigger] clock_showed(now) && tasks_read(
                    c,
                    settings,
                    day,
                    now,
                    plain,
                )
        }),
{
    let (c, settings) = (store.held(), store.settings());
    if let Ok(out) = r {
        the_open_tasks_are_shown(c, settings, today@, at as int, out, id);
    }
}

/// The reminders that are shown on a day are the nodes in scope, but for audit events, whose tags make
/// a reminder that is due on that day; and the plain read shows those of a day that the calendar
/// showed.
pub proof fn showing_the_due_reminders(
    store: Store,
    today: &str,
    at: i64,
    r: Result<Vec<DueReminder>, StoreError>,
    plain: Result<Vec<DueReminder>, StoreError>,
    id: Seq<char>,
)
    requires
        call_ensures(due_reminders_at, (&store, today, at), r),
        call_ensures(due_reminders, (&store,), plain),
    ensures
        ({
            let (c, settings) = (store.held(), store.settings());
            &&& r matches Ok(out) ==> {
                (exists|i: int| 0 <= i < out@.len() && (#[trigger] out@[i]).id@ == id) <==> exists|
                    n: NodeV,
                | #[trigger]
                    is_looked_at(c, settings.scope, id, at as int, n) && n.node_type
                        != "audit_event"@ && due_on(n.tags, today@)
            }
            &&& exists|day: Seq<char>, now: int| #[trigger]
                day_showed(day) && #[trigger] clock_showed(now) && reminders_read(
                    c,
                    settings,
                    day,
                    now,
                    plain,
                )
        }),
{
    let (c, settings) = (store.held(), store.settings());
    if let Ok(out) = r {
        the_due_reminders_are_shown(c, settings, today@, at as int, out, id);
    }
}

/// The claims that are shown are the nodes of type `hypothesis` in scope with the tag `status:open`, as
/// they read at a moment that the clock showed.
pub proof fn showing_the_open_claims(
    store: Store,
    r: Result<Vec<NodeBrief>, StoreError>,
    id: Seq<char>,
)
    requires
        call_ensures(open_claims, (&store,), r),
        r is Ok,
    ensures
        ({
            let (c, settings, out) = (store.held(), store.settings(), r->Ok_0);
            exists|now: int| #[trigger]
                clock_showed(now) && ((exists|i: int|
                    0 <= i < out@.len() && (#[trigger] out@[i]).id@ == id) <==> exists|n: NodeV|
                    #[trigger] is_looked_at(c, settings.scope, id, now, n) && n.node_type
                        == "hypothesis"@ && exists|k: int|
                        0 <= k < n.tags.len() && #[trigger] n.tags[k] == "status:open"@)
        }),
{
    let (c, settings, out) = (store.held(), store.settings(), r->Ok_0);
    let now = choose|now: int|
        0 <= now && clock_showed(now) && #[trigger] claims_read(c, settings, now, r);
    the_open_claims_are_shown(c, settings, now, out, id);
}

// ---- listings --------------------------------------------------------------------

/// The nodes of an initiative that are listed are those attached to it that read at a moment the clock
/// showed, but for audit events, each as it reads; the edges are the local ones between its nodes, each
/// with its weight.
pub proof fn listing_what_an_initiative_holds(
    store: Store,
    initiative: &str,
    nodes: Result<Vec<NodeBrief>, StoreError>,
    edges: Result<Vec<(String, String, String, i64)>, StoreError>,
    id: Seq<char>,
    e: EdgeId,
    weight: int,
)
    requires
        call_ensures(nodes_in_initiative, (&store, initiative), nodes),
        call_ensures(edges_in_initiative, (&store, initiative), edges),
    ensures
        ({
            let (c, init) = (store.held(), initiative@);
            &&& nodes matches Ok(out) ==> exists|now: int| #[trigger]
                clock_showed(now) && ((exists|i: int|
                    0 <= i < out@.len() && (#[trigger] out@[i]).id@ == id) <==> {
                    &&& c.members.contains((init, id))
                    &&& reads_as(c.nodes, id, now) matches Some(n) && n.node_type != "audit_event"@
                })
            &&& edges matches Ok(out) ==> exists|now: int| #[trigger]
                clock_showed(now) && ((exists|i: int|
                    0 <= i < out@.len() && (#[trigger] out@[i]).0@ == e.src && out@[i].1@ == e.dst
                        && out@[i].2@ == e.edge_type && out@[i].3 == weight) <==> {
                    &&& c.members.contains((init, e.src))
                    &&& c.members.contains((init, e.dst))
                    &&& reads_as(c.edges, e, now) == Some(EdgeV { weight, dst_store: "local"@ })
                })
        }),
{
    let (c, init) = (store.held(), initiative@);
    if let Ok(out) = nodes {
        let chars = store.settings().excerpt_chars;
        let now = choose|now: int|
            0 <= now && clock_showed(now) && #[trigger] nodes_read(c, init, chars, now, nodes);
        the_nodes_of_an_initiative_are_listed(c, init, chars, now, out, id);
    }
    if let Ok(out) = edges {
        let now = choose|now: int|
            0 <= now && clock_showed(now) && #[trigger] edges_read(c, init, now, edges);
        the_edges_of_an_initiative_are_listed(
            c,
            init,
            now,
            out,
            e.src,
            e.dst,
            e.edge_type,
            weight,
        );
        assert(e == (EdgeId { src: e.src, dst: e.dst, edge_type: e.edge_type }));
    }
}

/// The nodes of an initiative that are counted are those attached to it that read at a moment the clock
/// showed, but for audit events.
pub proof fn counting_what_an_initiative_holds(
    store: Store,
    initiative: &str,
    r: Result<usize, StoreError>,
)
    requires
        call_ensures(count_nodes_in_initiative, (&store, initiative), r),
        r is Ok,
    ensures
        exists|now: int| #[trigger]
            clock_showed(now) && {
                let c = store.held();
                let listed = Set::new(
                    |id: Seq<char>|
                        c.members.contains((initiative@, id)) && (reads_as(c.nodes, id, now) matches
                            Some(n) && n.node_type != "audit_event"@),
                );
                listed.finite() && r->Ok_0 == listed.len()
            },
{
    let c = store.held();
    let now = choose|now: int|
        0 <= now && clock_showed(now) && #[trigger] count_read(c, initiative@, now, r);
    let listed = Set::new(
        |id: Seq<char>|
            c.members.contains((initiative@, id)) && (reads_as(c.nodes, id, now) matches Some(n)
                && n.node_type != "audit_event"@),
    );
    assert(listed =~= crate::listing::content_of(c, initiative@, now));
    assert(clock_showed(now));
}

/// A node is read, whole or in brief, exactly if it reads at a moment that the clock showed, and as it
/// reads there.
pub proof fn reading_a_node(
    store: Store,
    id: &str,
    brief: Result<Option<NodeBrief>, StoreError>,
    full: Result<Option<NodeFull>, StoreError>,
)
    requires
        call_ensures(node_brief_by_id, (&store, id), brief),
        call_ensures(read_node_full, (&store, id), full),
    ensures
        ({
            let c = store.held();
            &&& brief matches Ok(read) ==> exists|now: int| #[trigger]
                clock_showed(now) && (read is Some <==> reads_as(c.nodes, id@, now) is Some) && (
                read matches Some(b) ==> b.id@ == id@ && says_of_its_node(
                    c,
                    store.settings().excerpt_chars,
                    now,
                    b,
                ))
            &&& full matches Ok(read) ==> exists|now: int| #[trigger]
                clock_showed(now) && (read is Some <==> reads_as(c.nodes, id@, now) is Some) && (
                read matches Some(n) ==> n.id@ == id@ && reads_as(c.nodes, id@, now) == Some(
                    NodeV {
                        node_type: n.node_type@,
                        tier: n.tier@,
                        name: n.name@,
                        body: optional_text(n.body),
                        tags: texts_view(n.tags@),
                        properties: optional_text(n.properties),
                        visibility: n.visibility@,
                        layer: n.layer@,
                    },
                ))
        }),
{
    let c = store.held();
    let chars = store.settings().excerpt_chars;
    if let Ok(read) = brief {
        let now = choose|now: int|
            0 <= now && clock_showed(now) && #[trigger] brief_read(c, id@, chars, now, brief);
        a_brief_is_that_of_its_node(c, id@, chars, now, read);
    }
    if let Ok(read) = full {
        let now = choose|now: int|
            0 <= now && clock_showed(now) && #[trigger] full_read(c, id@, now, full);
        assert(clock_showed(now));
    }
}

// ---- single nodes and edges --------------------------------------------------------

/// An upsert writes a version in a second that the clock showed, with every field as it was given, and
/// attaches the node to the initiative that was given.
pub proof fn upserting_writes_what_is_given(
    store: &mut Store,
    id: &str,
    node: NodeRecord,
    initiative: Option<&str>,
    r: Result<(), StoreError>,
)
    requires
        call_ensures(upsert_node, (store, id, node, initiative), r),
        r is Ok,
    ensures
        exists|at: int| #[trigger]
            second_showed(at) && {
                let (c, d) = (old(store).held(), final(store).held());
                let v = d.nodes[(id@, at, true)];
                &&& d.nodes.dom().contains((id@, at, true))
                &&& v.node_type == node.node_type@
                &&& v.tier == node.tier@
                &&& v.name == node.name@
                &&& v.body == optional_text(node.body)
                &&& v.tags == texts_view(node.tags@)
                &&& v.visibility == node.visibility@
                &&& v.layer == node.layer@
                &&& node.properties is Some ==> v.properties == optional_text(node.properties)
                &&& node.properties is None ==> v.properties == (match reads_as(c.nodes, id@, at) {
                    Some(before) => before.properties,
                    None => None,
                })
                &&& initiative matches Some(init) ==> d.members.contains((init@, id@))
            },
{
    let (c, d) = (old(store).held(), final(store).held());
    let init = crate::nodes::optional_name(initiative);
    let at = choose|at: int|
        0 <= at && second_showed(at) && #[trigger] upsert_outcome(c, d, id@, node@, init, at, r);
    assert(second_showed(at));
}

/// Forgetting happens in a second that the clock showed: a node that was last written before it is
/// read no more from then on.
pub proof fn forgetting_takes_a_node(store: &mut Store, id: &str, r: Result<(), StoreError>)
    requires
        call_ensures(forget, (store, id), r),
        r is Ok,
    ensures
        exists|at: int| #[trigger]
            second_showed(at) && ((forall|t: int, asserted: bool| #[trigger]
                old(store).held().nodes.dom().contains((id@, t, asserted)) ==> t < at)
                ==> forall|later: int|
                at <= later ==> #[trigger] reads_as(final(store).held().nodes, id@, later) is None),
{
    let (c, d) = (old(store).held(), final(store).held());
    let at = choose|at: int|
        0 <= at && second_showed(at) && #[trigger] forget_outcome(c, d, id@, at, r);
    if forall|t: int, asserted: bool| #[trigger]
        c.nodes.dom().contains((id@, t, asserted)) ==> t < at {
        assert forall|later: int| at <= later implies #[trigger] reads_as(d.nodes, id@, later)
            is None by {
            assert(untouched(c.nodes, id@, at, later));
            retracting_hides(c.nodes, set![id@], at, id@, later);
        }
    }
}

/// A link writes an edge of full weight from the source to the destination, in a second that the clock
/// showed, and attaches it to the initiative in scope.
pub proof fn linking_writes_an_edge(
    store: &mut Store,
    src: &str,
    dst: &str,
    edge_type: &str,
    r: Result<(), StoreError>,
)
    requires
        call_ensures(link, (store, src, dst, edge_type), r),
        r is Ok,
    ensures
        exists|at: int| #[trigger]
            second_showed(at) && {
                let (c, d) = (old(store).held(), final(store).held());
                let e = EdgeId { src: src@, dst: dst@, edge_type: edge_type@ };
                &&& d.edges == c.edges.insert(
                    (e, at, true),
                    EdgeV { weight: 4607182418800017408, dst_store: "local"@ },
                )
                &&& old(store).settings().scope matches Some(init) ==> d.edge_members.contains(
                    (init, src@ + "|"@ + edge_type@ + "|"@ + dst@),
                )
            },
{
    let (c, d) = (old(store).held(), final(store).held());
    let e = EdgeId { src: src@, dst: dst@, edge_type: edge_type@ };
    let at = choose|at: int|
        0 <= at && second_showed(at) && d == #[trigger] linked(
            c,
            old(store).settings().scope,
            e,
            at,
        );
    assert(second_showed(at));
}

/// A policy that was set is read back, and so is that of every other name as it was.
pub proof fn setting_a_policy(
    store: &mut Store,
    name: &str,
    policy: SharePolicy,
    r: Result<(), StoreError>,
    after: Store,
    other: &str,
    read: Result<SharePolicy, StoreError>,
    was: Result<SharePolicy, StoreError>,
)
    requires
        call_ensures(set_share_policy, (store, name, policy), r),
        r is Ok,
        after.held() == final(store).held(),
        call_ensures(get_share_policy, (&after, other), read),
        call_ensures(get_share_policy, (&*old(store), other), was),
        read is Ok,
        was is Ok,
    ensures
        read->Ok_0 == (if other@ == name@ {
            policy
        } else {
            was->Ok_0
        }),
        !old(store).held().policies.dom().contains(other@) ==> was->Ok_0 == SharePolicy::Private,
{
    super::rest::a_policy_is_that_of_one_name(old(store).held(), name@, policy, other@);
}

/// The initiative that is put in scope is the trimmed name.
pub proof fn scoping_trims_the_name(store: &mut Store, name: &str)
    requires
        call_ensures(Store::use_initiative, (store, name), ()),
    ensures
        final(store).settings().scope == Some(trimmed(name@)),
        final(store).held() == old(store).held(),
{
}

// ---- the REST surface --------------------------------------------------------------

/// A node that was ingested is answered with 201 and as it was sent, stamped with the second of a
/// moment that the clock showed, unless something was written under its id for a later one. A faulty
/// request is refused with 400 and changes nothing.
pub proof fn ingesting_a_node(
    store: &mut Store,
    vocab: &Vocabulary,
    req: NodeIngestReq,
    r: Result<(u16, NodeView), ApiError>,
)
    requires
        call_ensures(ingest_node, (store, vocab, req), r),
    ensures
        ({
            let (c, d) = (old(store).held(), final(store).held());
            &&& final(store).settings() == old(store).settings()
            &&& fault(vocab@, req) matches Some(why) ==> d == c && (r matches Err(e) && e.code()
                == 400 && e.reason() == why)
            &&& r matches Ok(answer) ==> {
                &&& answer.0 == 201
                &&& fault(vocab@, req) is None
                &&& d.members.contains((trimmed(req.initiative->0@), req.id@))
                &&& exists|now: int| #[trigger]
                    clock_showed(now) && d.nodes.dom().contains((req.id@, second_of(now), true))
                        && ((forall|t: int, asserted: bool| #[trigger]
                        c.nodes.dom().contains((req.id@, t, asserted)) ==> t <= second_of(now))
                        ==> shows_as_sent(answer.1, req))
            }
        }),
{
    let (c, d) = (old(store).held(), final(store).held());
    let now = choose|now: int|
        0 <= now && clock_showed(now) && #[trigger] ingest_node_outcome(
            c,
            d,
            vocab@,
            req,
            now,
            second_of(now),
            r,
        );
    let at = second_of(now);
    a_node_is_refused_for_its_fault(c, d, vocab@, req, now, at, r);
    if let Ok(answer) = r {
        assert(at <= now);
        assert(clock_showed(now));
        if forall|t: int, asserted: bool| #[trigger]
            c.nodes.dom().contains((req.id@, t, asserted)) ==> t <= at {
            let read: Result<NodeView, ApiError> = Ok(answer.1);
            assert(get_node_answer(d, req.id@, now, read));
            super::rest::an_ingested_node_is_shown_as_sent(
                c,
                d,
                vocab@,
                req,
                now,
                at,
                answer.0,
                answer.1,
                now,
                read,
            );
        }
    }
}

/// A node is found exactly if it reads at a moment that the clock showed, and is shown as it reads.
pub proof fn getting_a_node(store: Store, id: &str, r: Result<NodeView, ApiError>)
    requires
        call_ensures(get_node, (&store, id), r),
    ensures
        exists|now: int| #[trigger]
            clock_showed(now) && {
                &&& r matches Ok(view) ==> view.id@ == id@ && reads_as(store.held().nodes, id@, now)
                    == Some(
                    NodeV {
                        node_type: view.node_type@,
                        tier: view.tier@,
                        name: view.name@,
                        body: optional_text(view.body),
                        tags: texts_view(view.tags@),
                        properties: optional_text(view.properties),
                        visibility: view.visibility@,
                        layer: view.layer@,
                    },
                )
                &&& r matches Err(e) ==> e is Internal || (e is NotFound && reads_as(
                    store.held().nodes,
                    id@,
                    now,
                ) is None)
            },
{
    let now = choose|now: int|
        0 <= now && clock_showed(now) && #[trigger] get_node_answer(store.held(), id@, now, r);
    a_node_is_shown_as_it_reads(store.held(), id@, now, r);
}

/// A retraction is answered with 204, and takes a node that was last written before the second of a
/// moment that the clock showed out of every read from that moment on.
pub proof fn retracting_a_node(store: &mut Store, id: &str, r: Result<u16, ApiError>)
    requires
        call_ensures(retract_node, (store, id), r),
        r is Ok,
    ensures
        r->Ok_0 == 204,
        final(store).held().members == old(store).held().members,
        exists|now: int| #[trigger]
            clock_showed(now) && ((forall|t: int, asserted: bool| #[trigger]
                old(store).held().nodes.dom().contains((id@, t, asserted)) ==> t < second_of(now))
                ==> forall|later: int|
                now <= later ==> #[trigger] reads_as(final(store).held().nodes, id@, later) is None),
{
    let (c, d) = (old(store).held(), final(store).held());
    let now = choose|now: int|
        0 <= now && clock_showed(now) && #[trigger] retract_node_outcome(
            c,
            d,
            id@,
            now,
            second_of(now),
            r,
        );
    let at = second_of(now);
    assert(at <= now);
    assert(clock_showed(now));
    if forall|t: int, asserted: bool| #[trigger]
        c.nodes.dom().contains((id@, t, asserted)) ==> t < at {
        assert forall|later: int| now <= later implies #[trigger] reads_as(d.nodes, id@, later)
            is None by {
            let read: Result<NodeView, ApiError> = Err(ApiError::NotFound);
            if reads_as(d.nodes, id@, later) is None {
                super::rest::a_retracted_node_is_found_no_more(
                    c,
                    d,
                    id@,
                    now,
                    at,
                    204,
                    later,
                    read,
                );
            } else {
                gone_for_good(c, d, id@, now, at, later, r);
            }
        }
    }
}

proof fn gone_for_good(
    c: Contents,
    d: Contents,
    id: Seq<char>,
    now: int,
    at: int,
    later: int,
    r: Result<u16, ApiError>,
)
    requires
        retract_node_outcome(c, d, id, now, at, r),
        r is Ok,
        at <= now <= later,
        forall|t: int, asserted: bool| #[trigger]
            c.nodes.dom().contains((id, t, asserted)) ==> t < at,
    ensures
        reads_as(d.nodes, id, later) is None,
{
    assert(untouched(c.nodes, id, at, later));
    if reads_as(c.nodes, id, now) is Some {
        retracting_hides(c.nodes, set![id], at, id, later);
    } else if crate::model::live(c.nodes, id, later) {
        let s = crate::model::stamp_at(c.nodes, id, later);
        assert(crate::model::decides(c.nodes, id, s, later));
        assert(c.nodes.dom().contains((id, s, true)));
        assert(crate::model::decides(c.nodes, id, s, now));
        assert(crate::model::live(c.nodes, id, now));
    }
}

/// An edge that was ingested is answered with 201 and as it was sent, its weight held to its range,
/// and written so in a second that the clock showed. A faulty request is refused with 400 and changes
/// nothing.
pub proof fn ingesting_an_edge(
    store: &mut Store,
    vocab: &Vocabulary,
    req: EdgeIngestReq,
    r: Result<(u16, EdgeView), ApiError>,
)
    requires
        call_ensures(ingest_edge, (store, vocab, req), r),
    ensures
        ({
            let (c, d) = (old(store).held(), final(store).held());
            let e = EdgeId { src: req.src@, dst: req.dst@, edge_type: req.edge_type@ };
            &&& final(store).settings() == old(store).settings()
            &&& edge_fault(vocab@, req.src@, req.dst@, req.edge_type@) matches Some(why) ==> d == c
                && (r matches Err(x) && x.code() == 400 && x.reason() == why)
            &&& r matches Ok(answer) ==> {
                &&& answer.0 == 201
                &&& answer.1.src@ == req.src@
                &&& answer.1.dst@ == req.dst@
                &&& answer.1.edge_type@ == req.edge_type@
                &&& answer.1.weight == clamped(req.weight as int)
                &&& exists|at: int| #[trigger]
                    second_showed(at) && d.edges == c.edges.insert(
                        (e, at, true),
                        EdgeV { weight: clamped(req.weight as int), dst_store: "local"@ },
                    )
            }
        }),
{
    let (c, d) = (old(store).held(), final(store).held());
    let e = EdgeId { src: req.src@, dst: req.dst@, edge_type: req.edge_type@ };
    let at = choose|at: int|
        0 <= at && second_showed(at) && #[trigger] ingest_edge_outcome(
            c,
            d,
            vocab@,
            e,
            req.weight as int,
            at,
            r,
        );
    an_edge_is_refused_for_its_fault(
        c,
        d,
        vocab@,
        req.src@,
        req.dst@,
        req.edge_type@,
        req.weight as int,
        at,
        r,
        Ok(204),
    );
    assert(second_showed(at));
}

/// A retraction of an edge is answered with 204, touches no node, and takes an edge that was last
/// written before a second that the clock showed out of every read from then on. A faulty request is
/// refused with 400 and changes nothing.
pub proof fn retracting_an_edge(
    store: &mut Store,
    vocab: &Vocabulary,
    req: &EdgeRetractReq,
    r: Result<u16, ApiError>,
)
    requires
        call_ensures(retract_edge, (store, vocab, req), r),
    ensures
        ({
            let (c, d) = (old(store).held(), final(store).held());
            let e = EdgeId { src: req.src@, dst: req.dst@, edge_type: req.edge_type@ };
            &&& final(store).settings() == old(store).settings()
            &&& d.nodes == c.nodes
            &&& edge_fault(vocab@, req.src@, req.dst@, req.edge_type@) matches Some(why) ==> d == c
                && (r matches Err(x) && x.code() == 400 && x.reason() == why)
            &&& r matches Ok(status) ==> status == 204 && exists|at: int| #[trigger]
                second_showed(at) && ((forall|t: int, asserted: bool| #[trigger]
                    c.edges.dom().contains((e, t, asserted)) ==> t < at) ==> forall|later: int|
                    at <= later ==> #[trigger] reads_as(d.edges, e, later) is None)
        }),
{
    let (c, d) = (old(store).held(), final(store).held());
    let e = EdgeId { src: req.src@, dst: req.dst@, edge_type: req.edge_type@ };
    let at = choose|at: int|
        0 <= at && second_showed(at) && #[trigger] retract_edge_outcome(c, d, vocab@, e, at, r);
    an_edge_is_refused_for_its_fault(
        c,
        d,
        vocab@,
        req.src@,
        req.dst@,
        req.edge_type@,
        0,
        at,
        Err(ApiError::NotFound),
        r,
    );
    if r is Ok {
        assert(second_showed(at));
        if forall|t: int, asserted: bool| #[trigger]
            c.edges.dom().contains((e, t, asserted)) ==> t < at {
            assert forall|later: int| at <= later implies #[trigger] reads_as(d.edges, e, later)
                is None by {
                assert(untouched(c.edges, e, at, later));
                retracting_hides(c.edges, set![e], at, e, later);
            }
        }
    }
}

} // verus!
