//! What an initiative holds: its nodes, how many there are, and the edges among them.

use crate::briefs::{brief_of, briefs_view, parse_brief, BriefV, NodeBrief};
use crate::clock::{clock_showed, present};
use crate::edges::ONE_BITS;
use crate::model::{stamp_at, value_at, Contents, EdgeId, EdgeV};
use crate::rows::{int_in, text_or_empty};
use crate::store::{one, two, Store, StoreError};
use crate::substrate::{
    edge_in, edge_listed, edge_lt, edge_row, first_text, in_scope, lists_edges, lists_nodes,
    lists_types, node_row, row_view, rows_view, Cell, CellV, EDGES_IN, NODES_IN, TYPES_IN,
};
use crate::nodes::optional_name;
use crate::text::{contains, occurs_in, same, text_lt, text_lt_is_irreflexive};
use vstd::prelude::*;

verus! {

/// The type of nodes that record operations: noise, not content.
pub const AUDIT_EVENT: &'static str = "audit_event";

/// The store that an edge leads into when it stays at home.
pub const LOCAL: &'static str = "local";

/// Whether a node in scope at the moment `at` is content.
pub open spec fn content(c: Contents, scope: Option<Seq<char>>, id: Seq<char>, at: int) -> bool {
    in_scope(c, scope, id, at) && value_at(c.nodes, id, at).node_type != AUDIT_EVENT@
}

/// The nodes of an initiative at the moment `at`, without the audit events.
pub open spec fn content_of(c: Contents, init: Seq<char>, at: int) -> Set<Seq<char>> {
    Set::new(|id: Seq<char>| content(c, Some(init), id, at))
}

/// The briefs are those of the nodes `ids` at the moment `at`, by ascending id.
pub open spec fn briefs_of(
    out: Seq<BriefV>,
    c: Contents,
    ids: Set<Seq<char>>,
    chars: nat,
    at: int,
) -> bool {
    &&& forall|i: int, j: int|
        #![trigger out[i], out[j]]
        0 <= i < j < out.len() ==> text_lt(out[i].id, out[j].id)
    &&& forall|i: int|
        0 <= i < out.len() ==> ids.contains((#[trigger] out[i]).id) && out[i] == brief_of(
            c,
            out[i].id,
            chars,
            at,
        )
    &&& forall|id: Seq<char>| #[trigger]
        ids.contains(id) ==> exists|i: int| 0 <= i < out.len() && (#[trigger] out[i]).id == id
}

/// Whether a read of the nodes of an initiative at the moment `at` may end with `r`.
pub open spec fn nodes_read(
    c: Contents,
    init: Seq<char>,
    chars: nat,
    at: int,
    r: Result<Vec<NodeBrief>, StoreError>,
) -> bool {
    match r {
        Ok(out) => briefs_of(briefs_view(out@), c, content_of(c, init, at), chars, at),
        Err(e) => e is Substrate,
    }
}

/// Briefs of every node attached to `initiative` at the moment `at`, by id. Audit events are left
/// out: they are operational noise, not shareable content.
pub fn nodes_in_initiative_at(store: &Store, initiative: &str, at: i64) -> (r: Result<
    Vec<NodeBrief>,
    StoreError,
>)
    ensures
        nodes_read(store.held(), initiative@, store.settings().excerpt_chars, at as int, r),
{
    let rows = store.run_read(NODES_IN, &one("init", initiative), at)?;
    let ghost c = store.held();
    let ghost init = initiative@;
    let ghost view = rows_view(rows@);
    let ghost ids = content_of(c, init, at as int);
    let ghost chars = store.settings().excerpt_chars;
    assert(lists_nodes(view, c, Some(init), at as int));
    let mut out: Vec<NodeBrief> = Vec::new();
    // The row behind each brief.
    let ghost mut from: Seq<int> = Seq::empty();
    let mut k: usize = 0;
    while k < rows.len()
        invariant
            k <= rows@.len(),
            view == rows_view(rows@),
            c == store.held(),
            chars == store.settings().excerpt_chars,
            ids == content_of(c, init, at as int),
            lists_nodes(view, c, Some(init), at as int),
            from.len() == out@.len(),
            forall|i: int, j: int|
                #![trigger from[i], from[j]]
                0 <= i < j < from.len() ==> from[i] < from[j],
            forall|i: int|
                0 <= i < from.len() ==> {
                    let id = first_text(view[#[trigger] from[i]]);
                    &&& 0 <= from[i] < k
                    &&& ids.contains(id)
                    &&& out@[i]@ == brief_of(c, id, chars, at as int)
                },
            forall|j: int|
                0 <= j < k && ids.contains(first_text(#[trigger] view[j])) ==> from.contains(j),
        decreases rows.len() - k,
    {
        let ghost id = first_text(view[k as int]);
        proof {
            assert(view[k as int] == row_view(rows@[k as int]));
            assert(view[k as int] == node_row(
                id,
                value_at(c.nodes, id, at as int),
                stamp_at(c.nodes, id, at as int),
            ));
            assert(rows@[k as int]@.len() == 6);
        }
        let node_type = text_or_empty(&rows[k], 1);
        let ghost before = from;
        if !same(node_type.as_str(), AUDIT_EVENT) {
            out.push(parse_brief(&rows[k], store.excerpt_chars));
            proof {
                from = from.push(k as int);
                assert(from[before.len() as int] == k);
            }
        }
        proof {
            assert forall|j: int|
                0 <= j < k + 1 && ids.contains(first_text(#[trigger] view[j])) implies from.contains(
                j,
            ) by {
                if j < k {
                    let i = before.index_of(j);
                    assert(from[i] == j);
                } else {
                    assert(from[before.len() as int] == k);
                }
            }
        }
        k += 1;
    }
    proof {
        let shown = briefs_view(out@);
        assert forall|i: int| 0 <= i < shown.len() implies #[trigger] shown[i] == out@[i]@
            && shown[i].id == first_text(view[from[i]]) by {}
        assert forall|i: int, j: int|
            #![trigger shown[i], shown[j]]
            0 <= i < j < shown.len() implies text_lt(shown[i].id, shown[j].id) by {
            assert(from[i] < from[j]);
        }
        assert forall|id: Seq<char>| #[trigger] ids.contains(id) implies exists|i: int|
            0 <= i < shown.len() && (#[trigger] shown[i]).id == id by {
            assert(in_scope(c, Some(init), id, at as int));
            let j = choose|j: int| 0 <= j < view.len() && first_text(#[trigger] view[j]) == id;
            assert(from.contains(j));
            let i = from.index_of(j);
            assert(shown[i].id == id);
        }
    }
    Ok(out)
}

/// The nodes of `initiative` as [`nodes_in_initiative_at`] gives them, at the present moment.
pub fn nodes_in_initiative(store: &Store, initiative: &str) -> (r: Result<
    Vec<NodeBrief>,
    StoreError,
>)
    ensures
        exists|at: int|
            0 <= at && clock_showed(at) && #[trigger] nodes_read(
                store.held(),
                initiative@,
                store.settings().excerpt_chars,
                at,
                r,
            ),
{
    let at = present();
    nodes_in_initiative_at(store, initiative, at)
}

/// Whether a count of the nodes of an initiative at the moment `at` may end with `r`.
pub open spec fn count_read(
    c: Contents,
    init: Seq<char>,
    at: int,
    r: Result<usize, StoreError>,
) -> bool {
    match r {
        Ok(n) => content_of(c, init, at).finite() && n == content_of(c, init, at).len(),
        Err(e) => e is Substrate,
    }
}

/// Counts the nodes attached to `initiative` at the moment `at`, without the audit events. No body
/// is loaded.
pub fn count_nodes_in_initiative_at(store: &Store, initiative: &str, at: i64) -> (r: Result<
    usize,
    StoreError,
>)
    ensures
        count_read(store.held(), initiative@, at as int, r),
{
    let rows = store.run_read(TYPES_IN, &one("init", initiative), at)?;
    let ghost c = store.held();
    let ghost init = initiative@;
    let ghost view = rows_view(rows@);
    let ghost ids = content_of(c, init, at as int);
    assert(lists_types(view, c, Some(init), at as int));
    let mut count: usize = 0;
    let ghost mut seen: Set<Seq<char>> = Set::empty();
    let mut k: usize = 0;
    while k < rows.len()
        invariant
            k <= rows@.len(),
            view == rows_view(rows@),
            ids == content_of(c, init, at as int),
            lists_types(view, c, Some(init), at as int),
            seen.finite(),
            count == seen.len(),
            count <= k,
            forall|id: Seq<char>| #[trigger]
                seen.contains(id) <==> ids.contains(id) && exists|j: int|
                    0 <= j < k && first_text(#[trigger] view[j]) == id,
        decreases rows.len() - k,
    {
        let ghost id = first_text(view[k as int]);
        proof {
            assert(view[k as int] == row_view(rows@[k as int]));
            assert(view[k as int].len() == 2);
            assert(rows@[k as int]@.len() == 2);
            assert(view[k as int][1] == CellV::Text(value_at(c.nodes, id, at as int).node_type));
            if seen.contains(id) {
                let j = choose|j: int| 0 <= j < k && first_text(#[trigger] view[j]) == id;
                assert(text_lt(first_text(view[j]), first_text(view[k as int])));
                text_lt_is_irreflexive(id);
            }
        }
        let node_type = text_or_empty(&rows[k], 1);
        if !same(node_type.as_str(), AUDIT_EVENT) {
            count += 1;
            proof {
                assert(ids.contains(id));
                seen = seen.insert(id);
            }
        }
        k += 1;
    }
    proof {
        assert forall|id: Seq<char>| ids.contains(id) implies seen.contains(id) by {
            assert(in_scope(c, Some(init), id, at as int));
            let j = choose|j: int| 0 <= j < view.len() && first_text(#[trigger] view[j]) == id;
        }
        assert(seen =~= ids);
    }
    Ok(count)
}

/// Counts the nodes of `initiative` as [`count_nodes_in_initiative_at`] does, at the present
/// moment.
pub fn count_nodes_in_initiative(store: &Store, initiative: &str) -> (r: Result<usize, StoreError>)
    ensures
        exists|at: int|
            0 <= at && clock_showed(at) && #[trigger] count_read(store.held(), initiative@, at, r),
{
    let at = present();
    count_nodes_in_initiative_at(store, initiative, at)
}

/// The count is the length of the listing.
pub proof fn the_count_matches_the_listing(
    c: Contents,
    init: Seq<char>,
    chars: nat,
    at: int,
    out: Seq<BriefV>,
)
    requires
        briefs_of(out, c, content_of(c, init, at), chars, at),
    ensures
        content_of(c, init, at).finite(),
        content_of(c, init, at).len() == out.len(),
{
    let ids = out.map_values(|b: BriefV| b.id);
    assert(ids.no_duplicates()) by {
        assert forall|i: int, j: int| 0 <= i < ids.len() && 0 <= j < ids.len() && i != j implies
            ids[i] != ids[j] by {
            text_lt_is_irreflexive(ids[i]);
            if i < j {
                assert(text_lt(out[i].id, out[j].id));
            } else {
                assert(text_lt(out[j].id, out[i].id));
            }
        }
    }
    assert(ids.to_set() =~= content_of(c, init, at)) by {
        assert forall|id: Seq<char>| ids.to_set().contains(id) == content_of(c, init, at).contains(
            id,
        ) by {
            if ids.contains(id) {
                let i = ids.index_of(id);
                assert(out[i].id == id);
            }
            if content_of(c, init, at).contains(id) {
                let i = choose|i: int| 0 <= i < out.len() && (#[trigger] out[i]).id == id;
                assert(ids[i] == id);
            }
        }
    }
    ids.unique_seq_to_set();
}

// ---- pages -------------------------------------------------------------------

/// Whether a brief is asked for: its name holds the text `q`, or there is none to hold.
pub open spec fn asked_for(b: BriefV, q: Option<Seq<char>>) -> bool {
    q matches Some(text) ==> occurs_in(b.name, text)
}

/// What is left of a listing after `offset` items, and of that at most `limit`.
pub open spec fn page_of(nodes: Seq<BriefV>, offset: nat, limit: Option<nat>) -> Seq<BriefV> {
    let rest = if offset < nodes.len() {
        nodes.skip(offset as int)
    } else {
        Seq::empty()
    };
    match limit {
        Some(n) => if n < rest.len() {
            rest.take(n as int)
        } else {
            rest
        },
        None => rest,
    }
}

pub open spec fn optional_nat(n: Option<usize>) -> Option<nat> {
    match n {
        Some(k) => Some(k as nat),
        None => None,
    }
}

fn copy_brief(b: &NodeBrief) -> (r: NodeBrief)
    ensures
        r@ == b@,
{
    let body_excerpt = match &b.body_excerpt {
        Some(s) => Some(s.clone()),
        None => None,
    };
    NodeBrief {
        id: b.id.clone(),
        node_type: b.node_type.clone(),
        name: b.name.clone(),
        body_excerpt,
        ts: b.ts,
    }
}

/// A page grows by the next item exactly if the offset is passed and the limit not reached.
proof fn page_grows(nodes: Seq<BriefV>, b: BriefV, offset: nat, limit: Option<nat>)
    ensures
        page_of(nodes.push(b), offset, limit) == (if nodes.len() >= offset && (limit matches Some(
            n,
        ) ==> page_of(nodes, offset, limit).len() < n) {
            page_of(nodes, offset, limit).push(b)
        } else {
            page_of(nodes, offset, limit)
        }),
{
    let more = nodes.push(b);
    if nodes.len() >= offset {
        let rest = if offset < nodes.len() {
            nodes.skip(offset as int)
        } else {
            Seq::empty()
        };
        assert(more.skip(offset as int) =~= rest.push(b));
    }
    assert(page_of(more, offset, limit) =~= (if nodes.len() >= offset && (limit matches Some(n)
        ==> page_of(nodes, offset, limit).len() < n) {
        page_of(nodes, offset, limit).push(b)
    } else {
        page_of(nodes, offset, limit)
    }));
}

/// One page of a listing: of the nodes whose name holds the text `q`, where one is given, those
/// after the first `offset`, and at most `limit` of them.
pub fn page(nodes: &Vec<NodeBrief>, q: Option<&str>, offset: usize, limit: Option<usize>) -> (r:
    Vec<NodeBrief>)
    ensures
        briefs_view(r@) == page_of(
            briefs_view(nodes@).filter(|b: BriefV| asked_for(b, optional_name(q))),
            offset as nat,
            optional_nat(limit),
        ),
{
    let ghost all = briefs_view(nodes@);
    let ghost keep = |b: BriefV| asked_for(b, optional_name(q));
    let ghost most = optional_nat(limit);
    let mut out: Vec<NodeBrief> = Vec::new();
    let mut matched: usize = 0;
    let mut i: usize = 0;
    proof {
        reveal(Seq::filter);
        assert(all.take(0).filter(keep) =~= Seq::empty());
        assert(briefs_view(out@) =~= page_of(all.take(0).filter(keep), offset as nat, most));
    }
    while i < nodes.len()
        invariant
            i <= nodes@.len(),
            all == briefs_view(nodes@),
            keep == (|b: BriefV| asked_for(b, optional_name(q))),
            most == optional_nat(limit),
            matched <= i,
            matched == all.take(i as int).filter(keep).len(),
            briefs_view(out@) == page_of(all.take(i as int).filter(keep), offset as nat, most),
        decreases nodes.len() - i,
    {
        let ghost sofar = all.take(i as int).filter(keep);
        let ghost b = nodes@[i as int]@;
        let ghost shown = briefs_view(out@);
        proof {
            reveal(Seq::filter);
            assert(all.take(i + 1).drop_last() =~= all.take(i as int));
            assert(all.take(i + 1).last() == b);
            page_grows(sofar, b, offset as nat, most);
            assert(shown.len() == out@.len());
        }
        let asked = match q {
            Some(text) => contains(nodes[i].name.as_str(), text),
            None => true,
        };
        if asked {
            let room = match limit {
                Some(n) => out.len() < n,
                None => true,
            };
            if matched >= offset && room {
                out.push(copy_brief(&nodes[i]));
                assert(briefs_view(out@) =~= shown.push(b));
            }
            matched += 1;
        }
        i += 1;
    }
    assert(all.take(i as int) =~= all);
    out
}

/// Pages of one size, one after the other, make up the whole: a page and what comes after it are
/// what comes after the start of the page.
pub proof fn pages_make_up_the_listing(nodes: Seq<BriefV>, offset: nat, size: nat)
    ensures
        page_of(nodes, offset, Some(size)) + page_of(nodes, offset + size, None) == page_of(
            nodes,
            offset,
            None,
        ),
        page_of(nodes, 0, None) == nodes,
{
    assert(page_of(nodes, offset, Some(size)) + page_of(nodes, offset + size, None) =~= page_of(
        nodes,
        offset,
        None,
    ));
    assert(page_of(nodes, 0, None) =~= nodes);
}

// ---- edges -------------------------------------------------------------------

/// The edge and the weight of a record of source, destination, type and weight. A weight is held
/// as the bits of its double.
pub open spec fn edge_record(e: (String, String, String, i64)) -> (EdgeId, int) {
    (EdgeId { src: e.0@, dst: e.1@, edge_type: e.2@ }, e.3 as int)
}

pub open spec fn edge_records(s: Seq<(String, String, String, i64)>) -> Seq<(EdgeId, int)> {
    s.map_values(|e: (String, String, String, i64)| edge_record(e))
}

/// The records are those of the edges of an initiative at the moment `at`: local ones that have
/// both ends attached, in ascending order, each with its weight.
pub open spec fn edges_of_initiative(
    out: Seq<(EdgeId, int)>,
    c: Contents,
    init: Seq<char>,
    at: int,
) -> bool {
    &&& forall|i: int, j: int|
        #![trigger out[i], out[j]]
        0 <= i < j < out.len() ==> edge_lt(out[i].0, out[j].0)
    &&& forall|i: int|
        0 <= i < out.len() ==> edge_listed(c, (#[trigger] out[i]).0, init, LOCAL@, at) && out[i].1
            == value_at(c.edges, out[i].0, at).weight
    &&& forall|e: EdgeId| #[trigger]
        edge_listed(c, e, init, LOCAL@, at) ==> exists|i: int|
            0 <= i < out.len() && (#[trigger] out[i]).0 == e
}

/// Whether a read of the edges of an initiative at the moment `at` may end with `r`.
pub open spec fn edges_read(
    c: Contents,
    init: Seq<char>,
    at: int,
    r: Result<Vec<(String, String, String, i64)>, StoreError>,
) -> bool {
    match r {
        Ok(out) => edges_of_initiative(edge_records(out@), c, init, at),
        Err(e) => e is Substrate,
    }
}

fn parse_edge(row: &Vec<Cell>) -> (r: (String, String, String, i64))
    ensures
        forall|e: EdgeId, v: EdgeV|
            row_view(*row) == #[trigger] edge_row(e, v) ==> edge_record(r) == (e, v.weight),
{
    let weight = match int_in(row, 3) {
        Some(n) => n,
        None => ONE_BITS,
    };
    let r = (text_or_empty(row, 0), text_or_empty(row, 1), text_or_empty(row, 2), weight);
    proof {
        assert forall|e: EdgeId, v: EdgeV| row_view(*row) == #[trigger] edge_row(
            e,
            v,
        ) implies edge_record(r) == (e, v.weight) by {
            assert(edge_row(e, v).len() == 4);
            assert(row@.len() == 4);
        }
    }
    r
}

/// Every local edge whose both ends are attached to `initiative` at the moment `at`.
pub fn edges_in_initiative_at(store: &Store, initiative: &str, at: i64) -> (r: Result<
    Vec<(String, String, String, i64)>,
    StoreError,
>)
    ensures
        edges_read(store.held(), initiative@, at as int, r),
{
    let rows = store.run_read(EDGES_IN, &two("init", initiative, "dst_store", LOCAL), at)?;
    let ghost c = store.held();
    let ghost init = initiative@;
    let ghost view = rows_view(rows@);
    assert(lists_edges(view, c, init, LOCAL@, at as int));
    let mut out: Vec<(String, String, String, i64)> = Vec::new();
    let mut k: usize = 0;
    while k < rows.len()
        invariant
            k <= rows@.len(),
            view == rows_view(rows@),
            lists_edges(view, c, init, LOCAL@, at as int),
            out@.len() == k,
            forall|i: int|
                0 <= i < k ==> edge_record(#[trigger] out@[i]) == (
                    edge_in(view[i]),
                    value_at(c.edges, edge_in(view[i]), at as int).weight,
                ),
        decreases rows.len() - k,
    {
        proof {
            let e = edge_in(view[k as int]);
            assert(view[k as int] == row_view(rows@[k as int]));
            assert(view[k as int] == edge_row(e, value_at(c.edges, e, at as int)));
        }
        out.push(parse_edge(&rows[k]));
        k += 1;
    }
    proof {
        let shown = edge_records(out@);
        assert forall|i: int| 0 <= i < shown.len() implies #[trigger] shown[i] == edge_record(
            out@[i],
        ) && shown[i].0 == edge_in(view[i]) by {}
        assert forall|e: EdgeId| #[trigger]
            edge_listed(c, e, init, LOCAL@, at as int) implies exists|i: int|
            0 <= i < shown.len() && (#[trigger] shown[i]).0 == e by {
            let i = choose|i: int| 0 <= i < view.len() && edge_in(#[trigger] view[i]) == e;
            assert(shown[i].0 == e);
        }
    }
    Ok(out)
}

/// The edges of `initiative` as [`edges_in_initiative_at`] gives them, at the present moment.
pub fn edges_in_initiative(store: &Store, initiative: &str) -> (r: Result<
    Vec<(String, String, String, i64)>,
    StoreError,
>)
    ensures
        exists|at: int|
            0 <= at && clock_showed(at) && #[trigger] edges_read(store.held(), initiative@, at, r),
{
    let at = present();
    edges_in_initiative_at(store, initiative, at)
}

} // verus!
