//! Single nodes: written, read and retracted.

use crate::clock::{clock_showed, now_seconds, present, second_showed};
use crate::model::{
    a_write_keeps_the_past, an_assertion_reads_back, decides, reads_as, retracted_all,
    retracting_hides, retracting_in_the_same_second_hides_nothing, retracting_in_turn,
    retracting_keeps_the_past, untouched, Contents, NodeV,
};
use crate::rows::{list_cell, optional_text_cell, text_cell, text_in, text_or_empty, texts_in};
use crate::store::{one, two, Store, StoreError};
use crate::substrate::{
    cells, full_row, node_params, optional_text, row_view, rows_view, texts_cell, texts_view, touching, Cell,
    NodeRecord, ATTACH, NODE, PUT_NODE, RETRACT_EDGES_OF, RETRACT_NODE,
};
use vstd::prelude::*;

verus! {

/// What a store holds once some nodes were forgotten at the moment `at`: they and every edge that
/// starts or ends at one of them are retracted there. Memberships stay.
pub open spec fn forgotten(c: Contents, ids: Set<Seq<char>>, at: int) -> Contents {
    Contents {
        nodes: retracted_all(c.nodes, ids, at),
        edges: retracted_all(c.edges, touching(ids), at),
        ..c
    }
}

/// How forgetting a node ends: with contents `c` before and `d` after.
///
/// A failure of the database may leave the node retracted and its edges in place.
pub open spec fn forget_outcome(
    c: Contents,
    d: Contents,
    id: Seq<char>,
    at: int,
    r: Result<(), StoreError>,
) -> bool {
    match r {
        Ok(()) => d == forgotten(c, set![id], at),
        Err(StoreError::Substrate(_)) => d == c || d == (Contents {
            nodes: retracted_all(c.nodes, set![id], at),
            ..c
        }),
        Err(_) => false,
    }
}

/// Forgets a node at the moment `at`: it and its edges stop reading from then on, while a read of
/// an earlier moment still finds them. A node that does not read there is left as it is.
pub fn forget_at(store: &mut Store, id: &str, at: i64) -> (r: Result<(), StoreError>)
    ensures
        final(store).settings() == old(store).settings(),
        forget_outcome(old(store).held(), final(store).held(), id@, at as int, r),
{
    let params = one("id", id);
    store.run_mut(RETRACT_NODE, &params, at)?;
    store.run_mut(RETRACT_EDGES_OF, &params, at)?;
    Ok(())
}

/// Forgets a node as [`forget_at`] does, at the present moment.
pub fn forget(store: &mut Store, id: &str) -> (r: Result<(), StoreError>)
    ensures
        final(store).settings() == old(store).settings(),
        exists|at: int|
            0 <= at && second_showed(at) && #[trigger] forget_outcome(
                old(store).held(),
                final(store).held(),
                id@,
                at,
                r,
            ),
{
    let at = now_seconds();
    forget_at(store, id, at)
}

/// Forgetting some nodes and then others, in the same second, forgets them all, in any order.
pub proof fn forgetting_in_turn(
    c: Contents,
    first: Set<Seq<char>>,
    second: Set<Seq<char>>,
    at: int,
)
    ensures
        forgotten(forgotten(c, first, at), second, at) == forgotten(c, first.union(second), at),
{
    retracting_in_turn(c.nodes, first, second, at);
    retracting_in_turn(c.edges, touching(first), touching(second), at);
    assert(touching(first).union(touching(second)) =~= touching(first.union(second)));
}

/// A whole node: nothing is cut.
#[derive(Debug, PartialEq, Eq)]
pub struct NodeFull {
    pub id: String,
    pub node_type: String,
    pub tier: String,
    pub name: String,
    pub body: Option<String>,
    pub tags: Vec<String>,
    pub visibility: String,
    pub layer: String,
    /// The properties of the node, as JSON text.
    pub properties: Option<String>,
}

impl NodeFull {
    /// The version that this shows.
    pub open spec fn version(&self) -> NodeV {
        NodeV {
            node_type: self.node_type@,
            tier: self.tier@,
            name: self.name@,
            body: optional_text(self.body),
            tags: texts_view(self.tags@),
            properties: optional_text(self.properties),
            visibility: self.visibility@,
            layer: self.layer@,
        }
    }
}

/// Whether a read of a whole node at the moment `at` may end with `r`.
pub open spec fn full_read(
    c: Contents,
    id: Seq<char>,
    at: int,
    r: Result<Option<NodeFull>, StoreError>,
) -> bool {
    match r {
        Ok(Some(n)) => n.id@ == id && reads_as(c.nodes, id, at) == Some(n.version()),
        Ok(None) => reads_as(c.nodes, id, at) is None,
        Err(e) => e is Substrate,
    }
}

fn parse_full(id: &str, row: &Vec<Cell>) -> (r: NodeFull)
    ensures
        r.id@ == id@,
        forall|n: NodeV| row_view(*row) == #[trigger] full_row(n) ==> r.version() == n,
{
    let r = NodeFull {
        id: id.to_owned(),
        node_type: text_or_empty(row, 0),
        tier: text_or_empty(row, 1),
        name: text_or_empty(row, 2),
        body: text_in(row, 3),
        tags: texts_in(row, 4),
        visibility: text_or_empty(row, 6),
        layer: text_or_empty(row, 7),
        properties: text_in(row, 5),
    };
    proof {
        assert forall|n: NodeV| row_view(*row) == #[trigger] full_row(n) implies r.version()
            == n by {
            assert(full_row(n).len() == 8);
            assert(row@.len() == 8);
            assert(row_view(*row)[4] == texts_cell(n.tags));
            assert(texts_view(r.tags@) == n.tags);
        }
    }
    r
}

/// The whole node at the moment `at`, if it reads as present there.
pub fn read_node_full_at(store: &Store, id: &str, at: i64) -> (r: Result<
    Option<NodeFull>,
    StoreError,
>)
    ensures
        full_read(store.held(), id@, at as int, r),
{
    let rows = store.run_read(NODE, &one("id", id), at)?;
    assert(rows_view(rows@).len() == rows@.len());
    if rows.len() > 0 {
        assert(rows_view(rows@)[0] == row_view(rows@[0]));
        Ok(Some(parse_full(id, &rows[0])))
    } else {
        Ok(None)
    }
}

/// The whole node as [`read_node_full_at`] gives it, at the present moment.
pub fn read_node_full(store: &Store, id: &str) -> (r: Result<Option<NodeFull>, StoreError>)
    ensures
        exists|at: int|
            0 <= at && clock_showed(at) && #[trigger] full_read(store.held(), id@, at, r),
{
    let at = present();
    read_node_full_at(store, id, at)
}

/// The version that an upsert writes: what was not said of the properties is kept from what the
/// node reads as.
pub open spec fn completed(n: NodeV, before: Option<NodeV>) -> NodeV {
    match (n.properties, before) {
        (None, Some(m)) => NodeV { properties: m.properties, ..n },
        _ => n,
    }
}

/// `c` with a node version written at the moment `at`.
pub open spec fn written(c: Contents, id: Seq<char>, n: NodeV, at: int) -> Contents {
    Contents {
        nodes: c.nodes.insert((id, at, true), completed(n, reads_as(c.nodes, id, at))),
        ..c
    }
}

/// What a store holds after a node was upserted at the moment `at`.
pub open spec fn upserted(
    c: Contents,
    id: Seq<char>,
    n: NodeV,
    init: Option<Seq<char>>,
    at: int,
) -> Contents {
    match init {
        Some(i) => Contents { members: c.members.insert((i, id)), ..written(c, id, n, at) },
        None => written(c, id, n, at),
    }
}

/// How an upsert of a node ends: with contents `c` before and `d` after.
///
/// A failure of the database may leave the version written and the node unattached.
pub open spec fn upsert_outcome(
    c: Contents,
    d: Contents,
    id: Seq<char>,
    n: NodeV,
    init: Option<Seq<char>>,
    at: int,
    r: Result<(), StoreError>,
) -> bool {
    match r {
        Ok(()) => d == upserted(c, id, n, init, at),
        Err(StoreError::Substrate(_)) => d == c || (init is Some && d == written(c, id, n, at)),
        Err(_) => false,
    }
}

/// Writes a node version as it is given.
fn put_node(store: &mut Store, id: &str, node: &NodeRecord, at: i64) -> (r: Result<(), StoreError>)
    ensures
        final(store).settings() == old(store).settings(),
        r is Ok ==> final(store).held() == (Contents {
            nodes: old(store).held().nodes.insert((id@, at as int, true), node@),
            ..old(store).held()
        }),
        r matches Err(e) ==> e is Substrate && final(store).held() == old(store).held(),
{
    let params = vec![
        text_cell("id", id),
        text_cell("type", node.node_type.as_str()),
        text_cell("tier", node.tier.as_str()),
        text_cell("name", node.name.as_str()),
        optional_text_cell("body", &node.body),
        list_cell("tags", &node.tags),
        optional_text_cell("properties", &node.properties),
        text_cell("visibility", node.visibility.as_str()),
        text_cell("layer", node.layer.as_str()),
    ];
    assert(cells(params@) =~= node_params(id@, node@));
    store.run_put(PUT_NODE, &params, at)
}

pub open spec fn optional_name(name: Option<&str>) -> Option<Seq<char>> {
    match name {
        Some(s) => Some(s@),
        None => None,
    }
}

/// Writes a version of the node `id` at the moment `at` and attaches it to `initiative`, if one is
/// given. A node that exists is updated in place: the id stays, the new version is read from then
/// on. Properties that are not given are kept.
pub fn upsert_node_at(
    store: &mut Store,
    id: &str,
    node: NodeRecord,
    initiative: Option<&str>,
    at: i64,
) -> (r: Result<(), StoreError>)
    ensures
        final(store).settings() == old(store).settings(),
        upsert_outcome(
            old(store).held(),
            final(store).held(),
            id@,
            node@,
            optional_name(initiative),
            at as int,
            r,
        ),
{
    let before = read_node_full_at(store, id, at)?;
    let mut node = node;
    if node.properties.is_none() {
        if let Some(held) = before {
            node.properties = held.properties;
        }
    }
    put_node(store, id, &node, at)?;
    if let Some(init) = initiative {
        store.run_mut(ATTACH, &two("init", init, "nid", id), at)?;
    }
    Ok(())
}

/// Writes a version of the node `id` as [`upsert_node_at`] does, at the present moment.
pub fn upsert_node(
    store: &mut Store,
    id: &str,
    node: NodeRecord,
    initiative: Option<&str>,
) -> (r: Result<(), StoreError>)
    ensures
        final(store).settings() == old(store).settings(),
        exists|at: int|
            0 <= at && second_showed(at) && #[trigger] upsert_outcome(
                old(store).held(),
                final(store).held(),
                id@,
                node@,
                optional_name(initiative),
                at,
                r,
            ),
{
    let at = now_seconds();
    upsert_node_at(store, id, node, initiative, at)
}

/// What was upserted reads back, from then on up to the next write under its id.
pub proof fn an_upsert_reads_back(
    c: Contents,
    id: Seq<char>,
    n: NodeV,
    init: Option<Seq<char>>,
    at: int,
    later: int,
)
    requires
        at <= later,
        untouched(c.nodes, id, at, later),
    ensures
        reads_as(upserted(c, id, n, init, at).nodes, id, later) == Some(
            completed(n, reads_as(c.nodes, id, at)),
        ),
        init matches Some(i) ==> upserted(c, id, n, init, at).members.contains((i, id)),
{
    an_assertion_reads_back(c.nodes, id, at, completed(n, reads_as(c.nodes, id, at)), later);
}

/// An upsert touches no other node, and no read of an earlier moment.
pub proof fn an_upsert_keeps_the_past(
    c: Contents,
    id: Seq<char>,
    n: NodeV,
    init: Option<Seq<char>>,
    at: int,
    other: Seq<char>,
    moment: int,
)
    requires
        other != id || moment < at,
    ensures
        reads_as(upserted(c, id, n, init, at).nodes, other, moment) == reads_as(
            c.nodes,
            other,
            moment,
        ),
{
    let v = completed(n, reads_as(c.nodes, id, at));
    a_write_keeps_the_past(c.nodes, id, at, true, v, other, moment);
}

/// What is forgotten reads no more, from then on up to the next write under its id, unless the
/// second of the forgetting also asserts it; and it reads as before at every earlier moment.
pub proof fn forgetting_hides(c: Contents, id: Seq<char>, at: int, moment: int)
    requires
        at <= moment ==> !c.nodes.dom().contains((id, at, true)),
        untouched(c.nodes, id, at, moment),
    ensures
        reads_as(forgotten(c, set![id], at).nodes, id, moment) == (if moment < at {
            reads_as(c.nodes, id, moment)
        } else {
            None
        }),
{
    if moment < at {
        retracting_keeps_the_past(c.nodes, set![id], at, id, moment);
    } else {
        retracting_hides(c.nodes, set![id], at, id, moment);
    }
}

/// Forgetting in the second of the write hides nothing: the node keeps reading. Forgetting it
/// again a second later settles it, as [`forgetting_hides`] says.
pub proof fn forgetting_in_the_second_of_the_write(c: Contents, id: Seq<char>, at: int, later: int)
    requires
        decides(c.nodes, id, at, later),
    ensures
        reads_as(forgotten(c, set![id], at).nodes, id, later) == reads_as(c.nodes, id, later),
{
    retracting_in_the_same_second_hides_nothing(c.nodes, set![id], at, id, later);
}

} // verus!
