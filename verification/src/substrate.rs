//! The embedded CozoDB database under a store: its relations, the scripts that are run against
//! them, and what each script answers or changes.

use crate::model::{
    live, nothing, reads_as, retracted_all, stamp_at, value_at, AuditV, Contents, EdgeId, EdgeV, NodeV,
};
use crate::text::text_lt;
use cozo::{DataValue, Num, ScriptMutability};
use std::collections::BTreeMap;
use vstd::prelude::*;

verus! {

/// `cozo::DbInstance`, an in-memory database handle.
#[verifier::external_type_specification]
#[verifier::external_body]
pub struct ExDbInstance(cozo::DbInstance);

/// `cozo::Error`, the error of every database call.
#[verifier::external_type_specification]
#[verifier::external_body]
pub struct ExSubstrateError(cozo::Error);

/// The rows of relation `node_initiative {initiative, node_id}`.
pub uninterp spec fn node_initiative(db: cozo::DbInstance) -> Set<(Seq<char>, Seq<char>)>;

/// The rows of relation `edge_initiative {initiative, edge_pk}`.
pub uninterp spec fn edge_initiative(db: cozo::DbInstance) -> Set<(Seq<char>, Seq<char>)>;

/// The rows of relation `initiative {name => share_policy}`.
pub uninterp spec fn initiative(db: cozo::DbInstance) -> Map<Seq<char>, Seq<char>>;

/// The rows of relation `node {id, validity => ...}`; a validity is a stamp and whether it asserts.
pub uninterp spec fn node(db: cozo::DbInstance) -> Map<(Seq<char>, int, bool), NodeV>;

/// The rows of relation `edge {src, dst, edge_type, validity => ...}`.
pub uninterp spec fn edge(db: cozo::DbInstance) -> Map<(EdgeId, int, bool), EdgeV>;

/// The rows of relation `audit {seq => at, op, actor, refs}`, whose keys count up from zero.
pub uninterp spec fn audit(db: cozo::DbInstance) -> Seq<AuditV>;

/// Everything the database holds.
pub open spec fn contents(db: cozo::DbInstance) -> Contents {
    Contents {
        members: node_initiative(db),
        edge_members: edge_initiative(db),
        policies: initiative(db),
        nodes: node(db),
        edges: edge(db),
        audit: audit(db),
    }
}

/// One value of a result row.
#[derive(Debug)]
pub enum Cell {
    Null,
    Text(String),
    Int(i64),
    /// A list; an item that is no text is `None`.
    Texts(Vec<Option<String>>),
}

/// One value of a result row, as a mathematical value.
pub enum CellV {
    Null,
    Text(Seq<char>),
    Int(int),
    Texts(Seq<Option<Seq<char>>>),
}

pub open spec fn optional_text(t: Option<String>) -> Option<Seq<char>> {
    match t {
        Some(s) => Some(s@),
        None => None,
    }
}

impl View for Cell {
    type V = CellV;

    open spec fn view(&self) -> CellV {
        match *self {
            Cell::Null => CellV::Null,
            Cell::Text(s) => CellV::Text(s@),
            Cell::Int(n) => CellV::Int(n as int),
            Cell::Texts(items) => CellV::Texts(
                items@.map_values(|t: Option<String>| optional_text(t)),
            ),
        }
    }
}

pub open spec fn row_view(row: Vec<Cell>) -> Seq<CellV> {
    row@.map_values(|c: Cell| c@)
}

pub open spec fn rows_view(rows: Seq<Vec<Cell>>) -> Seq<Seq<CellV>> {
    rows.map_values(|r: Vec<Cell>| row_view(r))
}

pub open spec fn texts_view(texts: Seq<String>) -> Seq<Seq<char>> {
    texts.map_values(|t: String| t@)
}

pub open spec fn bindings(params: Seq<(String, String)>) -> Seq<(Seq<char>, Seq<char>)> {
    params.map_values(|p: (String, String)| (p.0@, p.1@))
}

pub open spec fn binds_one(params: Seq<(Seq<char>, Seq<char>)>, key: Seq<char>) -> bool {
    &&& params.len() == 1
    &&& params[0].0 == key
}

pub open spec fn binds_two(
    params: Seq<(Seq<char>, Seq<char>)>,
    first: Seq<char>,
    second: Seq<char>,
) -> bool {
    &&& params.len() == 2
    &&& params[0].0 == first
    &&& params[1].0 == second
}

pub open spec fn binds_three(
    params: Seq<(Seq<char>, Seq<char>)>,
    first: Seq<char>,
    second: Seq<char>,
    third: Seq<char>,
) -> bool {
    &&& params.len() == 3
    &&& params[0].0 == first
    &&& params[1].0 == second
    &&& params[2].0 == third
}

/// A node version to be written.
#[derive(Debug)]
pub struct NodeRecord {
    pub node_type: String,
    pub tier: String,
    pub name: String,
    pub body: Option<String>,
    pub tags: Vec<String>,
    pub properties: Option<String>,
    pub visibility: String,
    pub layer: String,
}

impl View for NodeRecord {
    type V = NodeV;

    open spec fn view(&self) -> NodeV {
        NodeV {
            node_type: self.node_type@,
            tier: self.tier@,
            name: self.name@,
            body: optional_text(self.body),
            tags: texts_view(self.tags@),
            properties: optional_text(self.properties),
            visibility: self.visibility@,
            layer: self.layer@,
        }
    }
}

// ---- what the scripts read and write, as sets ----------------------------

/// The node ids attached to an initiative.
pub open spec fn members_of(c: Contents, init: Seq<char>) -> Set<Seq<char>> {
    Set::new(|n: Seq<char>| c.members.contains((init, n)))
}

/// The edge keys attached to an initiative.
pub open spec fn edges_of(c: Contents, init: Seq<char>) -> Set<Seq<char>> {
    Set::new(|e: Seq<char>| c.edge_members.contains((init, e)))
}

/// The initiatives a node is attached to.
pub open spec fn homes_of(c: Contents, node_id: Seq<char>) -> Set<Seq<char>> {
    Set::new(|i: Seq<char>| c.members.contains((i, node_id)))
}

/// The initiatives that have a node attached.
pub open spec fn initiatives_of(c: Contents) -> Set<Seq<char>> {
    Set::new(|i: Seq<char>| exists|n: Seq<char>| c.members.contains((i, n)))
}

/// The nodes attached to both initiatives.
pub open spec fn shared_by(c: Contents, a: Seq<char>, b: Seq<char>) -> Set<Seq<char>> {
    Set::new(|n: Seq<char>| c.members.contains((a, n)) && c.members.contains((b, n)))
}

/// The share policies under a name: one or none.
pub open spec fn policies_of(c: Contents, name: Seq<char>) -> Set<Seq<char>> {
    Set::new(|p: Seq<char>| c.policies.dom().contains(name) && c.policies[name] == p)
}

/// Pairs with every partner of `old` also paired with `new`.
pub open spec fn copied(
    pairs: Set<(Seq<char>, Seq<char>)>,
    old: Seq<char>,
    new: Seq<char>,
) -> Set<(Seq<char>, Seq<char>)> {
    Set::new(
        |p: (Seq<char>, Seq<char>)|
            pairs.contains(p) || (p.0 == new && pairs.contains((old, p.1))),
    )
}

/// Pairs without those of `name`.
pub open spec fn dropped(
    pairs: Set<(Seq<char>, Seq<char>)>,
    name: Seq<char>,
) -> Set<(Seq<char>, Seq<char>)> {
    Set::new(|p: (Seq<char>, Seq<char>)| pairs.contains(p) && p.0 != name)
}

/// Policies with that of `old`, if there is one, also under `new`.
pub open spec fn policy_copied(
    policies: Map<Seq<char>, Seq<char>>,
    old: Seq<char>,
    new: Seq<char>,
) -> Map<Seq<char>, Seq<char>> {
    if policies.dom().contains(old) {
        policies.insert(new, policies[old])
    } else {
        policies
    }
}

/// The edges that start or end at one of some nodes.
pub open spec fn touching(ids: Set<Seq<char>>) -> Set<EdgeId> {
    Set::new(|e: EdgeId| ids.contains(e.src) || ids.contains(e.dst))
}

/// Whether an edge is listed for an initiative: it reads as present, leads into the given store,
/// and both its ends are attached.
pub open spec fn edge_listed(
    c: Contents,
    e: EdgeId,
    init: Seq<char>,
    dst_store: Seq<char>,
    at: int,
) -> bool {
    &&& live(c.edges, e, at)
    &&& value_at(c.edges, e, at).dst_store == dst_store
    &&& c.members.contains((init, e.src))
    &&& c.members.contains((init, e.dst))
}

// ---- how the scripts answer ----------------------------------------------

/// The row of a single text.
pub open spec fn text_row(t: Seq<char>) -> Seq<CellV> {
    seq![CellV::Text(t)]
}

pub open spec fn optional_cell(t: Option<Seq<char>>) -> CellV {
    match t {
        Some(s) => CellV::Text(s),
        None => CellV::Null,
    }
}

pub open spec fn texts_cell(ts: Seq<Seq<char>>) -> CellV {
    CellV::Texts(ts.map_values(|t: Seq<char>| Some(t)))
}

/// The row of a node in a listing.
pub open spec fn node_row(id: Seq<char>, n: NodeV, stamp: int) -> Seq<CellV> {
    seq![
        CellV::Text(id),
        CellV::Text(n.node_type),
        CellV::Text(n.name),
        optional_cell(n.body),
        texts_cell(n.tags),
        CellV::Int(stamp),
    ]
}

/// The row of a whole node.
pub open spec fn full_row(n: NodeV) -> Seq<CellV> {
    seq![
        CellV::Text(n.node_type),
        CellV::Text(n.tier),
        CellV::Text(n.name),
        optional_cell(n.body),
        texts_cell(n.tags),
        optional_cell(n.properties),
        CellV::Text(n.visibility),
        CellV::Text(n.layer),
    ]
}

/// The row of an edge in a listing.
pub open spec fn edge_row(e: EdgeId, v: EdgeV) -> Seq<CellV> {
    seq![
        CellV::Text(e.src),
        CellV::Text(e.dst),
        CellV::Text(e.edge_type),
        CellV::Int(v.weight),
    ]
}

/// The row of an audit entry.
pub open spec fn audit_row(seq_no: int, a: AuditV) -> Seq<CellV> {
    seq![
        CellV::Int(seq_no),
        CellV::Int(a.at),
        CellV::Text(a.op),
        CellV::Text(a.actor),
        texts_cell(a.refs),
    ]
}

/// The text in the first column of a row.
pub open spec fn first_text(row: Seq<CellV>) -> Seq<char> {
    row[0]->Text_0
}

/// The rows are those of the texts in `s`, each once.
pub open spec fn column_of(rows: Seq<Seq<CellV>>, s: Set<Seq<char>>) -> bool {
    &&& rows.no_duplicates()
    &&& forall|i: int|
        0 <= i < rows.len() ==> s.contains(first_text(#[trigger] rows[i])) && rows[i] == text_row(
            first_text(rows[i]),
        )
    &&& forall|t: Seq<char>| #[trigger] s.contains(t) ==> rows.contains(text_row(t))
}

/// The rows ascend strictly by the text of their first column.
pub open spec fn ascending(rows: Seq<Seq<CellV>>) -> bool {
    forall|i: int, j: int|
        #![trigger rows[i], rows[j]]
        0 <= i < j < rows.len() ==> text_lt(first_text(rows[i]), first_text(rows[j]))
}

/// Whether a node is in scope at the moment `at`: it reads as present and, where an initiative is
/// given, is attached to it.
pub open spec fn in_scope(c: Contents, scope: Option<Seq<char>>, id: Seq<char>, at: int) -> bool {
    &&& live(c.nodes, id, at)
    &&& scope matches Some(init) ==> c.members.contains((init, id))
}

/// The rows list the nodes in scope at the moment `at`, by ascending id.
pub open spec fn lists_nodes(
    rows: Seq<Seq<CellV>>,
    c: Contents,
    scope: Option<Seq<char>>,
    at: int,
) -> bool {
    &&& ascending(rows)
    &&& forall|i: int|
        0 <= i < rows.len() ==> {
            let id = first_text(#[trigger] rows[i]);
            &&& in_scope(c, scope, id, at)
            &&& rows[i] == node_row(id, value_at(c.nodes, id, at), stamp_at(c.nodes, id, at))
        }
    &&& forall|id: Seq<char>| #[trigger]
        in_scope(c, scope, id, at) ==> exists|i: int|
            0 <= i < rows.len() && first_text(#[trigger] rows[i]) == id
}

/// The rows name the nodes in scope at the moment `at` and their types, by ascending id.
pub open spec fn lists_types(
    rows: Seq<Seq<CellV>>,
    c: Contents,
    scope: Option<Seq<char>>,
    at: int,
) -> bool {
    &&& ascending(rows)
    &&& forall|i: int|
        0 <= i < rows.len() ==> {
            let id = first_text(#[trigger] rows[i]);
            &&& in_scope(c, scope, id, at)
            &&& rows[i] == seq![
                CellV::Text(id),
                CellV::Text(value_at(c.nodes, id, at).node_type),
            ]
        }
    &&& forall|id: Seq<char>| #[trigger]
        in_scope(c, scope, id, at) ==> exists|i: int|
            0 <= i < rows.len() && first_text(#[trigger] rows[i]) == id
}

pub open spec fn edge_in(row: Seq<CellV>) -> EdgeId {
    EdgeId { src: row[0]->Text_0, dst: row[1]->Text_0, edge_type: row[2]->Text_0 }
}

/// Edges ordered by source, then destination, then type.
pub open spec fn edge_lt(a: EdgeId, b: EdgeId) -> bool {
    ||| text_lt(a.src, b.src)
    ||| a.src == b.src && text_lt(a.dst, b.dst)
    ||| a.src == b.src && a.dst == b.dst && text_lt(a.edge_type, b.edge_type)
}

/// The rows list the edges of an initiative at the moment `at`, in ascending order.
pub open spec fn lists_edges(
    rows: Seq<Seq<CellV>>,
    c: Contents,
    init: Seq<char>,
    dst_store: Seq<char>,
    at: int,
) -> bool {
    &&& forall|i: int, j: int|
        #![trigger rows[i], rows[j]]
        0 <= i < j < rows.len() ==> edge_lt(edge_in(rows[i]), edge_in(rows[j]))
    &&& forall|i: int|
        0 <= i < rows.len() ==> {
            let e = edge_in(#[trigger] rows[i]);
            &&& edge_listed(c, e, init, dst_store, at)
            &&& rows[i] == edge_row(e, value_at(c.edges, e, at))
        }
    &&& forall|e: EdgeId| #[trigger]
        edge_listed(c, e, init, dst_store, at) ==> exists|i: int|
            0 <= i < rows.len() && edge_in(#[trigger] rows[i]) == e
}

// ---- the scripts -----------------------------------------------------------

/// The nodes of `$init`.
pub const MEMBERS: &'static str =
    "?[node_id] := *node_initiative{initiative, node_id}, initiative = $init";

/// The edge keys of `$init`.
pub const EDGE_MEMBERS: &'static str =
    "?[edge_pk] := *edge_initiative{initiative, edge_pk}, initiative = $init";

/// The policy of `$n`.
pub const POLICY: &'static str = "?[share_policy] := *initiative{name, share_policy}, name = $n";

/// The initiatives of the node `$nid`.
pub const HOMES: &'static str =
    "?[initiative] := *node_initiative{initiative, node_id}, node_id = $nid";

/// `$init`, if the node `$nid` is attached to it.
pub const MEMBERSHIP: &'static str =
    "?[initiative] := *node_initiative{initiative, node_id}, initiative = $init, node_id = $nid";

/// All initiatives, in order.
pub const INITIATIVES: &'static str =
    "?[initiative] := *node_initiative{initiative, node_id} :order initiative";

/// The nodes of both `$a` and `$b`.
pub const SHARED: &'static str =
    "?[node_id] := *node_initiative{initiative: ia, node_id}, ia = $a, *node_initiative{initiative: ib, node_id}, ib = $b";

/// The nodes of `$init` that read at `$at`, by id.
pub const NODES_IN: &'static str =
    "?[id, type, name, body, tags, stamp] := *node_initiative{initiative, node_id: id}, initiative = $init, *node{id, type, name, body, tags, validity @ $at}, stamp = to_int(validity) :order id";

/// All nodes that read at `$at`, by id.
pub const NODES: &'static str =
    "?[id, type, name, body, tags, stamp] := *node{id, type, name, body, tags, validity @ $at}, stamp = to_int(validity) :order id";

/// The nodes of `$init` that read at `$at`, with their types only.
pub const TYPES_IN: &'static str =
    "?[id, type] := *node_initiative{initiative, node_id: id}, initiative = $init, *node{id, type @ $at} :order id";

/// The edges into `$dst_store` that read at `$at` and have both ends in `$init`, in order.
pub const EDGES_IN: &'static str =
    "?[src, dst, edge_type, weight] := *edge{src, dst, edge_type, weight, dst_store @ $at}, dst_store = $dst_store, *node_initiative{initiative, node_id: src}, initiative = $init, *node_initiative{initiative: i2, node_id: dst}, i2 = $init :order src, dst, edge_type";

/// The whole node `$id`, if it reads at `$at`.
pub const NODE: &'static str =
    "?[type, tier, name, body, tags, properties, visibility, layer] := *node{id, type, tier, name, body, tags, properties, visibility, layer @ $at}, id = $id";

/// The listing row of the node `$id`, if it reads at `$at`.
pub const BRIEF: &'static str =
    "?[id, type, name, body, tags, stamp] := *node{id, type, name, body, tags, validity @ $at}, id = $id, stamp = to_int(validity)";

/// The audit trail, in order.
pub const AUDIT: &'static str =
    "?[seq, at, op, actor, refs] := *audit{seq, at, op, actor, refs} :order seq";

/// What a reading script answers: the rows that the script named `script` yields on contents `c`
/// with the given parameters, `$at` among them.
pub open spec fn answers(
    script: Seq<char>,
    params: Seq<(Seq<char>, Seq<char>)>,
    at: int,
    c: Contents,
    rows: Seq<Seq<CellV>>,
) -> bool {
    &&& script == MEMBERS@ && binds_one(params, "init"@) ==> column_of(
        rows,
        members_of(c, params[0].1),
    )
    &&& script == EDGE_MEMBERS@ && binds_one(params, "init"@) ==> column_of(
        rows,
        edges_of(c, params[0].1),
    )
    &&& script == POLICY@ && binds_one(params, "n"@) ==> column_of(
        rows,
        policies_of(c, params[0].1),
    )
    &&& script == HOMES@ && binds_one(params, "nid"@) ==> column_of(rows, homes_of(c, params[0].1))
    &&& script == MEMBERSHIP@ && binds_two(params, "init"@, "nid"@) ==> column_of(
        rows,
        Set::new(
            |i: Seq<char>| i == params[0].1 && c.members.contains((params[0].1, params[1].1)),
        ),
    )
    &&& script == INITIATIVES@ ==> column_of(rows, initiatives_of(c)) && ascending(rows)
    &&& script == SHARED@ && binds_two(params, "a"@, "b"@) ==> column_of(
        rows,
        shared_by(c, params[0].1, params[1].1),
    )
    &&& script == NODES_IN@ && binds_one(params, "init"@) ==> lists_nodes(
        rows,
        c,
        Some(params[0].1),
        at,
    )
    &&& script == NODES@ ==> lists_nodes(rows, c, None, at)
    &&& script == TYPES_IN@ && binds_one(params, "init"@) ==> lists_types(
        rows,
        c,
        Some(params[0].1),
        at,
    )
    &&& script == EDGES_IN@ && binds_two(params, "init"@, "dst_store"@) ==> lists_edges(
        rows,
        c,
        params[0].1,
        params[1].1,
        at,
    )
    &&& script == NODE@ && binds_one(params, "id"@) ==> rows == (match reads_as(
        c.nodes,
        params[0].1,
        at,
    ) {
        Some(n) => seq![full_row(n)],
        None => Seq::empty(),
    })
    &&& script == BRIEF@ && binds_one(params, "id"@) ==> rows == (if live(
        c.nodes,
        params[0].1,
        at,
    ) {
        seq![
            node_row(
                params[0].1,
                value_at(c.nodes, params[0].1, at),
                stamp_at(c.nodes, params[0].1, at),
            ),
        ]
    } else {
        Seq::empty()
    })
    &&& script == AUDIT@ ==> rows == Seq::new(
        c.audit.len(),
        |i: int| audit_row(i, c.audit[i]),
    )
}

/// Creates the relations, all empty.
pub const SCHEMA: &'static str =
    "{:create node_initiative {initiative: String, node_id: String}}
{:create edge_initiative {initiative: String, edge_pk: String}}
{:create initiative {name: String => share_policy: String}}
{:create node {id: String, validity: Validity => type: String, tier: String, name: String, body: String?, tags: [String], properties: String?, visibility: String, layer: String}}
{:create edge {src: String, dst: String, edge_type: String, validity: Validity => weight: Int, dst_store: String}}
{:create audit {seq: Int => at: Int, op: String, actor: String, refs: [String]}}";

/// Attaches the nodes of `$old` to `$new`.
pub const COPY_MEMBERS: &'static str =
    "?[initiative, node_id] := *node_initiative{initiative: oi, node_id}, oi = $old, initiative = $new :put node_initiative {initiative, node_id}";

/// Detaches the nodes of `$old` from it.
pub const DROP_MEMBERS: &'static str =
    "?[initiative, node_id] := *node_initiative{initiative, node_id}, initiative = $old :rm node_initiative {initiative, node_id}";

/// Attaches the edges of `$old` to `$new`.
pub const COPY_EDGE_MEMBERS: &'static str =
    "?[initiative, edge_pk] := *edge_initiative{initiative: oi, edge_pk}, oi = $old, initiative = $new :put edge_initiative {initiative, edge_pk}";

/// Detaches the edges of `$old` from it.
pub const DROP_EDGE_MEMBERS: &'static str =
    "?[initiative, edge_pk] := *edge_initiative{initiative, edge_pk}, initiative = $old :rm edge_initiative {initiative, edge_pk}";

/// Gives `$new` the policy of `$old`, if that has one.
pub const COPY_POLICY: &'static str =
    "?[name, share_policy] := *initiative{name: o, share_policy}, o = $old, name = $new :put initiative {name => share_policy}";

/// Removes the policy of `$old`.
pub const DROP_POLICY: &'static str =
    "?[name] := *initiative{name}, name = $old :rm initiative {name}";

/// Sets the policy of `$n`.
pub const PUT_POLICY: &'static str =
    "?[name, share_policy] <- [[$n, $policy]] :put initiative {name => share_policy}";

/// Attaches the node `$nid` to `$init`.
pub const ATTACH: &'static str =
    "?[initiative, node_id] <- [[$init, $nid]] :put node_initiative {initiative, node_id}";

/// Attaches the edge `$pk` to `$init`.
pub const ATTACH_EDGE: &'static str =
    "?[initiative, edge_pk] <- [[$init, $pk]] :put edge_initiative {initiative, edge_pk}";

/// Retracts the node `$id` at `$at`, if it reads there.
pub const RETRACT_NODE: &'static str =
    "?[id, validity, type, tier, name, body, tags, properties, visibility, layer] := *node{id, type, tier, name, body, tags, properties, visibility, layer @ $at}, id = $id, validity = [$at, false] :put node {id, validity => type, tier, name, body, tags, properties, visibility, layer}";

/// Retracts an edge at `$at`, if it reads there.
pub const RETRACT_EDGE: &'static str =
    "?[src, dst, edge_type, validity, weight, dst_store] := *edge{src, dst, edge_type, weight, dst_store @ $at}, src = $src, dst = $dst, edge_type = $edge_type, validity = [$at, false] :put edge {src, dst, edge_type, validity => weight, dst_store}";

/// Retracts every edge from or to the node `$id` that reads at `$at`.
pub const RETRACT_EDGES_OF: &'static str =
    "touching[src, dst, edge_type, weight, dst_store] := *edge{src, dst, edge_type, weight, dst_store @ $at}, src = $id
touching[src, dst, edge_type, weight, dst_store] := *edge{src, dst, edge_type, weight, dst_store @ $at}, dst = $id
?[src, dst, edge_type, validity, weight, dst_store] := touching[src, dst, edge_type, weight, dst_store], validity = [$at, false]
:put edge {src, dst, edge_type, validity => weight, dst_store}";

/// What a writing script changes: contents `c` become `after`.
pub open spec fn changes(
    script: Seq<char>,
    params: Seq<(Seq<char>, Seq<char>)>,
    at: int,
    c: Contents,
    after: Contents,
) -> bool {
    &&& script == SCHEMA@ ==> after == c
    &&& script == COPY_MEMBERS@ && binds_two(params, "old"@, "new"@) ==> after == (Contents {
        members: copied(c.members, params[0].1, params[1].1),
        ..c
    })
    &&& script == DROP_MEMBERS@ && binds_one(params, "old"@) ==> after == (Contents {
        members: dropped(c.members, params[0].1),
        ..c
    })
    &&& script == COPY_EDGE_MEMBERS@ && binds_two(params, "old"@, "new"@) ==> after == (Contents {
        edge_members: copied(c.edge_members, params[0].1, params[1].1),
        ..c
    })
    &&& script == DROP_EDGE_MEMBERS@ && binds_one(params, "old"@) ==> after == (Contents {
        edge_members: dropped(c.edge_members, params[0].1),
        ..c
    })
    &&& script == COPY_POLICY@ && binds_two(params, "old"@, "new"@) ==> after == (Contents {
        policies: policy_copied(c.policies, params[0].1, params[1].1),
        ..c
    })
    &&& script == DROP_POLICY@ && binds_one(params, "old"@) ==> after == (Contents {
        policies: c.policies.remove(params[0].1),
        ..c
    })
    &&& script == PUT_POLICY@ && binds_two(params, "n"@, "policy"@) ==> after == (Contents {
        policies: c.policies.insert(params[0].1, params[1].1),
        ..c
    })
    &&& script == ATTACH@ && binds_two(params, "init"@, "nid"@) ==> after == (Contents {
        members: c.members.insert((params[0].1, params[1].1)),
        ..c
    })
    &&& script == ATTACH_EDGE@ && binds_two(params, "init"@, "pk"@) ==> after == (Contents {
        edge_members: c.edge_members.insert((params[0].1, params[1].1)),
        ..c
    })
    &&& script == RETRACT_NODE@ && binds_one(params, "id"@) ==> after == (Contents {
        nodes: retracted_all(c.nodes, set![params[0].1], at),
        ..c
    })
    &&& script == RETRACT_EDGE@ && binds_three(params, "src"@, "dst"@, "edge_type"@) ==> after == (
    Contents {
        edges: retracted_all(
            c.edges,
            set![EdgeId { src: params[0].1, dst: params[1].1, edge_type: params[2].1 }],
            at,
        ),
        ..c
    })
    &&& script == RETRACT_EDGES_OF@ && binds_one(params, "id"@) ==> after == (Contents {
        edges: retracted_all(c.edges, touching(set![params[0].1]), at),
        ..c
    })
}

/// Asserts a node version at `$at`.
pub const PUT_NODE: &'static str =
    "?[id, validity, type, tier, name, body, tags, properties, visibility, layer] <- [[$id, [$at, true], $type, $tier, $name, $body, $tags, $properties, $visibility, $layer]] :put node {id, validity => type, tier, name, body, tags, properties, visibility, layer}";

/// Asserts an edge version at `$at`.
pub const PUT_EDGE: &'static str =
    "?[src, dst, edge_type, validity, weight, dst_store] <- [[$src, $dst, $edge_type, [$at, true], $weight, $dst_store]] :put edge {src, dst, edge_type, validity => weight, dst_store}";

/// Appends an audit entry.
pub const PUT_AUDIT: &'static str =
    "next[count(seq)] := *audit{seq}
?[seq, at, op, actor, refs] := next[seq], at = $at, op = $op, actor = $actor, refs = $refs
:put audit {seq => at, op, actor, refs}";

pub open spec fn cells(params: Seq<(String, Cell)>) -> Seq<(Seq<char>, CellV)> {
    params.map_values(|p: (String, Cell)| (p.0@, p.1@))
}

/// The parameters under which a node version is put.
pub open spec fn node_params(id: Seq<char>, n: NodeV) -> Seq<(Seq<char>, CellV)> {
    seq![
        ("id"@, CellV::Text(id)),
        ("type"@, CellV::Text(n.node_type)),
        ("tier"@, CellV::Text(n.tier)),
        ("name"@, CellV::Text(n.name)),
        ("body"@, optional_cell(n.body)),
        ("tags"@, texts_cell(n.tags)),
        ("properties"@, optional_cell(n.properties)),
        ("visibility"@, CellV::Text(n.visibility)),
        ("layer"@, CellV::Text(n.layer)),
    ]
}

/// The parameters under which an edge version is put.
pub open spec fn edge_params(e: EdgeId, v: EdgeV) -> Seq<(Seq<char>, CellV)> {
    seq![
        ("src"@, CellV::Text(e.src)),
        ("dst"@, CellV::Text(e.dst)),
        ("edge_type"@, CellV::Text(e.edge_type)),
        ("weight"@, CellV::Int(v.weight)),
        ("dst_store"@, CellV::Text(v.dst_store)),
    ]
}

/// The parameters under which an audit entry is put.
pub open spec fn audit_params(op: Seq<char>, actor: Seq<char>, refs: Seq<Seq<char>>) -> Seq<
    (Seq<char>, CellV),
> {
    seq![("op"@, CellV::Text(op)), ("actor"@, CellV::Text(actor)), ("refs"@, texts_cell(refs))]
}

/// What a putting script changes: contents `c` become `after`. A version takes the place of one
/// with the same stamp; an audit entry comes under the number of entries there are.
pub open spec fn puts(
    script: Seq<char>,
    params: Seq<(Seq<char>, CellV)>,
    at: int,
    c: Contents,
    after: Contents,
) -> bool {
    &&& script == PUT_NODE@ ==> forall|id: Seq<char>, n: NodeV|
        params == #[trigger] node_params(id, n) ==> after == (Contents {
            nodes: c.nodes.insert((id, at, true), n),
            ..c
        })
    &&& script == PUT_EDGE@ ==> forall|e: EdgeId, v: EdgeV|
        params == #[trigger] edge_params(e, v) ==> after == (Contents {
            edges: c.edges.insert((e, at, true), v),
            ..c
        })
    &&& script == PUT_AUDIT@ ==> forall|op: Seq<char>, actor: Seq<char>, refs: Seq<Seq<char>>|
        params == #[trigger] audit_params(op, actor, refs) ==> after == (Contents {
            audit: c.audit.push((AuditV { at, op, actor, refs })),
            ..c
        })
}

// ---- the calls -------------------------------------------------------------

/// Opens an in-memory database with `cozo::DbInstance::new`. Claimed: it has no relation yet, so
/// none has rows.
#[verifier::external_body]
pub(crate) fn open_in_memory() -> (r: Result<cozo::DbInstance, cozo::Error>)
    ensures
        r matches Ok(db) ==> contents(db) == nothing(),
{
    cozo::DbInstance::new("mem", "", "")
}

/// Runs a reading script with `cozo::DbInstance::run_script`, the given texts bound to their
/// parameter names and `at` to `$at`. Claimed: a script of this module that is answered is answered
/// with the rows that [`answers`] gives it. Nothing is claimed of when the call fails.
#[verifier::external_body]
pub(crate) fn run_read(
    db: &cozo::DbInstance,
    script: &str,
    params: &Vec<(String, String)>,
    at: i64,
) -> (r: Result<Vec<Vec<Cell>>, cozo::Error>)
    ensures
        r matches Ok(rows) ==> answers(
            script@,
            bindings(params@),
            at as int,
            (Contents {
                members: node_initiative(*db),
                edge_members: edge_initiative(*db),
                policies: initiative(*db),
                nodes: node(*db),
                edges: edge(*db),
                audit: audit(*db),
            }),
            rows_view(rows@),
        ),
{
    let bound = params.iter().map(|p| (p.0.clone(), p.1[..].into()))
        .chain([("at".into(), at.into())]).collect();
    let cell = |v| match v {
        DataValue::Str(s) => Cell::Text(s.into()),
        DataValue::Num(Num::Int(n)) => Cell::Int(n),
        DataValue::List(l) => Cell::Texts(l.iter().map(|x| x.get_str().map(Into::into)).collect()),
        _ => Cell::Null
    };
    Ok(db.run_script(script, bound, ScriptMutability::Immutable)?.rows.into_iter()
        .map(|row| row.into_iter().map(cell).collect()).collect())
}

/// Runs a writing script with `cozo::DbInstance::run_script`, parameters bound as in [`run_read`].
/// Claimed: a script of this module that succeeds changes the contents as [`changes`] says, and one
/// that fails changes nothing, since a script is one transaction.
#[verifier::external_body]
pub(crate) fn run_mut(
    db: &mut cozo::DbInstance,
    script: &str,
    params: &Vec<(String, String)>,
    at: i64,
) -> (r: Result<(), cozo::Error>)
    ensures
        r is Ok ==> changes(
            script@,
            bindings(params@),
            at as int,
            contents(*old(db)),
            contents(*final(db)),
        ),
        r is Err ==> contents(*final(db)) == contents(*old(db)),
{
    let mut bound: BTreeMap<String, DataValue> =
        params.iter().map(|p| (p.0.clone(), p.1.as_str().into())).collect();
    bound.insert("at".to_string(), at.into());
    db.run_script(script, bound, ScriptMutability::Mutable)?;
    Ok(())
}

/// Runs a script that puts one row with `cozo::DbInstance::run_script`, the given cells bound to
/// their parameter names and `at` to `$at`. Claimed: a script of this module that succeeds changes
/// the contents as [`puts`] says, and one that fails changes nothing.
#[verifier::external_body]
pub(crate) fn run_put(
    db: &mut cozo::DbInstance,
    script: &str,
    params: &Vec<(String, Cell)>,
    at: i64,
) -> (r: Result<(), cozo::Error>)
    ensures
        r is Ok ==> puts(
            script@,
            cells(params@),
            at as int,
            contents(*old(db)),
            contents(*final(db)),
        ),
        r is Err ==> contents(*final(db)) == contents(*old(db)),
{
    let value = |c: &Cell| match c {
        Cell::Null => DataValue::Null,
        Cell::Text(s) => s.as_str().into(),
        Cell::Int(n) => (*n).into(),
        Cell::Texts(l) => DataValue::List(
            l.iter().map(|x| x.as_deref().map_or(DataValue::Null, Into::into)).collect(),
        ),
    };
    let mut bound: BTreeMap<String, DataValue> =
        params.iter().map(|p| (p.0.clone(), value(&p.1))).collect();
    bound.insert("at".to_string(), at.into());
    db.run_script(script, bound, ScriptMutability::Mutable)?;
    Ok(())
}

} // verus!
