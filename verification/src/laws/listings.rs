//! Laws of listings: what an initiative holds, and what is shown of it.

use crate::briefs::{brief_of, brief_read, briefs_view, excerpt, NodeBrief};
use crate::listing::{
    asked_for, content_of, count_read, edge_record, edge_records, edges_read, nodes_read,
    page_of, the_count_matches_the_listing,
};
use crate::model::{decides, live, reads_as, stamp_at, value_at, Contents, EdgeId, EdgeV};
use crate::substrate::{edge_listed, optional_text};
use crate::text::text_lt;
use vstd::prelude::*;

verus! {

/// Whether `x` is what an excerpt of `n` characters shows of a text: all of it, or its first `n`
/// characters and an ellipsis.
pub open spec fn is_excerpt(x: Seq<char>, text: Seq<char>, n: nat) -> bool {
    &&& text.len() <= n ==> x == text
    &&& text.len() > n ==> x.len() == n + 1 && x[n as int] == '\u{2026}' && forall|i: int|
        0 <= i < n ==> #[trigger] x[i] == text[i]
}

/// An excerpt shows the start of a text, and says so where it stops short.
pub proof fn an_excerpt_is_the_start(text: Seq<char>, n: nat)
    ensures
        is_excerpt(excerpt(text, n), text, n),
{
    reveal_strlit("\u{2026}");
}

/// Whether `stamp` is that of the version which a read at the moment `at` finds: asserted then, and
/// followed by nothing up to that moment.
pub open spec fn is_latest(c: Contents, id: Seq<char>, stamp: int, at: int) -> bool {
    &&& c.nodes.dom().contains((id, stamp, true))
    &&& stamp <= at
    &&& forall|t: int, asserted: bool| #[trigger]
        c.nodes.dom().contains((id, t, asserted)) ==> t <= stamp || at < t
}

/// Whether a brief says of its node, at the moment `at`, what the node says.
pub open spec fn says_of_its_node(c: Contents, chars: nat, at: int, b: NodeBrief) -> bool {
    let n = reads_as(c.nodes, b.id@, at)->0;
    &&& reads_as(c.nodes, b.id@, at) is Some
    &&& b.node_type@ == n.node_type
    &&& b.name@ == n.name
    &&& optional_text(b.body_excerpt) is Some <==> n.body is Some
    &&& optional_text(b.body_excerpt) matches Some(x) ==> is_excerpt(x, n.body->0, chars)
    &&& b.ts matches Some(t) && is_latest(c, b.id@, t as int, at)
}

pub(crate) proof fn a_brief_says_of_its_node(c: Contents, chars: nat, at: int, b: NodeBrief)
    requires
        live(c.nodes, b.id@, at),
        b@ == brief_of(c, b.id@, chars, at),
    ensures
        says_of_its_node(c, chars, at, b),
{
    let n = value_at(c.nodes, b.id@, at);
    assert(decides(c.nodes, b.id@, stamp_at(c.nodes, b.id@, at), at));
    if let Some(body) = n.body {
        an_excerpt_is_the_start(body, chars);
    }
}

/// The brief of a node is there exactly if the node reads, under its id, and says what it says.
pub proof fn a_brief_is_that_of_its_node(
    c: Contents,
    id: Seq<char>,
    chars: nat,
    at: int,
    read: Option<NodeBrief>,
)
    requires
        brief_read(c, id, chars, at, Ok(read)),
    ensures
        read is Some <==> reads_as(c.nodes, id, at) is Some,
        read matches Some(b) ==> b.id@ == id && says_of_its_node(c, chars, at, b),
{
    if let Some(b) = read {
        assert(b.id@ == id);
        a_brief_says_of_its_node(c, chars, at, b);
    }
}

/// Exactly the nodes of an initiative are listed: those attached to it that read, but for the audit
/// events.
pub proof fn the_nodes_of_an_initiative_are_listed(
    c: Contents,
    init: Seq<char>,
    chars: nat,
    at: int,
    out: Vec<NodeBrief>,
    id: Seq<char>,
)
    requires
        nodes_read(c, init, chars, at, Ok(out)),
    ensures
        (exists|i: int| 0 <= i < out@.len() && (#[trigger] out@[i]).id@ == id) <==> {
            &&& c.members.contains((init, id))
            &&& reads_as(c.nodes, id, at) matches Some(n) && n.node_type != "audit_event"@
        },
{
    let view = briefs_view(out@);
    let ids = content_of(c, init, at);
    if exists|i: int| 0 <= i < out@.len() && (#[trigger] out@[i]).id@ == id {
        let i = choose|i: int| 0 <= i < out@.len() && (#[trigger] out@[i]).id@ == id;
        assert(view[i].id == id);
        assert(ids.contains(id));
    }
    if ids.contains(id) {
        let i = choose|i: int| 0 <= i < view.len() && (#[trigger] view[i]).id == id;
        assert(out@[i].id@ == id);
    }
    assert(ids.contains(id) <==> c.members.contains((init, id)) && (reads_as(c.nodes, id, at)
        matches Some(n) && n.node_type != "audit_event"@));
}

/// The nodes of an initiative are listed by ascending id, each once, and each says what its node
/// says; their number is the count.
pub proof fn a_listing_ascends_by_id(
    c: Contents,
    init: Seq<char>,
    chars: nat,
    at: int,
    out: Vec<NodeBrief>,
    i: int,
    j: int,
    count: usize,
)
    requires
        nodes_read(c, init, chars, at, Ok(out)),
        count_read(c, init, at, Ok(count)),
    ensures
        0 <= i < out@.len() ==> says_of_its_node(c, chars, at, out@[i]),
        0 <= i < j < out@.len() ==> text_lt(out@[i].id@, out@[j].id@),
        count == out@.len(),
{
    let view = briefs_view(out@);
    if 0 <= i < out@.len() {
        assert(view[i] == out@[i]@);
        assert(content_of(c, init, at).contains(view[i].id));
        a_brief_says_of_its_node(c, chars, at, out@[i]);
    }
    if 0 <= i < j < out@.len() {
        assert(view[j] == out@[j]@);
        assert(text_lt(view[i].id, view[j].id));
    }
    the_count_matches_the_listing(c, init, chars, at, view);
}

/// Exactly the edges of an initiative are listed: those that read, stay in the local store, and have
/// both ends attached; each with the weight it reads with.
pub proof fn the_edges_of_an_initiative_are_listed(
    c: Contents,
    init: Seq<char>,
    at: int,
    out: Vec<(String, String, String, i64)>,
    src: Seq<char>,
    dst: Seq<char>,
    edge_type: Seq<char>,
    weight: int,
)
    requires
        edges_read(c, init, at, Ok(out)),
    ensures
        (exists|i: int|
            0 <= i < out@.len() && (#[trigger] out@[i]).0@ == src && out@[i].1@ == dst && out@[i].2@
                == edge_type && out@[i].3 == weight) <==> {
            &&& c.members.contains((init, src))
            &&& c.members.contains((init, dst))
            &&& reads_as(c.edges, EdgeId { src, dst, edge_type }, at) == Some(
                EdgeV { weight, dst_store: "local"@ },
            )
        },
{
    let view = edge_records(out@);
    let e = EdgeId { src, dst, edge_type };
    if exists|i: int|
        0 <= i < out@.len() && (#[trigger] out@[i]).0@ == src && out@[i].1@ == dst && out@[i].2@
            == edge_type && out@[i].3 == weight {
        let i = choose|i: int|
            0 <= i < out@.len() && (#[trigger] out@[i]).0@ == src && out@[i].1@ == dst && out@[i].2@
                == edge_type && out@[i].3 == weight;
        assert(view[i] == edge_record(out@[i]));
        assert(view[i].0 == e);
        assert(edge_listed(c, e, init, "local"@, at));
    }
    if edge_listed(c, e, init, "local"@, at) && value_at(c.edges, e, at).weight == weight {
        let i = choose|i: int| 0 <= i < view.len() && (#[trigger] view[i]).0 == e;
        assert(view[i] == edge_record(out@[i]));
        assert(out@[i].3 == weight);
    }
}

/// The edges of an initiative come by source, then by destination, then by type, each once.
pub proof fn edges_ascend_by_their_ends(
    c: Contents,
    init: Seq<char>,
    at: int,
    out: Vec<(String, String, String, i64)>,
    i: int,
    j: int,
)
    requires
        edges_read(c, init, at, Ok(out)),
        0 <= i < j < out@.len(),
    ensures
        ({
            let (a, b) = (out@[i], out@[j]);
            ||| text_lt(a.0@, b.0@)
            ||| a.0@ == b.0@ && text_lt(a.1@, b.1@)
            ||| a.0@ == b.0@ && a.1@ == b.1@ && text_lt(a.2@, b.2@)
        }),
{
    let view = edge_records(out@);
    assert(view[i] == edge_record(out@[i]));
    assert(view[j] == edge_record(out@[j]));
    assert(crate::substrate::edge_lt(view[i].0, view[j].0));
}

/// A brief is asked for if its name holds the text that is looked for, and every one is where none is
/// looked for.
pub proof fn a_brief_is_asked_for_by_its_name(b: crate::briefs::BriefV, text: Seq<char>)
    ensures
        asked_for(b, None),
        asked_for(b, Some(text)) <==> exists|front: Seq<char>, back: Seq<char>|
            b.name == #[trigger] (front + text + back),
{
    super::texts::what_occurs_is_in_the_midst(b.name, text);
}

/// A page is a stretch of a listing: its first item is the one after those left out, and it stops at
/// the limit or at the end.
pub proof fn a_page_is_a_stretch(
    nodes: Seq<crate::briefs::BriefV>,
    offset: nat,
    limit: Option<nat>,
    i: int,
)
    ensures
        ({
            let page = page_of(nodes, offset, limit);
            &&& 0 <= i < page.len() ==> offset + i < nodes.len() && page[i] == nodes[offset + i]
            &&& limit matches Some(n) ==> page.len() <= n
            &&& offset + page.len() < nodes.len() ==> (limit matches Some(n) && page.len() == n)
            &&& offset >= nodes.len() ==> page.len() == 0
        }),
{
}

} // verus!
