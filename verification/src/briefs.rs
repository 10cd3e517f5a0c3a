//! Short views of nodes.

use crate::clock::{clock_showed, present};
use crate::model::{live, stamp_at, value_at, Contents};
use crate::rows::{int_in, optional_int, text_in, text_or_empty};
use crate::store::{one, Store, StoreError};
use crate::substrate::{node_row, optional_text, row_view, rows_view, Cell, BRIEF};
use crate::text::{chars_of, join};
use vstd::prelude::*;
use vstd::string::StrSliceExecFns;

verus! {

/// A node in a listing: its body is cut down to an excerpt.
#[derive(Debug, Clone, PartialEq, Eq)]
pub struct NodeBrief {
    pub id: String,
    pub node_type: String,
    pub name: String,
    pub body_excerpt: Option<String>,
    /// The second in which this version was written.
    pub ts: Option<i64>,
}

/// A node in a listing, as a mathematical value.
#[verifier::ext_equal]
pub struct BriefV {
    pub id: Seq<char>,
    pub node_type: Seq<char>,
    pub name: Seq<char>,
    pub body_excerpt: Option<Seq<char>>,
    pub ts: Option<int>,
}

impl View for NodeBrief {
    type V = BriefV;

    open spec fn view(&self) -> BriefV {
        BriefV {
            id: self.id@,
            node_type: self.node_type@,
            name: self.name@,
            body_excerpt: optional_text(self.body_excerpt),
            ts: optional_int(self.ts),
        }
    }
}

pub open spec fn briefs_view(s: Seq<NodeBrief>) -> Seq<BriefV> {
    s.map_values(|b: NodeBrief| b@)
}

/// A text of at most `n` characters as it is, a longer one cut there, with an ellipsis.
pub open spec fn excerpt(s: Seq<char>, n: nat) -> Seq<char> {
    if s.len() <= n {
        s
    } else {
        s.take(n as int) + "\u{2026}"@
    }
}

pub open spec fn optional_excerpt(s: Option<Seq<char>>, n: nat) -> Option<Seq<char>> {
    match s {
        Some(t) => Some(excerpt(t, n)),
        None => None,
    }
}

/// The short view of a node that reads as present at the moment `at`.
pub open spec fn brief_of(c: Contents, id: Seq<char>, chars: nat, at: int) -> BriefV {
    let n = value_at(c.nodes, id, at);
    BriefV {
        id,
        node_type: n.node_type,
        name: n.name,
        body_excerpt: optional_excerpt(n.body, chars),
        ts: Some(stamp_at(c.nodes, id, at)),
    }
}

/// Cuts a text down to `n` characters.
pub fn truncate_excerpt(s: &str, n: usize) -> (r: String)
    ensures
        r@ == excerpt(s@, n as nat),
{
    let chars = chars_of(s);
    if chars.len() <= n {
        s.to_owned()
    } else {
        join(s.substring_char(0, n), "\u{2026}")
    }
}

/// Reads a listing row.
pub fn parse_brief(row: &Vec<Cell>, excerpt_chars: usize) -> (r: NodeBrief)
    ensures
        forall|c: Contents, id: Seq<char>, at: int|
            row_view(*row) == #[trigger] node_row(
                id,
                value_at(c.nodes, id, at),
                stamp_at(c.nodes, id, at),
            ) ==> r@ == brief_of(c, id, excerpt_chars as nat, at),
{
    let body = text_in(row, 3);
    let body_excerpt = match &body {
        Some(s) => Some(truncate_excerpt(s.as_str(), excerpt_chars)),
        None => None,
    };
    let r = NodeBrief {
        id: text_or_empty(row, 0),
        node_type: text_or_empty(row, 1),
        name: text_or_empty(row, 2),
        body_excerpt,
        ts: int_in(row, 5),
    };
    proof {
        assert forall|c: Contents, id: Seq<char>, at: int|
            row_view(*row) == #[trigger] node_row(
                id,
                value_at(c.nodes, id, at),
                stamp_at(c.nodes, id, at),
            ) implies r@ == brief_of(c, id, excerpt_chars as nat, at) by {
            let want = node_row(id, value_at(c.nodes, id, at), stamp_at(c.nodes, id, at));
            assert(want.len() == 6);
            assert(row@.len() == 6);
        }
    }
    r
}

/// Whether a read of the short view of a node at the moment `at` may end with `r`.
pub open spec fn brief_read(
    c: Contents,
    id: Seq<char>,
    chars: nat,
    at: int,
    r: Result<Option<NodeBrief>, StoreError>,
) -> bool {
    match r {
        Ok(Some(b)) => live(c.nodes, id, at) && b@ == brief_of(c, id, chars, at),
        Ok(None) => !live(c.nodes, id, at),
        Err(e) => e is Substrate,
    }
}

/// The short view of a node at the moment `at`, if it reads as present there.
pub fn node_brief_by_id_at(store: &Store, id: &str, at: i64) -> (r: Result<
    Option<NodeBrief>,
    StoreError,
>)
    ensures
        brief_read(store.held(), id@, store.settings().excerpt_chars, at as int, r),
{
    let rows = store.run_read(BRIEF, &one("id", id), at)?;
    assert(rows_view(rows@).len() == rows@.len());
    if rows.len() > 0 {
        assert(rows_view(rows@)[0] == row_view(rows@[0]));
        Ok(Some(parse_brief(&rows[0], store.excerpt_chars)))
    } else {
        Ok(None)
    }
}

/// The short view of a node as [`node_brief_by_id_at`] gives it, at the present moment.
pub fn node_brief_by_id(store: &Store, id: &str) -> (r: Result<Option<NodeBrief>, StoreError>)
    ensures
        exists|at: int|
            0 <= at && clock_showed(at) && #[trigger] brief_read(
                store.held(),
                id@,
                store.settings().excerpt_chars,
                at,
                r,
            ),
{
    let at = present();
    node_brief_by_id_at(store, id, at)
}

} // verus!
