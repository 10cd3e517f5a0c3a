//! The audit trail.

use crate::model::AuditV;
use crate::rows::{int_in, text_or_empty, texts_in};
use crate::store::{Store, StoreError};
use crate::substrate::{audit_row, row_view, rows_view, texts_cell, texts_view, Cell, AUDIT};
use vstd::prelude::*;

verus! {

/// One entry of the audit trail.
#[derive(Debug, PartialEq, Eq)]
pub struct AuditEntry {
    pub at: i64,
    pub op: String,
    pub actor: String,
    pub refs: Vec<String>,
}

impl View for AuditEntry {
    type V = AuditV;

    open spec fn view(&self) -> AuditV {
        AuditV { at: self.at as int, op: self.op@, actor: self.actor@, refs: texts_view(self.refs@) }
    }
}

pub open spec fn entries_view(s: Seq<AuditEntry>) -> Seq<AuditV> {
    s.map_values(|e: AuditEntry| e@)
}

fn parse_entry(row: &Vec<Cell>) -> (r: AuditEntry)
    ensures
        forall|n: int, a: AuditV| row_view(*row) == #[trigger] audit_row(n, a) ==> r@ == a,
{
    let at = match int_in(row, 1) {
        Some(n) => n,
        None => 0,
    };
    let r = AuditEntry {
        at,
        op: text_or_empty(row, 2),
        actor: text_or_empty(row, 3),
        refs: texts_in(row, 4),
    };
    proof {
        assert forall|n: int, a: AuditV| row_view(*row) == #[trigger] audit_row(n, a) implies r@
            == a by {
            assert(audit_row(n, a).len() == 5);
            assert(row@.len() == 5);
            assert(row_view(*row)[4] == texts_cell(a.refs));
            assert(texts_view(r.refs@) == a.refs);
        }
    }
    r
}

/// The whole audit trail, oldest entry first.
pub fn audit_trail(store: &Store) -> (r: Result<Vec<AuditEntry>, StoreError>)
    ensures
        r matches Ok(entries) ==> entries_view(entries@) == store.held().audit,
        r matches Err(e) ==> e is Substrate,
{
    let rows = store.run_read(AUDIT, &Vec::new(), 0)?;
    let ghost trail = store.held().audit;
    let ghost view = rows_view(rows@);
    let mut out: Vec<AuditEntry> = Vec::new();
    let mut i: usize = 0;
    assert(view.len() == trail.len() && view.len() == rows@.len());
    while i < rows.len()
        invariant
            i <= rows@.len(),
            view == rows_view(rows@),
            rows@.len() == trail.len(),
            view == Seq::new(trail.len(), |k: int| audit_row(k, trail[k])),
            entries_view(out@) == trail.take(i as int),
        decreases rows.len() - i,
    {
        let ghost before = entries_view(out@);
        assert(view[i as int] == row_view(rows@[i as int]));
        assert(view[i as int] == audit_row(i as int, trail[i as int]));
        out.push(parse_entry(&rows[i]));
        assert(entries_view(out@) =~= before.push(trail[i as int]));
        assert(trail.take(i + 1) =~= before.push(trail[i as int]));
        i += 1;
    }
    assert(trail.take(i as int) =~= trail);
    Ok(out)
}

} // verus!
