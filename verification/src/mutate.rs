//! Verbs on whole initiatives: rename, merge, delete, attach.
//!
//! An initiative is a scoping key, not a stored node: it lives in the memberships of nodes and
//! edges and in the share policies. These verbs move or drop every trace of a name in one pass.
//! They take explicit names and pay no regard to the initiative in scope.

use crate::model::{AuditV, Contents};
use crate::rows::{first_texts, lists};
use crate::store::{one, Store, StoreError};
use crate::substrate::{edges_of, members_of, policies_of, texts_view, EDGE_MEMBERS, MEMBERS, POLICY};
use vstd::prelude::*;

pub mod attach;
pub mod delete;
pub mod merge;
pub mod rename;

verus! {

/// `c` with one more audit entry, by the system.
pub open spec fn audited(c: Contents, at: int, op: Seq<char>, refs: Seq<Seq<char>>) -> Contents {
    Contents { audit: c.audit.push(AuditV { at, op, actor: "system"@, refs }), ..c }
}

/// Node ids attached to `initiative`.
pub fn node_ids_in(store: &Store, initiative: &str) -> (r: Result<Vec<String>, StoreError>)
    ensures
        r matches Ok(ids) ==> lists(texts_view(ids@), members_of(store.held(), initiative@)),
        r matches Err(e) ==> e is Substrate,
{
    let rows = store.run_read(MEMBERS, &one("init", initiative), 0)?;
    Ok(first_texts(&rows))
}

/// The share policies under a name: one or none.
pub(crate) fn policies_under(store: &Store, name: &str) -> (r: Result<Vec<String>, StoreError>)
    ensures
        r matches Ok(found) ==> {
            &&& lists(texts_view(found@), policies_of(store.held(), name@))
            &&& found@.len() > 0 <==> store.held().policies.dom().contains(name@)
        },
        r matches Err(e) ==> e is Substrate,
{
    let rows = store.run_read(POLICY, &one("n", name), 0)?;
    let found = first_texts(&rows);
    proof {
        let s = policies_of(store.held(), name@);
        let texts = texts_view(found@);
        if found@.len() > 0 {
            assert(texts.contains(texts[0]));
        }
        if store.held().policies.dom().contains(name@) {
            assert(s.contains(store.held().policies[name@]));
            assert(texts.contains(store.held().policies[name@]));
        }
    }
    Ok(found)
}

/// Edge keys attached to `initiative`.
pub(crate) fn edge_keys_in(store: &Store, initiative: &str) -> (r: Result<Vec<String>, StoreError>)
    ensures
        r matches Ok(keys) ==> lists(texts_view(keys@), edges_of(store.held(), initiative@)),
        r matches Err(e) ==> e is Substrate,
{
    let rows = store.run_read(EDGE_MEMBERS, &one("init", initiative), 0)?;
    Ok(first_texts(&rows))
}

} // verus!
