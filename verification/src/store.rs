//! The store: a database, the initiative in scope, and the board registries.

use crate::model::{nothing, AuditV, Contents};
use crate::rows::{list_cell, text_cell};
use crate::substrate::{
    answers, audit_params, bindings, cells, changes, contents, open_in_memory, optional_text, puts,
    rows_view, run_mut, run_put, run_read, texts_view, Cell, PUT_AUDIT,
    SCHEMA,
};
use crate::text::{trim, trimmed};
use vstd::prelude::*;

verus! {

/// Why a call on a store failed.
#[derive(Debug)]
pub enum StoreError {
    /// The request is not one that can be carried out; the text says what to change.
    Invalid(String),
    /// What the request names does not exist.
    NotFound(String),
    /// The database failed.
    Substrate(cozo::Error),
}

/// One column of a task board.
#[derive(Debug, PartialEq, Eq)]
pub struct BoardStatus {
    pub key: String,
    pub label: String,
}

/// One column of a task board, as a mathematical value.
#[verifier::ext_equal]
pub struct BoardStatusV {
    pub key: Seq<char>,
    pub label: Seq<char>,
}

impl View for BoardStatus {
    type V = BoardStatusV;

    open spec fn view(&self) -> BoardStatusV {
        BoardStatusV { key: self.key@, label: self.label@ }
    }
}

pub open spec fn statuses_view(s: Seq<BoardStatus>) -> Seq<BoardStatusV> {
    s.map_values(|b: BoardStatus| b@)
}

/// What a store is set to, beside what it holds.
#[verifier::ext_equal]
pub struct SettingsV {
    /// The initiative in scope.
    pub scope: Option<Seq<char>>,
    /// Status registries by initiative, latest last.
    pub boards: Seq<(Seq<char>, Seq<BoardStatusV>)>,
    /// How many characters of a body an excerpt keeps.
    pub excerpt_chars: nat,
}

/// A store of nodes and edges, grouped by initiative.
pub struct Store {
    pub(crate) db: cozo::DbInstance,
    pub(crate) current: Option<String>,
    pub(crate) boards: Vec<(String, Vec<BoardStatus>)>,
    pub(crate) excerpt_chars: usize,
}

/// How many characters of a body an excerpt keeps unless set otherwise.
pub const BODY_EXCERPT_CHARS: usize = 200;

impl Store {
    /// What the store holds.
    pub open(crate) spec fn held(&self) -> Contents {
        contents(self.db)
    }

    /// What the store is set to.
    pub open(crate) spec fn settings(&self) -> SettingsV {
        SettingsV {
            scope: optional_text(self.current),
            boards: self.boards@.map_values(
                |b: (String, Vec<BoardStatus>)| (b.0@, statuses_view(b.1@)),
            ),
            excerpt_chars: self.excerpt_chars as nat,
        }
    }

    /// An empty store, with no initiative in scope.
    pub fn open_in_memory() -> (r: Result<Store, StoreError>)
        ensures
            r matches Ok(s) ==> s.held() == nothing() && s.settings() == (SettingsV {
                scope: None,
                boards: Seq::empty(),
                excerpt_chars: BODY_EXCERPT_CHARS as nat,
            }),
            r matches Err(e) ==> e is Substrate,
    {
        match open_in_memory() {
            Ok(db) => {
                let mut store = Store {
                    db,
                    current: None,
                    boards: Vec::new(),
                    excerpt_chars: BODY_EXCERPT_CHARS,
                };
                proof {
                    assert(store.settings().boards =~= Seq::empty());
                }
                store.run_mut(SCHEMA, &Vec::new(), 0)?;
                Ok(store)
            },
            Err(e) => Err(StoreError::Substrate(e)),
        }
    }

    /// Puts an initiative in scope, under its trimmed name.
    pub fn use_initiative(&mut self, name: &str)
        ensures
            final(self).held() == old(self).held(),
            final(self).settings() == (SettingsV {
                scope: Some(trimmed(name@)),
                ..old(self).settings()
            }),
    {
        self.current = Some(trim(name).to_owned());
    }

    /// Puts no initiative in scope.
    pub fn clear_initiative(&mut self)
        ensures
            final(self).held() == old(self).held(),
            final(self).settings() == (SettingsV { scope: None, ..old(self).settings() }),
    {
        self.current = None;
    }

    /// The initiative in scope.
    pub fn current_initiative(&self) -> (r: Option<String>)
        ensures
            optional_text(r) == self.settings().scope,
    {
        match &self.current {
            Some(name) => Some(name.clone()),
            None => None,
        }
    }

    /// Sets how many characters of a body an excerpt keeps.
    pub fn set_excerpt_chars(&mut self, chars: usize)
        ensures
            final(self).held() == old(self).held(),
            final(self).settings() == (SettingsV {
                excerpt_chars: chars as nat,
                ..old(self).settings()
            }),
    {
        self.excerpt_chars = chars;
    }

    /// Registers the columns of an initiative's board.
    pub fn set_statuses(&mut self, name: &str, statuses: Vec<BoardStatus>)
        ensures
            final(self).held() == old(self).held(),
            final(self).settings() == (SettingsV {
                boards: old(self).settings().boards.push((name@, statuses_view(statuses@))),
                ..old(self).settings()
            }),
    {
        let ghost before = self.settings().boards;
        self.boards.push((name.to_owned(), statuses));
        proof {
            assert(self.settings().boards =~= before.push((name@, statuses_view(statuses@))));
        }
    }

    /// Runs a reading script.
    pub(crate) fn run_read(&self, script: &str, params: &Vec<(String, String)>, at: i64) -> (r:
        Result<Vec<Vec<Cell>>, StoreError>)
        ensures
            r matches Ok(rows) ==> answers(
                script@,
                bindings(params@),
                at as int,
                self.held(),
                rows_view(rows@),
            ),
            r matches Err(e) ==> e is Substrate,
    {
        match run_read(&self.db, script, params, at) {
            Ok(rows) => Ok(rows),
            Err(e) => Err(StoreError::Substrate(e)),
        }
    }

    /// Runs a writing script.
    pub(crate) fn run_mut(&mut self, script: &str, params: &Vec<(String, String)>, at: i64) -> (r:
        Result<(), StoreError>)
        ensures
            final(self).settings() == old(self).settings(),
            r is Ok ==> changes(
                script@,
                bindings(params@),
                at as int,
                old(self).held(),
                final(self).held(),
            ),
            r matches Err(e) ==> e is Substrate && final(self).held() == old(self).held(),
    {
        match run_mut(&mut self.db, script, params, at) {
            Ok(()) => Ok(()),
            Err(e) => Err(StoreError::Substrate(e)),
        }
    }

    /// Runs a script that puts one row.
    pub(crate) fn run_put(&mut self, script: &str, params: &Vec<(String, Cell)>, at: i64) -> (r:
        Result<(), StoreError>)
        ensures
            final(self).settings() == old(self).settings(),
            r is Ok ==> puts(
                script@,
                cells(params@),
                at as int,
                old(self).held(),
                final(self).held(),
            ),
            r matches Err(e) ==> e is Substrate && final(self).held() == old(self).held(),
    {
        match run_put(&mut self.db, script, params, at) {
            Ok(()) => Ok(()),
            Err(e) => Err(StoreError::Substrate(e)),
        }
    }
}

/// Appends an entry to the audit trail.
pub(crate) fn write_audit(
    store: &mut Store,
    at: i64,
    op: &str,
    actor: &str,
    refs: &Vec<String>,
) -> (r: Result<(), StoreError>)
    ensures
        final(store).settings() == old(store).settings(),
        r is Ok ==> final(store).held() == (Contents {
            audit: old(store).held().audit.push(
                (AuditV { at: at as int, op: op@, actor: actor@, refs: texts_view(refs@) }),
            ),
            ..old(store).held()
        }),
        r matches Err(e) ==> e is Substrate && final(store).held() == old(store).held(),
{
    let params = vec![text_cell("op", op), text_cell("actor", actor), list_cell("refs", refs)];
    assert(cells(params@) =~= audit_params(op@, actor@, texts_view(refs@)));
    store.run_put(PUT_AUDIT, &params, at)
}

/// The parameters of a script with one text.
pub(crate) fn one(k: &str, v: &str) -> (r: Vec<(String, String)>)
    ensures
        bindings(r@) == seq![(k@, v@)],
{
    let r = vec![(k.to_owned(), v.to_owned())];
    proof {
        assert(bindings(r@) =~= seq![(k@, v@)]);
    }
    r
}

/// The parameters of a script with two texts.
pub(crate) fn two(k: &str, v: &str, k2: &str, v2: &str) -> (r: Vec<(String, String)>)
    ensures
        bindings(r@) == seq![(k@, v@), (k2@, v2@)],
{
    let r = vec![(k.to_owned(), v.to_owned()), (k2.to_owned(), v2.to_owned())];
    proof {
        assert(bindings(r@) =~= seq![(k@, v@), (k2@, v2@)]);
    }
    r
}

/// The parameters of a script with three texts.
pub(crate) fn three(k: &str, v: &str, k2: &str, v2: &str, k3: &str, v3: &str) -> (r: Vec<
    (String, String),
>)
    ensures
        bindings(r@) == seq![(k@, v@), (k2@, v2@), (k3@, v3@)],
{
    let r = vec![
        (k.to_owned(), v.to_owned()),
        (k2.to_owned(), v2.to_owned()),
        (k3.to_owned(), v3.to_owned()),
    ];
    proof {
        assert(bindings(r@) =~= seq![(k@, v@), (k2@, v2@), (k3@, v3@)]);
    }
    r
}

} // verus!
