//! Open work: the loose ends that re-entry must not drop.
//!
//! "Open" is defined against the initiative's own status registry: the registry's last column is
//! the terminal one (`done` in the built-in default), everything before it is still open. A task
//! whose `status:` tag matches no column counts as open too, so that drift surfaces rather than
//! disappears.
//!
//! A reminder restores what is owed from now on rather than what was already owed:
//!
//! - `after:YYYY-MM-DD`: not relevant until this date.
//! - `for:<N>d`: how many days to keep insisting once it surfaces. There is no default.
//! - `seen:YYYY-MM-DD`: written once, the first time it is delivered.
//!
//! It is due when `after:` has arrived and its window is still open. The window runs from first
//! sight, not from the date: a reminder waits for someone to show up and then gets its full window.

use crate::board::{
    a_board_has_columns, columns, default_columns, default_statuses, effective_statuses,
};
use crate::briefs::{
    brief_of, briefs_view, optional_excerpt, parse_brief, BriefV, NodeBrief,
};
use crate::clock::{clock_showed, day_named, day_showed, is_day, present, this_day};
use crate::listing::{content, AUDIT_EVENT};
use crate::model::{stamp_at, value_at, Contents};
use crate::order::{
    gather_done, gather_next, gather_skip, gathered, in_place, places_view, put_in_place,
    shown_before, Place, PlaceV,
};
use crate::rows::{optional_int, texts_in};
use crate::store::{one, statuses_view, SettingsV, Store, StoreError};
use crate::substrate::{
    first_text, in_scope, lists_nodes, node_row, optional_text, row_view, rows_view, texts_cell,
    texts_view, Cell, CellV, NODES, NODES_IN,
};
use crate::tags::{find_said, find_window, insistence, open_on, said, window_open};
use crate::text::{less, same, text_lt, text_lt_is_irreflexive, text_lt_is_transitive};
use vstd::prelude::*;

verus! {

/// The rows of the nodes in scope at the moment `at`.
fn scoped_rows(store: &Store, at: i64) -> (r: Result<Vec<Vec<Cell>>, StoreError>)
    ensures
        r matches Ok(rows) ==> lists_nodes(
            rows_view(rows@),
            store.held(),
            store.settings().scope,
            at as int,
        ),
        r matches Err(e) ==> e is Substrate,
{
    match store.current_initiative() {
        Some(init) => store.run_read(NODES_IN, &one("init", init.as_str()), at),
        None => store.run_read(NODES, &Vec::new(), at),
    }
}

/// The ids of listing rows.
spec fn row_ids(rows: Seq<Seq<CellV>>) -> Seq<Seq<char>> {
    rows.map_values(|r: Seq<CellV>| first_text(r))
}

/// A listing of the nodes in scope has each of them once.
proof fn rows_list_ids(rows: Seq<Seq<CellV>>, c: Contents, scope: Option<Seq<char>>, at: int)
    requires
        lists_nodes(rows, c, scope, at),
    ensures
        row_ids(rows).no_duplicates(),
        forall|id: Seq<char>| #[trigger]
            in_scope(c, scope, id, at) ==> row_ids(rows).contains(id),
{
    let ids = row_ids(rows);
    assert forall|i: int, j: int| 0 <= i < ids.len() && 0 <= j < ids.len() && i != j implies ids[i]
        != ids[j] by {
        text_lt_is_irreflexive(ids[i]);
        if i < j {
            assert(text_lt(first_text(rows[i]), first_text(rows[j])));
        } else {
            assert(text_lt(first_text(rows[j]), first_text(rows[i])));
        }
    }
    assert forall|id: Seq<char>| #[trigger] in_scope(c, scope, id, at) implies ids.contains(
        id,
    ) by {
        let i = choose|i: int| 0 <= i < rows.len() && first_text(#[trigger] rows[i]) == id;
        assert(ids[i] == id);
    }
}

/// The parts of a listing row that open work is made of.
struct Parts {
    id: String,
    node_type: String,
    name: String,
    body_excerpt: Option<String>,
    tags: Vec<String>,
    ts: Option<i64>,
}

/// The parts of a listing row, as mathematical values.
#[verifier::ext_equal]
struct PartsV {
    id: Seq<char>,
    node_type: Seq<char>,
    name: Seq<char>,
    body_excerpt: Option<Seq<char>>,
    tags: Seq<Seq<char>>,
    ts: Option<int>,
}

impl View for Parts {
    type V = PartsV;

    closed spec fn view(&self) -> PartsV {
        PartsV {
            id: self.id@,
            node_type: self.node_type@,
            name: self.name@,
            body_excerpt: optional_text(self.body_excerpt),
            tags: texts_view(self.tags@),
            ts: optional_int(self.ts),
        }
    }
}

/// The parts of a node at the moment `at`.
spec fn parts_at(c: Contents, id: Seq<char>, chars: nat, at: int) -> PartsV {
    let n = value_at(c.nodes, id, at);
    PartsV {
        id,
        node_type: n.node_type,
        name: n.name,
        body_excerpt: optional_excerpt(n.body, chars),
        tags: n.tags,
        ts: Some(stamp_at(c.nodes, id, at)),
    }
}

/// The parts of a node, from its listing row.
fn take_apart(row: &Vec<Cell>, excerpt_chars: usize) -> (r: Parts)
    ensures
        forall|c: Contents, id: Seq<char>, at: int|
            row_view(*row) == #[trigger] node_row(
                id,
                value_at(c.nodes, id, at),
                stamp_at(c.nodes, id, at),
            ) ==> r@ == parts_at(c, id, excerpt_chars as nat, at),
{
    let brief = parse_brief(row, excerpt_chars);
    let tags = texts_in(row, 4);
    proof {
        assert forall|c: Contents, id: Seq<char>, at: int|
            row_view(*row) == #[trigger] node_row(
                id,
                value_at(c.nodes, id, at),
                stamp_at(c.nodes, id, at),
            ) implies texts_view(tags@) == value_at(c.nodes, id, at).tags by {
            let want = node_row(id, value_at(c.nodes, id, at), stamp_at(c.nodes, id, at));
            assert(want.len() == 6);
            assert(row@.len() == 6);
            assert(row_view(*row)[4] == texts_cell(value_at(c.nodes, id, at).tags));
        }
    }
    Parts {
        id: brief.id,
        node_type: brief.node_type,
        name: brief.name,
        body_excerpt: brief.body_excerpt,
        tags,
        ts: brief.ts,
    }
}

/// A kind of open work: which nodes belong to it, what they are shown as, and where.
trait Kind: Sized {
    type Item: View;

    spec fn wants(&self, p: PartsV) -> bool;

    spec fn made(&self, p: PartsV) -> <Self::Item as View>::V;

    spec fn place(&self, v: <Self::Item as View>::V) -> PlaceV;

    /// The item of a node that belongs to this kind, and its place.
    fn item_of(&self, p: Parts) -> (r: Option<(Self::Item, Place)>)
        ensures
            r is Some <==> self.wants(p@),
            r matches Some(x) ==> x.0@ == self.made(p@) && x.1@ == self.place(x.0@) && x.1@.id
                == p@.id,
    ;
}

/// Whether a node in scope at the moment `at` belongs to a kind.
spec fn belongs<K: Kind>(kind: K, c: Contents, settings: SettingsV, id: Seq<char>, at: int) -> bool {
    &&& in_scope(c, settings.scope, id, at)
    &&& kind.wants(parts_at(c, id, settings.excerpt_chars, at))
}

spec fn shown_as<T: View>(items: Seq<T>) -> Seq<T::V> {
    items.map_values(|t: T| t@)
}

/// The items are those of the nodes in scope at the moment `at` that belong to a kind, each in its
/// place.
spec fn gathers<K: Kind>(
    kind: K,
    out: Seq<<K::Item as View>::V>,
    c: Contents,
    settings: SettingsV,
    at: int,
) -> bool {
    &&& forall|i: int, j: int|
        #![trigger out[i], out[j]]
        0 <= i < j < out.len() ==> shown_before(kind.place(out[i]), kind.place(out[j]))
    &&& forall|i: int|
        #![trigger out[i]]
        0 <= i < out.len() ==> {
            let id = kind.place(out[i]).id;
            &&& belongs(kind, c, settings, id, at)
            &&& out[i] == kind.made(parts_at(c, id, settings.excerpt_chars, at))
        }
    &&& forall|id: Seq<char>| #[trigger]
        belongs(kind, c, settings, id, at) ==> exists|i: int|
            #![trigger out[i]]
            0 <= i < out.len() && kind.place(out[i]).id == id
}

spec fn place_ids(places: Seq<Place>) -> Seq<Seq<char>> {
    places.map_values(|p: Place| p@.id)
}

/// An item is made of the node that its place names.
spec fn made_right<K: Kind>(
    kind: K,
    item: K::Item,
    place: Place,
    c: Contents,
    settings: SettingsV,
    at: int,
) -> bool {
    &&& place@ == kind.place(item@)
    &&& item@ == kind.made(parts_at(c, place@.id, settings.excerpt_chars, at))
}

/// Gathers the nodes in scope at the moment `at` that belong to a kind, each in its place.
fn gather<K: Kind>(store: &Store, kind: &K, at: i64) -> (r: Result<Vec<K::Item>, StoreError>)
    ensures
        r matches Ok(out) ==> gathers(
            *kind,
            shown_as(out@),
            store.held(),
            store.settings(),
            at as int,
        ),
        r matches Err(e) ==> e is Substrate,
{
    let rows = scoped_rows(store, at)?;
    let ghost c = store.held();
    let ghost settings = store.settings();
    let ghost view = rows_view(rows@);
    let ghost listed = row_ids(view);
    let ghost wanted = Set::new(|id: Seq<char>| belongs(*kind, c, settings, id, at as int));
    proof {
        rows_list_ids(view, c, settings.scope, at as int);
    }
    let mut out: Vec<K::Item> = Vec::new();
    let mut places: Vec<Place> = Vec::new();
    let mut k: usize = 0;
    while k < rows.len()
        invariant
            k <= rows@.len(),
            view == rows_view(rows@),
            listed == row_ids(view),
            listed.no_duplicates(),
            c == store.held(),
            settings == store.settings(),
            wanted == Set::new(|id: Seq<char>| belongs(*kind, c, settings, id, at as int)),
            lists_nodes(view, c, settings.scope, at as int),
            out@.len() == places@.len(),
            in_place(places_view(places@)),
            forall|i: int|
                #![trigger out@[i]]
                #![trigger places@[i]]
                0 <= i < out@.len() ==> made_right(
                    *kind,
                    out@[i],
                    places@[i],
                    c,
                    settings,
                    at as int,
                ),
            gathered(place_ids(places@), wanted, listed, k as int),
        decreases rows.len() - k,
    {
        let ghost id = listed[k as int];
        proof {
            assert(view[k as int] == row_view(rows@[k as int]));
            assert(id == first_text(view[k as int]));
            assert(in_scope(c, settings.scope, id, at as int));
        }
        let parts = take_apart(&rows[k], store.excerpt_chars);
        assert(parts@ == parts_at(c, id, settings.excerpt_chars, at as int));
        match kind.item_of(parts) {
            Some((item, place)) => {
                let ghost before = out@;
                let ghost placed = places@;
                proof {
                    gather_next(place_ids(placed), wanted, listed, k as int);
                    assert forall|i: int| 0 <= i < placed.len() implies (#[trigger] placed[i])@.id
                        != place@.id by {
                        assert(place_ids(placed)[i] == placed[i]@.id);
                        assert(place_ids(placed).contains(placed[i]@.id));
                    }
                }
                let p = put_in_place(&mut out, &mut places, item, place);
                proof {
                    assert(place_ids(places@) =~= place_ids(placed).insert(p@, id));
                    assert forall|i: int|
                        #![trigger out@[i]]
                        #![trigger places@[i]]
                        0 <= i < out@.len() implies made_right(
                        *kind,
                        out@[i],
                        places@[i],
                        c,
                        settings,
                        at as int,
                    ) by {
                        if i < p@ {
                            assert(out@[i] == before[i] && places@[i] == placed[i]);
                        } else if i > p@ {
                            assert(out@[i] == before[i - 1] && places@[i] == placed[i - 1]);
                        }
                    }
                }
            },
            None => {
                proof {
                    gather_skip(place_ids(places@), wanted, listed, k as int);
                }
            },
        }
        k += 1;
    }
    proof {
        let shown = shown_as(out@);
        let ids = place_ids(places@);
        assert forall|id: Seq<char>| #[trigger] wanted.contains(id) implies listed.contains(id) by {
            assert(in_scope(c, settings.scope, id, at as int));
        }
        gather_done(ids, wanted, listed);
        assert forall|i: int| 0 <= i < shown.len() implies #[trigger] shown[i] == out@[i]@
            && kind.place(shown[i]) == places@[i]@ && ids[i] == places@[i]@.id && ids.contains(
            places@[i]@.id,
        ) by {
            assert(made_right(*kind, out@[i], places@[i], c, settings, at as int));
            assert(ids[i] == places@[i]@.id);
        }
        assert forall|i: int, j: int|
            #![trigger shown[i], shown[j]]
            0 <= i < j < shown.len() implies shown_before(
            kind.place(shown[i]),
            kind.place(shown[j]),
        ) by {
            assert(places_view(places@)[i] == places@[i]@);
            assert(places_view(places@)[j] == places@[j]@);
        }
        assert forall|i: int|
            #![trigger shown[i]]
            0 <= i < shown.len() implies {
            let id = kind.place(shown[i]).id;
            &&& belongs(*kind, c, settings, id, at as int)
            &&& shown[i] == kind.made(parts_at(c, id, settings.excerpt_chars, at as int))
        } by {
            assert(wanted.contains(places@[i]@.id));
            assert(made_right(*kind, out@[i], places@[i], c, settings, at as int));
        }
        assert forall|id: Seq<char>| #[trigger]
            belongs(*kind, c, settings, id, at as int) implies exists|i: int|
            #![trigger shown[i]]
            0 <= i < shown.len() && kind.place(shown[i]).id == id by {
            assert(wanted.contains(id));
            assert(ids.contains(id));
            let i = ids.index_of(id);
            assert(kind.place(shown[i]).id == id);
        }
    }
    Ok(out)
}

// ---- tasks -----------------------------------------------------------------------

/// A task that has not reached its board's terminal column, with the `due:` date lifted out of the
/// tags and held against today.
#[derive(Debug, Clone, PartialEq, Eq)]
pub struct OpenTask {
    pub id: String,
    pub name: String,
    pub body_excerpt: Option<String>,
    /// The `status:` key the task currently carries; empty when it has none, which still counts as
    /// open.
    pub status: String,
    /// `due:` date as `YYYY-MM-DD`, when the task carries one.
    pub due: Option<String>,
    /// True when `due` is strictly before today (UTC). A task due today is not overdue yet: the
    /// day is not over.
    pub overdue: bool,
    pub ts: Option<i64>,
}

/// An open task, as a mathematical value.
#[verifier::ext_equal]
pub struct TaskV {
    pub id: Seq<char>,
    pub name: Seq<char>,
    pub body_excerpt: Option<Seq<char>>,
    pub status: Seq<char>,
    pub due: Option<Seq<char>>,
    pub overdue: bool,
    pub ts: Option<int>,
}

impl View for OpenTask {
    type V = TaskV;

    open spec fn view(&self) -> TaskV {
        TaskV {
            id: self.id@,
            name: self.name@,
            body_excerpt: optional_text(self.body_excerpt),
            status: self.status@,
            due: optional_text(self.due),
            overdue: self.overdue,
            ts: optional_int(self.ts),
        }
    }
}

pub open spec fn tasks_view(s: Seq<OpenTask>) -> Seq<TaskV> {
    s.map_values(|t: OpenTask| t@)
}

/// The status that a task carries: none is the empty one.
pub open spec fn status_of(tags: Seq<Seq<char>>) -> Seq<char> {
    match said(tags, "status:"@) {
        Some(s) => s,
        None => Seq::empty(),
    }
}

/// The key of the last column: with an initiative in scope, of its board, else of the built-in
/// one.
pub open spec fn terminal_key(settings: SettingsV) -> Seq<char> {
    match settings.scope {
        Some(init) => columns(settings.boards, init).last().key,
        None => default_columns().last().key,
    }
}

/// Whether a date is past. Dates are plain ISO texts, so the order of texts is that of time.
pub open spec fn is_past(due: Option<Seq<char>>, today: Seq<char>) -> bool {
    due matches Some(d) && text_lt(d, today)
}

/// Whether a node is an open task in scope at the moment `at`.
pub open spec fn is_open_task(c: Contents, settings: SettingsV, id: Seq<char>, at: int) -> bool {
    let n = value_at(c.nodes, id, at);
    &&& in_scope(c, settings.scope, id, at)
    &&& n.node_type == "task"@
    &&& status_of(n.tags) != terminal_key(settings)
}

/// The task that a node is.
pub open spec fn task_of(
    c: Contents,
    id: Seq<char>,
    chars: nat,
    today: Seq<char>,
    at: int,
) -> TaskV {
    let n = value_at(c.nodes, id, at);
    TaskV {
        id,
        name: n.name,
        body_excerpt: optional_excerpt(n.body, chars),
        status: status_of(n.tags),
        due: said(n.tags, "due:"@),
        overdue: is_past(said(n.tags, "due:"@), today),
        ts: Some(stamp_at(c.nodes, id, at)),
    }
}

/// Where a task is shown: by its due date, or after all that have one, newest first.
pub open spec fn task_place(t: TaskV) -> PlaceV {
    PlaceV {
        date: t.due,
        stamp: match t.ts {
            Some(s) => s,
            None => 0,
        },
        id: t.id,
    }
}

pub open spec fn task_places(s: Seq<TaskV>) -> Seq<PlaceV> {
    s.map_values(|t: TaskV| task_place(t))
}

/// The tasks are the open ones in scope at the moment `at`, judged on the day `today`, each where
/// it is shown.
pub open spec fn tasks_listed(
    out: Seq<TaskV>,
    c: Contents,
    settings: SettingsV,
    today: Seq<char>,
    at: int,
) -> bool {
    &&& in_place(task_places(out))
    &&& forall|i: int|
        0 <= i < out.len() ==> is_open_task(c, settings, (#[trigger] out[i]).id, at) && out[i]
            == task_of(c, out[i].id, settings.excerpt_chars, today, at)
    &&& forall|id: Seq<char>| #[trigger]
        is_open_task(c, settings, id, at) ==> exists|i: int|
            0 <= i < out.len() && (#[trigger] out[i]).id == id
}

/// Whether a read of the open tasks may end with `r`.
pub open spec fn tasks_read(
    c: Contents,
    settings: SettingsV,
    today: Seq<char>,
    at: int,
    r: Result<Vec<OpenTask>, StoreError>,
) -> bool {
    match r {
        Ok(out) => tasks_listed(tasks_view(out@), c, settings, today, at),
        Err(e) => e is Substrate,
    }
}

/// The key of the column in which tasks in scope are done.
fn terminal_status(store: &Store) -> (r: String)
    ensures
        r@ == terminal_key(store.settings()),
{
    // A status registry is per initiative; with none in scope the built-in vocabulary decides.
    let statuses = match store.current_initiative() {
        Some(init) => effective_statuses(store, init.as_str()),
        None => default_statuses(),
    };
    proof {
        let view = statuses_view(statuses@);
        if let Some(init) = store.settings().scope {
            a_board_has_columns(store.settings().boards, init);
        }
        assert(view.len() == statuses@.len());
        assert(view.last() == statuses@.last()@);
    }
    let last = statuses.len() - 1;
    statuses[last].key.clone()
}

/// Open tasks, judged by a terminal column and a day.
struct Tasks {
    terminal: String,
    today: String,
}

impl Kind for Tasks {
    type Item = OpenTask;

    closed spec fn wants(&self, p: PartsV) -> bool {
        p.node_type == "task"@ && status_of(p.tags) != self.terminal@
    }

    closed spec fn made(&self, p: PartsV) -> TaskV {
        TaskV {
            id: p.id,
            name: p.name,
            body_excerpt: p.body_excerpt,
            status: status_of(p.tags),
            due: said(p.tags, "due:"@),
            overdue: is_past(said(p.tags, "due:"@), self.today@),
            ts: p.ts,
        }
    }

    closed spec fn place(&self, v: TaskV) -> PlaceV {
        task_place(v)
    }

    fn item_of(&self, p: Parts) -> (r: Option<(OpenTask, Place)>) {
        if !same(p.node_type.as_str(), "task") {
            return None;
        }
        let status = match find_said(&p.tags, "status:") {
            Some(s) => s,
            None => String::new(),
        };
        assert(status@ =~= status_of(texts_view(p.tags@)));
        // The terminal column only: an unknown status is drift, not completion.
        if same(status.as_str(), self.terminal.as_str()) {
            return None;
        }
        let due = find_said(&p.tags, "due:");
        let overdue = match &due {
            Some(d) => less(d.as_str(), self.today.as_str()),
            None => false,
        };
        let date = match &due {
            Some(d) => Some(d.clone()),
            None => None,
        };
        let stamp: i64 = match p.ts {
            Some(s) => s,
            None => 0,
        };
        let place = Place { date, stamp, id: p.id.clone() };
        let task = OpenTask {
            id: p.id,
            name: p.name,
            body_excerpt: p.body_excerpt,
            status,
            due,
            overdue,
            ts: p.ts,
        };
        Some((task, place))
    }
}

/// Every still-open task in scope at the moment `at`, judged on the day `today`, deadline first:
/// overdue ones (oldest first), then the rest by due date, then undated tasks newest first.
///
/// Scoped to the initiative in scope when there is one; over all initiatives otherwise.
pub fn open_tasks_at(store: &Store, today: &str, at: i64) -> (r: Result<
    Vec<OpenTask>,
    StoreError,
>)
    ensures
        tasks_read(store.held(), store.settings(), today@, at as int, r),
{
    let kind = Tasks { terminal: terminal_status(store), today: today.to_owned() };
    let out = gather(store, &kind, at)?;
    proof {
        let (c, settings) = (store.held(), store.settings());
        assert(shown_as(out@) =~= tasks_view(out@));
        assert forall|id: Seq<char>| #[trigger]
            is_open_task(c, settings, id, at as int) == belongs(
                kind,
                c,
                settings,
                id,
                at as int,
            ) by {}
    }
    Ok(out)
}

/// The open tasks as [`open_tasks_at`] gives them, at the present moment and on this day.
pub fn open_tasks(store: &Store) -> (r: Result<Vec<OpenTask>, StoreError>)
    ensures
        exists|today: Seq<char>, at: int|
            is_day(today) && day_showed(today) && 0 <= at && clock_showed(at) && #[trigger] tasks_read(
                store.held(),
                store.settings(),
                today,
                at,
                r,
            ),
{
    let today = this_day();
    let at = present();
    open_tasks_at(store, today.as_str(), at)
}

// ---- reminders -------------------------------------------------------------------

/// A reminder whose moment has arrived: a node that named a future date and has reached it, with
/// its insistence window still open.
#[derive(Debug, Clone, PartialEq, Eq)]
pub struct DueReminder {
    pub id: String,
    pub name: String,
    pub body_excerpt: Option<String>,
    /// The `after:` date the author named: when this became relevant.
    pub after: String,
    /// Days of insistence the author asked for (`for:<N>d`).
    pub window_days: i64,
    /// `seen:` date, once the reminder has been delivered at least once.
    pub seen: Option<String>,
    pub ts: Option<i64>,
}

/// A due reminder, as a mathematical value.
#[verifier::ext_equal]
pub struct ReminderV {
    pub id: Seq<char>,
    pub name: Seq<char>,
    pub body_excerpt: Option<Seq<char>>,
    pub after: Seq<char>,
    pub window_days: int,
    pub seen: Option<Seq<char>>,
    pub ts: Option<int>,
}

impl View for DueReminder {
    type V = ReminderV;

    open spec fn view(&self) -> ReminderV {
        ReminderV {
            id: self.id@,
            name: self.name@,
            body_excerpt: optional_text(self.body_excerpt),
            after: self.after@,
            window_days: self.window_days as int,
            seen: optional_text(self.seen),
            ts: optional_int(self.ts),
        }
    }
}

impl DueReminder {
    /// True the first time a reminder surfaces: the moment its window should start, and the only
    /// moment a `seen:` stamp should be written.
    pub fn is_first_sighting(&self) -> (r: bool)
        ensures
            r == (self@.seen is None),
    {
        self.seen.is_none()
    }
}

pub open spec fn reminders_view(s: Seq<DueReminder>) -> Seq<ReminderV> {
    s.map_values(|d: DueReminder| d@)
}

/// Whether tags make a reminder that is due on the day `today`: its date has arrived, it asks for a
/// window, and it was never seen or its window is still open.
pub open spec fn due_on(tags: Seq<Seq<char>>, today: Seq<char>) -> bool {
    &&& said(tags, "after:"@) matches Some(after) && !text_lt(today, after)
    &&& insistence(tags) matches Some(days) && (said(tags, "seen:"@) matches Some(seen) ==> open_on(
        day_named(seen),
        day_named(today),
        days,
    ))
}

/// Whether a node is a due reminder in scope at the moment `at`.
pub open spec fn is_due_reminder(
    c: Contents,
    settings: SettingsV,
    id: Seq<char>,
    today: Seq<char>,
    at: int,
) -> bool {
    content(c, settings.scope, id, at) && due_on(value_at(c.nodes, id, at).tags, today)
}

/// The reminder that a node is.
pub open spec fn reminder_of(c: Contents, id: Seq<char>, chars: nat, at: int) -> ReminderV {
    let n = value_at(c.nodes, id, at);
    ReminderV {
        id,
        name: n.name,
        body_excerpt: optional_excerpt(n.body, chars),
        after: said(n.tags, "after:"@)->0,
        window_days: insistence(n.tags)->0,
        seen: said(n.tags, "seen:"@),
        ts: Some(stamp_at(c.nodes, id, at)),
    }
}

/// Where a reminder is shown: by its date, the longest-standing first.
pub open spec fn reminder_place(d: ReminderV) -> PlaceV {
    PlaceV { date: Some(d.after), stamp: 0, id: d.id }
}

pub open spec fn reminder_places(s: Seq<ReminderV>) -> Seq<PlaceV> {
    s.map_values(|d: ReminderV| reminder_place(d))
}

/// The reminders are those in scope at the moment `at` that are due on the day `today`, each where
/// it is shown.
pub open spec fn reminders_listed(
    out: Seq<ReminderV>,
    c: Contents,
    settings: SettingsV,
    today: Seq<char>,
    at: int,
) -> bool {
    &&& in_place(reminder_places(out))
    &&& forall|i: int|
        0 <= i < out.len() ==> is_due_reminder(c, settings, (#[trigger] out[i]).id, today, at)
            && out[i] == reminder_of(c, out[i].id, settings.excerpt_chars, at)
    &&& forall|id: Seq<char>| #[trigger]
        is_due_reminder(c, settings, id, today, at) ==> exists|i: int|
            0 <= i < out.len() && (#[trigger] out[i]).id == id
}

/// Whether a read of the due reminders may end with `r`.
pub open spec fn reminders_read(
    c: Contents,
    settings: SettingsV,
    today: Seq<char>,
    at: int,
    r: Result<Vec<DueReminder>, StoreError>,
) -> bool {
    match r {
        Ok(out) => reminders_listed(reminders_view(out@), c, settings, today, at),
        Err(e) => e is Substrate,
    }
}

/// Reminders, judged on a day.
struct Reminders {
    today: String,
}

impl Kind for Reminders {
    type Item = DueReminder;

    closed spec fn wants(&self, p: PartsV) -> bool {
        p.node_type != AUDIT_EVENT@ && due_on(p.tags, self.today@)
    }

    closed spec fn made(&self, p: PartsV) -> ReminderV {
        ReminderV {
            id: p.id,
            name: p.name,
            body_excerpt: p.body_excerpt,
            after: said(p.tags, "after:"@)->0,
            window_days: insistence(p.tags)->0,
            seen: said(p.tags, "seen:"@),
            ts: p.ts,
        }
    }

    closed spec fn place(&self, v: ReminderV) -> PlaceV {
        reminder_place(v)
    }

    fn item_of(&self, p: Parts) -> (r: Option<(DueReminder, Place)>) {
        if same(p.node_type.as_str(), AUDIT_EVENT) {
            return None;
        }
        let after = find_said(&p.tags, "after:")?;
        // Not yet its moment.
        if less(self.today.as_str(), after.as_str()) {
            return None;
        }
        // No window, no reminder: a capture that names a date without saying how long to insist is
        // incomplete rather than defaulted.
        let window_days = find_window(&p.tags)?;
        let seen = find_said(&p.tags, "seen:");
        // Seen already: due only while the window is still open.
        if let Some(seen_on) = &seen {
            if !window_open(seen_on.as_str(), window_days, self.today.as_str()) {
                return None;
            }
        }
        let place = Place { date: Some(after.clone()), stamp: 0, id: p.id.clone() };
        let reminder = DueReminder {
            id: p.id,
            name: p.name,
            body_excerpt: p.body_excerpt,
            after,
            window_days,
            seen,
            ts: p.ts,
        };
        Some((reminder, place))
    }
}

/// Reminders in scope at the moment `at` that are due on the day `today`, by the date they named:
/// the longest-standing moment first. Any node may be one but an audit event.
pub fn due_reminders_at(store: &Store, today: &str, at: i64) -> (r: Result<
    Vec<DueReminder>,
    StoreError,
>)
    ensures
        reminders_read(store.held(), store.settings(), today@, at as int, r),
{
    let kind = Reminders { today: today.to_owned() };
    let out = gather(store, &kind, at)?;
    proof {
        let (c, settings) = (store.held(), store.settings());
        assert(shown_as(out@) =~= reminders_view(out@));
        assert forall|id: Seq<char>| #[trigger]
            is_due_reminder(c, settings, id, today@, at as int) == belongs(
                kind,
                c,
                settings,
                id,
                at as int,
            ) by {}
    }
    Ok(out)
}

/// The due reminders as [`due_reminders_at`] gives them, at the present moment and on this day.
pub fn due_reminders(store: &Store) -> (r: Result<Vec<DueReminder>, StoreError>)
    ensures
        exists|today: Seq<char>, at: int|
            is_day(today) && day_showed(today) && 0 <= at && clock_showed(at) && #[trigger] reminders_read(
                store.held(),
                store.settings(),
                today,
                at,
                r,
            ),
{
    let today = this_day();
    let at = present();
    due_reminders_at(store, today.as_str(), at)
}

// ---- claims ----------------------------------------------------------------------

/// Whether a node is a claim in scope at the moment `at` that is neither confirmed nor refuted.
pub open spec fn is_open_claim(c: Contents, settings: SettingsV, id: Seq<char>, at: int) -> bool {
    let n = value_at(c.nodes, id, at);
    &&& in_scope(c, settings.scope, id, at)
    &&& n.node_type == "hypothesis"@
    &&& n.tags.contains("status:open"@)
}

/// Where a claim is shown: newest first.
pub open spec fn claim_place(b: BriefV) -> PlaceV {
    PlaceV {
        date: None,
        stamp: match b.ts {
            Some(s) => s,
            None => 0,
        },
        id: b.id,
    }
}

pub open spec fn claim_places(s: Seq<BriefV>) -> Seq<PlaceV> {
    s.map_values(|b: BriefV| claim_place(b))
}

/// The claims are the open ones in scope at the moment `at`, newest first.
pub open spec fn claims_listed(
    out: Seq<BriefV>,
    c: Contents,
    settings: SettingsV,
    at: int,
) -> bool {
    &&& in_place(claim_places(out))
    &&& forall|i: int|
        0 <= i < out.len() ==> is_open_claim(c, settings, (#[trigger] out[i]).id, at) && out[i]
            == brief_of(c, out[i].id, settings.excerpt_chars, at)
    &&& forall|id: Seq<char>| #[trigger]
        is_open_claim(c, settings, id, at) ==> exists|i: int|
            0 <= i < out.len() && (#[trigger] out[i]).id == id
}

/// Whether a read of the open claims may end with `r`.
pub open spec fn claims_read(
    c: Contents,
    settings: SettingsV,
    at: int,
    r: Result<Vec<NodeBrief>, StoreError>,
) -> bool {
    match r {
        Ok(out) => claims_listed(briefs_view(out@), c, settings, at),
        Err(e) => e is Substrate,
    }
}

/// Whether a tag is among others.
fn has_tag(tags: &Vec<String>, tag: &str) -> (r: bool)
    ensures
        r == texts_view(tags@).contains(tag@),
{
    let ghost texts = texts_view(tags@);
    let mut i: usize = 0;
    while i < tags.len()
        invariant
            i <= tags@.len(),
            texts == texts_view(tags@),
            forall|j: int| 0 <= j < i ==> #[trigger] texts[j] != tag@,
        decreases tags.len() - i,
    {
        assert(texts[i as int] == tags@[i as int]@);
        if same(tags[i].as_str(), tag) {
            assert(texts.contains(tag@));
            return true;
        }
        i += 1;
    }
    false
}

/// Claims that are neither confirmed nor refuted.
struct Claims;

impl Kind for Claims {
    type Item = NodeBrief;

    closed spec fn wants(&self, p: PartsV) -> bool {
        p.node_type == "hypothesis"@ && p.tags.contains("status:open"@)
    }

    closed spec fn made(&self, p: PartsV) -> BriefV {
        BriefV {
            id: p.id,
            node_type: p.node_type,
            name: p.name,
            body_excerpt: p.body_excerpt,
            ts: p.ts,
        }
    }

    closed spec fn place(&self, v: BriefV) -> PlaceV {
        claim_place(v)
    }

    fn item_of(&self, p: Parts) -> (r: Option<(NodeBrief, Place)>) {
        if !same(p.node_type.as_str(), "hypothesis") || !has_tag(&p.tags, "status:open") {
            return None;
        }
        let stamp: i64 = match p.ts {
            Some(s) => s,
            None => 0,
        };
        let place = Place { date: None, stamp, id: p.id.clone() };
        let brief = NodeBrief {
            id: p.id,
            node_type: p.node_type,
            name: p.name,
            body_excerpt: p.body_excerpt,
            ts: p.ts,
        };
        Some((brief, place))
    }
}

/// Hypotheses in scope at the moment `at` that are still tagged `status:open`: claims written but
/// never confirmed or refuted, newest first. Tasks carry the same tag and have a listing of their
/// own, so they are left out.
pub fn open_claims_at(store: &Store, at: i64) -> (r: Result<Vec<NodeBrief>, StoreError>)
    ensures
        claims_read(store.held(), store.settings(), at as int, r),
{
    let kind = Claims;
    let out = gather(store, &kind, at)?;
    proof {
        let (c, settings) = (store.held(), store.settings());
        assert(shown_as(out@) =~= briefs_view(out@));
        assert forall|id: Seq<char>| #[trigger]
            is_open_claim(c, settings, id, at as int) == belongs(
                kind,
                c,
                settings,
                id,
                at as int,
            ) by {}
    }
    Ok(out)
}

/// The open claims as [`open_claims_at`] gives them, at the present moment.
pub fn open_claims(store: &Store) -> (r: Result<Vec<NodeBrief>, StoreError>)
    ensures
        exists|at: int|
            0 <= at && clock_showed(at) && #[trigger] claims_read(store.held(), store.settings(), at, r),
{
    let at = present();
    open_claims_at(store, at)
}

// ---- laws ------------------------------------------------------------------------

/// Overdue tasks lead: nothing that is not overdue is shown before one that is.
pub proof fn overdue_tasks_lead(
    out: Seq<TaskV>,
    c: Contents,
    settings: SettingsV,
    today: Seq<char>,
    at: int,
    i: int,
    j: int,
)
    requires
        tasks_listed(out, c, settings, today, at),
        0 <= i < j < out.len(),
        out[j].overdue,
    ensures
        out[i].overdue,
        out[i].due->0 == out[j].due->0 || text_lt(out[i].due->0, out[j].due->0),
{
    let places = task_places(out);
    assert(shown_before(places[i], places[j]));
    assert(out[i] == task_of(c, out[i].id, settings.excerpt_chars, today, at));
    assert(out[j] == task_of(c, out[j].id, settings.excerpt_chars, today, at));
    if text_lt(out[i].due->0, out[j].due->0) {
        text_lt_is_transitive(out[i].due->0, out[j].due->0, today);
    }
}

/// Undated tasks sink to the bottom, newest first among themselves.
pub proof fn undated_tasks_sink(
    out: Seq<TaskV>,
    c: Contents,
    settings: SettingsV,
    today: Seq<char>,
    at: int,
    i: int,
    j: int,
)
    requires
        tasks_listed(out, c, settings, today, at),
        0 <= i < j < out.len(),
        out[i].due is None,
    ensures
        out[j].due is None,
        out[i].ts->0 >= out[j].ts->0,
{
    let places = task_places(out);
    assert(shown_before(places[i], places[j]));
    assert(out[i] == task_of(c, out[i].id, settings.excerpt_chars, today, at));
    assert(out[j] == task_of(c, out[j].id, settings.excerpt_chars, today, at));
}

/// A task due today is not overdue yet, and one without a date never is.
pub proof fn today_is_not_past(today: Seq<char>)
    ensures
        !is_past(Some(today), today),
        !is_past(None, today),
{
    text_lt_is_irreflexive(today);
}

/// A task in the terminal column is no open work; one whose status matches no column is.
pub proof fn drift_stays_visible(c: Contents, settings: SettingsV, id: Seq<char>, at: int)
    requires
        in_scope(c, settings.scope, id, at),
        value_at(c.nodes, id, at).node_type == "task"@,
    ensures
        status_of(value_at(c.nodes, id, at).tags) == terminal_key(settings) <==> !is_open_task(
            c,
            settings,
            id,
            at,
        ),
{
}

/// A reminder is silent before its date, and due on it.
pub proof fn a_reminder_waits_for_its_date(tags: Seq<Seq<char>>, today: Seq<char>)
    ensures
        (said(tags, "after:"@) matches Some(after) && text_lt(today, after)) ==> !due_on(
            tags,
            today,
        ),
        said(tags, "after:"@) == Some(today) && insistence(tags) is Some && said(tags, "seen:"@)
            is None ==> due_on(tags, today),
{
    text_lt_is_irreflexive(today);
}

/// A reminder that was never seen stays due from its date on, however long it takes.
pub proof fn an_unseen_reminder_waits(tags: Seq<Seq<char>>, today: Seq<char>, later: Seq<char>)
    requires
        said(tags, "seen:"@) is None,
        due_on(tags, today),
        today == later || text_lt(today, later),
    ensures
        due_on(tags, later),
{
    let after = said(tags, "after:"@)->0;
    if text_lt(later, after) {
        if today != later {
            text_lt_is_transitive(today, later, after);
        }
    }
}

/// A date without a window is no reminder.
pub proof fn no_window_no_reminder(tags: Seq<Seq<char>>, today: Seq<char>)
    requires
        insistence(tags) is None,
    ensures
        !due_on(tags, today),
{
}

/// Once its window has closed, a seen reminder stays quiet on every later day.
pub proof fn a_reminder_goes_quiet(tags: Seq<Seq<char>>, today: Seq<char>, later: Seq<char>)
    requires
        said(tags, "seen:"@) matches Some(seen) && day_named(seen) is Some,
        insistence(tags) is Some,
        day_named(today) is Some,
        day_named(later) is Some,
        day_named(today)->0 <= day_named(later)->0,
        day_named(today)->0 >= day_named(said(tags, "seen:"@)->0)->0 + insistence(tags)->0,
    ensures
        !due_on(tags, today),
        !due_on(tags, later),
{
}

/// Reminders come in the order of their dates.
pub proof fn reminders_come_by_date(
    out: Seq<ReminderV>,
    c: Contents,
    settings: SettingsV,
    today: Seq<char>,
    at: int,
    i: int,
    j: int,
)
    requires
        reminders_listed(out, c, settings, today, at),
        0 <= i < j < out.len(),
    ensures
        out[i].after == out[j].after || text_lt(out[i].after, out[j].after),
{
    let places = reminder_places(out);
    assert(shown_before(places[i], places[j]));
}

/// Claims come newest first, and are hypotheses all.
pub proof fn claims_come_newest_first(
    out: Seq<BriefV>,
    c: Contents,
    settings: SettingsV,
    at: int,
    i: int,
    j: int,
)
    requires
        claims_listed(out, c, settings, at),
        0 <= i < j < out.len(),
    ensures
        out[i].ts->0 >= out[j].ts->0,
        out[i].node_type == "hypothesis"@,
        out[j].node_type == "hypothesis"@,
{
    let places = claim_places(out);
    assert(shown_before(places[i], places[j]));
    assert(out[i] == brief_of(c, out[i].id, settings.excerpt_chars, at));
    assert(out[j] == brief_of(c, out[j].id, settings.excerpt_chars, at));
}

} // verus!
