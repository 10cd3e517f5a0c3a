//! The columns of task boards.

use crate::store::{statuses_view, BoardStatus, BoardStatusV, Store};
use crate::text::same;
use vstd::prelude::*;

verus! {

/// The built-in columns, as key and label.
pub const DEFAULT_OPEN: (&'static str, &'static str) = ("open", "Open");

pub const DEFAULT_DONE: (&'static str, &'static str) = ("done", "Done");

/// The built-in columns.
pub open spec fn default_columns() -> Seq<BoardStatusV> {
    seq![
        BoardStatusV { key: DEFAULT_OPEN.0@, label: DEFAULT_OPEN.1@ },
        BoardStatusV { key: DEFAULT_DONE.0@, label: DEFAULT_DONE.1@ },
    ]
}

/// The columns of an initiative's board: its latest registry that has any, or the built-in ones.
pub open spec fn columns(
    boards: Seq<(Seq<char>, Seq<BoardStatusV>)>,
    name: Seq<char>,
) -> Seq<BoardStatusV>
    decreases boards.len(),
{
    if boards.len() == 0 {
        default_columns()
    } else if boards.last().0 == name && boards.last().1.len() > 0 {
        boards.last().1
    } else {
        columns(boards.drop_last(), name)
    }
}

/// A board always has a column.
pub proof fn a_board_has_columns(boards: Seq<(Seq<char>, Seq<BoardStatusV>)>, name: Seq<char>)
    ensures
        columns(boards, name).len() > 0,
    decreases boards.len(),
{
    if boards.len() > 0 {
        a_board_has_columns(boards.drop_last(), name);
    }
}

fn column(key: &str, label: &str) -> (r: BoardStatus)
    ensures
        r@ == (BoardStatusV { key: key@, label: label@ }),
{
    BoardStatus { key: key.to_owned(), label: label.to_owned() }
}

/// The built-in columns: the vocabulary of tasks outside any initiative.
pub fn default_statuses() -> (r: Vec<BoardStatus>)
    ensures
        statuses_view(r@) == default_columns(),
{
    let r = vec![
        column(DEFAULT_OPEN.0, DEFAULT_OPEN.1),
        column(DEFAULT_DONE.0, DEFAULT_DONE.1),
    ];
    assert(statuses_view(r@) =~= default_columns());
    r
}

fn copy_columns(from: &Vec<BoardStatus>) -> (r: Vec<BoardStatus>)
    ensures
        statuses_view(r@) == statuses_view(from@),
{
    let mut out: Vec<BoardStatus> = Vec::new();
    let mut i: usize = 0;
    while i < from.len()
        invariant
            i <= from@.len(),
            statuses_view(out@) == statuses_view(from@).take(i as int),
        decreases from.len() - i,
    {
        let ghost before = statuses_view(out@);
        out.push(column(from[i].key.as_str(), from[i].label.as_str()));
        assert(statuses_view(out@) =~= before.push(from@[i as int]@));
        assert(statuses_view(from@).take(i + 1) =~= before.push(statuses_view(from@)[i as int]));
        i += 1;
    }
    assert(statuses_view(from@).take(i as int) =~= statuses_view(from@));
    out
}

/// The columns of an initiative's board.
pub fn effective_statuses(store: &Store, name: &str) -> (r: Vec<BoardStatus>)
    ensures
        statuses_view(r@) == columns(store.settings().boards, name@),
{
    let ghost boards = store.settings().boards;
    let mut i: usize = store.boards.len();
    assert(boards.take(i as int) =~= boards);
    while i > 0
        invariant
            i <= store.boards@.len(),
            boards == store.settings().boards,
            columns(boards, name@) == columns(boards.take(i as int), name@),
        decreases i,
    {
        let ghost front = boards.take(i as int);
        i -= 1;
        let entry = &store.boards[i];
        assert(front.last() == (entry.0@, statuses_view(entry.1@)));
        assert(front.drop_last() =~= boards.take(i as int));
        if same(entry.0.as_str(), name) && entry.1.len() > 0 {
            return copy_columns(&entry.1);
        }
    }
    default_statuses()
}

} // verus!
