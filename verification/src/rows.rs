//! Reading typed values out of result rows.

use crate::substrate::{
    column_of, first_text, optional_cell, optional_text, row_view, rows_view, text_row, texts_cell,
    texts_view, Cell, CellV,
};
use vstd::prelude::*;

verus! {

/// The texts are those of `s`, each once.
pub open spec fn lists(texts: Seq<Seq<char>>, s: Set<Seq<char>>) -> bool {
    &&& texts.no_duplicates()
    &&& forall|t: Seq<char>| #[trigger] texts.contains(t) <==> s.contains(t)
}

/// A list of distinct texts is as long as the set it lists is large.
pub proof fn listed_count(texts: Seq<Seq<char>>, s: Set<Seq<char>>)
    requires
        lists(texts, s),
    ensures
        s.finite(),
        s.len() == texts.len(),
{
    assert(texts.to_set() =~= s) by {
        assert forall|t: Seq<char>| texts.to_set().contains(t) == s.contains(t) by {
            assert(texts.contains(t) <==> s.contains(t));
        }
    }
    texts.unique_seq_to_set();
}

/// The first `k + 1` of a list are the first `k` and the next.
pub(crate) proof fn one_more(listed: Seq<Seq<char>>, k: int)
    requires
        0 <= k < listed.len(),
        listed.no_duplicates(),
    ensures
        forall|t: Seq<char>| #[trigger]
            listed.take(k + 1).contains(t) <==> listed.take(k).contains(t) || t == listed[k],
        !listed.take(k).contains(listed[k]),
{
    assert forall|t: Seq<char>| #[trigger]
        listed.take(k + 1).contains(t) <==> listed.take(k).contains(t) || t == listed[k] by {
        if listed.take(k + 1).contains(t) {
            let j = listed.take(k + 1).index_of(t);
            if j < k {
                assert(listed.take(k)[j] == t);
            }
        }
        if listed.take(k).contains(t) {
            let j = listed.take(k).index_of(t);
            assert(listed.take(k + 1)[j] == t);
        }
        assert(listed.take(k + 1)[k] == listed[k]);
    }
    if listed.take(k).contains(listed[k]) {
        let j = listed.take(k).index_of(listed[k]);
        assert(listed[j] == listed[k]);
    }
}

/// The text of a cell, if it holds one.
pub fn text_in(row: &Vec<Cell>, k: usize) -> (r: Option<String>)
    ensures
        optional_text(r) == (if k < row@.len() {
            match row_view(*row)[k as int] {
                CellV::Text(s) => Some(s),
                _ => None,
            }
        } else {
            None
        }),
{
    if k < row.len() {
        match &row[k] {
            Cell::Text(s) => Some(s.clone()),
            _ => None,
        }
    } else {
        None
    }
}

/// The text of a cell, or the empty text.
pub fn text_or_empty(row: &Vec<Cell>, k: usize) -> (r: String)
    ensures
        r@ == (if k < row@.len() {
            match row_view(*row)[k as int] {
                CellV::Text(s) => s,
                _ => Seq::empty(),
            }
        } else {
            Seq::empty()
        }),
{
    match text_in(row, k) {
        Some(s) => s,
        None => String::new(),
    }
}

spec fn all_texts(items: Seq<Option<String>>, n: int) -> bool {
    forall|j: int| 0 <= j < n ==> (#[trigger] items[j]) is Some
}

/// The texts of a list cell, or none.
pub fn texts_in(row: &Vec<Cell>, k: usize) -> (r: Vec<String>)
    ensures
        forall|ts: Seq<Seq<char>>|
            k < row@.len() && row_view(*row)[k as int] == #[trigger] texts_cell(ts)
                ==> texts_view(r@) == ts,
{
    let mut out: Vec<String> = Vec::new();
    if k < row.len() {
        match &row[k] {
            Cell::Texts(items) => {
                let mut i: usize = 0;
                while i < items.len()
                    invariant
                        i <= items@.len(),
                        all_texts(items@, i as int) ==> out@.len() == i && (forall|j: int|
                            0 <= j < i ==> (#[trigger] out@[j])@ == items@[j]->0@),
                    decreases items.len() - i,
                {
                    if let Some(t) = &items[i] {
                        out.push(t.clone());
                    }
                    i += 1;
                }
                proof {
                    assert forall|ts: Seq<Seq<char>>|
                        row_view(*row)[k as int] == #[trigger] texts_cell(
                            ts,
                        ) implies texts_view(out@) == ts by {
                        let seen = items@.map_values(|t: Option<String>| optional_text(t));
                        let want = ts.map_values(|t: Seq<char>| Some(t));
                        assert(seen == want);
                        assert(items@.len() == seen.len() && seen.len() == ts.len());
                        assert forall|j: int| 0 <= j < items@.len() implies (
                        #[trigger] items@[j]) is Some && items@[j]->0@ == ts[j] by {
                            assert(seen[j] == want[j]);
                        }
                        assert(all_texts(items@, items@.len() as int));
                        assert forall|j: int| 0 <= j < ts.len() implies texts_view(out@)[j]
                            == ts[j] by {
                            assert(out@[j]@ == items@[j]->0@);
                        }
                        assert(texts_view(out@) =~= ts);
                    }
                }
            },
            _ => {},
        }
    }
    out
}

/// The integer of a cell, if it holds one.
pub fn int_in(row: &Vec<Cell>, k: usize) -> (r: Option<i64>)
    ensures
        optional_int(r) == (if k < row@.len() {
            match row_view(*row)[k as int] {
                CellV::Int(n) => Some(n),
                _ => None,
            }
        } else {
            None
        }),
{
    if k < row.len() {
        match &row[k] {
            Cell::Int(n) => Some(*n),
            _ => None,
        }
    } else {
        None
    }
}

pub open spec fn optional_int(n: Option<i64>) -> Option<int> {
    match n {
        Some(k) => Some(k as int),
        None => None,
    }
}

/// The texts of the first column; a row without one is passed over.
pub fn first_texts(rows: &Vec<Vec<Cell>>) -> (r: Vec<String>)
    ensures
        forall|s: Set<Seq<char>>| #[trigger]
            column_of(rows_view(rows@), s) ==> {
                &&& lists(texts_view(r@), s)
                &&& r@.len() == rows@.len()
                &&& forall|i: int|
                    0 <= i < r@.len() ==> (#[trigger] r@[i])@ == first_text(rows_view(rows@)[i])
            },
{
    let mut out: Vec<String> = Vec::new();
    let ghost view = rows_view(rows@);
    let mut i: usize = 0;
    while i < rows.len()
        invariant
            i <= rows@.len(),
            view == rows_view(rows@),
            (forall|j: int| 0 <= j < i ==> view[j] == text_row(first_text(view[j]))) ==> {
                &&& out@.len() == i
                &&& forall|j: int| 0 <= j < i ==> (#[trigger] out@[j])@ == first_text(view[j])
            },
        decreases rows.len() - i,
    {
        let ghost seen = out@;
        proof {
            assert(view[i as int] == row_view(rows@[i as int]));
            if view[i as int] == text_row(first_text(view[i as int])) {
                assert(text_row(first_text(view[i as int])).len() == 1);
                assert(rows@[i as int]@.len() == 1);
            }
        }
        match text_in(&rows[i], 0) {
            Some(t) => {
                out.push(t);
                proof {
                    assert(seen.len() == i ==> out@[i as int]@ == t@);
                    if view[i as int] == text_row(first_text(view[i as int])) {
                        assert(optional_text(Some(t)) == Some(t@));
                    }
                }
            },
            None => {
                proof {
                    assert(optional_text(None) == None::<Seq<char>>);
                }
            },
        }
        i += 1;
    }
    proof {
        assert forall|s: Set<Seq<char>>| #[trigger] column_of(view, s) implies {
            &&& lists(texts_view(out@), s)
            &&& out@.len() == rows@.len()
            &&& forall|i: int| 0 <= i < out@.len() ==> (#[trigger] out@[i])@ == first_text(view[i])
        } by {
            let texts = texts_view(out@);
            assert forall|i: int, j: int|
                0 <= i < texts.len() && 0 <= j < texts.len() && i != j implies texts[i]
                != texts[j] by {
                assert(texts[i] == out@[i]@ && texts[j] == out@[j]@);
                assert(view[i] == text_row(first_text(view[i])));
                assert(view[j] == text_row(first_text(view[j])));
                assert(view[i] != view[j]);
            }
            assert forall|t: Seq<char>| #[trigger] texts.contains(t) <==> s.contains(t) by {
                if texts.contains(t) {
                    let i = texts.index_of(t);
                    assert(texts[i] == out@[i]@);
                    assert(s.contains(first_text(view[i])));
                }
                if s.contains(t) {
                    assert(view.contains(text_row(t)));
                    let i = view.index_of(text_row(t));
                    assert(view[i] == text_row(t));
                    assert(first_text(view[i]) == t);
                    assert(texts[i] == out@[i]@);
                }
            }
        }
    }
    out
}

/// A parameter with a text.
pub(crate) fn text_cell(name: &str, text: &str) -> (r: (String, Cell))
    ensures
        r.0@ == name@,
        r.1@ == CellV::Text(text@),
{
    (name.to_owned(), Cell::Text(text.to_owned()))
}

/// A parameter with a text or null.
pub(crate) fn optional_text_cell(name: &str, text: &Option<String>) -> (r: (String, Cell))
    ensures
        r.0@ == name@,
        r.1@ == optional_cell(optional_text(*text)),
{
    match text {
        Some(s) => (name.to_owned(), Cell::Text(s.clone())),
        None => (name.to_owned(), Cell::Null),
    }
}

/// A parameter with a list of texts.
pub(crate) fn list_cell(name: &str, texts: &Vec<String>) -> (r: (String, Cell))
    ensures
        r.0@ == name@,
        r.1@ == texts_cell(texts_view(texts@)),
{
    let ghost want = texts_view(texts@).map_values(|t: Seq<char>| Some(t));
    let mut items: Vec<Option<String>> = Vec::new();
    let mut i: usize = 0;
    while i < texts.len()
        invariant
            i <= texts@.len(),
            items@.len() == i,
            forall|j: int| 0 <= j < i ==> optional_text(#[trigger] items@[j]) == Some(texts@[j]@),
        decreases texts.len() - i,
    {
        items.push(Some(texts[i].clone()));
        i += 1;
    }
    assert(items@.map_values(|t: Option<String>| optional_text(t)) =~= want);
    (name.to_owned(), Cell::Texts(items))
}

} // verus!
