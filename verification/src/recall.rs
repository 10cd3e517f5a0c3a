//! Discovery of initiatives: which there are, which one was meant, and which look like one and the
//! same.

use crate::rows::first_texts;
use crate::store::{Store, StoreError};
use crate::substrate::{
    column_of, first_text, initiatives_of, rows_view, texts_view, INITIATIVES,
};
use crate::text::{text_lt, text_lt_is_irreflexive, text_lt_is_transitive};
use vstd::prelude::*;

pub mod duplicates;
pub mod suggest;

verus! {

/// The names are those of `s`, in ascending order.
pub open spec fn in_order(names: Seq<Seq<char>>, s: Set<Seq<char>>) -> bool {
    &&& forall|i: int, j: int|
        #![trigger names[i], names[j]]
        0 <= i < j < names.len() ==> text_lt(names[i], names[j])
    &&& forall|t: Seq<char>| #[trigger] names.contains(t) <==> s.contains(t)
}

/// Every initiative that has at least one node attached, sorted alphabetically.
pub fn list_initiatives(store: &Store) -> (r: Result<Vec<String>, StoreError>)
    ensures
        r matches Ok(names) ==> in_order(texts_view(names@), initiatives_of(store.held())),
        r matches Err(e) ==> e is Substrate,
{
    let rows = store.run_read(INITIATIVES, &Vec::new(), 0)?;
    let names = first_texts(&rows);
    proof {
        let s = initiatives_of(store.held());
        let view = rows_view(rows@);
        assert(column_of(view, s));
        let texts = texts_view(names@);
        assert forall|i: int, j: int|
            #![trigger texts[i], texts[j]]
            0 <= i < j < texts.len() implies text_lt(texts[i], texts[j]) by {
            assert(texts[i] == names@[i]@ && texts[j] == names@[j]@);
            assert(names@[i]@ == first_text(view[i]));
            assert(names@[j]@ == first_text(view[j]));
        }
    }
    Ok(names)
}

/// There is one way to list a set of names in order.
pub proof fn one_order(a: Seq<Seq<char>>, b: Seq<Seq<char>>, s: Set<Seq<char>>)
    requires
        in_order(a, s),
        in_order(b, s),
    ensures
        a == b,
    decreases a.len(),
{
    if a.len() == 0 {
        if b.len() > 0 {
            assert(b.contains(b[0]));
            assert(a.contains(b[0]));
        }
        assert(a =~= b);
    } else {
        assert(a.contains(a.last()));
        assert(b.contains(a.last()));
        let j = b.index_of(a.last());
        assert(b.contains(b.last()));
        assert(a.contains(b.last()));
        let i = a.index_of(b.last());
        if a.last() != b.last() {
            assert(text_lt(a[i], a.last()));
            assert(text_lt(b[j], b.last()));
            text_lt_is_transitive(a.last(), b.last(), a.last());
            text_lt_is_irreflexive(a.last());
        }
        shorter_order(a, s);
        shorter_order(b, s);
        one_order(a.drop_last(), b.drop_last(), s.remove(a.last()));
        assert(a =~= a.drop_last().push(a.last()));
        assert(b =~= b.drop_last().push(b.last()));
    }
}

proof fn shorter_order(a: Seq<Seq<char>>, s: Set<Seq<char>>)
    requires
        in_order(a, s),
        a.len() > 0,
    ensures
        in_order(a.drop_last(), s.remove(a.last())),
{
    let front = a.drop_last();
    assert forall|t: Seq<char>| #[trigger] front.contains(t) <==> s.remove(a.last()).contains(
        t,
    ) by {
        if front.contains(t) {
            let i = front.index_of(t);
            assert(a[i] == t);
            assert(a.contains(t));
            assert(text_lt(a[i], a[a.len() - 1]));
            text_lt_is_irreflexive(t);
        }
        if s.remove(a.last()).contains(t) {
            assert(a.contains(t));
            let i = a.index_of(t);
            assert(front[i] == t);
        }
    }
}

} // verus!
