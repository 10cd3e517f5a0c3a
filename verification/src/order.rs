//! The order in which loose ends are shown.

use crate::rows::one_more;
use crate::text::{
    less, same, text_lt, text_lt_is_irreflexive, text_lt_is_total, text_lt_is_transitive,
};
use vstd::prelude::*;

verus! {

/// Where an item stands in a listing: what has a date comes by its date, what has none comes
/// after, newest first; the id decides between the rest.
#[derive(Debug)]
pub struct Place {
    pub date: Option<String>,
    /// The second the item was written in. It does not count for what has a date.
    pub stamp: i64,
    pub id: String,
}

/// Where an item stands in a listing, as a mathematical value.
#[verifier::ext_equal]
pub struct PlaceV {
    pub date: Option<Seq<char>>,
    pub stamp: int,
    pub id: Seq<char>,
}

impl View for Place {
    type V = PlaceV;

    open spec fn view(&self) -> PlaceV {
        PlaceV {
            date: match self.date {
                Some(d) => Some(d@),
                None => None,
            },
            stamp: self.stamp as int,
            id: self.id@,
        }
    }
}

/// Whether `a` is shown before `b`.
pub open spec fn shown_before(a: PlaceV, b: PlaceV) -> bool {
    match (a.date, b.date) {
        (Some(x), Some(y)) => text_lt(x, y) || (x == y && text_lt(a.id, b.id)),
        (Some(_), None) => true,
        (None, Some(_)) => false,
        (None, None) => a.stamp > b.stamp || (a.stamp == b.stamp && text_lt(a.id, b.id)),
    }
}

/// The places ascend strictly.
pub open spec fn in_place(places: Seq<PlaceV>) -> bool {
    forall|i: int, j: int|
        #![trigger places[i], places[j]]
        0 <= i < j < places.len() ==> shown_before(places[i], places[j])
}

/// Nothing is shown before itself.
pub proof fn shown_before_is_irreflexive(a: PlaceV)
    ensures
        !shown_before(a, a),
{
    text_lt_is_irreflexive(a.id);
    if let Some(x) = a.date {
        text_lt_is_irreflexive(x);
    }
}

/// The order of places is transitive.
pub proof fn shown_before_is_transitive(a: PlaceV, b: PlaceV, c: PlaceV)
    requires
        shown_before(a, b),
        shown_before(b, c),
    ensures
        shown_before(a, c),
{
    if text_lt(a.id, b.id) && text_lt(b.id, c.id) {
        text_lt_is_transitive(a.id, b.id, c.id);
    }
    if a.date is Some && b.date is Some && c.date is Some {
        if text_lt(a.date->0, b.date->0) && text_lt(b.date->0, c.date->0) {
            text_lt_is_transitive(a.date->0, b.date->0, c.date->0);
        }
    }
}

/// Of two items with different ids, one is shown first.
pub proof fn shown_before_is_total(a: PlaceV, b: PlaceV)
    requires
        a.id != b.id,
    ensures
        shown_before(a, b) || shown_before(b, a),
{
    text_lt_is_total(a.id, b.id);
    if a.date is Some && b.date is Some {
        text_lt_is_total(a.date->0, b.date->0);
    }
}

fn precedes(a: &Place, b: &Place) -> (r: bool)
    ensures
        r == shown_before(a@, b@),
{
    match (&a.date, &b.date) {
        (Some(x), Some(y)) => less(x.as_str(), y.as_str()) || (same(x.as_str(), y.as_str()) && less(
            a.id.as_str(),
            b.id.as_str(),
        )),
        (Some(_), None) => true,
        (None, Some(_)) => false,
        (None, None) => a.stamp > b.stamp || (a.stamp == b.stamp && less(
            a.id.as_str(),
            b.id.as_str(),
        )),
    }
}

pub open spec fn places_view(s: Seq<Place>) -> Seq<PlaceV> {
    s.map_values(|p: Place| p@)
}

/// Puts an item among others where its place is.
pub(crate) fn put_in_place<T>(items: &mut Vec<T>, places: &mut Vec<Place>, item: T, place: Place) -> (r:
    Ghost<int>)
    requires
        old(items)@.len() == old(places)@.len(),
        in_place(places_view(old(places)@)),
        forall|i: int| 0 <= i < old(places)@.len() ==> (#[trigger] old(places)@[i])@.id != place@.id,
    ensures
        0 <= r@ <= old(items)@.len(),
        final(items)@ == old(items)@.insert(r@, item),
        final(places)@ == old(places)@.insert(r@, place),
        in_place(places_view(final(places)@)),
{
    let ghost before = places@;
    let ghost p = place@;
    let mut k: usize = 0;
    while k < places.len() && precedes(&places[k], &place)
        invariant
            k <= places@.len(),
            places@ == before,
            forall|i: int| 0 <= i < k ==> shown_before((#[trigger] before[i])@, p),
            p == place@,
        decreases places.len() - k,
    {
        k += 1;
    }
    proof {
        let was = places_view(before);
        let now = places_view(before.insert(k as int, place));
        assert(now =~= was.insert(k as int, p));
        if k < was.len() {
            assert(was[k as int] == before[k as int]@);
            shown_before_is_total(was[k as int], p);
            assert forall|i: int| k <= i < was.len() implies shown_before(p, #[trigger] was[i]) by {
                if i > k {
                    shown_before_is_transitive(p, was[k as int], was[i]);
                }
            }
        }
        assert forall|i: int, j: int|
            #![trigger now[i], now[j]]
            0 <= i < j < now.len() implies shown_before(now[i], now[j]) by {
            if i < k && j == k {
                assert(now[i] == before[i]@);
            } else if i == k {
                assert(now[j] == was[j - 1]);
            } else if i < k && j < k {
                assert(now[i] == was[i] && now[j] == was[j]);
            } else if i < k {
                assert(now[i] == was[i] && now[j] == was[j - 1]);
            } else {
                assert(now[i] == was[i - 1] && now[j] == was[j - 1]);
            }
        }
    }
    items.insert(k, item);
    places.insert(k, place);
    Ghost(k as int)
}

/// The ids are those of the first `k` listed ones that are wanted, each once, in any order.
pub open spec fn gathered(
    ids: Seq<Seq<char>>,
    wanted: Set<Seq<char>>,
    listed: Seq<Seq<char>>,
    k: int,
) -> bool {
    forall|t: Seq<char>| #[trigger]
        ids.contains(t) <==> wanted.contains(t) && listed.take(k).contains(t)
}

/// An id that is not wanted is passed over.
pub(crate) proof fn gather_skip(
    ids: Seq<Seq<char>>,
    wanted: Set<Seq<char>>,
    listed: Seq<Seq<char>>,
    k: int,
)
    requires
        0 <= k < listed.len(),
        listed.no_duplicates(),
        gathered(ids, wanted, listed, k),
        !wanted.contains(listed[k]),
    ensures
        gathered(ids, wanted, listed, k + 1),
{
    one_more(listed, k);
}

/// An id that is wanted is put somewhere among those gathered, where it was not yet.
pub(crate) proof fn gather_next(
    ids: Seq<Seq<char>>,
    wanted: Set<Seq<char>>,
    listed: Seq<Seq<char>>,
    k: int,
)
    requires
        0 <= k < listed.len(),
        listed.no_duplicates(),
        gathered(ids, wanted, listed, k),
        wanted.contains(listed[k]),
    ensures
        !ids.contains(listed[k]),
        forall|p: int|
            0 <= p <= ids.len() ==> gathered(#[trigger] ids.insert(p, listed[k]), wanted, listed, k
                + 1),
{
    one_more(listed, k);
    assert forall|p: int| 0 <= p <= ids.len() implies gathered(
        #[trigger] ids.insert(p, listed[k]),
        wanted,
        listed,
        k + 1,
    ) by {
        let now = ids.insert(p, listed[k]);
        assert forall|t: Seq<char>| #[trigger] now.contains(t) <==> ids.contains(t) || t
            == listed[k] by {
            if now.contains(t) {
                let i = now.index_of(t);
                if i < p {
                    assert(ids[i] == t);
                } else if i > p {
                    assert(ids[i - 1] == t);
                }
            }
            if ids.contains(t) {
                let i = ids.index_of(t);
                if i < p {
                    assert(now[i] == t);
                } else {
                    assert(now[i + 1] == t);
                }
            }
            assert(now[p] == listed[k]);
        }
    }
}

/// Once the list is through, what was wanted of it is gathered.
pub(crate) proof fn gather_done(
    ids: Seq<Seq<char>>,
    wanted: Set<Seq<char>>,
    listed: Seq<Seq<char>>,
)
    requires
        gathered(ids, wanted, listed, listed.len() as int),
        forall|t: Seq<char>| #[trigger] wanted.contains(t) ==> listed.contains(t),
    ensures
        forall|t: Seq<char>| #[trigger] ids.contains(t) <==> wanted.contains(t),
{
    assert(listed.take(listed.len() as int) =~= listed);
}

} // verus!
