//! Did you mean ...?

use super::{in_order, list_initiatives};
use crate::spelling::{distance, levenshtein};
use crate::store::{Store, StoreError};
use crate::substrate::{initiatives_of, optional_text, texts_view};
use crate::text::{
    chars_of, contains, lowercase, occurs_in, same, to_lowercase, trim, trimmed,
};
use vstd::prelude::*;

verus! {

/// How far a misspelling of `name` may be off.
pub open spec fn tolerance(name: Seq<char>) -> nat {
    if name.len() / 3 >= 2 {
        name.len() / 3
    } else {
        2
    }
}

/// A known name, and how it is written in lower case.
#[verifier::ext_equal]
pub struct KnownV {
    pub name: Seq<char>,
    pub lowered: Seq<char>,
}

/// Whether a known name may be what was meant by `req`, in lower case: it is within the tolerance,
/// or one contains the other.
pub open spec fn admissible(req: Seq<char>, k: KnownV) -> bool {
    ||| distance(req, k.lowered) <= tolerance(k.name)
    ||| occurs_in(k.lowered, req)
    ||| occurs_in(req, k.lowered)
}

/// Whether `a` is closer to `req` than `b`: at a smaller distance, or at the same and shorter.
pub open spec fn closer(req: Seq<char>, a: KnownV, b: KnownV) -> bool {
    ||| distance(req, a.lowered) < distance(req, b.lowered)
    ||| distance(req, a.lowered) == distance(req, b.lowered) && a.name.len() < b.name.len()
}

/// Whether the name at `i` is the closest admissible one, and the first of those that are equally
/// close.
pub open spec fn closest_at(known: Seq<KnownV>, req: Seq<char>, i: int) -> bool {
    &&& 0 <= i < known.len()
    &&& admissible(req, known[i])
    &&& forall|j: int|
        0 <= j < known.len() && admissible(req, #[trigger] known[j]) ==> !closer(
            req,
            known[j],
            known[i],
        ) && (j < i ==> closer(req, known[i], known[j]))
}

/// Whether the name at `i` is the first that is written as `req` in lower case.
pub open spec fn recased_at(known: Seq<KnownV>, req: Seq<char>, i: int) -> bool {
    &&& 0 <= i < known.len()
    &&& known[i].lowered == req
    &&& forall|j: int| 0 <= j < i ==> (#[trigger] known[j]).lowered != req
}

/// Whether a name is known as it is written.
pub open spec fn is_known(known: Seq<KnownV>, name: Seq<char>) -> bool {
    exists|i: int| 0 <= i < known.len() && (#[trigger] known[i]).name == name
}

/// Whether `r` is what to suggest for a request among the known names: nothing for no name or for
/// a known one, else a name that differs in case alone, else the closest admissible one.
pub open spec fn suggestion(known: Seq<KnownV>, req: KnownV, r: Option<Seq<char>>) -> bool {
    if req.name.len() == 0 || is_known(known, req.name) {
        r is None
    } else if exists|i: int| recased_at(known, req.lowered, i) {
        exists|i: int| #[trigger] recased_at(known, req.lowered, i) && r == Some(known[i].name)
    } else {
        match r {
            Some(name) => exists|i: int| #[trigger]
                closest_at(known, req.lowered, i) && name == known[i].name,
            None => forall|i: int|
                0 <= i < known.len() ==> !admissible(req.lowered, #[trigger] known[i]),
        }
    }
}

/// A name, and how it is written in lower case.
pub open spec fn with_lowercase(name: Seq<char>) -> KnownV {
    KnownV { name, lowered: lowercase(name) }
}

/// Names, and how they are written in lower case.
pub open spec fn all_with_lowercase(names: Seq<Seq<char>>) -> Seq<KnownV> {
    names.map_values(|n: Seq<char>| with_lowercase(n))
}

/// A name, and how it is written in lower case.
#[derive(Debug, PartialEq, Eq)]
pub struct Known {
    pub name: String,
    pub lowered: String,
}

impl View for Known {
    type V = KnownV;

    open spec fn view(&self) -> KnownV {
        KnownV { name: self.name@, lowered: self.lowered@ }
    }
}

pub open spec fn known_view(s: Seq<Known>) -> Seq<KnownV> {
    s.map_values(|k: Known| k@)
}

/// Whether a name is known as it is written.
fn known_already(known: &Vec<Known>, name: &str) -> (r: bool)
    ensures
        r == is_known(known_view(known@), name@),
{
    let ghost view = known_view(known@);
    let mut i: usize = 0;
    while i < known.len()
        invariant
            i <= known@.len(),
            view == known_view(known@),
            forall|j: int| 0 <= j < i ==> (#[trigger] view[j]).name != name@,
        decreases known.len() - i,
    {
        assert(view[i as int] == known@[i as int]@);
        if same(known[i].name.as_str(), name) {
            return true;
        }
        i += 1;
    }
    false
}

/// The first known name that is written as `req` in lower case.
fn find_recased(known: &Vec<Known>, req: &str) -> (r: Option<usize>)
    ensures
        match r {
            Some(i) => recased_at(known_view(known@), req@, i as int),
            None => forall|i: int| !recased_at(known_view(known@), req@, i),
        },
{
    let ghost view = known_view(known@);
    let mut i: usize = 0;
    while i < known.len()
        invariant
            i <= known@.len(),
            view == known_view(known@),
            forall|j: int| 0 <= j < i ==> (#[trigger] view[j]).lowered != req@,
        decreases known.len() - i,
    {
        assert(view[i as int] == known@[i as int]@);
        if same(known[i].lowered.as_str(), req) {
            return Some(i);
        }
        i += 1;
    }
    None
}

/// Whether a known name may be what was meant by `req`, and how far off it is.
fn candidate(req: &str, k: &Known) -> (r: (bool, usize))
    ensures
        r.0 == admissible(req@, k@),
        r.1 == distance(req@, k@.lowered),
{
    let off = levenshtein(req, k.lowered.as_str());
    let third: usize = chars_of(k.name.as_str()).len() / 3;
    let reach: usize = third.max(2);
    (
        off <= reach || contains(k.lowered.as_str(), req) || contains(req, k.lowered.as_str()),
        off,
    )
}

/// The closest admissible name to `req`, the first of those that are equally close.
fn find_closest(known: &Vec<Known>, req: &str) -> (r: Option<usize>)
    ensures
        match r {
            Some(i) => closest_at(known_view(known@), req@, i as int),
            None => forall|i: int|
                0 <= i < known@.len() ==> !admissible(req@, #[trigger] known_view(known@)[i]),
        },
{
    let ghost view = known_view(known@);
    let mut best: Option<usize> = None;
    let mut best_off: usize = 0;
    let mut best_len: usize = 0;
    let mut i: usize = 0;
    while i < known.len()
        invariant
            i <= known@.len(),
            view == known_view(known@),
            match best {
                Some(k) => {
                    &&& k < i
                    &&& closest_at(view.take(i as int), req@, k as int)
                    &&& best_off == distance(req@, view[k as int].lowered)
                    &&& best_len == view[k as int].name.len()
                },
                None => forall|j: int| 0 <= j < i ==> !admissible(req@, #[trigger] view[j]),
            },
        decreases known.len() - i,
    {
        let ghost sofar = view.take(i as int);
        let ghost next = view.take(i + 1);
        assert(view[i as int] == known@[i as int]@);
        let (fits, off) = candidate(req, &known[i]);
        let len = chars_of(known[i].name.as_str()).len();
        let better = match best {
            Some(_) => fits && (off < best_off || (off == best_off && len < best_len)),
            None => fits,
        };
        proof {
            assert forall|j: int| 0 <= j < next.len() implies #[trigger] next[j] == view[j] && (j
                < i ==> sofar[j] == view[j]) by {}
        }
        if better {
            proof {
                assert forall|j: int|
                    0 <= j < next.len() && admissible(req@, #[trigger] next[j]) implies !closer(
                    req@,
                    next[j],
                    next[i as int],
                ) && (j < i ==> closer(req@, next[i as int], next[j])) by {
                    if j < i {
                        assert(sofar[j] == next[j]);
                        assert(view[j] == next[j]);
                    }
                }
                assert(closest_at(next, req@, i as int));
            }
            best = Some(i);
            best_off = off;
            best_len = len;
        } else {
            proof {
                if let Some(k) = best {
                    assert forall|j: int|
                        0 <= j < next.len() && admissible(req@, #[trigger] next[j]) implies !closer(
                        req@,
                        next[j],
                        next[k as int],
                    ) && (j < k ==> closer(req@, next[k as int], next[j])) by {
                        assert(sofar[k as int] == next[k as int]);
                        if j < i {
                            assert(sofar[j] == next[j]);
                        }
                    }
                    assert(closest_at(next, req@, k as int));
                }
            }
        }
        i += 1;
    }
    assert(view.take(i as int) =~= view);
    best
}

/// What to suggest for a request among the known names, each given with its lower case.
pub fn closest_initiative(known: &Vec<Known>, req: &Known) -> (r: Option<String>)
    ensures
        suggestion(known_view(known@), req@, optional_text(r)),
{
    let ghost view = known_view(known@);
    // Already a real initiative, or no name at all: nothing to suggest.
    if req.name.as_str().is_empty() || known_already(known, req.name.as_str()) {
        return None;
    }
    // The same name in another case: nothing can beat it.
    if let Some(i) = find_recased(known, req.lowered.as_str()) {
        assert(view[i as int] == known@[i as int]@);
        return Some(known[i].name.clone());
    }
    // Containment and distance are scored together: the sharper signal decides.
    match find_closest(known, req.lowered.as_str()) {
        Some(i) => {
            assert(view[i as int] == known@[i as int]@);
            Some(known[i].name.clone())
        },
        None => None,
    }
}

/// Names with their lower case.
fn lower_all(names: Vec<String>) -> (r: Vec<Known>)
    ensures
        known_view(r@) == all_with_lowercase(texts_view(names@)),
{
    let ghost texts = texts_view(names@);
    let mut out: Vec<Known> = Vec::new();
    let mut i: usize = 0;
    while i < names.len()
        invariant
            i <= names@.len(),
            texts == texts_view(names@),
            known_view(out@) == all_with_lowercase(texts).take(i as int),
        decreases names.len() - i,
    {
        let ghost before = known_view(out@);
        assert(texts[i as int] == names@[i as int]@);
        out.push(Known { name: names[i].clone(), lowered: to_lowercase(names[i].as_str()) });
        assert(known_view(out@) =~= before.push(with_lowercase(texts[i as int])));
        assert(all_with_lowercase(texts).take(i + 1) =~= before.push(
            all_with_lowercase(texts)[i as int],
        ));
        i += 1;
    }
    assert(all_with_lowercase(texts).take(i as int) =~= all_with_lowercase(texts));
    out
}

/// The closest existing initiative to `requested`, or `None` when it already exists exactly or
/// nothing is close. A suggestion only, for a "did you mean" hint on a miss: matching and storage
/// stay exact, this is deliberately forgiving.
pub fn suggest_initiative(store: &Store, requested: &str) -> (r: Result<
    Option<String>,
    StoreError,
>)
    ensures
        r matches Ok(s) ==> exists|known: Seq<Seq<char>>| #[trigger]
            in_order(known, initiatives_of(store.held())) && suggestion(
                all_with_lowercase(known),
                with_lowercase(trimmed(requested@)),
                optional_text(s),
            ),
        r matches Err(e) ==> e is Substrate,
{
    let names = list_initiatives(store)?;
    let ghost texts = texts_view(names@);
    let known = lower_all(names);
    let name = trim(requested);
    let req = Known { name: name.to_owned(), lowered: to_lowercase(name) };
    let r = closest_initiative(&known, &req);
    assert(in_order(texts, initiatives_of(store.held())));
    Ok(r)
}

/// There is one suggestion for a name.
pub proof fn one_suggestion(
    known: Seq<KnownV>,
    req: KnownV,
    a: Option<Seq<char>>,
    b: Option<Seq<char>>,
)
    requires
        suggestion(known, req, a),
        suggestion(known, req, b),
    ensures
        a == b,
{
    let l = req.lowered;
    if req.name.len() == 0 || is_known(known, req.name) {
    } else if exists|i: int| recased_at(known, l, i) {
        let i = choose|i: int| #[trigger] recased_at(known, l, i) && a == Some(known[i].name);
        let j = choose|j: int| #[trigger] recased_at(known, l, j) && b == Some(known[j].name);
        assert(i == j);
    } else if a is Some && b is Some {
        let i = choose|i: int| #[trigger] closest_at(known, l, i) && a->0 == known[i].name;
        let j = choose|j: int| #[trigger] closest_at(known, l, j) && b->0 == known[j].name;
        assert(admissible(l, known[i]) && admissible(l, known[j]));
        assert(i == j);
    } else if a is Some {
        let i = choose|i: int| #[trigger] closest_at(known, l, i) && a->0 == known[i].name;
        assert(admissible(l, known[i]));
    } else if b is Some {
        let i = choose|i: int| #[trigger] closest_at(known, l, i) && b->0 == known[i].name;
        assert(admissible(l, known[i]));
    }
}

/// A suggestion is a known name, other than the one asked for.
pub proof fn a_suggestion_is_known(known: Seq<KnownV>, req: KnownV, name: Seq<char>)
    requires
        suggestion(known, req, Some(name)),
    ensures
        is_known(known, name),
        name != req.name,
{
}

/// The closer name is suggested, whichever rule found it: one that is farther off by edits never
/// wins over an admissible one that is nearer, however the two are related to what was asked for.
pub proof fn the_closer_name_wins(known: Seq<KnownV>, req: KnownV, near: int, name: Seq<char>)
    requires
        suggestion(known, req, Some(name)),
        forall|i: int| !recased_at(known, req.lowered, i),
        0 <= near < known.len(),
        admissible(req.lowered, known[near]),
    ensures
        exists|i: int|
            0 <= i < known.len() && (#[trigger] known[i]).name == name && distance(
                req.lowered,
                known[i].lowered,
            ) <= distance(req.lowered, known[near].lowered),
{
    let i = choose|i: int| #[trigger] closest_at(known, req.lowered, i) && name == known[i].name;
    assert(admissible(req.lowered, known[near]));
    assert(known[i].name == name);
}

} // verus!
