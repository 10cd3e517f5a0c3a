//! Laws of discovery: which name is suggested, and which names are reported as one.

use super::texts::what_occurs_is_in_the_midst;
use crate::model::Contents;
use crate::recall::duplicates::{
    a_pair_is_reported_exactly_if_found, all_counted, bare, finding, findings, lowered_chars,
    findings_beside, normalised, reported_before, reported_beside,
};
use crate::recall::suggest::{
    admissible, all_with_lowercase, closest_at, is_known, recased_at, suggestion, with_lowercase,
};
use crate::spelling::{distance, reaches, the_distance_is_the_fewest_edits, zero_means_equal};
use crate::substrate::shared_by;
use crate::text::{char_lowercase, decimal, lowercase, occurs_in, text_lt};
use vstd::prelude::*;

verus! {

// ---- suggestions -------------------------------------------------------------

proof fn known_names(known: Seq<Seq<char>>)
    ensures
        all_with_lowercase(known).len() == known.len(),
        forall|i: int|
            #![trigger known[i]]
            #![trigger all_with_lowercase(known)[i]]
            0 <= i < known.len() ==> all_with_lowercase(known)[i].name == known[i]
                && all_with_lowercase(known)[i].lowered == lowercase(known[i]),
        forall|name: Seq<char>| #[trigger]
            known.contains(name) <==> is_known(all_with_lowercase(known), name),
{
    let all = all_with_lowercase(known);
    assert forall|name: Seq<char>| #[trigger] known.contains(name) <==> is_known(all, name) by {
        if known.contains(name) {
            let i = known.index_of(name);
            assert(all[i].name == name);
        }
        if is_known(all, name) {
            let i = choose|i: int| 0 <= i < all.len() && (#[trigger] all[i]).name == name;
            assert(known[i] == name);
        }
    }
}

/// A name that is blank or known as it is written gets no suggestion.
pub proof fn a_known_name_gets_no_suggestion(
    known: Seq<Seq<char>>,
    req: Seq<char>,
    r: Option<Seq<char>>,
)
    requires
        suggestion(all_with_lowercase(known), with_lowercase(req), r),
        req.len() == 0 || known.contains(req),
    ensures
        r is None,
{
    known_names(known);
}

/// A name that contains a known one, or is contained in one, gets a suggestion, however far apart
/// the two are; case does not count.
pub proof fn a_name_around_or_within_a_known_one_gets_a_suggestion(
    known: Seq<Seq<char>>,
    req: Seq<char>,
    r: Option<Seq<char>>,
    i: int,
    before: Seq<char>,
    after: Seq<char>,
)
    requires
        suggestion(all_with_lowercase(known), with_lowercase(req), r),
        req.len() > 0,
        !known.contains(req),
        0 <= i < known.len(),
        lowercase(req) == before + lowercase(known[i]) + after || lowercase(known[i]) == before
            + lowercase(req) + after,
    ensures
        r is Some,
{
    known_names(known);
    let all = all_with_lowercase(known);
    let (l, k) = (lowercase(req), lowercase(known[i]));
    what_occurs_is_in_the_midst(l, k);
    what_occurs_is_in_the_midst(k, l);
    assert(occurs_in(l, k) || occurs_in(k, l));
    assert(all[i].lowered == k);
    assert(admissible(l, all[i]));
}

/// A name that two edits turn into a known one gets a suggestion, and so does one that takes no more
/// edits than a third of the known one's length; case does not count.
pub proof fn a_misspelt_name_gets_a_suggestion(
    known: Seq<Seq<char>>,
    req: Seq<char>,
    r: Option<Seq<char>>,
    i: int,
    edits: nat,
)
    requires
        suggestion(all_with_lowercase(known), with_lowercase(req), r),
        req.len() > 0,
        !known.contains(req),
        0 <= i < known.len(),
        reaches(lowercase(req), lowercase(known[i]), edits),
        edits <= 2 || 3 * edits <= known[i].len(),
    ensures
        r is Some,
{
    known_names(known);
    let all = all_with_lowercase(known);
    the_distance_is_the_fewest_edits(lowercase(req), lowercase(known[i]), edits);
    assert(admissible(lowercase(req), all[i]));
}

/// What is suggested is a known name other than the one asked for, and no stranger to it: in lower
/// case one contains the other, or they are at most two edits apart, or at most a third of the known
/// one's length.
pub proof fn a_suggestion_is_no_stranger(
    known: Seq<Seq<char>>,
    req: Seq<char>,
    name: Seq<char>,
)
    requires
        suggestion(all_with_lowercase(known), with_lowercase(req), Some(name)),
    ensures
        known.contains(name),
        name != req,
        req.len() > 0,
        ({
            let (l, k) = (lowercase(req), lowercase(name));
            ||| exists|a: Seq<char>, b: Seq<char>| l == #[trigger] (a + k + b)
            ||| exists|a: Seq<char>, b: Seq<char>| k == #[trigger] (a + l + b)
            ||| exists|edits: nat| #[trigger]
                reaches(l, k, edits) && (edits <= 2 || 3 * edits <= name.len())
        }),
{
    known_names(known);
    let all = all_with_lowercase(known);
    let (l, k) = (lowercase(req), lowercase(name));
    what_occurs_is_in_the_midst(l, k);
    what_occurs_is_in_the_midst(k, l);
    the_distance_is_the_fewest_edits(l, k, 0);
    if exists|i: int| recased_at(all, l, i) {
        let i = choose|i: int| #[trigger] recased_at(all, l, i) && all[i].name == name;
        assert(known[i] == name);
        assert(reaches(l, k, 0));
    } else {
        let i = choose|i: int| #[trigger] closest_at(all, l, i) && name == all[i].name;
        assert(known[i] == name);
        assert(reaches(l, k, distance(l, k)));
    }
}

/// A known name that differs from the one asked for in case alone is what is suggested; of several,
/// the first.
pub proof fn a_name_in_another_case_is_suggested(
    known: Seq<Seq<char>>,
    req: Seq<char>,
    r: Option<Seq<char>>,
    i: int,
)
    requires
        suggestion(all_with_lowercase(known), with_lowercase(req), r),
        req.len() > 0,
        !known.contains(req),
        0 <= i < known.len(),
        lowercase(known[i]) == lowercase(req),
        forall|j: int| 0 <= j < i ==> lowercase(#[trigger] known[j]) != lowercase(req),
    ensures
        r == Some(known[i]),
{
    known_names(known);
    let all = all_with_lowercase(known);
    let l = lowercase(req);
    assert forall|j: int| 0 <= j < i implies (#[trigger] all[j]).lowered != l by {
        assert(known[j] == all[j].name);
    }
    assert(all[i].name == known[i]);
    assert(recased_at(all, l, i));
    let j = choose|j: int| #[trigger] recased_at(all, l, j) && r == Some(all[j].name);
    assert(all[j].lowered == l);
    assert(i == j);
}

/// Nothing that is related to the name asked for is nearer to it than what is suggested: it takes at
/// least as many edits; and if as many, it is no shorter; and if it is neither, it comes later.
pub proof fn nothing_related_is_nearer(
    known: Seq<Seq<char>>,
    req: Seq<char>,
    name: Seq<char>,
    j: int,
)
    requires
        suggestion(all_with_lowercase(known), with_lowercase(req), Some(name)),
        0 <= j < known.len(),
        ({
            let (l, k) = (lowercase(req), lowercase(known[j]));
            ||| occurs_in(l, k)
            ||| occurs_in(k, l)
            ||| distance(l, k) <= 2
            ||| 3 * distance(l, k) <= known[j].len()
        }),
    ensures
        ({
            let (l, k) = (lowercase(req), lowercase(known[j]));
            let near = distance(l, lowercase(name));
            &&& near <= distance(l, k)
            &&& 0 < near && near == distance(l, k) ==> name.len() <= known[j].len()
            &&& 0 < near && near == distance(l, k) && name.len() == known[j].len() ==> exists|i: int|
                0 <= i <= j && #[trigger] known[i] == name
        }),
{
    known_names(known);
    let all = all_with_lowercase(known);
    let l = lowercase(req);
    assert(all[j].name == known[j] && all[j].lowered == lowercase(known[j]));
    assert(admissible(l, all[j]));
    if exists|i: int| recased_at(all, l, i) {
        let i = choose|i: int| #[trigger] recased_at(all, l, i) && all[i].name == name;
        assert(known[i] == name);
        zero_means_equal(l, lowercase(name));
    } else {
        let i = choose|i: int| #[trigger] closest_at(all, l, i) && name == all[i].name;
        assert(known[i] == name);
        assert(all[i].lowered == lowercase(name));
    }
}

// ---- names for one thing -----------------------------------------------------

proof fn lowering_is_piecewise(a: Seq<char>, b: Seq<char>)
    ensures
        lowered_chars(a + b) == lowered_chars(a) + lowered_chars(b),
    decreases b.len(),
{
    if b.len() == 0 {
        assert(a + b =~= a);
        assert(lowered_chars(a) + lowered_chars(b) =~= lowered_chars(a));
    } else {
        assert((a + b).drop_last() =~= a + b.drop_last());
        lowering_is_piecewise(a, b.drop_last());
        assert(lowered_chars(a) + lowered_chars(b.drop_last()) + char_lowercase(b.last())
            =~= lowered_chars(a) + lowered_chars(b));
    }
}

/// Names count as one if they are the same once hyphens, underscores, spaces and full stops are left
/// out and every other character is lowered: a character put anywhere into a name adds its lower case
/// to what the name counts as, and one of these four adds nothing.
pub proof fn four_separators_do_not_count(before: Seq<char>, c: char, after: Seq<char>)
    ensures
        normalised(before + seq![c] + after) == normalised(before) + (if c == '-' || c == '_' || c
            == ' ' || c == '.' {
            Seq::empty()
        } else {
            char_lowercase(c)
        }) + normalised(after),
        normalised(Seq::empty()) == Seq::<char>::empty(),
{
    let keep = |c: char| !crate::recall::duplicates::separator(c);
    let one = seq![c];
    reveal(Seq::filter);
    Seq::filter_distributes_over_add(before + one, after, keep);
    Seq::filter_distributes_over_add(before, one, keep);
    assert(one.drop_last() =~= Seq::empty());
    assert(Seq::<char>::empty().filter(keep) =~= Seq::empty());
    let kept = one.filter(keep);
    assert(bare(before + one + after) =~= bare(before) + kept + bare(after));
    lowering_is_piecewise(bare(before) + kept, bare(after));
    lowering_is_piecewise(bare(before), kept);
    if c == '-' || c == '_' || c == ' ' || c == '.' {
        assert(kept =~= Seq::empty());
        assert(lowered_chars(kept) =~= Seq::empty());
    } else {
        assert(kept =~= one);
        assert(lowered_chars(one.drop_last()) =~= Seq::empty());
        assert(lowered_chars(one) =~= char_lowercase(c));
    }
    assert(bare(Seq::empty()) =~= Seq::empty());
}

/// The nodes that are attached to both of two names.
pub open spec fn at_both(c: Contents, a: Seq<char>, b: Seq<char>) -> Set<Seq<char>> {
    Set::new(|n: Seq<char>| c.members.contains((a, n)) && c.members.contains((b, n)))
}

/// The report holds exactly the pairs of names that count as one, and those that share a node, with
/// the number of nodes they share; the name that comes first in the list comes first in the pair.
pub proof fn the_report_says_why(
    c: Contents,
    known: Seq<Seq<char>>,
    a: Seq<char>,
    b: Seq<char>,
    why: Seq<char>,
)
    requires
        all_counted(c, known),
    ensures
        findings(c, known, known.len() as int).contains((a, b, why)) <==> {
            &&& exists|i: int, j: int|
                #![trigger known[i], known[j]]
                0 <= i < j < known.len() && known[i] == a && known[j] == b
            &&& if normalised(a) == normalised(b) {
                why == "same name apart from case and separators"@
            } else {
                &&& exists|n: Seq<char>| #[trigger]
                    c.members.contains((a, n)) && c.members.contains((b, n))
                &&& why == decimal(at_both(c, a, b).len()) + " node(s) in both"@
            }
        },
{
    let report = findings(c, known, known.len() as int);
    a_pair_is_reported_exactly_if_found(c, known, (a, b, why));
    assert(at_both(c, a, b) =~= shared_by(c, a, b));
    if exists|i: int, j: int|
        #![trigger known[i], known[j]]
        0 <= i < j < known.len() && known[i] == a && known[j] == b {
        let (i, j) = choose|i: int, j: int|
            #![trigger known[i], known[j]]
            0 <= i < j < known.len() && known[i] == a && known[j] == b;
        if normalised(a) != normalised(b) {
            let shared = at_both(c, a, b);
            assert(crate::recall::duplicates::counted(c, known[i], known[j]));
            assert(shared.finite());
            if shared.len() > 0 {
                let n = shared.choose();
                assert(shared.contains(n));
                assert(c.members.contains((a, n)));
            }
            if exists|n: Seq<char>| #[trigger]
                c.members.contains((a, n)) && c.members.contains((b, n)) {
                let n = choose|n: Seq<char>| #[trigger]
                    c.members.contains((a, n)) && c.members.contains((b, n));
                assert(shared.contains(n));
                assert(shared.len() > 0);
            }
        }
        assert(finding(c, known[i], known[j]) == finding(c, a, b));
        assert(report.contains((a, b, why)) <==> finding(c, a, b) == Some(why));
    }
}

/// Whether one entry of a report comes before another: by the first name, then by the second.
pub open spec fn reported_first(
    a: (Seq<char>, Seq<char>, Seq<char>),
    b: (Seq<char>, Seq<char>, Seq<char>),
) -> bool {
    text_lt(a.0, b.0) || (a.0 == b.0 && text_lt(a.1, b.1))
}

/// The report goes through the names in their order: by the first name of a pair, then by the second.
pub proof fn the_report_goes_in_order(c: Contents, known: Seq<Seq<char>>, p: int, q: int)
    requires
        forall|i: int, j: int|
            #![trigger known[i], known[j]]
            0 <= i < j < known.len() ==> text_lt(known[i], known[j]),
        0 <= p < q < findings(c, known, known.len() as int).len(),
    ensures
        reported_first(
            findings(c, known, known.len() as int)[p],
            findings(c, known, known.len() as int)[q],
        ),
{
    in_order_before(c, known, known.len() as int, p, q);
}

proof fn in_order_before(c: Contents, known: Seq<Seq<char>>, n: int, p: int, q: int)
    requires
        forall|i: int, j: int|
            #![trigger known[i], known[j]]
            0 <= i < j < known.len() ==> text_lt(known[i], known[j]),
        0 <= n <= known.len(),
        0 <= p < q < findings(c, known, n).len(),
    ensures
        reported_first(findings(c, known, n)[p], findings(c, known, n)[q]),
    decreases n,
{
    let front = findings(c, known, n - 1);
    let row = findings_beside(c, known, n - 1, known.len() as int);
    let all = findings(c, known, n);
    if q < front.len() {
        in_order_before(c, known, n - 1, p, q);
        assert(all[p] == front[p] && all[q] == front[q]);
    } else {
        let b = row[q - front.len()];
        assert(all[q] == b);
        assert(row.contains(b));
        reported_beside(c, known, n - 1, known.len() as int, b);
        if p < front.len() {
            let a = front[p];
            assert(all[p] == a);
            assert(front.contains(a));
            reported_before(c, known, n - 1, a);
        } else {
            in_order_beside(
                c,
                known,
                n - 1,
                known.len() as int,
                p - front.len(),
                q - front.len(),
            );
            assert(all[p] == row[p - front.len()]);
        }
    }
}

proof fn in_order_beside(c: Contents, known: Seq<Seq<char>>, i: int, n: int, p: int, q: int)
    requires
        forall|i: int, j: int|
            #![trigger known[i], known[j]]
            0 <= i < j < known.len() ==> text_lt(known[i], known[j]),
        0 <= i < known.len(),
        0 <= n <= known.len(),
        0 <= p < q < findings_beside(c, known, i, n).len(),
    ensures
        reported_first(findings_beside(c, known, i, n)[p], findings_beside(c, known, i, n)[q]),
    decreases n,
{
    let front = findings_beside(c, known, i, n - 1);
    let all = findings_beside(c, known, i, n);
    if q < front.len() {
        in_order_beside(c, known, i, n - 1, p, q);
        assert(all[p] == front[p] && all[q] == front[q]);
    } else {
        let a = front[p];
        assert(all[p] == a);
        assert(front.contains(a));
        reported_beside(c, known, i, n - 1, a);
    }
}

} // verus!
