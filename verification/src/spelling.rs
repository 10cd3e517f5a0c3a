//! How far apart two spellings are.

use crate::text::chars_of;
use vstd::prelude::*;

verus! {

pub open spec fn least(a: nat, b: nat) -> nat {
    if a <= b {
        a
    } else {
        b
    }
}

/// The edit distance of two spellings.
pub open spec fn distance(a: Seq<char>, b: Seq<char>) -> nat
    decreases a.len() + b.len(),
{
    if a.len() == 0 {
        b.len()
    } else if b.len() == 0 {
        a.len()
    } else {
        let cost: nat = if a.last() == b.last() {
            0
        } else {
            1
        };
        least(
            least(
                distance(a.drop_last(), b.drop_last()) + cost,
                distance(a.drop_last(), b) + 1,
            ),
            distance(a, b.drop_last()) + 1,
        )
    }
}

/// No two spellings are farther apart than the longer of them is long.
pub proof fn a_distance_is_bounded(a: Seq<char>, b: Seq<char>)
    ensures
        distance(a, b) <= a.len() || distance(a, b) <= b.len(),
        a.len() <= distance(a, b) + b.len(),
        b.len() <= distance(a, b) + a.len(),
    decreases a.len() + b.len(),
{
    if a.len() > 0 && b.len() > 0 {
        a_distance_is_bounded(a.drop_last(), b.drop_last());
        a_distance_is_bounded(a.drop_last(), b);
        a_distance_is_bounded(a, b.drop_last());
    }
}

/// The distance between the first `i` characters of `a` and the first `j` of `b`.
spec fn cell(a: Seq<char>, b: Seq<char>, i: int, j: int) -> nat {
    distance(a.take(i), b.take(j))
}

proof fn next_cell(a: Seq<char>, b: Seq<char>, i: int, j: int)
    requires
        0 <= i < a.len(),
        0 <= j < b.len(),
    ensures
        cell(a, b, i + 1, j + 1) == least(
            least(
                cell(a, b, i, j) + (if a[i] == b[j] {
                    0nat
                } else {
                    1nat
                }),
                cell(a, b, i, j + 1) + 1,
            ),
            cell(a, b, i + 1, j) + 1,
        ),
{
    assert(a.take(i + 1).drop_last() =~= a.take(i));
    assert(b.take(j + 1).drop_last() =~= b.take(j));
}

/// The edit distance of two spellings, by two rows of the table of all prefixes.
pub fn levenshtein(a: &str, b: &str) -> (r: usize)
    ensures
        r == distance(a@, b@),
{
    let a_chars = chars_of(a);
    let b_chars = chars_of(b);
    let n = b_chars.len();
    let mut prev: Vec<usize> = Vec::new();
    for j in 0..n
        invariant
            n == b@.len(),
            prev@.len() == j,
            forall|k: int| 0 <= k < j ==> prev@[k] == cell(a@, b@, 0, k),
    {
        prev.push(j);
    }
    prev.push(n);
    let mut i: usize = 0;
    while i < a_chars.len()
        invariant
            a_chars@ == a@,
            b_chars@ == b@,
            n == b@.len(),
            i <= a@.len(),
            prev@.len() == n + 1,
            forall|k: int| 0 <= k <= n ==> prev@[k] == cell(a@, b@, i as int, k),
        decreases a_chars.len() - i,
    {
        let mut curr: Vec<usize> = Vec::new();
        curr.push(i + 1);
        for j in 0..n
            invariant
                a_chars@ == a@,
                b_chars@ == b@,
                n == b@.len(),
                i < a_chars.len(),
                prev@.len() == n + 1,
                forall|k: int| 0 <= k <= n ==> prev@[k] == cell(a@, b@, i as int, k),
                curr@.len() == j + 1,
                forall|k: int| 0 <= k <= j ==> curr@[k] == cell(a@, b@, i + 1, k),
        {
            let cost: usize = if a_chars[i] == b_chars[j] {
                0
            } else {
                1
            };
            let replaced: usize = prev[j].saturating_add(cost);
            let removed: usize = prev[j + 1].saturating_add(1);
            let inserted: usize = curr[j].saturating_add(1);
            let best: usize = replaced.min(removed).min(inserted);
            proof {
                assert(prev@[j as int] == cell(a@, b@, i as int, j as int));
                assert(prev@[j + 1] == cell(a@, b@, i as int, j + 1));
                assert(curr@[j as int] == cell(a@, b@, i + 1, j as int));
                next_cell(a@, b@, i as int, j as int);
                a_distance_is_bounded(a@.take(i + 1), b@.take(j + 1));
                assert(best == cell(a@, b@, i + 1, j + 1));
            }
            curr.push(best);
        }
        prev = curr;
        i += 1;
    }
    proof {
        assert(a@.take(a@.len() as int) =~= a@);
        assert(b@.take(b@.len() as int) =~= b@);
    }
    prev[n]
}

/// Only equal spellings are at distance zero.
pub proof fn zero_means_equal(a: Seq<char>, b: Seq<char>)
    ensures
        distance(a, b) == 0 <==> a == b,
    decreases a.len() + b.len(),
{
    if a.len() == 0 || b.len() == 0 {
        assert(a.len() == b.len() ==> a =~= b);
    } else {
        zero_means_equal(a.drop_last(), b.drop_last());
        if distance(a, b) == 0 {
            assert(a =~= a.drop_last().push(a.last()));
            assert(b =~= b.drop_last().push(b.last()));
        }
    }
}

/// The distance does not depend on the direction.
pub proof fn a_distance_is_symmetric(a: Seq<char>, b: Seq<char>)
    ensures
        distance(a, b) == distance(b, a),
    decreases a.len() + b.len(),
{
    if a.len() > 0 && b.len() > 0 {
        a_distance_is_symmetric(a.drop_last(), b.drop_last());
        a_distance_is_symmetric(a.drop_last(), b);
        a_distance_is_symmetric(a, b.drop_last());
    }
}

/// No detour is shorter.
pub proof fn a_detour_is_no_shorter(a: Seq<char>, b: Seq<char>, c: Seq<char>)
    ensures
        distance(a, c) <= distance(a, b) + distance(b, c),
    decreases a.len() + b.len() + c.len(),
{
    a_distance_is_bounded(a, b);
    a_distance_is_bounded(b, c);
    a_distance_is_bounded(a, c);
    if a.len() > 0 && b.len() > 0 && c.len() > 0 {
        let (a0, b0, c0) = (a.drop_last(), b.drop_last(), c.drop_last());
        a_detour_is_no_shorter(a0, b, c);
        a_detour_is_no_shorter(a, b0, c);
        a_detour_is_no_shorter(a, b, c0);
        a_detour_is_no_shorter(a, b0, c0);
        a_detour_is_no_shorter(a0, b0, c);
        a_detour_is_no_shorter(a0, b0, c0);
    }
}

/// Whether one character replaced, inserted or removed leads from `a` to `b`.
pub open spec fn one_edit(a: Seq<char>, b: Seq<char>) -> bool {
    ||| exists|i: int, ch: char| 0 <= i < a.len() && b == #[trigger] a.update(i, ch)
    ||| exists|i: int, ch: char| 0 <= i <= a.len() && b == #[trigger] a.insert(i, ch)
    ||| exists|i: int| 0 <= i < a.len() && b == #[trigger] a.remove(i)
}

/// Whether `n` edits lead from `a` to `b`.
pub open spec fn reaches(a: Seq<char>, b: Seq<char>, n: nat) -> bool
    decreases n,
{
    if n == 0 {
        a == b
    } else {
        exists|m: Seq<char>| #[trigger] one_edit(a, m) && reaches(m, b, (n - 1) as nat)
    }
}

/// The distance is the least number of edits that lead from one spelling to the other.
pub proof fn the_distance_is_the_fewest_edits(a: Seq<char>, b: Seq<char>, n: nat)
    ensures
        reaches(a, b, distance(a, b)),
        reaches(a, b, n) ==> distance(a, b) <= n,
{
    distance_is_reached(a, b);
    if reaches(a, b, n) {
        edits_cover_the_distance(a, b, n);
    }
}

proof fn replacing_costs_one(a: Seq<char>, i: int, ch: char)
    requires
        0 <= i < a.len(),
    ensures
        distance(a, a.update(i, ch)) <= 1,
    decreases a.len(),
{
    let b = a.update(i, ch);
    if i == a.len() - 1 {
        assert(b.drop_last() =~= a.drop_last());
        zero_means_equal(a.drop_last(), b.drop_last());
    } else {
        assert(b.drop_last() =~= a.drop_last().update(i, ch));
        replacing_costs_one(a.drop_last(), i, ch);
    }
}

proof fn inserting_costs_one(a: Seq<char>, i: int, ch: char)
    requires
        0 <= i <= a.len(),
    ensures
        distance(a, a.insert(i, ch)) <= 1,
    decreases a.len(),
{
    let b = a.insert(i, ch);
    if i == a.len() {
        assert(b.drop_last() =~= a);
        zero_means_equal(a, b.drop_last());
    } else {
        assert(b.drop_last() =~= a.drop_last().insert(i, ch));
        inserting_costs_one(a.drop_last(), i, ch);
    }
}

proof fn an_edit_costs_one(a: Seq<char>, b: Seq<char>)
    requires
        one_edit(a, b),
    ensures
        distance(a, b) <= 1,
{
    if exists|i: int, ch: char| 0 <= i < a.len() && b == #[trigger] a.update(i, ch) {
        let (i, ch) = choose|i: int, ch: char| 0 <= i < a.len() && b == #[trigger] a.update(i, ch);
        replacing_costs_one(a, i, ch);
    } else if exists|i: int, ch: char| 0 <= i <= a.len() && b == #[trigger] a.insert(i, ch) {
        let (i, ch) = choose|i: int, ch: char| 0 <= i <= a.len() && b == #[trigger] a.insert(i, ch);
        inserting_costs_one(a, i, ch);
    } else {
        let i = choose|i: int| 0 <= i < a.len() && b == #[trigger] a.remove(i);
        inserting_costs_one(b, i, a[i]);
        assert(b.insert(i, a[i]) =~= a);
        a_distance_is_symmetric(a, b);
    }
}

proof fn edits_cover_the_distance(a: Seq<char>, b: Seq<char>, n: nat)
    requires
        reaches(a, b, n),
    ensures
        distance(a, b) <= n,
    decreases n,
{
    if n == 0 {
        zero_means_equal(a, b);
    } else {
        let m = choose|m: Seq<char>| #[trigger] one_edit(a, m) && reaches(m, b, (n - 1) as nat);
        an_edit_costs_one(a, m);
        edits_cover_the_distance(m, b, (n - 1) as nat);
        a_detour_is_no_shorter(a, m, b);
    }
}

proof fn one_more_edit(a: Seq<char>, m: Seq<char>, b: Seq<char>, n: nat)
    requires
        reaches(a, m, n),
        one_edit(m, b),
    ensures
        reaches(a, b, n + 1),
    decreases n,
{
    if n == 0 {
        assert(reaches(b, b, 0));
    } else {
        let k = choose|k: Seq<char>| #[trigger] one_edit(a, k) && reaches(k, m, (n - 1) as nat);
        one_more_edit(k, m, b, (n - 1) as nat);
    }
}

proof fn edits_before_a_last_character(a: Seq<char>, b: Seq<char>, ch: char, n: nat)
    requires
        reaches(a, b, n),
    ensures
        reaches(a.push(ch), b.push(ch), n),
    decreases n,
{
    if n > 0 {
        let m = choose|m: Seq<char>| #[trigger] one_edit(a, m) && reaches(m, b, (n - 1) as nat);
        edits_before_a_last_character(m, b, ch, (n - 1) as nat);
        if exists|i: int, x: char| 0 <= i < a.len() && m == #[trigger] a.update(i, x) {
            let (i, x) = choose|i: int, x: char| 0 <= i < a.len() && m == #[trigger] a.update(i, x);
            assert(m.push(ch) =~= a.push(ch).update(i, x));
        } else if exists|i: int, x: char| 0 <= i <= a.len() && m == #[trigger] a.insert(i, x) {
            let (i, x) = choose|i: int, x: char|
                0 <= i <= a.len() && m == #[trigger] a.insert(i, x);
            assert(m.push(ch) =~= a.push(ch).insert(i, x));
        } else {
            let i = choose|i: int| 0 <= i < a.len() && m == #[trigger] a.remove(i);
            assert(m.push(ch) =~= a.push(ch).remove(i));
        }
        assert(one_edit(a.push(ch), m.push(ch)));
    }
}

proof fn distance_is_reached(a: Seq<char>, b: Seq<char>)
    ensures
        reaches(a, b, distance(a, b)),
    decreases a.len() + b.len(),
{
    if a.len() == 0 && b.len() == 0 {
        assert(a =~= b);
    } else if b.len() == 0 || (a.len() > 0 && distance(a, b) == distance(a.drop_last(), b) + 1) {
        let m = a.drop_last();
        assert(m =~= a.remove(a.len() - 1));
        assert(one_edit(a, m));
        distance_is_reached(m, b);
    } else if a.len() == 0 || distance(a, b) == distance(a, b.drop_last()) + 1 {
        let m = b.drop_last();
        assert(b =~= m.insert(m.len() as int, b.last()));
        assert(one_edit(m, b));
        distance_is_reached(a, m);
        one_more_edit(a, m, b, distance(a, m));
    } else {
        let (a0, b0) = (a.drop_last(), b.drop_last());
        distance_is_reached(a0, b0);
        edits_before_a_last_character(a0, b0, b.last(), distance(a0, b0));
        assert(b0.push(b.last()) =~= b);
        let m = a0.push(b.last());
        if a.last() == b.last() {
            assert(m =~= a);
        } else {
            assert(m =~= a.update(a.len() - 1, b.last()));
            assert(one_edit(a, m));
        }
    }
}

} // verus!
