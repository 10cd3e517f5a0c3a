//! Dates as texts.

use crate::text::{digit, text_lt};
use vstd::prelude::*;

verus! {

/// A number below a hundred, in two digits.
pub open spec fn two_digits(n: nat) -> Seq<char> {
    seq![digit(n / 10), digit(n % 10)]
}

/// A number below ten thousand, in four digits.
pub open spec fn four_digits(n: nat) -> Seq<char> {
    two_digits(n / 100) + two_digits(n % 100)
}

/// A date as `YYYY-MM-DD`.
pub open spec fn iso_date(year: nat, month: nat, day: nat) -> Seq<char> {
    four_digits(year) + (seq!['-'] + (two_digits(month) + (seq!['-'] + two_digits(day))))
}

/// Texts that start with equally long parts compare by those parts first.
proof fn compares_in_parts(p: Seq<char>, a: Seq<char>, q: Seq<char>, b: Seq<char>)
    requires
        p.len() == q.len(),
    ensures
        text_lt(p + a, q + b) <==> text_lt(p, q) || (p == q && text_lt(a, b)),
    decreases p.len(),
{
    if p.len() == 0 {
        assert(p + a =~= a);
        assert(q + b =~= b);
        assert(p =~= q);
    } else {
        let (p1, q1) = (p.drop_first(), q.drop_first());
        assert((p + a).drop_first() =~= p1 + a);
        assert((q + b).drop_first() =~= q1 + b);
        compares_in_parts(p1, a, q1, b);
        if p[0] == q[0] && p1 == q1 {
            assert(p =~= seq![p[0]] + p1);
            assert(q =~= seq![q[0]] + q1);
        }
    }
}

proof fn two_digits_compare(a: nat, b: nat)
    requires
        a < 100,
        b < 100,
    ensures
        text_lt(two_digits(a), two_digits(b)) <==> a < b,
        two_digits(a) == two_digits(b) <==> a == b,
{
    let (x, y) = (two_digits(a), two_digits(b));
    assert(a == a / 10 * 10 + a % 10);
    assert(b == b / 10 * 10 + b % 10);
    assert(x.drop_first() =~= seq![digit(a % 10)]);
    assert(y.drop_first() =~= seq![digit(b % 10)]);
    assert(x.drop_first().drop_first() =~= Seq::empty());
    assert(y.drop_first().drop_first() =~= Seq::empty());
    assert(x[0] == digit(a / 10) && x[1] == digit(a % 10));
    assert(y[0] == digit(b / 10) && y[1] == digit(b % 10));
    reveal_with_fuel(text_lt, 3);
}

proof fn four_digits_compare(a: nat, b: nat)
    requires
        a < 10000,
        b < 10000,
    ensures
        text_lt(four_digits(a), four_digits(b)) <==> a < b,
        four_digits(a) == four_digits(b) <==> a == b,
{
    two_digits_compare(a / 100, b / 100);
    two_digits_compare(a % 100, b % 100);
    compares_in_parts(
        two_digits(a / 100),
        two_digits(a % 100),
        two_digits(b / 100),
        two_digits(b % 100),
    );
    assert(a == a / 100 * 100 + a % 100);
    assert(b == b / 100 * 100 + b % 100);
    if four_digits(a) == four_digits(b) {
        assert(two_digits(a / 100) =~= four_digits(a).take(2));
        assert(two_digits(b / 100) =~= four_digits(b).take(2));
        assert(two_digits(a % 100) =~= four_digits(a).skip(2));
        assert(two_digits(b % 100) =~= four_digits(b).skip(2));
    }
}

/// The order of dates as texts is that of time.
pub proof fn dates_order_as_texts(y1: nat, m1: nat, d1: nat, y2: nat, m2: nat, d2: nat)
    requires
        y1 < 10000,
        y2 < 10000,
        m1 < 100,
        m2 < 100,
        d1 < 100,
        d2 < 100,
    ensures
        text_lt(iso_date(y1, m1, d1), iso_date(y2, m2, d2)) <==> y1 < y2 || (y1 == y2 && (m1 < m2
            || (m1 == m2 && d1 < d2))),
{
    four_digits_compare(y1, y2);
    two_digits_compare(m1, m2);
    two_digits_compare(d1, d2);
    let s = seq!['-'];
    let (day1, day2) = (s + two_digits(d1), s + two_digits(d2));
    let (rest1, rest2) = (s + (two_digits(m1) + day1), s + (two_digits(m2) + day2));
    compares_in_parts(s, two_digits(d1), s, two_digits(d2));
    compares_in_parts(two_digits(m1), day1, two_digits(m2), day2);
    compares_in_parts(s, two_digits(m1) + day1, s, two_digits(m2) + day2);
    compares_in_parts(four_digits(y1), rest1, four_digits(y2), rest2);
    crate::text::text_lt_is_irreflexive(s);
}

} // verus!
