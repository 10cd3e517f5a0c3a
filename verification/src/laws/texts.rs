//! Laws of texts: what is trimmed, how texts compare, how numbers are written.

use crate::tags::{all_digits, is_digit, value};
use crate::text::{decimal, digit, occurs_at, occurs_in, text_lt, trimmed, white_space};
use vstd::prelude::*;

verus! {

/// The code points that Unicode counts as white space.
pub open spec fn blank(c: char) -> bool {
    set![
        9int, 10, 11, 12, 13, 32, 133, 160, 5760, 8192, 8193, 8194, 8195, 8196, 8197, 8198, 8199,
        8200, 8201, 8202, 8232, 8233, 8239, 8287, 12288,
    ].contains(c as int)
}

/// The white space that is trimmed is that of Unicode.
pub proof fn white_space_is_that_of_unicode(c: char)
    ensures
        white_space(c) <==> blank(c),
{
}

/// Trimming takes the blanks at both ends and leaves the rest: whatever starts and ends with a
/// character that is not blank comes back from between any blanks.
pub proof fn trimming_leaves_the_middle(left: Seq<char>, middle: Seq<char>, right: Seq<char>)
    requires
        forall|k: int| 0 <= k < left.len() ==> blank(#[trigger] left[k]),
        forall|k: int| 0 <= k < right.len() ==> blank(#[trigger] right[k]),
        middle.len() > 0,
        !blank(middle[0]),
        !blank(middle[middle.len() - 1]),
    ensures
        trimmed(left + middle + right) == middle,
    decreases left.len() + right.len(),
{
    let s = left + middle + right;
    if left.len() > 0 {
        white_space_is_that_of_unicode(left[0]);
        assert(s.first() == left[0]);
        let rest = left.drop_first();
        assert forall|k: int| 0 <= k < rest.len() implies blank(#[trigger] rest[k]) by {
            assert(rest[k] == left[k + 1]);
        }
        assert(s.drop_first() =~= rest + middle + right);
        trimming_leaves_the_middle(rest, middle, right);
    } else {
        white_space_is_that_of_unicode(middle[0]);
        assert(s.first() == middle[0]);
        if right.len() > 0 {
            let front = right.drop_last();
            white_space_is_that_of_unicode(right.last());
            assert(s.last() == right.last());
            assert forall|k: int| 0 <= k < front.len() implies blank(#[trigger] front[k]) by {
                assert(front[k] == right[k]);
            }
            assert(s.drop_last() =~= left + middle + front);
            trimming_leaves_the_middle(left, middle, front);
        } else {
            white_space_is_that_of_unicode(middle.last());
            assert(s =~= middle);
        }
    }
}

/// Trimming leaves nothing of a text of blanks.
pub proof fn trimming_leaves_no_blanks(s: Seq<char>)
    requires
        forall|k: int| 0 <= k < s.len() ==> blank(#[trigger] s[k]),
    ensures
        trimmed(s).len() == 0,
    decreases s.len(),
{
    if s.len() > 0 {
        white_space_is_that_of_unicode(s[0]);
        let rest = s.drop_first();
        assert forall|k: int| 0 <= k < rest.len() implies blank(#[trigger] rest[k]) by {
            assert(rest[k] == s[k + 1]);
        }
        trimming_leaves_no_blanks(rest);
    }
}

/// Texts compare at the first character in which they differ, by its code point; a text comes before
/// every longer one that starts with it.
pub proof fn texts_compare_at_their_first_difference(a: Seq<char>, b: Seq<char>, k: int)
    requires
        0 <= k <= a.len(),
        k < b.len(),
        forall|i: int| 0 <= i < k ==> a[i] == #[trigger] b[i],
        k < a.len() ==> (a[k] as int) < (b[k] as int),
    ensures
        text_lt(a, b),
        !text_lt(b, a),
    decreases k,
{
    if k > 0 {
        let (x, y) = (a.drop_first(), b.drop_first());
        assert(a[0] == b[0]);
        assert forall|i: int| 0 <= i < k - 1 implies x[i] == #[trigger] y[i] by {
            assert(a[i + 1] == b[i + 1]);
        }
        texts_compare_at_their_first_difference(x, y, k - 1);
    }
}

/// One text occurs in another exactly if the other is made of something, it, and something.
pub proof fn what_occurs_is_in_the_midst(whole: Seq<char>, part: Seq<char>)
    ensures
        occurs_in(whole, part) <==> exists|a: Seq<char>, b: Seq<char>|
            whole == #[trigger] (a + part + b),
{
    if occurs_in(whole, part) {
        let i = choose|i: int| occurs_at(whole, part, i);
        let (a, b) = (whole.take(i), whole.skip(i + part.len()));
        assert(whole =~= a + part + b);
    }
    if exists|a: Seq<char>, b: Seq<char>| whole == #[trigger] (a + part + b) {
        let (a, b) = choose|a: Seq<char>, b: Seq<char>| whole == #[trigger] (a + part + b);
        assert(whole.subrange(a.len() as int, (a.len() + part.len()) as int) =~= part);
        assert(occurs_at(whole, part, a.len() as int));
    }
}

/// A number is written in decimal: its last digit is what is left over by ten, and the digits before
/// it write the tenth part, if there is one.
pub proof fn numbers_are_written_in_decimal(n: nat, d: nat)
    requires
        d < 10,
    ensures
        decimal(d) == seq![('0' as nat + d) as char],
        n > 0 ==> decimal(10 * n + d) == decimal(n) + decimal(d),
{
    if n > 0 {
        assert((10 * n + d) / 10 == n);
        assert((10 * n + d) % 10 == d);
        assert(decimal(10 * n + d) =~= decimal(n) + decimal(d));
    }
}

/// The digits that write a number are read back as that number.
pub proof fn decimal_digits_read_back(n: nat)
    ensures
        value(decimal(n)) == n,
        all_digits(decimal(n)),
        decimal(n)[0] != '-' && decimal(n)[0] != '+',
        decimal(n).last() != 'd',
    decreases n,
{
    let s = decimal(n);
    if n < 10 {
        assert(s.drop_last() =~= Seq::empty());
        assert(value(s.drop_last()) == 0);
        assert(is_digit(s[0]));
    } else {
        let t = decimal(n / 10);
        decimal_digits_read_back(n / 10);
        assert(s.drop_last() =~= t);
        assert forall|i: int| 0 <= i < s.len() implies is_digit(#[trigger] s[i]) by {
            if i < t.len() {
                assert(s[i] == t[i]);
            } else {
                assert(s[i] == digit(n % 10));
            }
        }
        assert(s[0] == t[0]);
        assert(s.last() == digit(n % 10));
    }
}

} // verus!
