//! What the tags of a node say: `status:`, `due:`, and the contract of reminders.

use crate::clock::{day_named, day_number};
use crate::substrate::texts_view;
use crate::text::{chars_of, strip_prefix};
use vstd::prelude::*;
use vstd::string::StrSliceExecFns;

verus! {

/// What follows a prefix in a tag, if the tag starts with it.
pub open spec fn after_prefix(tag: Seq<char>, prefix: Seq<char>) -> Option<Seq<char>> {
    if prefix.is_prefix_of(tag) {
        Some(tag.skip(prefix.len() as int))
    } else {
        None
    }
}

/// What the first tag with a prefix says after it.
pub open spec fn said(tags: Seq<Seq<char>>, prefix: Seq<char>) -> Option<Seq<char>>
    decreases tags.len(),
{
    if tags.len() == 0 {
        None
    } else if after_prefix(tags[0], prefix) is Some {
        after_prefix(tags[0], prefix)
    } else {
        said(tags.drop_first(), prefix)
    }
}

/// What the first tag with a prefix says after it.
pub fn find_said(tags: &Vec<String>, prefix: &str) -> (r: Option<String>)
    ensures
        crate::substrate::optional_text(r) == said(texts_view(tags@), prefix@),
{
    let ghost texts = texts_view(tags@);
    let mut i: usize = 0;
    assert(texts.skip(0) =~= texts);
    while i < tags.len()
        invariant
            i <= tags@.len(),
            texts == texts_view(tags@),
            said(texts, prefix@) == said(texts.skip(i as int), prefix@),
        decreases tags.len() - i,
    {
        assert(texts.skip(i as int)[0] == tags@[i as int]@);
        assert(texts.skip(i as int).drop_first() =~= texts.skip(i + 1));
        if let Some(rest) = strip_prefix(tags[i].as_str(), prefix) {
            return Some(rest.to_owned());
        }
        i += 1;
    }
    None
}

// ---- numbers -------------------------------------------------------------------

pub open spec fn is_digit(c: char) -> bool {
    '0' <= c <= '9'
}

/// Whether a text is made of digits, one at least.
pub open spec fn all_digits(s: Seq<char>) -> bool {
    s.len() > 0 && forall|i: int| 0 <= i < s.len() ==> is_digit(#[trigger] s[i])
}

/// The number that some digits write.
pub open spec fn value(digits: Seq<char>) -> nat
    decreases digits.len(),
{
    if digits.len() == 0 {
        0
    } else {
        value(digits.drop_last()) * 10 + (digits.last() as nat - '0' as nat) as nat
    }
}

/// The 64-bit number that a text writes: digits, with a sign in front of them or without.
pub open spec fn number(s: Seq<char>) -> Option<int> {
    let signed = s.len() > 0 && (s[0] == '-' || s[0] == '+');
    let digits = if signed {
        s.skip(1)
    } else {
        s
    };
    let n = if signed && s[0] == '-' {
        -(value(digits) as int)
    } else {
        value(digits) as int
    };
    if all_digits(digits) && i64::MIN <= n <= i64::MAX {
        Some(n)
    } else {
        None
    }
}

/// The number that `chars` write from `start` on, if they are digits and it is at most `limit`.
fn read_digits(chars: &Vec<char>, start: usize, limit: u64) -> (r: Option<u64>)
    requires
        start <= chars@.len(),
    ensures
        ({
            let digits = chars@.skip(start as int);
            &&& r is Some <==> all_digits(digits) && value(digits) <= limit
            &&& r matches Some(n) ==> n == value(digits)
        }),
{
    let ghost digits = chars@.skip(start as int);
    if start == chars.len() {
        return None;
    }
    let mut acc: u64 = 0;
    let mut over = false;
    let mut i: usize = start;
    while i < chars.len()
        invariant
            start <= i <= chars@.len(),
            digits == chars@.skip(start as int),
            forall|k: int| 0 <= k < i - start ==> is_digit(#[trigger] digits[k]),
            over <==> value(digits.take(i - start)) > limit,
            !over ==> acc == value(digits.take(i - start)),
        decreases chars.len() - i,
    {
        let c = chars[i];
        assert(digits[i - start] == c);
        if !('0' <= c && c <= '9') {
            return None;
        }
        assert(digits.take(i + 1 - start).drop_last() =~= digits.take(i - start));
        let d: u64 = (c as u32 - '0' as u32) as u64;
        if !over {
            if d > limit || acc > (limit - d) / 10 {
                over = true;
            } else {
                acc = acc * 10 + d;
            }
        }
        i += 1;
    }
    assert(digits.take(i - start) =~= digits);
    if over {
        None
    } else {
        Some(acc)
    }
}

/// Reads a 64-bit number.
pub fn parse_number(s: &str) -> (r: Option<i64>)
    ensures
        r is Some <==> number(s@) is Some,
        r matches Some(n) ==> number(s@) == Some(n as int),
{
    let chars = chars_of(s);
    if chars.len() > 0 && chars[0] == '-' {
        match read_digits(&chars, 1, 9223372036854775808) {
            Some(n) => if n == 9223372036854775808 {
                Some(i64::MIN)
            } else {
                Some(-(n as i64))
            },
            None => None,
        }
    } else if chars.len() > 0 && chars[0] == '+' {
        match read_digits(&chars, 1, 9223372036854775807) {
            Some(n) => Some(n as i64),
            None => None,
        }
    } else {
        assert(chars@.skip(0) =~= chars@);
        match read_digits(&chars, 0, 9223372036854775807) {
            Some(n) => Some(n as i64),
            None => None,
        }
    }
}

// ---- windows -------------------------------------------------------------------

/// The days that a tag `for:<N>d` or `for:<N>` asks for: more than none.
pub open spec fn window(tag: Seq<char>) -> Option<int> {
    match after_prefix(tag, "for:"@) {
        Some(raw) => {
            let digits = if raw.len() > 0 && raw.last() == 'd' {
                raw.drop_last()
            } else {
                raw
            };
            match number(digits) {
                Some(n) => if n > 0 {
                    Some(n)
                } else {
                    None
                },
                None => None,
            }
        },
        None => None,
    }
}

/// `for:<N>d` gives N, and so does a bare `for:<N>`: the `d` is the only unit there is.
pub fn parse_window(tag: &str) -> (r: Option<i64>)
    ensures
        r is Some <==> window(tag@) is Some,
        r matches Some(n) ==> window(tag@) == Some(n as int),
{
    let raw = strip_prefix(tag, "for:")?;
    let n = raw.unicode_len();
    let digits = if n > 0 && raw.get_char(n - 1) == 'd' {
        raw.substring_char(0, n - 1)
    } else {
        raw
    };
    assert(n > 0 ==> raw@.drop_last() =~= raw@.subrange(0, n - 1));
    match parse_number(digits) {
        Some(days) => if days > 0 {
            Some(days)
        } else {
            None
        },
        None => None,
    }
}

/// The days that the first tag with a window asks for.
pub open spec fn insistence(tags: Seq<Seq<char>>) -> Option<int>
    decreases tags.len(),
{
    if tags.len() == 0 {
        None
    } else if window(tags[0]) is Some {
        window(tags[0])
    } else {
        insistence(tags.drop_first())
    }
}

/// The days that the first tag with a window asks for.
pub fn find_window(tags: &Vec<String>) -> (r: Option<i64>)
    ensures
        r is Some <==> insistence(texts_view(tags@)) is Some,
        r matches Some(n) ==> insistence(texts_view(tags@)) == Some(n as int),
{
    let ghost texts = texts_view(tags@);
    let mut i: usize = 0;
    assert(texts.skip(0) =~= texts);
    while i < tags.len()
        invariant
            i <= tags@.len(),
            texts == texts_view(tags@),
            insistence(texts) == insistence(texts.skip(i as int)),
        decreases tags.len() - i,
    {
        assert(texts.skip(i as int)[0] == tags@[i as int]@);
        assert(texts.skip(i as int).drop_first() =~= texts.skip(i + 1));
        if let Some(days) = parse_window(tags[i].as_str()) {
            return Some(days);
        }
        i += 1;
    }
    None
}

/// Whether a window of `days` that began on the day `seen` is still open on the day `now`. A day
/// that cannot be read leaves it open: a corrupt stamp makes a reminder noisy, never silent.
pub open spec fn open_on(seen: Option<int>, now: Option<int>, days: int) -> bool {
    match (seen, now) {
        (Some(s), Some(n)) => n - s < days,
        _ => true,
    }
}

/// Whether a window is still open, given the numbers of the days.
pub fn open_on_day(seen: Option<i32>, now: Option<i32>, days: i64) -> (r: bool)
    ensures
        r == open_on(
            match seen {
                Some(s) => Some(s as int),
                None => None,
            },
            match now {
                Some(n) => Some(n as int),
                None => None,
            },
            days as int,
        ),
{
    match (seen, now) {
        (Some(s), Some(n)) => (n as i64) - (s as i64) < days,
        _ => true,
    }
}

/// Whether a reminder first seen on `seen_on` is still inside its window. The last day counts: a
/// one-day window seen today is still open today.
pub fn window_open(seen_on: &str, window_days: i64, today: &str) -> (r: bool)
    ensures
        r == open_on(day_named(seen_on@), day_named(today@), window_days as int),
{
    open_on_day(day_number(seen_on), day_number(today), window_days)
}

/// The unit may be left out: `for:<N>` and `for:<N>d` ask for the same days.
pub proof fn the_unit_is_optional(n: Seq<char>)
    requires
        n.len() == 0 || n.last() != 'd',
    ensures
        window("for:"@ + n) == window("for:"@ + n + seq!['d']),
{
    let p = "for:"@;
    let (a, b) = (p + n, p + n + seq!['d']);
    assert(p.is_prefix_of(a));
    assert(p.is_prefix_of(b));
    assert(a.skip(p.len() as int) =~= n);
    assert(b.skip(p.len() as int) =~= n.push('d'));
    assert(n.push('d').drop_last() =~= n);
}

/// A window is open on its first day, stays open for its days, and once closed stays closed.
pub proof fn a_closed_window_stays_closed(seen: int, now: int, later: int, days: int)
    requires
        now <= later,
    ensures
        days > 0 ==> open_on(Some(seen), Some(seen), days),
        open_on(Some(seen), Some(now), days) <==> now < seen + days,
        !open_on(Some(seen), Some(now), days) ==> !open_on(Some(seen), Some(later), days),
{
}

/// A window is open on the day it began, whatever day that is.
pub proof fn a_window_is_open_on_its_first_day(today: Seq<char>, days: int)
    requires
        days > 0,
    ensures
        open_on(day_named(today), day_named(today), days),
{
}

} // verus!
