//! Laws of open work: which tasks, reminders and claims are shown, what of them, and in what order.

use super::texts::decimal_digits_read_back;
use crate::board::{columns, default_columns};
use crate::clock::day_named;
use crate::model::{live, reads_as, stamp_at, value_at, Contents, NodeV};
use crate::briefs::{briefs_view, NodeBrief};
use crate::open_work::{
    claim_places, claims_read, due_on, is_due_reminder, is_open_claim, is_open_task, reminder_of,
    reminder_places, reminders_read, reminders_view, task_of, task_places, tasks_read, tasks_view,
    terminal_key, DueReminder, OpenTask,
};
use crate::order::shown_before;
use crate::store::{BoardStatusV, SettingsV};
use crate::substrate::optional_text;
use crate::tags::{after_prefix, all_digits, insistence, is_digit, number, said, value, window};
use crate::text::{decimal, text_lt};
use vstd::prelude::*;

verus! {

// ---- tags --------------------------------------------------------------------

proof fn after_its_prefix(tag: Seq<char>, prefix: Seq<char>)
    ensures
        after_prefix(tag, prefix) is Some <==> exists|rest: Seq<char>| tag == #[trigger] (prefix
            + rest),
        forall|rest: Seq<char>| tag == #[trigger] (prefix + rest) ==> after_prefix(tag, prefix)
            == Some(rest),
{
    if let Some(rest) = after_prefix(tag, prefix) {
        assert(tag =~= prefix + rest);
    }
    assert forall|rest: Seq<char>| tag == #[trigger] (prefix + rest) implies after_prefix(
        tag,
        prefix,
    ) == Some(rest) by {
        assert(prefix.is_prefix_of(tag));
        assert(tag.skip(prefix.len() as int) =~= rest);
    }
}

/// Of the tags with a prefix the first one speaks, and it says what follows the prefix.
pub proof fn the_first_tag_with_a_prefix_speaks(
    tags: Seq<Seq<char>>,
    prefix: Seq<char>,
    k: int,
    rest: Seq<char>,
)
    requires
        0 <= k < tags.len(),
        tags[k] == prefix + rest,
        forall|j: int, other: Seq<char>|
            #![trigger tags[j], prefix + other]
            0 <= j < k ==> tags[j] != prefix + other,
    ensures
        said(tags, prefix) == Some(rest),
    decreases k,
{
    after_its_prefix(tags[0], prefix);
    if k > 0 {
        let less = tags.drop_first();
        assert(after_prefix(tags[0], prefix) is None);
        assert(less[k - 1] == tags[k]);
        assert forall|j: int, other: Seq<char>|
            #![trigger less[j], prefix + other]
            0 <= j < k - 1 implies less[j] != prefix + other by {
            assert(less[j] == tags[j + 1]);
        }
        the_first_tag_with_a_prefix_speaks(less, prefix, k - 1, rest);
    }
}

/// Tags of which none starts with a prefix say nothing under it.
pub proof fn tags_without_a_prefix_say_nothing(tags: Seq<Seq<char>>, prefix: Seq<char>)
    requires
        forall|j: int, other: Seq<char>|
            #![trigger tags[j], prefix + other]
            0 <= j < tags.len() ==> tags[j] != prefix + other,
    ensures
        said(tags, prefix) is None,
    decreases tags.len(),
{
    if tags.len() > 0 {
        let less = tags.drop_first();
        after_its_prefix(tags[0], prefix);
        assert forall|j: int, other: Seq<char>|
            #![trigger less[j], prefix + other]
            0 <= j < less.len() implies less[j] != prefix + other by {
            assert(less[j] == tags[j + 1]);
        }
        tags_without_a_prefix_say_nothing(less, prefix);
    }
}

/// A tag `for:<N>` or `for:<N>d` asks for N days, if N is a number of days at all: more than none,
/// and within the range of a 64-bit number.
pub proof fn a_window_is_the_number_it_writes(n: nat)
    ensures
        0 < n <= i64::MAX ==> window("for:"@ + decimal(n)) == Some(n as int) && window(
            "for:"@ + decimal(n) + "d"@,
        ) == Some(n as int),
        n == 0 || n > i64::MAX ==> window("for:"@ + decimal(n)) is None && window(
            "for:"@ + decimal(n) + "d"@,
        ) is None,
{
    let digits = decimal(n);
    decimal_digits_read_back(n);
    reveal_strlit("d");
    let (bare, unit) = ("for:"@ + digits, "for:"@ + digits + "d"@);
    assert(unit =~= "for:"@ + digits.push('d'));
    after_its_prefix(bare, "for:"@);
    after_its_prefix(unit, "for:"@);
    assert(after_prefix(bare, "for:"@) == Some(digits));
    assert(after_prefix(unit, "for:"@) == Some(digits.push('d')));
    assert(digits.push('d').drop_last() =~= digits);
    assert(number(digits) == (if n <= i64::MAX {
        Some(n as int)
    } else {
        None
    }));
}

/// Digits are read in decimal, from the first on.
pub proof fn digits_are_read_in_decimal(digits: Seq<char>, d: nat)
    requires
        d < 10,
    ensures
        value(Seq::empty()) == 0,
        value(digits.push(('0' as nat + d) as char)) == value(digits) * 10 + d,
{
    let more = digits.push(('0' as nat + d) as char);
    assert(more.drop_last() =~= digits);
}

/// A tag `for:` with digits asks for the number that they write, with leading zeros or without, with a
/// plus sign before them or without, and with a closing `d` or without; with a minus sign it asks for
/// nothing.
pub proof fn a_window_is_written_in_digits(sign: Seq<char>, digits: Seq<char>, unit: Seq<char>)
    requires
        sign == Seq::<char>::empty() || sign == seq!['+'] || sign == seq!['-'],
        unit == Seq::<char>::empty() || unit == seq!['d'],
        digits.len() > 0,
        forall|i: int| 0 <= i < digits.len() ==> '0' <= #[trigger] digits[i] <= '9',
    ensures
        window("for:"@ + (sign + digits + unit)) == (if sign != seq!['-'] && 0 < value(digits)
            <= i64::MAX {
            Some(value(digits) as int)
        } else {
            None
        }),
{
    let raw = sign + digits + unit;
    let tag = "for:"@ + raw;
    after_its_prefix(tag, "for:"@);
    assert(after_prefix(tag, "for:"@) == Some(raw));
    assert(is_digit(digits.last()) && is_digit(digits[0]));
    assert(all_digits(digits));
    let inner = sign + digits;
    if unit.len() > 0 {
        assert(raw.last() == 'd');
        assert(raw.drop_last() =~= inner);
    } else {
        assert(raw =~= inner);
        assert(raw.last() == digits.last());
    }
    if sign.len() > 0 {
        assert(inner[0] == sign[0]);
        assert(inner.skip(1) =~= digits);
    } else {
        assert(inner =~= digits);
        assert(inner[0] == digits[0]);
    }
}

/// A tag that asks for days starts with `for:` and asks for more than none; what it writes between
/// that and a closing `d` are digits, with a sign before them at most.
pub proof fn only_a_number_of_days_is_a_window(tag: Seq<char>)
    ensures
        window(tag) matches Some(n) ==> 0 < n <= i64::MAX && exists|sign: Seq<char>, digits: Seq<char>, unit: Seq<char>|
            {
                &&& tag == #[trigger] ("for:"@ + (sign + digits + unit))
                &&& sign == Seq::<char>::empty() || sign == seq!['+']
                &&& unit == Seq::<char>::empty() || unit == seq!['d']
                &&& digits.len() > 0
                &&& forall|i: int| 0 <= i < digits.len() ==> '0' <= #[trigger] digits[i] <= '9'
                &&& value(digits) == n
            },
{
    if let Some(n) = window(tag) {
        let raw = after_prefix(tag, "for:"@)->0;
        let unit = if raw.len() > 0 && raw.last() == 'd' {
            seq!['d']
        } else {
            Seq::empty()
        };
        let inner = raw.take(raw.len() - unit.len());
        assert(raw.len() > 0 && raw.last() == 'd' ==> inner =~= raw.drop_last());
        assert(!(raw.len() > 0 && raw.last() == 'd') ==> inner =~= raw);
        let sign = if inner.len() > 0 && inner[0] == '+' {
            seq!['+']
        } else {
            Seq::empty()
        };
        let digits = inner.skip(sign.len() as int);
        assert(inner.len() > 0 && inner[0] == '-' ==> number(inner)->0 <= 0);
        assert(sign.len() == 0 ==> digits =~= inner);
        assert(sign + digits + unit =~= raw);
        assert(tag =~= "for:"@ + (sign + digits + unit));
        assert(all_digits(digits));
        assert forall|i: int| 0 <= i < digits.len() implies '0' <= #[trigger] digits[i] <= '9' by {
            assert(is_digit(digits[i]));
        }
    }
}

/// Of the tags that ask for days the first one counts.
pub proof fn the_first_window_counts(tags: Seq<Seq<char>>, k: int, days: int)
    requires
        0 <= k < tags.len(),
        window(tags[k]) == Some(days),
        forall|j: int| 0 <= j < k ==> window(#[trigger] tags[j]) is None,
    ensures
        insistence(tags) == Some(days),
    decreases k,
{
    if k > 0 {
        let less = tags.drop_first();
        assert(window(tags[0]) is None);
        assert(less[k - 1] == tags[k]);
        assert forall|j: int| 0 <= j < k - 1 implies window(#[trigger] less[j]) is None by {
            assert(less[j] == tags[j + 1]);
        }
        the_first_window_counts(less, k - 1, days);
    }
}

/// Tags of which none asks for days ask for none.
pub proof fn without_a_window_nothing_is_asked(tags: Seq<Seq<char>>)
    requires
        forall|j: int| 0 <= j < tags.len() ==> window(#[trigger] tags[j]) is None,
    ensures
        insistence(tags) is None,
    decreases tags.len(),
{
    if tags.len() > 0 {
        let less = tags.drop_first();
        assert(window(tags[0]) is None);
        assert forall|j: int| 0 <= j < less.len() implies window(#[trigger] less[j]) is None by {
            assert(less[j] == tags[j + 1]);
        }
        without_a_window_nothing_is_asked(less);
    }
}

// ---- reminders ---------------------------------------------------------------

/// A seen reminder whose date has arrived is due on every day that is fewer days from the day it was
/// seen than its author asked for, and on no other.
pub proof fn a_seen_reminder_is_due_for_its_days(
    tags: Seq<Seq<char>>,
    today: Seq<char>,
    after: Seq<char>,
    days: int,
    seen: Seq<char>,
    first: int,
    now: int,
)
    requires
        said(tags, "after:"@) == Some(after),
        !text_lt(today, after),
        insistence(tags) == Some(days),
        said(tags, "seen:"@) == Some(seen),
        day_named(seen) == Some(first),
        day_named(today) == Some(now),
    ensures
        due_on(tags, today) <==> now < first + days,
{
}

/// A reminder is due from its date on, until it was seen and its days are over; a date of sight that
/// is no date leaves it due. Without a date, or without days asked for, nothing is due.
pub proof fn a_reminder_is_due_from_its_date_on(tags: Seq<Seq<char>>, today: Seq<char>)
    ensures
        due_on(tags, today) <==> {
            &&& said(tags, "after:"@) matches Some(after) && !text_lt(today, after)
            &&& insistence(tags) is Some
            &&& said(tags, "seen:"@) matches Some(seen) ==> day_named(seen) is None || day_named(
                today,
            ) is None || day_named(today)->0 < day_named(seen)->0 + insistence(tags)->0
        },
{
}

/// Whether a node is where the store looks: it reads as `n` at the moment, and is attached to the
/// initiative in scope, if there is one.
pub open spec fn is_looked_at(
    c: Contents,
    scope: Option<Seq<char>>,
    id: Seq<char>,
    at: int,
    n: NodeV,
) -> bool {
    &&& reads_as(c.nodes, id, at) == Some(n)
    &&& scope matches Some(init) ==> c.members.contains((init, id))
}

/// Exactly the reminders that are due are shown: nodes of any type but an audit event, whose tags
/// make a reminder that is due today.
pub proof fn the_due_reminders_are_shown(
    c: Contents,
    settings: SettingsV,
    today: Seq<char>,
    at: int,
    out: Vec<DueReminder>,
    id: Seq<char>,
)
    requires
        reminders_read(c, settings, today, at, Ok(out)),
    ensures
        (exists|i: int| 0 <= i < out@.len() && (#[trigger] out@[i]).id@ == id) <==> exists|n: NodeV|
            #[trigger] is_looked_at(c, settings.scope, id, at, n) && n.node_type != "audit_event"@
                && due_on(n.tags, today),
{
    let view = reminders_view(out@);
    let n = value_at(c.nodes, id, at);
    assert(is_due_reminder(c, settings, id, today, at) <==> is_looked_at(
        c,
        settings.scope,
        id,
        at,
        n,
    ) && n.node_type != "audit_event"@ && due_on(n.tags, today));
    if exists|i: int| 0 <= i < out@.len() && (#[trigger] out@[i]).id@ == id {
        let i = choose|i: int| 0 <= i < out@.len() && (#[trigger] out@[i]).id@ == id;
        assert(view[i].id == id);
        assert(is_due_reminder(c, settings, id, today, at));
    }
    if is_due_reminder(c, settings, id, today, at) {
        let i = choose|i: int| 0 <= i < view.len() && (#[trigger] view[i]).id == id;
        assert(out@[i].id@ == id);
    }
    assert forall|m: NodeV| #[trigger] is_looked_at(c, settings.scope, id, at, m) implies m == n by {}
}

/// A shown reminder says of its node what the node says: its name, its date, the days it asks for,
/// when it was first seen, and the second it was written in.
pub proof fn a_shown_reminder_says_what_its_node_says(
    c: Contents,
    settings: SettingsV,
    today: Seq<char>,
    at: int,
    out: Vec<DueReminder>,
    i: int,
)
    requires
        reminders_read(c, settings, today, at, Ok(out)),
        0 <= i < out@.len(),
    ensures
        ({
            let r = out@[i];
            let n = reads_as(c.nodes, r.id@, at)->0;
            &&& r.name@ == n.name
            &&& said(n.tags, "after:"@) == Some(r.after@)
            &&& insistence(n.tags) == Some(r.window_days as int)
            &&& said(n.tags, "seen:"@) == optional_text(r.seen)
            &&& optional_text(r.body_excerpt) is Some <==> n.body is Some
            &&& optional_text(r.body_excerpt) matches Some(x) ==> super::listings::is_excerpt(
                x,
                n.body->0,
                settings.excerpt_chars,
            )
            &&& r.ts matches Some(t) && super::listings::is_latest(c, r.id@, t as int, at)
        }),
{
    let view = reminders_view(out@);
    assert(view[i] == out@[i]@);
    let id = out@[i].id@;
    assert(view[i].id == id);
    assert(is_due_reminder(c, settings, id, today, at));
    assert(live(c.nodes, id, at));
    let s = stamp_at(c.nodes, id, at);
    assert(crate::model::decides(c.nodes, id, s, at));
    let n = value_at(c.nodes, id, at);
    if let Some(body) = n.body {
        super::listings::an_excerpt_is_the_start(body, settings.excerpt_chars);
    }
}

/// Reminders come by their dates, the earliest first, those of one date by id, and each node once.
pub proof fn reminders_ascend_by_date(
    c: Contents,
    settings: SettingsV,
    today: Seq<char>,
    at: int,
    out: Vec<DueReminder>,
    i: int,
    j: int,
)
    requires
        reminders_read(c, settings, today, at, Ok(out)),
        0 <= i < j < out@.len(),
    ensures
        !text_lt(out@[j].after@, out@[i].after@),
        out@[i].after@ == out@[j].after@ ==> text_lt(out@[i].id@, out@[j].id@),
        out@[i].id@ != out@[j].id@,
{
    let view = reminders_view(out@);
    let places = reminder_places(view);
    assert(shown_before(places[i], places[j]));
    let (a, b) = (out@[i].after@, out@[j].after@);
    crate::text::text_lt_is_irreflexive(a);
    crate::text::text_lt_is_irreflexive(out@[i].id@);
    if text_lt(a, b) && text_lt(b, a) {
        crate::text::text_lt_is_transitive(a, b, a);
    }
    if out@[i].id@ == out@[j].id@ {
        assert(view[i] == reminder_of(c, view[i].id, settings.excerpt_chars, at));
        assert(view[j] == reminder_of(c, view[j].id, settings.excerpt_chars, at));
    }
}

// ---- tasks -------------------------------------------------------------------

/// The columns of a board are those registered last under its name, if any were; else there are two,
/// open and done.
pub proof fn the_last_registry_counts(
    boards: Seq<(Seq<char>, Seq<BoardStatusV>)>,
    name: Seq<char>,
    k: int,
)
    requires
        -1 <= k < boards.len(),
        0 <= k ==> boards[k].0 == name && boards[k].1.len() > 0,
        forall|j: int|
            k < j < boards.len() ==> (#[trigger] boards[j]).0 != name || boards[j].1.len() == 0,
    ensures
        0 <= k ==> columns(boards, name) == boards[k].1,
        k == -1 ==> columns(boards, name) == seq![
            BoardStatusV { key: "open"@, label: "Open"@ },
            BoardStatusV { key: "done"@, label: "Done"@ },
        ],
        default_columns() == seq![
            BoardStatusV { key: "open"@, label: "Open"@ },
            BoardStatusV { key: "done"@, label: "Done"@ },
        ],
    decreases boards.len(),
{
    if boards.len() > 0 && k < boards.len() - 1 {
        let front = boards.drop_last();
        assert(boards[boards.len() - 1] == boards.last());
        assert forall|j: int| k < j < front.len() implies (#[trigger] front[j]).0 != name
            || front[j].1.len() == 0 by {
            assert(front[j] == boards[j]);
        }
        the_last_registry_counts(front, name, k);
    }
}

/// Where tasks are done: in the last column of the board of the initiative in scope, and in `done`
/// where none is in scope.
pub proof fn tasks_are_done_in_the_last_column(settings: SettingsV)
    ensures
        settings.scope is None ==> terminal_key(settings) == "done"@,
        settings.scope matches Some(init) ==> terminal_key(settings) == columns(
            settings.boards,
            init,
        )[columns(settings.boards, init).len() - 1].key,
{
}

/// Exactly the open tasks are shown: nodes of type `task` whose status, the first one said, is not
/// the column in which tasks are done. A task without a status, or with an unheard-of one, is open.
pub proof fn the_open_tasks_are_shown(
    c: Contents,
    settings: SettingsV,
    today: Seq<char>,
    at: int,
    out: Vec<OpenTask>,
    id: Seq<char>,
)
    requires
        tasks_read(c, settings, today, at, Ok(out)),
    ensures
        (exists|i: int| 0 <= i < out@.len() && (#[trigger] out@[i]).id@ == id) <==> exists|n: NodeV|
            #[trigger] is_looked_at(c, settings.scope, id, at, n) && n.node_type == "task"@ && (
            match said(n.tags, "status:"@) {
                Some(status) => status,
                None => Seq::empty(),
            }) != terminal_key(settings),
{
    let view = tasks_view(out@);
    let n = value_at(c.nodes, id, at);
    if exists|i: int| 0 <= i < out@.len() && (#[trigger] out@[i]).id@ == id {
        let i = choose|i: int| 0 <= i < out@.len() && (#[trigger] out@[i]).id@ == id;
        assert(view[i].id == id);
        assert(is_open_task(c, settings, id, at));
        assert(is_looked_at(c, settings.scope, id, at, n));
    }
    if is_open_task(c, settings, id, at) {
        let i = choose|i: int| 0 <= i < view.len() && (#[trigger] view[i]).id == id;
        assert(out@[i].id@ == id);
    }
    assert forall|m: NodeV| #[trigger] is_looked_at(c, settings.scope, id, at, m) implies m == n by {}
}

/// A shown task says of its node what the node says: its name, its status, its due date, and the
/// second it was written in; it is overdue exactly if it has a due date that comes before today.
pub proof fn a_shown_task_says_what_its_node_says(
    c: Contents,
    settings: SettingsV,
    today: Seq<char>,
    at: int,
    out: Vec<OpenTask>,
    i: int,
)
    requires
        tasks_read(c, settings, today, at, Ok(out)),
        0 <= i < out@.len(),
    ensures
        ({
            let t = out@[i];
            let n = reads_as(c.nodes, t.id@, at)->0;
            &&& t.name@ == n.name
            &&& t.status@ == (match said(n.tags, "status:"@) {
                Some(status) => status,
                None => Seq::empty(),
            })
            &&& optional_text(t.due) == said(n.tags, "due:"@)
            &&& t.overdue <==> (optional_text(t.due) matches Some(due) && text_lt(due, today))
            &&& optional_text(t.body_excerpt) is Some <==> n.body is Some
            &&& optional_text(t.body_excerpt) matches Some(x) ==> super::listings::is_excerpt(
                x,
                n.body->0,
                settings.excerpt_chars,
            )
            &&& t.ts matches Some(s) && super::listings::is_latest(c, t.id@, s as int, at)
        }),
{
    let view = tasks_view(out@);
    assert(view[i] == out@[i]@);
    let id = out@[i].id@;
    assert(view[i].id == id);
    assert(is_open_task(c, settings, id, at));
    assert(live(c.nodes, id, at));
    let s = stamp_at(c.nodes, id, at);
    assert(crate::model::decides(c.nodes, id, s, at));
    let n = value_at(c.nodes, id, at);
    if let Some(body) = n.body {
        super::listings::an_excerpt_is_the_start(body, settings.excerpt_chars);
    }
}

/// Tasks come by their due dates, the earliest first, those without one after all others and newest
/// first; what this leaves open the id decides. Each node comes once.
pub proof fn tasks_ascend_by_due_date(
    c: Contents,
    settings: SettingsV,
    today: Seq<char>,
    at: int,
    out: Vec<OpenTask>,
    i: int,
    j: int,
)
    requires
        tasks_read(c, settings, today, at, Ok(out)),
        0 <= i < j < out@.len(),
    ensures
        out@[j].due is Some ==> out@[i].due is Some && !text_lt(
            out@[j].due->0@,
            out@[i].due->0@,
        ),
        out@[i].due is None ==> out@[j].due is None && out@[i].ts->0 >= out@[j].ts->0,
        optional_text(out@[i].due) == optional_text(out@[j].due) && (out@[i].due is Some
            || out@[i].ts->0 == out@[j].ts->0) ==> text_lt(out@[i].id@, out@[j].id@),
        out@[i].id@ != out@[j].id@,
{
    let view = tasks_view(out@);
    let places = task_places(view);
    assert(shown_before(places[i], places[j]));
    assert(view[i] == out@[i]@ && view[j] == out@[j]@);
    assert(view[i] == task_of(c, view[i].id, settings.excerpt_chars, today, at));
    assert(view[j] == task_of(c, view[j].id, settings.excerpt_chars, today, at));
    crate::text::text_lt_is_irreflexive(out@[i].id@);
    if out@[i].due is Some && out@[j].due is Some {
        let (a, b) = (out@[i].due->0@, out@[j].due->0@);
        crate::text::text_lt_is_irreflexive(a);
        if text_lt(a, b) && text_lt(b, a) {
            crate::text::text_lt_is_transitive(a, b, a);
        }
    }
}

// ---- claims ------------------------------------------------------------------

/// Exactly the open claims are shown: nodes of type `hypothesis` with the tag `status:open`.
pub proof fn the_open_claims_are_shown(
    c: Contents,
    settings: SettingsV,
    at: int,
    out: Vec<NodeBrief>,
    id: Seq<char>,
)
    requires
        claims_read(c, settings, at, Ok(out)),
    ensures
        (exists|i: int| 0 <= i < out@.len() && (#[trigger] out@[i]).id@ == id) <==> exists|n: NodeV|
            #[trigger] is_looked_at(c, settings.scope, id, at, n) && n.node_type == "hypothesis"@
                && exists|k: int| 0 <= k < n.tags.len() && #[trigger] n.tags[k] == "status:open"@,
{
    let view = briefs_view(out@);
    let n = value_at(c.nodes, id, at);
    assert(n.tags.contains("status:open"@) <==> exists|k: int|
        0 <= k < n.tags.len() && #[trigger] n.tags[k] == "status:open"@);
    if exists|i: int| 0 <= i < out@.len() && (#[trigger] out@[i]).id@ == id {
        let i = choose|i: int| 0 <= i < out@.len() && (#[trigger] out@[i]).id@ == id;
        assert(view[i].id == id);
        assert(is_open_claim(c, settings, id, at));
        assert(is_looked_at(c, settings.scope, id, at, n));
    }
    if is_open_claim(c, settings, id, at) {
        let i = choose|i: int| 0 <= i < view.len() && (#[trigger] view[i]).id == id;
        assert(out@[i].id@ == id);
    }
    assert forall|m: NodeV| #[trigger] is_looked_at(c, settings.scope, id, at, m) implies m == n by {}
}

/// A shown claim says of its node what the node says.
pub proof fn a_shown_claim_says_what_its_node_says(
    c: Contents,
    settings: SettingsV,
    at: int,
    out: Vec<NodeBrief>,
    i: int,
)
    requires
        claims_read(c, settings, at, Ok(out)),
        0 <= i < out@.len(),
    ensures
        super::listings::says_of_its_node(c, settings.excerpt_chars, at, out@[i]),
{
    let view = briefs_view(out@);
    assert(view[i] == out@[i]@);
    assert(is_open_claim(c, settings, view[i].id, at));
    super::listings::a_brief_says_of_its_node(c, settings.excerpt_chars, at, out@[i]);
}

/// Claims come newest first, those of one second by id, and each once.
pub proof fn claims_descend_by_age(
    c: Contents,
    settings: SettingsV,
    at: int,
    out: Vec<NodeBrief>,
    i: int,
    j: int,
)
    requires
        claims_read(c, settings, at, Ok(out)),
        0 <= i < j < out@.len(),
    ensures
        out@[i].ts->0 >= out@[j].ts->0,
        out@[i].ts->0 == out@[j].ts->0 ==> text_lt(out@[i].id@, out@[j].id@),
        out@[i].id@ != out@[j].id@,
{
    let view = briefs_view(out@);
    let places = claim_places(view);
    assert(shown_before(places[i], places[j]));
    assert(view[i] == out@[i]@ && view[j] == out@[j]@);
    assert(is_open_claim(c, settings, view[i].id, at));
    assert(is_open_claim(c, settings, view[j].id, at));
    crate::text::text_lt_is_irreflexive(out@[i].id@);
}

} // verus!
