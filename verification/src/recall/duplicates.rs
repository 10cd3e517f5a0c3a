//! Names for one and the same thing.

use super::{in_order, list_initiatives};
use crate::model::Contents;
use crate::rows::{first_texts, listed_count};
use crate::store::{two, Store, StoreError};
use crate::substrate::{initiatives_of, optional_text, shared_by, texts_view, SHARED};
use crate::text::{
    char_lowercase, char_to_lowercase, chars_of, decimal, join, same, to_decimal,
};
use vstd::prelude::*;

verus! {

/// Whether a character only separates the words of a name.
pub open spec fn separator(c: char) -> bool {
    c == '-' || c == '_' || c == ' ' || c == '.'
}

/// A name without its separators.
pub open spec fn bare(name: Seq<char>) -> Seq<char> {
    name.filter(|c: char| !separator(c))
}

/// A text with each character lowered.
pub open spec fn lowered_chars(s: Seq<char>) -> Seq<char>
    decreases s.len(),
{
    if s.len() == 0 {
        Seq::empty()
    } else {
        lowered_chars(s.drop_last()) + char_lowercase(s.last())
    }
}

/// A name in lower case and without separators.
pub open spec fn normalised(name: Seq<char>) -> Seq<char> {
    lowered_chars(bare(name))
}

/// Removes the separators of a name.
pub fn without_separators(name: &str) -> (r: Vec<char>)
    ensures
        r@ == bare(name@),
{
    let chars = chars_of(name);
    let ghost keep = |c: char| !separator(c);
    let mut out: Vec<char> = Vec::new();
    let mut i: usize = 0;
    proof {
        reveal(Seq::filter);
        assert(name@.take(0).filter(keep) =~= Seq::empty());
    }
    while i < chars.len()
        invariant
            i <= chars@.len(),
            chars@ == name@,
            keep == (|c: char| !separator(c)),
            out@ == name@.take(i as int).filter(keep),
        decreases chars.len() - i,
    {
        let c = chars[i];
        proof {
            reveal(Seq::filter);
            assert(name@.take(i + 1).drop_last() =~= name@.take(i as int));
        }
        if !(c == '-' || c == '_' || c == ' ' || c == '.') {
            out.push(c);
        }
        i += 1;
    }
    assert(name@.take(i as int) =~= name@);
    out
}

/// Case-folded, with every separator removed, so that `alpha-beta`, `alpha_beta` and `Alpha Beta`
/// collapse onto one text.
pub fn normalise_initiative(name: &str) -> (r: String)
    ensures
        r@ == normalised(name@),
{
    let chars = without_separators(name);
    let ghost kept = bare(name@);
    let mut out = String::new();
    let mut i: usize = 0;
    assert(out@ =~= lowered_chars(kept.take(0)));
    while i < chars.len()
        invariant
            i <= chars@.len(),
            chars@ == kept,
            out@ == lowered_chars(kept.take(i as int)),
        decreases chars.len() - i,
    {
        assert(kept.take(i + 1).drop_last() =~= kept.take(i as int));
        out = join(out.as_str(), char_to_lowercase(chars[i]).as_str());
        i += 1;
    }
    assert(kept.take(i as int) =~= kept);
    out
}

/// Separators do not tell names apart: with one put in anywhere, a name normalises the same.
pub proof fn separators_do_not_count(name: Seq<char>, i: int, c: char)
    requires
        0 <= i <= name.len(),
        separator(c),
    ensures
        normalised(name.insert(i, c)) == normalised(name),
{
    let keep = |c: char| !separator(c);
    let (a, b) = (name.take(i), name.skip(i));
    assert(name =~= a + b);
    assert(name.insert(i, c) =~= a + seq![c] + b);
    reveal(Seq::filter);
    Seq::filter_distributes_over_add(a, b, keep);
    Seq::filter_distributes_over_add(a + seq![c], b, keep);
    Seq::filter_distributes_over_add(a, seq![c], keep);
    assert(seq![c].drop_last() =~= Seq::empty());
    assert(Seq::<char>::empty().filter(keep) =~= Seq::empty());
    assert(seq![c].filter(keep) =~= Seq::empty());
    assert(a.filter(keep) + seq![c].filter(keep) =~= a.filter(keep));
}

/// How many nodes are attached to both initiatives.
pub fn shared_member_count(store: &Store, a: &str, b: &str) -> (r: Result<usize, StoreError>)
    ensures
        r matches Ok(n) ==> shared_by(store.held(), a@, b@).finite() && n == shared_by(
            store.held(),
            a@,
            b@,
        ).len(),
        r matches Err(e) ==> e is Substrate,
{
    let rows = store.run_read(SHARED, &two("a", a, "b", b), 0)?;
    let nodes = first_texts(&rows);
    proof {
        listed_count(texts_view(nodes@), shared_by(store.held(), a@, b@));
    }
    Ok(nodes.len())
}

/// Why two initiatives look like names for the same thing, if they do: they normalise to the same
/// text, or else they hold some of the same nodes.
pub open spec fn explanation(left: Seq<char>, right: Seq<char>, shared: nat) -> Option<Seq<char>> {
    if left == right {
        Some("same name apart from case and separators"@)
    } else if shared > 0 {
        Some(decimal(shared) + " node(s) in both"@)
    } else {
        None
    }
}

/// Why two initiatives look like names for the same thing, given what their names normalise to and
/// how many nodes they share.
pub fn explain(left: &str, right: &str, shared: usize) -> (r: Option<String>)
    ensures
        optional_text(r) == explanation(left@, right@, shared as nat),
{
    if same(left, right) {
        Some("same name apart from case and separators".to_owned())
    } else if shared > 0 {
        Some(join(to_decimal(shared).as_str(), " node(s) in both"))
    } else {
        None
    }
}

/// What there is to report on two initiatives.
pub open spec fn finding(c: Contents, a: Seq<char>, b: Seq<char>) -> Option<Seq<char>> {
    explanation(normalised(a), normalised(b), shared_by(c, a, b).len())
}

/// Whether the nodes of two initiatives were counted where the names leave it open: they normalise
/// to the same text, or finitely many nodes are attached to both.
pub open spec fn counted(c: Contents, a: Seq<char>, b: Seq<char>) -> bool {
    normalised(a) != normalised(b) ==> shared_by(c, a, b).finite()
}

/// Whether the nodes of every pair of names were counted where the names leave it open.
pub open spec fn all_counted(c: Contents, known: Seq<Seq<char>>) -> bool {
    forall|i: int, j: int|
        #![trigger known[i], known[j]]
        0 <= i < j < known.len() ==> counted(c, known[i], known[j])
}

/// The findings on the name at `i` beside the later ones up to `j`.
pub open spec fn findings_beside(c: Contents, known: Seq<Seq<char>>, i: int, j: int) -> Seq<
    (Seq<char>, Seq<char>, Seq<char>),
>
    decreases j,
{
    if j <= i + 1 || j <= 0 {
        Seq::empty()
    } else {
        match finding(c, known[i], known[j - 1]) {
            Some(why) => findings_beside(c, known, i, j - 1).push((known[i], known[j - 1], why)),
            None => findings_beside(c, known, i, j - 1),
        }
    }
}

/// The findings on the names before `i`, each beside all later ones.
pub open spec fn findings(c: Contents, known: Seq<Seq<char>>, i: int) -> Seq<
    (Seq<char>, Seq<char>, Seq<char>),
>
    decreases i,
{
    if i <= 0 {
        Seq::empty()
    } else {
        findings(c, known, i - 1) + findings_beside(c, known, i - 1, known.len() as int)
    }
}

pub open spec fn triples_view(s: Seq<(String, String, String)>) -> Seq<
    (Seq<char>, Seq<char>, Seq<char>),
> {
    s.map_values(|t: (String, String, String)| (t.0@, t.1@, t.2@))
}

/// What there is to report on two initiatives.
fn look_alike(store: &Store, a: &str, b: &str) -> (r: Result<Option<String>, StoreError>)
    ensures
        r matches Ok(why) ==> optional_text(why) == finding(store.held(), a@, b@) && counted(
            store.held(),
            a@,
            b@,
        ),
        r matches Err(e) ==> e is Substrate,
{
    let left = normalise_initiative(a);
    let right = normalise_initiative(b);
    if same(left.as_str(), right.as_str()) {
        return Ok(explain(left.as_str(), right.as_str(), 0));
    }
    let shared = shared_member_count(store, a, b)?;
    Ok(explain(left.as_str(), right.as_str(), shared))
}

/// Initiatives that look like different names for the same thing, as `(a, b, why)`, in the order
/// of their names.
///
/// Two signals, deliberately both: the normalised name catches a pair that differs only in a
/// separator; shared members catch a pair that shares no substring at all, which is how a foreign
/// alias looks. Pairs only: sub-scoping (`alpha` beside `alpha-api`) looks identical to
/// fragmentation from here, so this reports and the reader decides.
pub fn near_duplicate_initiatives(store: &Store) -> (r: Result<
    Vec<(String, String, String)>,
    StoreError,
>)
    ensures
        r matches Ok(out) ==> exists|known: Seq<Seq<char>>| #[trigger]
            in_order(known, initiatives_of(store.held())) && triples_view(out@) == findings(
                store.held(),
                known,
                known.len() as int,
            ) && all_counted(store.held(), known),
        r matches Err(e) ==> e is Substrate,
{
    let known = list_initiatives(store)?;
    let ghost c = store.held();
    let ghost texts = texts_view(known@);
    let mut out: Vec<(String, String, String)> = Vec::new();
    let mut i: usize = 0;
    assert(triples_view(out@) =~= findings(c, texts, 0));
    while i < known.len()
        invariant
            i <= known@.len(),
            c == store.held(),
            texts == texts_view(known@),
            triples_view(out@) == findings(c, texts, i as int),
            forall|a: int, b: int|
                #![trigger texts[a], texts[b]]
                0 <= a < i && a < b < texts.len() ==> counted(c, texts[a], texts[b]),
        decreases known.len() - i,
    {
        let ghost before = triples_view(out@);
        let mut j: usize = i + 1;
        assert(triples_view(out@) =~= before + findings_beside(c, texts, i as int, j as int));
        while j < known.len()
            invariant
                i < j <= known@.len(),
                c == store.held(),
                texts == texts_view(known@),
                triples_view(out@) == before + findings_beside(c, texts, i as int, j as int),
                forall|b: int|
                    i < b < j ==> counted(c, texts[i as int], #[trigger] texts[b]),
            decreases known.len() - j,
        {
            assert(texts[i as int] == known@[i as int]@);
            assert(texts[j as int] == known@[j as int]@);
            let ghost sofar = out@;
            let ghost beside = findings_beside(c, texts, i as int, j as int);
            if let Some(why) = look_alike(store, known[i].as_str(), known[j].as_str())? {
                let ghost said = why@;
                out.push((known[i].clone(), known[j].clone(), why));
                proof {
                    let entry = (texts[i as int], texts[j as int], said);
                    assert(triples_view(out@) =~= triples_view(sofar).push(entry));
                    assert((before + beside).push(entry) =~= before + beside.push(entry));
                }
            }
            j += 1;
        }
        i += 1;
    }
    assert(texts.len() == known@.len());
    Ok(out)
}

/// A pair is reported exactly if there is a finding on it, with that finding.
pub proof fn a_pair_is_reported_exactly_if_found(
    c: Contents,
    known: Seq<Seq<char>>,
    entry: (Seq<char>, Seq<char>, Seq<char>),
)
    ensures
        findings(c, known, known.len() as int).contains(entry) <==> exists|i: int, j: int|
            #![trigger known[i], known[j]]
            0 <= i < j < known.len() && entry.0 == known[i] && entry.1 == known[j] && finding(
                c,
                known[i],
                known[j],
            ) == Some(entry.2),
{
    reported_before(c, known, known.len() as int, entry);
}

/// A reported pair is one name apart from case and separators, or shares a node.
pub proof fn a_reported_pair_is_one_name_or_shares_a_node(
    c: Contents,
    known: Seq<Seq<char>>,
    entry: (Seq<char>, Seq<char>, Seq<char>),
)
    requires
        all_counted(c, known),
        findings(c, known, known.len() as int).contains(entry),
    ensures
        normalised(entry.0) == normalised(entry.1) || exists|n: Seq<char>| #[trigger]
            c.members.contains((entry.0, n)) && c.members.contains((entry.1, n)),
{
    a_pair_is_reported_exactly_if_found(c, known, entry);
    if normalised(entry.0) != normalised(entry.1) {
        let shared = shared_by(c, entry.0, entry.1);
        assert(shared.len() > 0);
        let n = shared.choose();
        assert(shared.contains(n));
        assert(c.members.contains((entry.0, n)));
    }
}

/// Every pair that is one name apart from case and separators is reported, and so is every pair that
/// shares a node.
pub proof fn a_pair_that_shares_a_node_is_reported(
    c: Contents,
    known: Seq<Seq<char>>,
    i: int,
    j: int,
)
    requires
        all_counted(c, known),
        0 <= i < j < known.len(),
        normalised(known[i]) == normalised(known[j]) || exists|n: Seq<char>| #[trigger]
            c.members.contains((known[i], n)) && c.members.contains((known[j], n)),
    ensures
        exists|why: Seq<char>|
            #[trigger] findings(c, known, known.len() as int).contains((known[i], known[j], why)),
{
    let (a, b) = (known[i], known[j]);
    assert(counted(c, a, b));
    if normalised(a) != normalised(b) {
        let shared = shared_by(c, a, b);
        let n = choose|n: Seq<char>| #[trigger]
            c.members.contains((a, n)) && c.members.contains((b, n));
        assert(shared.contains(n));
        assert(shared.len() > 0);
    }
    let why = finding(c, a, b)->0;
    a_pair_is_reported_exactly_if_found(c, known, (a, b, why));
}

pub(crate) proof fn reported_before(
    c: Contents,
    known: Seq<Seq<char>>,
    n: int,
    entry: (Seq<char>, Seq<char>, Seq<char>),
)
    requires
        0 <= n <= known.len(),
    ensures
        findings(c, known, n).contains(entry) <==> exists|i: int, j: int|
            #![trigger known[i], known[j]]
            0 <= i < n && i < j < known.len() && entry.0 == known[i] && entry.1 == known[j]
                && finding(c, known[i], known[j]) == Some(entry.2),
    decreases n,
{
    if n > 0 {
        reported_before(c, known, n - 1, entry);
        reported_beside(c, known, n - 1, known.len() as int, entry);
        let front = findings(c, known, n - 1);
        let row = findings_beside(c, known, n - 1, known.len() as int);
        assert((front + row).contains(entry) <==> front.contains(entry) || row.contains(entry)) by {
            if (front + row).contains(entry) {
                let k = (front + row).index_of(entry);
                if k < front.len() {
                    assert(front[k] == entry);
                } else {
                    assert(row[k - front.len()] == entry);
                }
            }
            if front.contains(entry) {
                assert((front + row)[front.index_of(entry)] == entry);
            }
            if row.contains(entry) {
                assert((front + row)[front.len() + row.index_of(entry)] == entry);
            }
        }
    }
}

pub(crate) proof fn reported_beside(
    c: Contents,
    known: Seq<Seq<char>>,
    i: int,
    n: int,
    entry: (Seq<char>, Seq<char>, Seq<char>),
)
    requires
        0 <= i < known.len(),
        0 <= n <= known.len(),
    ensures
        findings_beside(c, known, i, n).contains(entry) <==> exists|j: int|
            i < j < n && entry.0 == known[i] && entry.1 == #[trigger] known[j] && finding(
                c,
                known[i],
                known[j],
            ) == Some(entry.2),
    decreases n,
{
    if n > i + 1 {
        reported_beside(c, known, i, n - 1, entry);
        let front = findings_beside(c, known, i, n - 1);
        if let Some(why) = finding(c, known[i], known[n - 1]) {
            let last = (known[i], known[n - 1], why);
            let all = front.push(last);
            assert(all.contains(entry) <==> front.contains(entry) || entry == last) by {
                if all.contains(entry) {
                    let k = all.index_of(entry);
                    if k < front.len() {
                        assert(front[k] == entry);
                    }
                }
                if front.contains(entry) {
                    assert(all[front.index_of(entry)] == entry);
                }
                assert(all[front.len() as int] == last);
            }
        }
    }
}

/// No pair is reported twice.
pub proof fn a_pair_is_reported_once(c: Contents, known: Seq<Seq<char>>)
    requires
        known.no_duplicates(),
    ensures
        findings(c, known, known.len() as int).no_duplicates(),
{
    reported_once_before(c, known, known.len() as int);
}

proof fn reported_once_before(c: Contents, known: Seq<Seq<char>>, n: int)
    requires
        known.no_duplicates(),
        0 <= n <= known.len(),
    ensures
        findings(c, known, n).no_duplicates(),
    decreases n,
{
    if n > 0 {
        reported_once_before(c, known, n - 1);
        reported_once_beside(c, known, n - 1, known.len() as int);
        let front = findings(c, known, n - 1);
        let row = findings_beside(c, known, n - 1, known.len() as int);
        assert forall|a: int, b: int|
            0 <= a < front.len() && 0 <= b < row.len() implies front[a] != row[b] by {
            assert(front.contains(front[a]));
            assert(row.contains(row[b]));
            reported_before(c, known, n - 1, front[a]);
            reported_beside(c, known, n - 1, known.len() as int, row[b]);
        }
        let all = front + row;
        assert forall|a: int, b: int|
            0 <= a < all.len() && 0 <= b < all.len() && a != b implies all[a] != all[b] by {
            if a < front.len() && b < front.len() {
                assert(all[a] == front[a] && all[b] == front[b]);
            } else if a >= front.len() && b >= front.len() {
                assert(all[a] == row[a - front.len()] && all[b] == row[b - front.len()]);
            } else if a < front.len() {
                assert(all[a] == front[a] && all[b] == row[b - front.len()]);
            } else {
                assert(all[b] == front[b] && all[a] == row[a - front.len()]);
            }
        }
    }
}

proof fn reported_once_beside(c: Contents, known: Seq<Seq<char>>, i: int, n: int)
    requires
        known.no_duplicates(),
        0 <= i < known.len(),
        0 <= n <= known.len(),
    ensures
        findings_beside(c, known, i, n).no_duplicates(),
    decreases n,
{
    if n > i + 1 {
        reported_once_beside(c, known, i, n - 1);
        let front = findings_beside(c, known, i, n - 1);
        if let Some(why) = finding(c, known[i], known[n - 1]) {
            let last = (known[i], known[n - 1], why);
            assert forall|a: int| 0 <= a < front.len() implies front[a] != last by {
                assert(front.contains(front[a]));
                reported_beside(c, known, i, n - 1, front[a]);
            }
        }
    }
}

} // verus!
