//! What a store holds, as mathematical values.
//!
//! Nodes and edges are bi-temporal: every write adds a version stamped with a whole second, either
//! an assertion or a retraction, and no version is ever erased. Memberships and share policies are
//! plain facts without a history.

use vstd::prelude::*;

verus! {

/// The fields of one node version.
#[verifier::ext_equal]
pub struct NodeV {
    pub node_type: Seq<char>,
    pub tier: Seq<char>,
    pub name: Seq<char>,
    pub body: Option<Seq<char>>,
    pub tags: Seq<Seq<char>>,
    pub properties: Option<Seq<char>>,
    pub visibility: Seq<char>,
    pub layer: Seq<char>,
}

/// What identifies an edge.
#[verifier::ext_equal]
pub struct EdgeId {
    pub src: Seq<char>,
    pub dst: Seq<char>,
    pub edge_type: Seq<char>,
}

/// The fields of one edge version.
#[verifier::ext_equal]
pub struct EdgeV {
    pub weight: int,
    pub dst_store: Seq<char>,
}

/// One entry of the audit trail.
#[verifier::ext_equal]
pub struct AuditV {
    pub at: int,
    pub op: Seq<char>,
    pub actor: Seq<char>,
    pub refs: Seq<Seq<char>>,
}

/// Everything a store holds.
#[verifier::ext_equal]
pub struct Contents {
    /// `(initiative, node id)` pairs.
    pub members: Set<(Seq<char>, Seq<char>)>,
    /// `(initiative, edge key)` pairs.
    pub edge_members: Set<(Seq<char>, Seq<char>)>,
    /// Share policy by initiative name.
    pub policies: Map<Seq<char>, Seq<char>>,
    /// Node versions by `(id, stamp, whether it asserts)`.
    pub nodes: Map<(Seq<char>, int, bool), NodeV>,
    /// Edge versions by `(edge, stamp, whether it asserts)`.
    pub edges: Map<(EdgeId, int, bool), EdgeV>,
    /// The audit trail, oldest first.
    pub audit: Seq<AuditV>,
}

/// A store that holds nothing.
pub open spec fn nothing() -> Contents {
    Contents {
        members: Set::empty(),
        edge_members: Set::empty(),
        policies: Map::empty(),
        nodes: Map::empty(),
        edges: Map::empty(),
        audit: Seq::empty(),
    }
}

/// Whether `stamp` is the assertion that decides what `key` reads as at the moment `at`: no other
/// version up to that moment is later. A retraction of the same second does not outrank it.
pub open spec fn decides<K, V>(
    versions: Map<(K, int, bool), V>,
    key: K,
    stamp: int,
    at: int,
) -> bool {
    &&& versions.dom().contains((key, stamp, true))
    &&& stamp <= at
    &&& forall|t: int, asserted: bool|
        #![trigger versions.dom().contains((key, t, asserted))]
        versions.dom().contains((key, t, asserted)) && t <= at ==> t <= stamp
}

/// Whether nothing was written under `key` after the moment `at`, up to the moment `later`.
pub open spec fn untouched<K, V>(
    versions: Map<(K, int, bool), V>,
    key: K,
    at: int,
    later: int,
) -> bool {
    forall|t: int, asserted: bool|
        #![trigger versions.dom().contains((key, t, asserted))]
        versions.dom().contains((key, t, asserted)) && t <= later ==> t <= at
}

/// Whether `key` reads as present at the moment `at`.
pub open spec fn live<K, V>(versions: Map<(K, int, bool), V>, key: K, at: int) -> bool {
    exists|stamp: int| decides(versions, key, stamp, at)
}

/// The stamp of the version that `key` reads as at the moment `at`.
pub open spec fn stamp_at<K, V>(versions: Map<(K, int, bool), V>, key: K, at: int) -> int {
    choose|stamp: int| decides(versions, key, stamp, at)
}

/// What `key` reads as at the moment `at`, where it is present.
pub open spec fn value_at<K, V>(versions: Map<(K, int, bool), V>, key: K, at: int) -> V {
    versions[(key, stamp_at(versions, key, at), true)]
}

/// What `key` reads as at the moment `at`, if it is present.
pub open spec fn reads_as<K, V>(versions: Map<(K, int, bool), V>, key: K, at: int) -> Option<V> {
    if live(versions, key, at) {
        Some(value_at(versions, key, at))
    } else {
        None
    }
}

/// At most one version decides.
pub proof fn one_version_decides<K, V>(
    versions: Map<(K, int, bool), V>,
    key: K,
    stamp: int,
    at: int,
)
    requires
        decides(versions, key, stamp, at),
    ensures
        live(versions, key, at),
        stamp_at(versions, key, at) == stamp,
        value_at(versions, key, at) == versions[(key, stamp, true)],
{
    let s = stamp_at(versions, key, at);
    assert(decides(versions, key, s, at));
    assert(versions.dom().contains((key, s, true)));
    assert(versions.dom().contains((key, stamp, true)));
}

/// An assertion reads back at its own moment, and so at every later moment up to which nothing
/// else was written under its key.
pub proof fn an_assertion_reads_back<K, V>(
    versions: Map<(K, int, bool), V>,
    key: K,
    at: int,
    value: V,
    later: int,
)
    requires
        at <= later,
        untouched(versions, key, at, later),
    ensures
        reads_as(versions.insert((key, at, true), value), key, later) == Some(value),
{
    let after = versions.insert((key, at, true), value);
    assert forall|t: int, asserted: bool|
        #![trigger after.dom().contains((key, t, asserted))]
        after.dom().contains((key, t, asserted)) && t <= later implies t <= at by {
        if (key, t, asserted) != (key, at, true) {
            assert(versions.dom().contains((key, t, asserted)));
        }
    }
    assert(decides(after, key, at, later));
    one_version_decides(after, key, at, later);
}

/// Writing a version changes no read of an earlier moment, and no read of another key.
pub proof fn a_write_keeps_the_past<K, V>(
    versions: Map<(K, int, bool), V>,
    written: K,
    at: int,
    asserted: bool,
    value: V,
    key: K,
    moment: int,
)
    requires
        key != written || moment < at,
    ensures
        reads_as(versions.insert((written, at, asserted), value), key, moment) == reads_as(
            versions,
            key,
            moment,
        ),
{
    same_up_to(versions, versions.insert((written, at, asserted), value), key, moment);
}

/// Two histories that agree on a key up to a moment read the same there.
pub proof fn same_up_to<K, V>(
    one: Map<(K, int, bool), V>,
    other: Map<(K, int, bool), V>,
    key: K,
    moment: int,
)
    requires
        forall|t: int, asserted: bool|
            #![trigger one.dom().contains((key, t, asserted))]
            #![trigger other.dom().contains((key, t, asserted))]
            t <= moment ==> one.dom().contains((key, t, asserted)) == other.dom().contains(
                (key, t, asserted),
            ),
        forall|t: int|
            #![trigger one[(key, t, true)]]
            #![trigger other[(key, t, true)]]
            t <= moment && one.dom().contains((key, t, true)) ==> one[(key, t, true)] == other[(
                key,
                t,
                true,
            )],
    ensures
        reads_as(one, key, moment) == reads_as(other, key, moment),
{
    if live(one, key, moment) {
        let s = stamp_at(one, key, moment);
        assert(decides(one, key, s, moment));
        assert(decides(other, key, s, moment));
        one_version_decides(other, key, s, moment);
    }
    if live(other, key, moment) {
        let s = stamp_at(other, key, moment);
        assert(decides(other, key, s, moment));
        assert(decides(one, key, s, moment));
        one_version_decides(one, key, s, moment);
    }
}

/// The history with each of `keys` that reads as present at the moment `at` retracted there.
pub open spec fn retracted_all<K, V>(
    versions: Map<(K, int, bool), V>,
    keys: Set<K>,
    at: int,
) -> Map<(K, int, bool), V> {
    versions.union_prefer_right(
        Map::new(
            |k: (K, int, bool)| k.1 == at && !k.2 && keys.contains(k.0) && live(versions, k.0, at),
            |k: (K, int, bool)| value_at(versions, k.0, at),
        ),
    )
}

/// Retracting changes no read of an earlier moment, and no read of another key.
pub proof fn retracting_keeps_the_past<K, V>(
    versions: Map<(K, int, bool), V>,
    keys: Set<K>,
    at: int,
    key: K,
    moment: int,
)
    requires
        !keys.contains(key) || moment < at,
    ensures
        reads_as(retracted_all(versions, keys, at), key, moment) == reads_as(versions, key, moment),
{
    same_up_to(versions, retracted_all(versions, keys, at), key, moment);
}

/// What was retracted no longer reads, from then on up to the next write under its key, unless
/// the second of the retraction also asserts it.
pub proof fn retracting_hides<K, V>(
    versions: Map<(K, int, bool), V>,
    keys: Set<K>,
    at: int,
    key: K,
    later: int,
)
    requires
        keys.contains(key),
        at <= later,
        !versions.dom().contains((key, at, true)),
        untouched(versions, key, at, later),
    ensures
        !live(retracted_all(versions, keys, at), key, later),
{
    let after = retracted_all(versions, keys, at);
    if live(after, key, later) {
        let s = stamp_at(after, key, later);
        assert(decides(after, key, s, later));
        assert(after.dom().contains((key, s, true)));
        assert(versions.dom().contains((key, s, true)));
        assert forall|t: int, asserted: bool|
            #![trigger versions.dom().contains((key, t, asserted))]
            versions.dom().contains((key, t, asserted)) && t <= at implies t <= s by {
            assert(after.dom().contains((key, t, asserted)));
        }
        assert(decides(versions, key, s, at));
        assert(live(versions, key, at));
        assert(after.dom().contains((key, at, false)));
    }
}

/// Retracting some keys and then others, in the same second, retracts them all: the order does
/// not matter, and what is retracted twice is retracted once.
pub proof fn retracting_in_turn<K, V>(
    versions: Map<(K, int, bool), V>,
    first: Set<K>,
    second: Set<K>,
    at: int,
)
    ensures
        retracted_all(retracted_all(versions, first, at), second, at) == retracted_all(
            versions,
            first.union(second),
            at,
        ),
{
    let once = retracted_all(versions, first, at);
    let twice = retracted_all(once, second, at);
    let both = retracted_all(versions, first.union(second), at);
    assert forall|k: (K, int, bool)|
        #![trigger twice.dom().contains(k)]
        twice.dom().contains(k) == both.dom().contains(k) && (both.dom().contains(k) ==> twice[k]
            == both[k]) by {
        if first.contains(k.0) {
            if live(once, k.0, at) {
                let s = stamp_at(once, k.0, at);
                assert(decides(once, k.0, s, at));
                assert(once.dom().contains((k.0, s, true)));
                assert forall|t: int, asserted: bool|
                    #![trigger versions.dom().contains((k.0, t, asserted))]
                    versions.dom().contains((k.0, t, asserted)) && t <= at implies t <= s by {
                    assert(once.dom().contains((k.0, t, asserted)));
                }
                assert(decides(versions, k.0, s, at));
                one_version_decides(versions, k.0, s, at);
            }
        } else {
            retracting_keeps_the_past(versions, first, at, k.0, at);
        }
    }
    assert(twice =~= both);
}

/// What is retracted in the second of its assertion keeps reading: two versions of one second
/// cannot be ordered.
pub proof fn retracting_in_the_same_second_hides_nothing<K, V>(
    versions: Map<(K, int, bool), V>,
    keys: Set<K>,
    at: int,
    key: K,
    later: int,
)
    requires
        decides(versions, key, at, later),
    ensures
        reads_as(retracted_all(versions, keys, at), key, later) == reads_as(versions, key, later),
{
    let after = retracted_all(versions, keys, at);
    assert(after.dom().contains((key, at, true)));
    assert forall|t: int, asserted: bool|
        #![trigger after.dom().contains((key, t, asserted))]
        after.dom().contains((key, t, asserted)) && t <= later implies t <= at by {
        if t != at {
            assert(versions.dom().contains((key, t, asserted)));
        }
    }
    assert(decides(after, key, at, later));
    one_version_decides(after, key, at, later);
    one_version_decides(versions, key, at, later);
}

} // verus!
