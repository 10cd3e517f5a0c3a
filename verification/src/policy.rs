//! Where an initiative may be shared.

use crate::rows::first_texts;
use crate::store::{one, two, Store, StoreError};
use crate::model::Contents;
use crate::substrate::{policies_of, texts_view, POLICY, PUT_POLICY};
use crate::text::same;
use vstd::prelude::*;

verus! {

/// Where an initiative may be shared.
#[derive(Debug, Clone, Copy, PartialEq, Eq, Structural)]
pub enum SharePolicy {
    /// Nowhere. This is what holds where nothing was said.
    Private,
    /// With the team.
    Team,
}

impl SharePolicy {
    /// The text under which a policy is stored.
    pub open spec fn text(&self) -> Seq<char> {
        match *self {
            SharePolicy::Private => "private"@,
            SharePolicy::Team => "team"@,
        }
    }

    /// The text under which a policy is stored.
    pub fn as_str(&self) -> (r: &'static str)
        ensures
            r@ == self.text(),
    {
        match self {
            SharePolicy::Private => "private",
            SharePolicy::Team => "team",
        }
    }
}

/// The policy of an initiative: private, unless it was opened to the team.
pub open spec fn policy_of(c: Contents, name: Seq<char>) -> SharePolicy {
    if c.policies.dom().contains(name) && c.policies[name] == "team"@ {
        SharePolicy::Team
    } else {
        SharePolicy::Private
    }
}

/// Sets the policy of an initiative.
pub fn set_share_policy(store: &mut Store, name: &str, policy: SharePolicy) -> (r: Result<
    (),
    StoreError,
>)
    ensures
        final(store).settings() == old(store).settings(),
        r is Ok ==> final(store).held() == (Contents {
            policies: old(store).held().policies.insert(name@, policy.text()),
            ..old(store).held()
        }),
        r matches Err(e) ==> e is Substrate && final(store).held() == old(store).held(),
{
    store.run_mut(PUT_POLICY, &two("n", name, "policy", policy.as_str()), 0)
}

/// The policy of an initiative.
pub fn get_share_policy(store: &Store, name: &str) -> (r: Result<SharePolicy, StoreError>)
    ensures
        r matches Ok(policy) ==> policy == policy_of(store.held(), name@),
        r matches Err(e) ==> e is Substrate,
{
    let rows = store.run_read(POLICY, &one("n", name), 0)?;
    let found = first_texts(&rows);
    let ghost c = store.held();
    let ghost texts = texts_view(found@);
    proof {
        let s = policies_of(c, name@);
        if c.policies.dom().contains(name@) {
            assert(s.contains(c.policies[name@]));
            assert(texts.contains(c.policies[name@]));
        }
        if found@.len() > 0 {
            assert(texts.contains(texts[0]));
            assert(s.contains(texts[0]));
            assert(texts[0] == found@[0]@);
        }
    }
    if found.len() > 0 && same(found[0].as_str(), "team") {
        Ok(SharePolicy::Team)
    } else {
        Ok(SharePolicy::Private)
    }
}

/// A policy reads back as it was set.
pub proof fn a_policy_reads_back(c: Contents, name: Seq<char>, policy: SharePolicy)
    ensures
        policy_of(
            Contents { policies: c.policies.insert(name, policy.text()), ..c },
            name,
        ) == policy,
{
    reveal_strlit("private");
    reveal_strlit("team");
    assert("private"@.len() != "team"@.len());
}

} // verus!
