//! Laws of the grant and query rules, stated over the ledger mapping and
//! proved once for all identities, durations and instants.

use vstd::prelude::*;

use crate::ledger::NANOS_PER_DAY;
use crate::ledger::duration_nanos;
use crate::ledger::grant_result;
use crate::ledger::granted_expiry;
use crate::ledger::spec_expiry;
use crate::ledger::spec_is_licensed;

verus! {

/// An identity never granted a license is not licensed at any instant, and
/// its stored expiry is absent.
pub proof fn lemma_never_granted(m: Map<Seq<char>, u64>, identity: Seq<char>, now: u64)
    requires
        !m.contains_key(identity),
    ensures
        !spec_is_licensed(m, identity, now),
        spec_expiry(m, identity) is None,
{
}

/// A grant to an identity with no prior entry stores exactly the grant
/// instant plus the duration in nanoseconds, and at the grant instant the
/// identity is licensed exactly when the duration is positive.
pub proof fn lemma_grant_fresh(
    m: Map<Seq<char>, u64>,
    identity: Seq<char>,
    duration_days: u32,
    t0: u64,
)
    requires
        !m.contains_key(identity),
        granted_expiry(m, identity, duration_days, t0) <= u64::MAX,
    ensures
        spec_expiry(grant_result(m, identity, duration_days, t0), identity) == Some(
            (t0 + duration_nanos(duration_days)) as u64,
        ),
        spec_is_licensed(grant_result(m, identity, duration_days, t0), identity, t0) == (
        duration_days > 0),
{
    assert(duration_days > 0 ==> duration_nanos(duration_days) >= NANOS_PER_DAY);
}

/// Extension is additive on remaining time: a grant made while the stored
/// expiry still lies in the future stacks the new duration on top of that
/// expiry, not on the grant instant.
pub proof fn lemma_grant_extends(
    m: Map<Seq<char>, u64>,
    identity: Seq<char>,
    duration_days: u32,
    t1: u64,
)
    requires
        m.contains_key(identity),
        t1 < m[identity],
        granted_expiry(m, identity, duration_days, t1) <= u64::MAX,
    ensures
        spec_expiry(grant_result(m, identity, duration_days, t1), identity) == Some(
            (m[identity] + duration_nanos(duration_days)) as u64,
        ),
{
}

/// A grant made once the stored expiry has been reached or passed discards
/// it: the new expiry counts from the grant instant alone.
pub proof fn lemma_grant_resets(
    m: Map<Seq<char>, u64>,
    identity: Seq<char>,
    duration_days: u32,
    t2: u64,
)
    requires
        m.contains_key(identity),
        m[identity] <= t2,
        granted_expiry(m, identity, duration_days, t2) <= u64::MAX,
    ensures
        spec_expiry(grant_result(m, identity, duration_days, t2), identity) == Some(
            (t2 + duration_nanos(duration_days)) as u64,
        ),
{
}

/// Validity is strict: at the instant that equals the stored expiry, the
/// license is already expired.
pub proof fn lemma_expiry_boundary(m: Map<Seq<char>, u64>, identity: Seq<char>)
    requires
        m.contains_key(identity),
    ensures
        !spec_is_licensed(m, identity, m[identity]),
{
}

/// A grant never loses an entry and never moves one backwards: every
/// identity stored before is stored after, with an expiry at least as
/// late as before.
pub proof fn lemma_grant_monotone(
    m: Map<Seq<char>, u64>,
    identity: Seq<char>,
    other: Seq<char>,
    duration_days: u32,
    now: u64,
)
    requires
        m.contains_key(other),
        granted_expiry(m, identity, duration_days, now) <= u64::MAX,
    ensures
        grant_result(m, identity, duration_days, now).contains_key(other),
        grant_result(m, identity, duration_days, now)[other] >= m[other],
{
}

} // verus!
