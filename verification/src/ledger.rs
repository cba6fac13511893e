//! The license ledger: a mapping from identity strings to expiry instants,
//! together with the single administrator allowed to change it.

use vstd::prelude::*;

verus! {

/// Nanoseconds in one day: 24 * 60 * 60 * 1_000_000_000.
pub const NANOS_PER_DAY: u64 = 86_400_000_000_000;

/// The one way an operation on the ledger can fail: a caller other than
/// the administrator tried to grant a license.
#[derive(Debug, Clone, Copy, PartialEq, Eq, Structural)]
pub enum LicenseError {
    Unauthorized,
}

/// A grant duration, converted exactly from days to nanoseconds.
pub open spec fn duration_nanos(duration_days: u32) -> int {
    (duration_days as int) * (NANOS_PER_DAY as int)
}

/// The instant a fresh grant counts from, given the stored expiry (if any)
/// and the current time: an active license keeps its remaining time, an
/// expired or absent one starts from now. Equality counts as expired.
pub open spec fn base_of(existing: Option<u64>, now: u64) -> u64 {
    match existing {
        Some(expiry) => if expiry > now {
            expiry
        } else {
            now
        },
        None => now,
    }
}

/// Whether a stored expiry (if any) is still valid at `now`: validity
/// requires the expiry to lie strictly in the future.
pub open spec fn spec_licensed_at(existing: Option<u64>, now: u64) -> bool {
    match existing {
        Some(expiry) => expiry > now,
        None => false,
    }
}

/// The stored expiry of `key` in the ledger mapping `m`, or `None` if no
/// entry was ever written for it.
pub open spec fn spec_expiry(m: Map<Seq<char>, u64>, key: Seq<char>) -> Option<u64> {
    if m.contains_key(key) {
        Some(m[key])
    } else {
        None
    }
}

/// The instant a grant of `key` at time `now` counts from.
pub open spec fn grant_base(m: Map<Seq<char>, u64>, key: Seq<char>, now: u64) -> u64 {
    base_of(spec_expiry(m, key), now)
}

/// The expiry a grant writes, as an unbounded integer: the base plus the
/// duration in nanoseconds.
pub open spec fn granted_expiry(
    m: Map<Seq<char>, u64>,
    key: Seq<char>,
    duration_days: u32,
    now: u64,
) -> int {
    grant_base(m, key, now) + duration_nanos(duration_days)
}

/// The ledger mapping after a successful grant: the entry for `key` is
/// replaced by the newly computed expiry; nothing else changes.
pub open spec fn grant_result(
    m: Map<Seq<char>, u64>,
    key: Seq<char>,
    duration_days: u32,
    now: u64,
) -> Map<Seq<char>, u64> {
    m.insert(key, granted_expiry(m, key, duration_days, now) as u64)
}

/// Whether the ledger mapping `m` holds a license for `key` that is still
/// valid at time `now`.
pub open spec fn spec_is_licensed(m: Map<Seq<char>, u64>, key: Seq<char>, now: u64) -> bool {
    spec_licensed_at(spec_expiry(m, key), now)
}

/// Computes the expiry written by a grant: the remaining time of an active
/// license, or the current instant otherwise, plus the duration in days
/// converted exactly to nanoseconds.
pub fn next_expiry(existing: Option<u64>, duration_days: u32, current_time: u64) -> (expiry: u64)
    requires
        base_of(existing, current_time) + duration_nanos(duration_days) <= u64::MAX,
    ensures
        expiry == base_of(existing, current_time) + duration_nanos(duration_days),
{
    let base: u64 = match existing {
        Some(stored) => if stored > current_time {
            stored
        } else {
            current_time
        },
        None => current_time,
    };
    let duration_ns: u64 = duration_days as u64 * NANOS_PER_DAY;
    base + duration_ns
}

/// Decides validity of a stored expiry at the current time: a license is
/// valid iff its expiry lies strictly in the future.
pub fn licensed_at(existing: Option<u64>, current_time: u64) -> (licensed: bool)
    ensures
        licensed == spec_licensed_at(existing, current_time),
{
    match existing {
        Some(stored) => stored > current_time,
        None => false,
    }
}

/// The mapping that a sequence of `(identity, expiry)` entries denotes;
/// a later entry for the same identity overrides an earlier one.
pub open spec fn entries_map(s: Seq<(String, u64)>) -> Map<Seq<char>, u64>
    decreases s.len(),
{
    if s.len() == 0 {
        Map::empty()
    } else {
        entries_map(s.drop_last()).insert(s.last().0@, s.last().1)
    }
}

/// No two entries of `s` carry the same identity.
pub open spec fn unique_keys(s: Seq<(String, u64)>) -> bool {
    forall|i: int, j: int| 0 <= i < j < s.len() ==> s[i].0@ != s[j].0@
}

/// An identity is in the denoted mapping exactly when some entry carries it.
proof fn lemma_entries_map_contains(s: Seq<(String, u64)>, key: Seq<char>)
    ensures
        entries_map(s).contains_key(key) <==> exists|i: int|
            0 <= i < s.len() && s[i].0@ == key,
    decreases s.len(),
{
    if s.len() > 0 {
        let t = s.drop_last();
        lemma_entries_map_contains(t, key);
        if entries_map(s).contains_key(key) {
            if s.last().0@ == key {
                assert(s[s.len() - 1].0@ == key);
            } else {
                let i = choose|i: int| 0 <= i < t.len() && t[i].0@ == key;
                assert(s[i].0@ == key);
            }
        }
        if exists|i: int| 0 <= i < s.len() && s[i].0@ == key {
            let i = choose|i: int| 0 <= i < s.len() && s[i].0@ == key;
            if i < s.len() - 1 {
                assert(t[i].0@ == key);
            }
        }
    }
}

/// An entry whose identity recurs in no later entry gives the identity's
/// value in the denoted mapping.
proof fn lemma_entries_map_value(s: Seq<(String, u64)>, i: int)
    requires
        0 <= i < s.len(),
        forall|j: int| i < j < s.len() ==> s[j].0@ != s[i].0@,
    ensures
        entries_map(s).contains_key(s[i].0@),
        entries_map(s)[s[i].0@] == s[i].1,
    decreases s.len(),
{
    let t = s.drop_last();
    if i < s.len() - 1 {
        assert(t[i] == s[i]);
        lemma_entries_map_value(t, i);
        assert(s.last().0@ != s[i].0@);
    }
}

/// Replacing the one entry that carries an identity replaces that identity
/// in the denoted mapping and changes nothing else.
proof fn lemma_entries_map_update(s: Seq<(String, u64)>, i: int, e: (String, u64))
    requires
        0 <= i < s.len(),
        e.0@ == s[i].0@,
        forall|j: int| 0 <= j < s.len() && j != i ==> s[j].0@ != s[i].0@,
    ensures
        entries_map(s.update(i, e)) == entries_map(s).insert(e.0@, e.1),
    decreases s.len(),
{
    let u = s.update(i, e);
    let t = s.drop_last();
    if i == s.len() - 1 {
        assert(u.drop_last() =~= t);
        assert(u.last() == e);
        assert(entries_map(t).insert(s[i].0@, s[i].1).insert(e.0@, e.1) =~= entries_map(
            t,
        ).insert(e.0@, e.1));
    } else {
        assert(u.drop_last() =~= t.update(i, e));
        assert(u.last() == s.last());
        assert(t[i] == s[i]);
        assert(forall|j: int| 0 <= j < t.len() && j != i ==> t[j].0@ != t[i].0@);
        lemma_entries_map_update(t, i, e);
        assert(s.last().0@ != e.0@);
        assert(entries_map(t).insert(e.0@, e.1).insert(s.last().0@, s.last().1) =~= entries_map(
            t,
        ).insert(s.last().0@, s.last().1).insert(e.0@, e.1));
    }
}

/// The license ledger: a single administrator, fixed at construction, and
/// one expiry instant per identity. Entries are created on first grant and
/// only ever move forward in time; none is ever deleted.
pub struct LicenseContract {
    /// Entries, one per identity. Identities are opaque strings; any wallet
    /// address format is accepted unexamined.
    licenses: Vec<(String, u64)>,
    /// The identity allowed to grant licenses.
    admin: String,
}

/// The prior schema of the ledger, whose keys were platform-native account
/// identifiers. They are held here in their string form, which is how the
/// prior schema serialized them, so entries carry over unchanged.
pub struct OldLicenseContract {
    /// Entries, one per account identifier (in string form).
    licenses: Vec<(String, u64)>,
    /// The identity allowed to grant licenses.
    admin: String,
}

impl View for LicenseContract {
    type V = Map<Seq<char>, u64>;

    closed spec fn view(&self) -> Map<Seq<char>, u64> {
        entries_map(self.licenses@)
    }
}

impl View for OldLicenseContract {
    type V = Map<Seq<char>, u64>;

    closed spec fn view(&self) -> Map<Seq<char>, u64> {
        entries_map(self.licenses@)
    }
}

impl LicenseContract {
    /// Each identity is carried by at most one entry.
    pub closed spec fn wf(&self) -> bool {
        unique_keys(self.licenses@)
    }

    /// The administrator's identity.
    pub closed spec fn admin_id(&self) -> Seq<char> {
        self.admin@
    }

    /// Creates a ledger with no licenses, administered by `admin`.
    pub fn new(admin: String) -> (contract: Self)
        ensures
            contract.wf(),
            contract.admin_id() == admin@,
            contract@ == Map::<Seq<char>, u64>::empty(),
    {
        LicenseContract { licenses: Vec::new(), admin }
    }

    /// Rebuilds the ledger from the prior schema. The administrator and
    /// every entry carry over unchanged; only the key type widens from
    /// platform-native account identifiers to arbitrary identity strings.
    /// Taking the prior state by value makes a second migration of the
    /// same state unrepresentable.
    pub fn migrate(old_state: OldLicenseContract) -> (contract: Self)
        requires
            old_state.wf(),
        ensures
            contract.wf(),
            contract.admin_id() == old_state.admin_id(),
            contract@ == old_state@,
    {
        let OldLicenseContract { licenses, admin } = old_state;
        LicenseContract { licenses, admin }
    }

    /// The index of the entry carrying `key`, if one exists.
    fn find(&self, key: &String) -> (r: Option<usize>)
        requires
            self.wf(),
        ensures
            match r {
                Some(i) => i < self.licenses@.len() && self.licenses@[i as int].0@ == key@
                    && self@.contains_key(key@) && self@[key@] == self.licenses@[i as int].1,
                None => !self@.contains_key(key@),
            },
    {
        let n: usize = self.licenses.len();
        let mut i: usize = 0;
        while i < n
            invariant
                self.wf(),
                n == self.licenses@.len(),
                i <= n,
                forall|j: int| 0 <= j < i ==> self.licenses@[j].0@ != key@,
            decreases n - i,
        {
            if self.licenses[i].0 == *key {
                proof {
                    lemma_entries_map_value(self.licenses@, i as int);
                }
                return Some(i);
            }
            i += 1;
        }
        proof {
            lemma_entries_map_contains(self.licenses@, key@);
        }
        None
    }

    /// Grants or extends the license of `wallet_address` for
    /// `duration_days` days, on behalf of `caller` at time `current_time`.
    ///
    /// Only the administrator may grant: any other caller is refused with
    /// `Unauthorized` and the ledger is left exactly as it was. For the
    /// administrator, the new expiry is the old one if it is still in the
    /// future — an active license keeps its remaining time — and otherwise
    /// the current instant, plus the duration converted exactly to
    /// nanoseconds. Arithmetic overflow of the new expiry is not guarded
    /// and is excluded by precondition.
    pub fn grant_license(
        &mut self,
        caller: String,
        wallet_address: String,
        duration_days: u32,
        current_time: u64,
    ) -> (result: Result<(), LicenseError>)
        requires
            old(self).wf(),
            caller@ == old(self).admin_id() ==> granted_expiry(
                old(self)@,
                wallet_address@,
                duration_days,
                current_time,
            ) <= u64::MAX,
        ensures
            final(self).wf(),
            final(self).admin_id() == old(self).admin_id(),
            caller@ == old(self).admin_id() ==> result == Ok::<(), LicenseError>(())
                && final(self)@ == grant_result(
                old(self)@,
                wallet_address@,
                duration_days,
                current_time,
            ),
            caller@ != old(self).admin_id() ==> result == Err::<(), LicenseError>(
                LicenseError::Unauthorized,
            ) && final(self)@ == old(self)@,
    {
        if caller != self.admin {
            return Err(LicenseError::Unauthorized);
        }
        let idx = self.find(&wallet_address);
        let existing: Option<u64> = match idx {
            Some(i) => Some(self.licenses[i].1),
            None => None,
        };
        proof {
            assert(existing == spec_expiry(self@, wallet_address@));
        }
        let new_expiry: u64 = next_expiry(existing, duration_days, current_time);
        match idx {
            Some(i) => {
                proof {
                    lemma_entries_map_update(
                        self.licenses@,
                        i as int,
                        (wallet_address, new_expiry),
                    );
                }
                self.licenses[i] = (wallet_address, new_expiry);
            },
            None => {
                proof {
                    lemma_entries_map_contains(self.licenses@, wallet_address@);
                    assert(self.licenses@.push(
                        (wallet_address, new_expiry),
                    ).drop_last() =~= self.licenses@);
                }
                self.licenses.push((wallet_address, new_expiry));
            },
        }
        Ok(())
    }

    /// Whether `wallet_address` holds a license that is still valid at
    /// `current_time`: an entry must exist and its expiry must lie strictly
    /// in the future. Anyone may ask.
    pub fn is_licensed(&self, wallet_address: String, current_time: u64) -> (licensed: bool)
        requires
            self.wf(),
        ensures
            licensed == spec_is_licensed(self@, wallet_address@, current_time),
    {
        match self.find(&wallet_address) {
            Some(i) => licensed_at(Some(self.licenses[i].1), current_time),
            None => false,
        }
    }

    /// The stored expiry of `wallet_address`, even if already in the past,
    /// or `None` if no entry was ever written for it. Anyone may ask; the
    /// result tells "never granted" apart from "granted but expired".
    pub fn get_expiry(&self, wallet_address: String) -> (expiry: Option<u64>)
        requires
            self.wf(),
        ensures
            expiry == spec_expiry(self@, wallet_address@),
    {
        match self.find(&wallet_address) {
            Some(i) => Some(self.licenses[i].1),
            None => None,
        }
    }
}

impl OldLicenseContract {
    /// Each identity is carried by at most one entry.
    pub closed spec fn wf(&self) -> bool {
        unique_keys(self.licenses@)
    }

    /// The administrator's identity.
    pub closed spec fn admin_id(&self) -> Seq<char> {
        self.admin@
    }

    /// Assembles a prior-schema state from its parts: the administrator and
    /// the stored entries, at most one per account identifier. This is the
    /// form in which a persisted prior state arrives for migration.
    pub fn new(admin: String, licenses: Vec<(String, u64)>) -> (contract: Self)
        requires
            unique_keys(licenses@),
        ensures
            contract.wf(),
            contract.admin_id() == admin@,
            contract@ == entries_map(licenses@),
    {
        OldLicenseContract { licenses, admin }
    }
}

} // verus!
