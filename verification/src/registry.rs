//! The claim registry: state, transition specifications, and the verified
//! operations `create_claim`, `revoke_claim` and `transfer_claim`.

use vstd::prelude::*;

verus! {

/// An authenticated principal that can own claims. The host resolves an
/// inbound request's origin to an `AccountId` before calling the registry;
/// the registry itself never authenticates.
pub type AccountId = u64;

/// Logical time (for example a block height). A fresh reading from the
/// host's clock is handed to `create_claim` to stamp the new record.
pub type BlockNumber = u64;

/// A claim record: the current owner and the time of first creation.
pub type ClaimRecord = (AccountId, BlockNumber);

/// The largest number of bytes a claim key may have.
pub const MAX_CLAIM_LEN: usize = 10;

/// Why an operation on the registry was rejected.
#[derive(Clone, Copy, Debug, PartialEq, Eq)]
pub enum Error {
    /// `create` was called on a key that is already registered.
    ClaimAlreadyExist,
    /// `revoke` or `transfer` was called on a key that is not registered.
    ClaimNotExist,
    /// `revoke` or `transfer` was called by an identity that does not own the key.
    NotClaimOwner,
    /// `create` was called with a key longer than `MAX_CLAIM_LEN` bytes.
    ClaimOverSize,
}

/// A notification, recorded exactly once per successful operation and never
/// on failure. `ClaimCreated` and `ClaimRevoked` carry the acting identity;
/// `ClaimTransferred` carries the new owner.
#[derive(Debug, PartialEq, Eq)]
pub enum Event {
    ClaimCreated(AccountId, Vec<u8>),
    ClaimRevoked(AccountId, Vec<u8>),
    ClaimTransferred(AccountId, Vec<u8>),
}

/// The result `create` returns on a registry with contents `m`: existence is
/// checked before size, and both before any mutation.
pub open spec fn create_outcome(m: Map<Seq<u8>, ClaimRecord>, claim: Seq<u8>) -> Result<(), Error> {
    if m.contains_key(claim) {
        Err(Error::ClaimAlreadyExist)
    } else if claim.len() > MAX_CLAIM_LEN {
        Err(Error::ClaimOverSize)
    } else {
        Ok(())
    }
}

/// The registry contents after `create`: unchanged on failure.
pub open spec fn create_next(
    m: Map<Seq<u8>, ClaimRecord>,
    caller: AccountId,
    claim: Seq<u8>,
    now: BlockNumber,
) -> Map<Seq<u8>, ClaimRecord> {
    if create_outcome(m, claim) is Ok {
        m.insert(claim, (caller, now))
    } else {
        m
    }
}

/// The result `revoke` returns: existence is checked before ownership.
pub open spec fn revoke_outcome(
    m: Map<Seq<u8>, ClaimRecord>,
    caller: AccountId,
    claim: Seq<u8>,
) -> Result<(), Error> {
    if !m.contains_key(claim) {
        Err(Error::ClaimNotExist)
    } else if m[claim].0 != caller {
        Err(Error::NotClaimOwner)
    } else {
        Ok(())
    }
}

/// The registry contents after `revoke`: the entry is removed entirely on
/// success, nothing changes on failure.
pub open spec fn revoke_next(
    m: Map<Seq<u8>, ClaimRecord>,
    caller: AccountId,
    claim: Seq<u8>,
) -> Map<Seq<u8>, ClaimRecord> {
    if revoke_outcome(m, caller, claim) is Ok {
        m.remove(claim)
    } else {
        m
    }
}

/// The result `transfer` returns: the same gates as `revoke`.
pub open spec fn transfer_outcome(
    m: Map<Seq<u8>, ClaimRecord>,
    caller: AccountId,
    claim: Seq<u8>,
) -> Result<(), Error> {
    revoke_outcome(m, caller, claim)
}

/// The registry contents after `transfer`: on success only the owner field
/// changes; the creation time is kept.
pub open spec fn transfer_next(
    m: Map<Seq<u8>, ClaimRecord>,
    caller: AccountId,
    claim: Seq<u8>,
    receiver: AccountId,
) -> Map<Seq<u8>, ClaimRecord> {
    if transfer_outcome(m, caller, claim) is Ok {
        m.insert(claim, (receiver, m[claim].1))
    } else {
        m
    }
}

/// The registry's lookup result for one key.
pub open spec fn lookup(m: Map<Seq<u8>, ClaimRecord>, claim: Seq<u8>) -> Option<ClaimRecord> {
    if m.contains_key(claim) {
        Some(m[claim])
    } else {
        None
    }
}

/// Every registered key is within the size bound.
pub open spec fn keys_bounded(m: Map<Seq<u8>, ClaimRecord>) -> bool {
    forall|k: Seq<u8>| #[trigger] m.contains_key(k) ==> k.len() <= MAX_CLAIM_LEN
}

/// The claim registry. It owns the mapping from claim key to record and the
/// log of notifications; the host serializes all calls against one value.
pub struct Pallet {
    entries: Vec<(Vec<u8>, ClaimRecord)>,
    events: Vec<Event>,
}

impl Pallet {
    /// Abstract contents: the mapping from claim key to (owner, created-at).
    pub closed spec fn proofs(self) -> Map<Seq<u8>, ClaimRecord> {
        entries_view(self.entries@)
    }

    /// The notifications recorded so far, oldest first.
    pub closed spec fn event_log(self) -> Seq<Event> {
        self.events@
    }

    /// Representation invariant: each claim key occurs at most once.
    pub closed spec fn wf(self) -> bool {
        entries_wf(self.entries@)
    }

    /// An empty registry with no recorded notifications.
    pub fn new() -> (r: Pallet)
        ensures
            r.wf(),
            r.proofs() == Map::<Seq<u8>, ClaimRecord>::empty(),
            r.event_log() == Seq::<Event>::empty(),
    {
        let r = Pallet { entries: Vec::new(), events: Vec::new() };
        proof {
            assert(r.proofs() =~= Map::<Seq<u8>, ClaimRecord>::empty());
        }
        r
    }

    /// The index of the entry holding `claim`, when the key is registered.
    fn find(&self, claim: &Vec<u8>) -> (r: Option<usize>)
        ensures
            match r {
                Some(i) => i < self.entries@.len() && self.entries@[i as int].0@ == claim@,
                None => forall|i: int| 0 <= i < self.entries@.len() ==> self.entries@[i].0@ != claim@,
            },
    {
        let mut i: usize = 0;
        while i < self.entries.len()
            invariant
                i <= self.entries@.len(),
                forall|j: int| 0 <= j < i ==> self.entries@[j].0@ != claim@,
            decreases self.entries@.len() - i,
        {
            if bytes_equal(&self.entries[i].0, claim) {
                return Some(i);
            }
            i += 1;
        }
        None
    }

    /// Registers `claim` for `caller`, stamped with the clock reading `now`.
    /// Fails with `ClaimAlreadyExist` on a registered key (checked first) and
    /// with `ClaimOverSize` on a key longer than `MAX_CLAIM_LEN` bytes; on
    /// failure nothing changes. On success exactly one `ClaimCreated`
    /// notification is recorded.
    pub fn create_claim(&mut self, caller: AccountId, claim: Vec<u8>, now: BlockNumber) -> (r:
        Result<(), Error>)
        requires
            old(self).wf(),
        ensures
            final(self).wf(),
            r == create_outcome(old(self).proofs(), claim@),
            final(self).proofs() == create_next(old(self).proofs(), caller, claim@, now),
            r is Ok ==> final(self).event_log() == old(self).event_log().push(
                Event::ClaimCreated(caller, claim),
            ),
            r is Err ==> final(self).event_log() == old(self).event_log(),
    {
        match self.find(&claim) {
            Some(i) => {
                proof {
                    lemma_entry_value(self.entries@, i as int);
                }
                return Err(Error::ClaimAlreadyExist);
            },
            None => {
                proof {
                    lemma_view_absent(self.entries@, claim@);
                }
            },
        }
        if claim.len() > MAX_CLAIM_LEN {
            return Err(Error::ClaimOverSize);
        }
        let key = copy_bytes(&claim);
        proof {
            lemma_view_push(self.entries@, (key, (caller, now)));
        }
        self.entries.push((key, (caller, now)));
        self.events.push(Event::ClaimCreated(caller, claim));
        Ok(())
    }

    /// Removes `claim` from the registry. Fails with `ClaimNotExist` on an
    /// unregistered key (checked first) and with `NotClaimOwner` when
    /// `caller` does not own it; on failure nothing changes. On success the
    /// whole record is discarded and exactly one `ClaimRevoked` notification
    /// is recorded.
    pub fn revoke_claim(&mut self, caller: AccountId, claim: Vec<u8>) -> (r: Result<(), Error>)
        requires
            old(self).wf(),
        ensures
            final(self).wf(),
            r == revoke_outcome(old(self).proofs(), caller, claim@),
            final(self).proofs() == revoke_next(old(self).proofs(), caller, claim@),
            r is Ok ==> final(self).event_log() == old(self).event_log().push(
                Event::ClaimRevoked(caller, claim),
            ),
            r is Err ==> final(self).event_log() == old(self).event_log(),
    {
        let idx = match self.find(&claim) {
            None => {
                proof {
                    lemma_view_absent(self.entries@, claim@);
                }
                return Err(Error::ClaimNotExist);
            },
            Some(i) => i,
        };
        proof {
            lemma_entry_value(self.entries@, idx as int);
        }
        if self.entries[idx].1.0 != caller {
            return Err(Error::NotClaimOwner);
        }
        proof {
            lemma_view_remove(self.entries@, idx as int);
        }
        let _removed = self.entries.remove(idx);
        self.events.push(Event::ClaimRevoked(caller, claim));
        Ok(())
    }

    /// Hands `claim` over to `receiver`. The same gates as `revoke_claim`:
    /// `ClaimNotExist` on an unregistered key, `NotClaimOwner` when `caller`
    /// does not own it, nothing changes on failure. On success only the
    /// owner field changes — the creation time is kept — and exactly one
    /// `ClaimTransferred` notification, carrying the new owner, is recorded.
    pub fn transfer_claim(
        &mut self,
        caller: AccountId,
        claim: Vec<u8>,
        receiver: AccountId,
    ) -> (r: Result<(), Error>)
        requires
            old(self).wf(),
        ensures
            final(self).wf(),
            r == transfer_outcome(old(self).proofs(), caller, claim@),
            final(self).proofs() == transfer_next(old(self).proofs(), caller, claim@, receiver),
            r is Ok ==> final(self).event_log() == old(self).event_log().push(
                Event::ClaimTransferred(receiver, claim),
            ),
            r is Err ==> final(self).event_log() == old(self).event_log(),
    {
        let idx = match self.find(&claim) {
            None => {
                proof {
                    lemma_view_absent(self.entries@, claim@);
                }
                return Err(Error::ClaimNotExist);
            },
            Some(i) => i,
        };
        proof {
            lemma_entry_value(self.entries@, idx as int);
        }
        if self.entries[idx].1.0 != caller {
            return Err(Error::NotClaimOwner);
        }
        proof {
            lemma_view_remove(self.entries@, idx as int);
        }
        let ghost pre = self.entries@;
        let (key, rec) = self.entries.remove(idx);
        let registered_at: BlockNumber = rec.1;
        proof {
            lemma_view_push(self.entries@, (key, (receiver, registered_at)));
        }
        self.entries.push((key, (receiver, registered_at)));
        proof {
            assert(entries_view(self.entries@) =~= entries_view(pre).insert(
                claim@,
                (receiver, registered_at),
            ));
        }
        self.events.push(Event::ClaimTransferred(receiver, claim));
        Ok(())
    }

    /// The record stored for `claim`: its owner and creation time, or `None`
    /// when the key is not registered. (The storage getter of the registry.)
    pub fn my_proofs(&self, claim: &Vec<u8>) -> (r: Option<ClaimRecord>)
        requires
            self.wf(),
        ensures
            r == lookup(self.proofs(), claim@),
    {
        match self.find(claim) {
            Some(i) => {
                proof {
                    lemma_entry_value(self.entries@, i as int);
                }
                Some(self.entries[i].1)
            },
            None => {
                proof {
                    lemma_view_absent(self.entries@, claim@);
                }
                None
            },
        }
    }

    /// The notifications recorded so far, oldest first.
    pub fn events(&self) -> (r: &Vec<Event>)
        ensures
            r@ == self.event_log(),
    {
        &self.events
    }
}

/// Byte-for-byte equality of two claim keys.
fn bytes_equal(a: &Vec<u8>, b: &Vec<u8>) -> (r: bool)
    ensures
        r == (a@ == b@),
{
    if a.len() != b.len() {
        return false;
    }
    let mut i: usize = 0;
    while i < a.len()
        invariant
            i <= a.len(),
            a@.len() == b@.len(),
            forall|j: int| 0 <= j < i ==> a@[j] == b@[j],
        decreases a.len() - i,
    {
        if a[i] != b[i] {
            return false;
        }
        i += 1;
    }
    proof {
        assert(a@ =~= b@);
    }
    true
}

/// A fresh vector with the same bytes as `v`.
fn copy_bytes(v: &Vec<u8>) -> (r: Vec<u8>)
    ensures
        r@ == v@,
{
    let mut r: Vec<u8> = Vec::new();
    let mut i: usize = 0;
    while i < v.len()
        invariant
            i <= v.len(),
            r@ == v@.subrange(0, i as int),
        decreases v.len() - i,
    {
        r.push(v[i]);
        i += 1;
        proof {
            assert(r@ =~= v@.subrange(0, i as int));
        }
    }
    proof {
        assert(r@ =~= v@);
    }
    r
}

/// True when some entry of `s` has the key `k`.
spec fn has_key(s: Seq<(Vec<u8>, ClaimRecord)>, k: Seq<u8>) -> bool {
    exists|i: int| 0 <= i < s.len() && s[i].0@ == k
}

/// An index of an entry of `s` whose key is `k`, when one exists.
spec fn match_index(s: Seq<(Vec<u8>, ClaimRecord)>, k: Seq<u8>) -> int {
    choose|i: int| 0 <= i < s.len() && s[i].0@ == k
}

/// The mapping that a sequence of entries represents.
spec fn entries_view(s: Seq<(Vec<u8>, ClaimRecord)>) -> Map<Seq<u8>, ClaimRecord> {
    Map::new(|k: Seq<u8>| has_key(s, k), |k: Seq<u8>| s[match_index(s, k)].1)
}

/// No two entries of `s` share a key.
spec fn entries_wf(s: Seq<(Vec<u8>, ClaimRecord)>) -> bool {
    forall|i: int, j: int| 0 <= i < j < s.len() ==> s[i].0@ != s[j].0@
}

/// In a well-formed sequence, the entry at `i` is what the view maps its key to.
proof fn lemma_entry_value(s: Seq<(Vec<u8>, ClaimRecord)>, i: int)
    requires
        entries_wf(s),
        0 <= i < s.len(),
    ensures
        entries_view(s).contains_key(s[i].0@),
        entries_view(s)[s[i].0@] == s[i].1,
{
    let k = s[i].0@;
    assert(0 <= i < s.len() && s[i].0@ == k);
    assert(has_key(s, k));
    let j = match_index(s, k);
    assert(0 <= j < s.len() && s[j].0@ == k);
    if i < j {
        assert(s[i].0@ != s[j].0@);
    } else if j < i {
        assert(s[j].0@ != s[i].0@);
    }
    assert(j == i);
}

/// A key that no entry of `s` has is not in the view.
proof fn lemma_view_absent(s: Seq<(Vec<u8>, ClaimRecord)>, k: Seq<u8>)
    requires
        forall|i: int| 0 <= i < s.len() ==> s[i].0@ != k,
    ensures
        !entries_view(s).contains_key(k),
{
    assert(!has_key(s, k));
}

/// Appending an entry with a fresh key inserts it into the view.
proof fn lemma_view_push(s: Seq<(Vec<u8>, ClaimRecord)>, e: (Vec<u8>, ClaimRecord))
    requires
        entries_wf(s),
        forall|i: int| 0 <= i < s.len() ==> s[i].0@ != e.0@,
    ensures
        entries_wf(s.push(e)),
        entries_view(s.push(e)) == entries_view(s).insert(e.0@, e.1),
{
    let t = s.push(e);
    assert(t.len() == s.len() + 1);
    assert forall|i: int| 0 <= i < s.len() implies t[i] == s[i] by {}
    assert(t[s.len() as int] == e);
    assert(entries_wf(t));

    let m1 = entries_view(t);
    let m2 = entries_view(s).insert(e.0@, e.1);

    assert forall|k: Seq<u8>| m1.contains_key(k) implies m2.contains_key(k) by {
        let i = match_index(t, k);
        assert(0 <= i < t.len() && t[i].0@ == k);
        if i < s.len() {
            assert(s[i].0@ == k);
            assert(has_key(s, k));
        } else {
            assert(k == e.0@);
        }
    }
    assert forall|k: Seq<u8>| m2.contains_key(k) implies m1.contains_key(k) by {
        if k == e.0@ {
            lemma_entry_value(t, s.len() as int);
        } else {
            let i = match_index(s, k);
            assert(0 <= i < s.len() && s[i].0@ == k);
            assert(t[i].0@ == k);
            assert(has_key(t, k));
        }
    }
    assert forall|k: Seq<u8>| m1.contains_key(k) implies m1[k] == m2[k] by {
        if k == e.0@ {
            lemma_entry_value(t, s.len() as int);
        } else {
            let i = match_index(s, k);
            assert(0 <= i < s.len() && s[i].0@ == k);
            lemma_entry_value(s, i);
            lemma_entry_value(t, i);
        }
    }
    assert(m1 =~= m2);
}

/// Removing the entry at `i` removes exactly its key from the view, and the
/// remaining entries hold no entry with that key.
proof fn lemma_view_remove(s: Seq<(Vec<u8>, ClaimRecord)>, i: int)
    requires
        entries_wf(s),
        0 <= i < s.len(),
    ensures
        entries_wf(s.remove(i)),
        entries_view(s.remove(i)) == entries_view(s).remove(s[i].0@),
        forall|j: int| 0 <= j < s.remove(i).len() ==> s.remove(i)[j].0@ != s[i].0@,
{
    let k0 = s[i].0@;
    let t = s.remove(i);
    assert(t.len() == s.len() - 1);
    assert forall|j: int| 0 <= j < t.len() implies t[j] == (if j < i {
        s[j]
    } else {
        s[j + 1]
    }) by {}
    assert forall|j: int| 0 <= j < t.len() implies t[j].0@ != k0 by {
        if j < i {
            assert(s[j].0@ != s[i].0@);
        } else {
            assert(s[i].0@ != s[j + 1].0@);
        }
    }
    assert forall|a: int, b: int| 0 <= a < b < t.len() implies t[a].0@ != t[b].0@ by {
        let a2: int = if a < i { a } else { a + 1 };
        let b2: int = if b < i { b } else { b + 1 };
        assert(t[a] == s[a2]);
        assert(t[b] == s[b2]);
        assert(0 <= a2 < b2 < s.len());
        assert(s[a2].0@ != s[b2].0@);
    }
    assert(entries_wf(t));

    let m1 = entries_view(t);
    let m2 = entries_view(s).remove(k0);

    assert forall|k: Seq<u8>| m1.contains_key(k) implies m2.contains_key(k) && m1[k] == m2[k] by {
        let j = match_index(t, k);
        assert(0 <= j < t.len() && t[j].0@ == k);
        assert(k != k0);
        let j2: int = if j < i { j } else { j + 1 };
        assert(t[j] == s[j2]);
        assert(has_key(s, k));
        lemma_entry_value(s, j2);
        lemma_entry_value(t, j);
        assert(m1[k] == t[j].1);
        assert(entries_view(s)[k] == s[j2].1);
    }
    assert forall|k: Seq<u8>| m2.contains_key(k) implies m1.contains_key(k) by {
        assert(k != k0);
        assert(has_key(s, k));
        let j = match_index(s, k);
        assert(0 <= j < s.len() && s[j].0@ == k);
        assert(j != i);
        if j < i {
            assert(t[j] == s[j]);
            assert(has_key(t, k));
        } else {
            assert(t[j - 1] == s[j]);
            assert(has_key(t, k));
        }
    }
    assert(m1 =~= m2);
}

} // verus!
