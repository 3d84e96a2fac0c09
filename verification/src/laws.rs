//! Laws of the registry's transitions. Each proof function states a property
//! that holds of every registry contents `m`, over the same transition
//! specifications that the operations' contracts use.

use vstd::prelude::*;

use crate::registry::{
    create_next, create_outcome, keys_bounded, lookup, revoke_next, revoke_outcome, transfer_next,
    transfer_outcome, AccountId, BlockNumber, ClaimRecord, Error, MAX_CLAIM_LEN,
};

verus! {

/// Creating the same key twice always fails the second time with
/// `ClaimAlreadyExist`, whoever calls and whatever the clock reads, and the
/// registry after both calls equals the registry after the first alone.
pub proof fn lemma_create_idempotent_failure(
    m: Map<Seq<u8>, ClaimRecord>,
    first: AccountId,
    t1: BlockNumber,
    second: AccountId,
    t2: BlockNumber,
    claim: Seq<u8>,
)
    requires
        create_outcome(m, claim) is Ok,
    ensures
        ({
            let m1 = create_next(m, first, claim, t1);
            &&& create_outcome(m1, claim) == Err::<(), Error>(Error::ClaimAlreadyExist)
            &&& create_next(m1, second, claim, t2) == m1
        }),
{
}

/// Existence is checked before size: `create` on a registered key reports
/// `ClaimAlreadyExist` whatever the key's length.
pub proof fn lemma_existence_checked_before_size(m: Map<Seq<u8>, ClaimRecord>, claim: Seq<u8>)
    requires
        m.contains_key(claim),
    ensures
        create_outcome(m, claim) == Err::<(), Error>(Error::ClaimAlreadyExist),
{
}

/// A create followed by a revoke by the same identity succeeds and returns
/// the registry to exactly its contents before the create.
pub proof fn lemma_create_revoke_round_trip(
    m: Map<Seq<u8>, ClaimRecord>,
    caller: AccountId,
    claim: Seq<u8>,
    now: BlockNumber,
)
    requires
        create_outcome(m, claim) is Ok,
    ensures
        ({
            let m1 = create_next(m, caller, claim, now);
            &&& revoke_outcome(m1, caller, claim) is Ok
            &&& revoke_next(m1, caller, claim) == m
        }),
{
    assert(create_next(m, caller, claim, now).remove(claim) =~= m);
}

/// Nobody but the owner can revoke or transfer a registered key: both fail
/// with `NotClaimOwner` and leave the registry unchanged.
pub proof fn lemma_ownership_gate(
    m: Map<Seq<u8>, ClaimRecord>,
    claim: Seq<u8>,
    intruder: AccountId,
    receiver: AccountId,
)
    requires
        m.contains_key(claim),
        intruder != m[claim].0,
    ensures
        revoke_outcome(m, intruder, claim) == Err::<(), Error>(Error::NotClaimOwner),
        revoke_next(m, intruder, claim) == m,
        transfer_outcome(m, intruder, claim) == Err::<(), Error>(Error::NotClaimOwner),
        transfer_next(m, intruder, claim, receiver) == m,
{
}

/// Creating a fresh key succeeds exactly up to the size bound: a key of at
/// most `MAX_CLAIM_LEN` bytes is accepted, a longer one is rejected with
/// `ClaimOverSize` and nothing changes, for any caller.
pub proof fn lemma_size_boundary(
    m: Map<Seq<u8>, ClaimRecord>,
    caller: AccountId,
    claim: Seq<u8>,
    now: BlockNumber,
)
    requires
        !m.contains_key(claim),
    ensures
        claim.len() <= MAX_CLAIM_LEN ==> create_outcome(m, claim) == Ok::<(), Error>(()),
        claim.len() > MAX_CLAIM_LEN ==> create_outcome(m, claim) == Err::<(), Error>(
            Error::ClaimOverSize,
        ) && create_next(m, caller, claim, now) == m,
{
}

/// A transfer changes the owner and nothing else: after a create at `t0` and
/// a transfer to `receiver`, the record holds `receiver` and still `t0`.
pub proof fn lemma_transfer_keeps_timestamp(
    m: Map<Seq<u8>, ClaimRecord>,
    creator: AccountId,
    claim: Seq<u8>,
    t0: BlockNumber,
    receiver: AccountId,
)
    requires
        create_outcome(m, claim) is Ok,
    ensures
        ({
            let m1 = create_next(m, creator, claim, t0);
            &&& transfer_outcome(m1, creator, claim) is Ok
            &&& lookup(transfer_next(m1, creator, claim, receiver), claim) == Some(
                (receiver, t0),
            )
        }),
{
}

/// The size bound is an invariant of the registry: when every registered key
/// is within `MAX_CLAIM_LEN` bytes, it still is after any of the three
/// transitions, whatever their arguments and outcome.
pub proof fn lemma_transitions_preserve_keys_bounded(
    m: Map<Seq<u8>, ClaimRecord>,
    caller: AccountId,
    claim: Seq<u8>,
    now: BlockNumber,
    receiver: AccountId,
)
    requires
        keys_bounded(m),
    ensures
        keys_bounded(create_next(m, caller, claim, now)),
        keys_bounded(revoke_next(m, caller, claim)),
        keys_bounded(transfer_next(m, caller, claim, receiver)),
{
    assert forall|k: Seq<u8>|
        #[trigger] create_next(m, caller, claim, now).contains_key(k) implies k.len()
        <= MAX_CLAIM_LEN by {
        if k != claim {
            assert(m.contains_key(k));
        }
    }
    assert forall|k: Seq<u8>|
        #[trigger] revoke_next(m, caller, claim).contains_key(k) implies k.len()
        <= MAX_CLAIM_LEN by {
        assert(m.contains_key(k));
    }
    assert forall|k: Seq<u8>|
        #[trigger] transfer_next(m, caller, claim, receiver).contains_key(k) implies k.len()
        <= MAX_CLAIM_LEN by {
        if k != claim {
            assert(m.contains_key(k));
        }
    }
}

} // verus!
