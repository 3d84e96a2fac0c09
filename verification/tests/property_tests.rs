use poe_registry::registry::{Error, Event, Pallet};

#[test]
fn second_create_fails_for_any_caller_and_keeps_state() {
    let mut p = Pallet::new();
    let claim = vec![3, 4, 5];
    assert_eq!(p.create_claim(1, claim.clone(), 2), Ok(()));
    assert_eq!(p.create_claim(1, claim.clone(), 3), Err(Error::ClaimAlreadyExist));
    assert_eq!(p.create_claim(9, claim.clone(), 4), Err(Error::ClaimAlreadyExist));
    assert_eq!(p.my_proofs(&claim), Some((1, 2)));
    assert_eq!(p.events().len(), 1);
}

#[test]
fn create_then_revoke_round_trip() {
    let mut p = Pallet::new();
    let keep = vec![9];
    let claim = vec![1, 2];
    assert_eq!(p.create_claim(5, keep.clone(), 0), Ok(()));
    assert_eq!(p.create_claim(7, claim.clone(), 1), Ok(()));
    assert_eq!(p.revoke_claim(7, claim.clone()), Ok(()));
    assert_eq!(p.my_proofs(&claim), None);
    assert_eq!(p.my_proofs(&keep), Some((5, 0)));
}

#[test]
fn only_the_owner_may_revoke_or_transfer() {
    let mut p = Pallet::new();
    let claim = vec![8, 8];
    assert_eq!(p.create_claim(1, claim.clone(), 6), Ok(()));
    assert_eq!(p.revoke_claim(2, claim.clone()), Err(Error::NotClaimOwner));
    assert_eq!(p.transfer_claim(2, claim.clone(), 3), Err(Error::NotClaimOwner));
    assert_eq!(p.my_proofs(&claim), Some((1, 6)));
    assert_eq!(p.events().len(), 1);
}

#[test]
fn empty_claim_is_accepted() {
    let mut p = Pallet::new();
    let claim: Vec<u8> = vec![];
    assert_eq!(p.create_claim(4, claim.clone(), 11), Ok(()));
    assert_eq!(p.my_proofs(&claim), Some((4, 11)));
}

#[test]
fn transfer_keeps_the_creation_time() {
    let mut p = Pallet::new();
    let claim = vec![0, 1];
    assert_eq!(p.create_claim(1, claim.clone(), 7), Ok(()));
    assert_eq!(p.transfer_claim(1, claim.clone(), 2), Ok(()));
    assert_eq!(p.my_proofs(&claim), Some((2, 7)));
}

#[test]
fn create_create_revoke_revoke_scenario() {
    let mut p = Pallet::new();
    let claim = vec![0, 1];
    assert_eq!(p.create_claim(1, claim.clone(), 0), Ok(()));
    assert_eq!(p.my_proofs(&claim), Some((1, 0)));
    assert_eq!(p.create_claim(1, claim.clone(), 0), Err(Error::ClaimAlreadyExist));
    assert_eq!(p.revoke_claim(1, claim.clone()), Ok(()));
    assert_eq!(p.my_proofs(&claim), None);
    assert_eq!(p.revoke_claim(1, claim.clone()), Err(Error::ClaimNotExist));
}

#[test]
fn recreate_after_revoke_gets_a_fresh_timestamp() {
    let mut p = Pallet::new();
    let claim = vec![6];
    assert_eq!(p.create_claim(1, claim.clone(), 10), Ok(()));
    assert_eq!(p.revoke_claim(1, claim.clone()), Ok(()));
    assert_eq!(p.create_claim(2, claim.clone(), 20), Ok(()));
    assert_eq!(p.my_proofs(&claim), Some((2, 20)));
}

#[test]
fn self_transfer_keeps_the_record_and_notifies() {
    let mut p = Pallet::new();
    let claim = vec![2, 2];
    assert_eq!(p.create_claim(1, claim.clone(), 3), Ok(()));
    assert_eq!(p.transfer_claim(1, claim.clone(), 1), Ok(()));
    assert_eq!(p.my_proofs(&claim), Some((1, 3)));
    assert_eq!(p.events().len(), 2);
    assert_eq!(p.events()[1], Event::ClaimTransferred(1, claim.clone()));
}

#[test]
fn one_notification_per_successful_operation() {
    let mut p = Pallet::new();
    let claim = vec![0, 1];
    assert_eq!(p.events().len(), 0);

    assert_eq!(p.create_claim(1, claim.clone(), 0), Ok(()));
    assert_eq!(p.events().len(), 1);
    assert_eq!(p.events()[0], Event::ClaimCreated(1, claim.clone()));

    assert_eq!(p.transfer_claim(1, claim.clone(), 2), Ok(()));
    assert_eq!(p.events().len(), 2);
    assert_eq!(p.events()[1], Event::ClaimTransferred(2, claim.clone()));

    assert_eq!(p.revoke_claim(2, claim.clone()), Ok(()));
    assert_eq!(p.events().len(), 3);
    assert_eq!(p.events()[2], Event::ClaimRevoked(2, claim.clone()));
}

#[test]
fn no_notification_on_any_failure() {
    let mut p = Pallet::new();
    let claim = vec![0, 1];
    let long = vec![0, 1, 2, 3, 4, 5, 6, 7, 8, 9, 10];
    assert!(p.revoke_claim(1, claim.clone()).is_err());
    assert!(p.transfer_claim(1, claim.clone(), 2).is_err());
    assert!(p.create_claim(1, long.clone(), 0).is_err());
    assert_eq!(p.events().len(), 0);

    assert_eq!(p.create_claim(1, claim.clone(), 0), Ok(()));
    assert!(p.create_claim(2, claim.clone(), 0).is_err());
    assert!(p.revoke_claim(2, claim.clone()).is_err());
    assert!(p.transfer_claim(2, claim.clone(), 3).is_err());
    assert_eq!(p.events().len(), 1);
}

#[test]
fn oversized_claim_never_registers() {
    let mut p = Pallet::new();
    let long = vec![0, 1, 2, 3, 4, 5, 6, 7, 8, 9, 10];
    assert_eq!(p.create_claim(1, long.clone(), 0), Err(Error::ClaimOverSize));
    assert_eq!(p.create_claim(2, long.clone(), 1), Err(Error::ClaimOverSize));
    assert_eq!(p.my_proofs(&long), None);
}

#[test]
fn distinct_claims_live_side_by_side() {
    let mut p = Pallet::new();
    let a = vec![1];
    let b = vec![1, 0];
    let c: Vec<u8> = vec![];
    assert_eq!(p.create_claim(1, a.clone(), 0), Ok(()));
    assert_eq!(p.create_claim(2, b.clone(), 1), Ok(()));
    assert_eq!(p.create_claim(3, c.clone(), 2), Ok(()));
    assert_eq!(p.transfer_claim(2, b.clone(), 9), Ok(()));
    assert_eq!(p.revoke_claim(1, a.clone()), Ok(()));
    assert_eq!(p.my_proofs(&a), None);
    assert_eq!(p.my_proofs(&b), Some((9, 1)));
    assert_eq!(p.my_proofs(&c), Some((3, 2)));
}
