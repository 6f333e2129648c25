use poe::pallet::{Error, Event, Pallet};
use poe::state::ClaimRecord;

const ALICE: u64 = 1;
const BOB: u64 = 2;
const CAROL: u64 = 3;

#[test]
fn new_registry_is_empty() {
    let p = Pallet::new();
    assert_eq!(p.claim_count(), 0);
    assert_eq!(p.events().len(), 0);
    assert!(!p.contains_claim(&b"doc1".to_vec()));
    assert_eq!(p.get_claim(&b"doc1".to_vec()), None);
}

#[test]
fn create_claim_records_owner_and_height() {
    let mut p = Pallet::new();
    let r = p.create_claim(ALICE, b"doc1".to_vec(), 10);
    assert_eq!(r, Ok(()));
    assert!(p.contains_claim(&b"doc1".to_vec()));
    assert_eq!(
        p.get_claim(&b"doc1".to_vec()),
        Some(ClaimRecord { owner: ALICE, created_at: 10 })
    );
    assert_eq!(p.claim_count(), 1);
    assert_eq!(p.events().len(), 1);
    assert_eq!(p.events()[0], Event::ClaimCreated(ALICE, b"doc1".to_vec()));
}

#[test]
fn create_claim_rejects_claimed_proof() {
    let mut p = Pallet::new();
    assert_eq!(p.create_claim(ALICE, b"doc1".to_vec(), 10), Ok(()));
    let r = p.create_claim(BOB, b"doc1".to_vec(), 11);
    assert_eq!(r, Err(Error::ProofAlreadyClaimed));
    assert_eq!(
        p.get_claim(&b"doc1".to_vec()),
        Some(ClaimRecord { owner: ALICE, created_at: 10 })
    );
    assert_eq!(p.claim_count(), 1);
    assert_eq!(p.events().len(), 1);
}

#[test]
fn revoke_claim_rejects_unclaimed_proof() {
    let mut p = Pallet::new();
    let r = p.revoke_claim(ALICE, b"doc1".to_vec());
    assert_eq!(r, Err(Error::NoSuchProof));
    assert_eq!(p.events().len(), 0);
}

#[test]
fn transfer_claim_rejects_unclaimed_proof() {
    let mut p = Pallet::new();
    let r = p.transfer_claim(ALICE, b"doc1".to_vec(), BOB);
    assert_eq!(r, Err(Error::NoSuchProof));
    assert_eq!(p.events().len(), 0);
}

#[test]
fn revoke_claim_rejects_non_owner() {
    let mut p = Pallet::new();
    assert_eq!(p.create_claim(ALICE, b"doc1".to_vec(), 10), Ok(()));
    let r = p.revoke_claim(BOB, b"doc1".to_vec());
    assert_eq!(r, Err(Error::NotProofOwner));
    assert_eq!(
        p.get_claim(&b"doc1".to_vec()),
        Some(ClaimRecord { owner: ALICE, created_at: 10 })
    );
    assert_eq!(p.events().len(), 1);
}

#[test]
fn revoke_claim_by_owner_removes_claim() {
    let mut p = Pallet::new();
    assert_eq!(p.create_claim(ALICE, b"doc1".to_vec(), 10), Ok(()));
    let r = p.revoke_claim(ALICE, b"doc1".to_vec());
    assert_eq!(r, Ok(()));
    assert!(!p.contains_claim(&b"doc1".to_vec()));
    assert_eq!(p.claim_count(), 0);
    assert_eq!(p.events().len(), 2);
    assert_eq!(p.events()[1], Event::ClaimRevoked(ALICE, b"doc1".to_vec()));
}

#[test]
fn transfer_claim_keeps_creation_height() {
    let mut p = Pallet::new();
    assert_eq!(p.create_claim(ALICE, b"doc1".to_vec(), 10), Ok(()));
    let r = p.transfer_claim(ALICE, b"doc1".to_vec(), BOB);
    assert_eq!(r, Ok(()));
    assert_eq!(
        p.get_claim(&b"doc1".to_vec()),
        Some(ClaimRecord { owner: BOB, created_at: 10 })
    );
    assert_eq!(p.events()[1], Event::ClaimTransferred(ALICE, b"doc1".to_vec()));
    // The new owner is in turn entitled to transfer the claim.
    let r2 = p.transfer_claim(BOB, b"doc1".to_vec(), CAROL);
    assert_eq!(r2, Ok(()));
    assert_eq!(
        p.get_claim(&b"doc1".to_vec()),
        Some(ClaimRecord { owner: CAROL, created_at: 10 })
    );
}

#[test]
fn transfer_claim_rejects_non_owner() {
    let mut p = Pallet::new();
    assert_eq!(p.create_claim(ALICE, b"doc1".to_vec(), 10), Ok(()));
    let r = p.transfer_claim(BOB, b"doc1".to_vec(), CAROL);
    assert_eq!(r, Err(Error::NotProofOwner));
    assert_eq!(
        p.get_claim(&b"doc1".to_vec()),
        Some(ClaimRecord { owner: ALICE, created_at: 10 })
    );
}

#[test]
fn transfer_claim_to_self_is_allowed() {
    let mut p = Pallet::new();
    assert_eq!(p.create_claim(ALICE, b"doc1".to_vec(), 10), Ok(()));
    let r = p.transfer_claim(ALICE, b"doc1".to_vec(), ALICE);
    assert_eq!(r, Ok(()));
    assert_eq!(
        p.get_claim(&b"doc1".to_vec()),
        Some(ClaimRecord { owner: ALICE, created_at: 10 })
    );
}

#[test]
fn create_then_revoke_restores_absence() {
    let mut p = Pallet::new();
    assert!(!p.contains_claim(&b"doc1".to_vec()));
    assert_eq!(p.create_claim(ALICE, b"doc1".to_vec(), 10), Ok(()));
    assert_eq!(p.revoke_claim(ALICE, b"doc1".to_vec()), Ok(()));
    assert!(!p.contains_claim(&b"doc1".to_vec()));
    assert_eq!(p.get_claim(&b"doc1".to_vec()), None);
    assert_eq!(p.claim_count(), 0);
    // The proof can be claimed again, as if for the first time.
    assert_eq!(p.create_claim(BOB, b"doc1".to_vec(), 12), Ok(()));
    assert_eq!(
        p.get_claim(&b"doc1".to_vec()),
        Some(ClaimRecord { owner: BOB, created_at: 12 })
    );
}

#[test]
fn empty_proof_bytes_are_a_valid_key() {
    let mut p = Pallet::new();
    assert_eq!(p.create_claim(ALICE, Vec::new(), 5), Ok(()));
    assert!(p.contains_claim(&Vec::new()));
    assert_eq!(
        p.get_claim(&Vec::new()),
        Some(ClaimRecord { owner: ALICE, created_at: 5 })
    );
    assert_eq!(p.create_claim(BOB, Vec::new(), 6), Err(Error::ProofAlreadyClaimed));
    assert_eq!(p.revoke_claim(ALICE, Vec::new()), Ok(()));
    assert_eq!(p.claim_count(), 0);
}

#[test]
fn distinct_proofs_are_independent() {
    let mut p = Pallet::new();
    assert_eq!(p.create_claim(ALICE, b"doc1".to_vec(), 10), Ok(()));
    assert_eq!(p.create_claim(BOB, b"doc2".to_vec(), 11), Ok(()));
    assert_eq!(p.claim_count(), 2);
    assert_eq!(p.revoke_claim(ALICE, b"doc1".to_vec()), Ok(()));
    assert_eq!(p.claim_count(), 1);
    assert!(!p.contains_claim(&b"doc1".to_vec()));
    assert_eq!(
        p.get_claim(&b"doc2".to_vec()),
        Some(ClaimRecord { owner: BOB, created_at: 11 })
    );
}

#[test]
fn event_log_records_each_transition_in_order() {
    let mut p = Pallet::new();
    assert_eq!(p.create_claim(ALICE, b"doc1".to_vec(), 10), Ok(()));
    assert_eq!(p.transfer_claim(ALICE, b"doc1".to_vec(), BOB), Ok(()));
    assert_eq!(p.revoke_claim(BOB, b"doc1".to_vec()), Ok(()));
    // A failing call adds nothing to the log.
    assert_eq!(p.revoke_claim(BOB, b"doc1".to_vec()), Err(Error::NoSuchProof));
    let expected = vec![
        Event::ClaimCreated(ALICE, b"doc1".to_vec()),
        Event::ClaimTransferred(ALICE, b"doc1".to_vec()),
        Event::ClaimRevoked(BOB, b"doc1".to_vec()),
    ];
    assert_eq!(p.events(), &expected);
}

#[test]
fn scenario_create_transfer_revoke() {
    let mut p = Pallet::new();
    assert_eq!(p.create_claim(ALICE, b"doc1".to_vec(), 10), Ok(()));
    assert_eq!(
        p.get_claim(&b"doc1".to_vec()),
        Some(ClaimRecord { owner: ALICE, created_at: 10 })
    );
    assert_eq!(p.transfer_claim(ALICE, b"doc1".to_vec(), BOB), Ok(()));
    assert_eq!(
        p.get_claim(&b"doc1".to_vec()),
        Some(ClaimRecord { owner: BOB, created_at: 10 })
    );
    assert_eq!(p.revoke_claim(ALICE, b"doc1".to_vec()), Err(Error::NotProofOwner));
    assert_eq!(
        p.get_claim(&b"doc1".to_vec()),
        Some(ClaimRecord { owner: BOB, created_at: 10 })
    );
    assert_eq!(p.revoke_claim(BOB, b"doc1".to_vec()), Ok(()));
    assert_eq!(p.claim_count(), 0);
    assert!(!p.contains_claim(&b"doc1".to_vec()));
}
