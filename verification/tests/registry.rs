//! The judge registry, the configuration paths, dispute creation, and the
//! commit digest.

use dispute_protocol::hashing::commit_hash;
use dispute_protocol::ProtocolContract;
use dispute_protocol::ProtocolError;

const OWNER: u64 = 1;
const TOKEN: u64 = 2;

#[test]
fn registering_twice_is_rejected() {
    let mut p = ProtocolContract::init(OWNER, TOKEN);
    assert_eq!(p.register_as_judge(42), Ok(()));
    assert_eq!(p.register_as_judge(42), Err(ProtocolError::AlreadyRegistered));
    // The first registration created exactly the fresh record.
    assert_eq!(p.get_judge(42), (42, 0, 0));
    // An identity that never registered reads as all-zero storage.
    assert_eq!(p.get_judge(43), (0, 0, 0));
}

#[test]
fn judge_withdraw_requires_a_record_and_a_balance() {
    let mut p = ProtocolContract::init(OWNER, TOKEN);
    assert_eq!(p.judge_withdraw(42), Err(ProtocolError::NotAJudge));
    p.register_as_judge(42).unwrap();
    assert_eq!(p.judge_withdraw(42), Err(ProtocolError::NoBalanceToWithdraw));
}

#[test]
fn only_the_owner_tunes_the_quorum_and_it_stays_positive() {
    let mut p = ProtocolContract::init(OWNER, TOKEN);
    assert_eq!(p.owner(), OWNER);
    assert_eq!(p.update_number_of_votes(99, 3), Err(ProtocolError::NotOwner));
    assert_eq!(
        p.update_number_of_votes(OWNER, 0),
        Err(ProtocolError::MustBeGreaterThanZero)
    );
    assert_eq!(p.update_number_of_votes(OWNER, 3), Ok(()));
    assert_eq!(p.number_of_votes(), 3);
}

#[test]
fn treasury_withdrawal_is_owner_only_and_needs_funds() {
    let mut p = ProtocolContract::init(OWNER, TOKEN);
    assert_eq!(p.withdraw(99), Err(ProtocolError::NotOwner));
    assert_eq!(p.withdraw(OWNER), Err(ProtocolError::NoFundsToWithdraw));
}

#[test]
fn dispute_ids_start_at_one_and_only_increase() {
    let mut p = ProtocolContract::init(OWNER, TOKEN);
    assert_eq!(p.dispute_count(), 1);
    let first = p.create_dispute(7, 70, 100, 200, "evidence").unwrap();
    let second = p.create_dispute(8, 80, 101, 201, "evidence").unwrap();
    assert_eq!(first, 1);
    assert_eq!(second, 2);
    assert_eq!(p.dispute_count(), 3);
    let (deal, opener, requester, beneficiary, waiting, open, resolved) = p.get_dispute(first);
    assert_eq!(
        (deal, opener, requester, beneficiary),
        (70, 7, 100, 200)
    );
    assert!(waiting && !open && !resolved);
    // An id never assigned reads as all-zero storage.
    assert_eq!(p.get_dispute(9), (0, 0, 0, 0, false, false, false));
    assert_eq!(p.get_dispute_votes(9), (0, 0));
}

#[test]
fn dispute_creation_rejects_empty_proof_text() {
    let mut p = ProtocolContract::init(OWNER, TOKEN);
    assert_eq!(
        p.create_dispute(7, 70, 100, 200, ""),
        Err(ProtocolError::ProofCannotBeEmpty)
    );
    assert_eq!(p.dispute_count(), 1);
}

#[test]
fn direct_creation_needs_the_fee_transfer_to_succeed() {
    let mut p = ProtocolContract::init(OWNER, TOKEN);
    assert_eq!(
        p.create_dispute_direct(100, 70, 200, "evidence", false),
        Err(ProtocolError::CallFailed)
    );
    assert_eq!(
        p.create_dispute_direct(100, 70, 200, "", true),
        Err(ProtocolError::ProofCannotBeEmpty)
    );
    let id = p
        .create_dispute_direct(100, 70, 200, "evidence", true)
        .unwrap();
    let (_, opener, requester, beneficiary, _, _, _) = p.get_dispute(id);
    assert_eq!((opener, requester, beneficiary), (100, 100, 200));
}

#[test]
fn proof_updates_are_identity_gated() {
    let mut p = ProtocolContract::init(OWNER, TOKEN);
    let id = p.create_dispute(7, 70, 100, 200, "evidence").unwrap();
    assert_eq!(
        p.update_dispute_for_payer(id, 999, "more"),
        Err(ProtocolError::NotTheRequester)
    );
    assert_eq!(
        p.update_dispute_for_payer(id, 100, ""),
        Err(ProtocolError::ProofCannotBeEmpty)
    );
    assert_eq!(p.update_dispute_for_payer(id, 100, "more"), Ok(()));
    assert_eq!(
        p.update_dispute_for_beneficiary(id, 999, "more"),
        Err(ProtocolError::NotTheBeneficiary)
    );
    assert_eq!(
        p.update_dispute_for_beneficiary(id, 200, ""),
        Err(ProtocolError::ProofCannotBeEmpty)
    );
    assert_eq!(p.update_dispute_for_beneficiary(id, 200, "more"), Ok(()));
}

#[test]
fn proof_updates_stop_once_the_dispute_is_resolved() {
    let mut p = ProtocolContract::init(OWNER, TOKEN);
    let judges: [u64; 5] = [11, 12, 13, 14, 15];
    for j in judges {
        p.register_as_judge(j).unwrap();
    }
    let id = p.create_dispute(7, 70, 100, 200, "evidence").unwrap();
    for j in judges {
        p.register_to_vote(id, j).unwrap();
    }
    for j in judges {
        p.commit_vote(id, j, commit_hash(true, &vec![j as u8])).unwrap();
    }
    for j in judges {
        p.reveal_votes(id, j, true, vec![j as u8]).unwrap();
    }
    assert_eq!(
        p.update_dispute_for_payer(id, 100, "more"),
        Err(ProtocolError::DisputeAlreadyResolved)
    );
    assert_eq!(
        p.update_dispute_for_beneficiary(id, 200, "more"),
        Err(ProtocolError::DisputeAlreadyResolved)
    );
}

#[test]
fn commit_digest_is_a_real_32_byte_hash() {
    // A digest of a short preimage is still 32 bytes, so the hash cannot be
    // the preimage handed back unchanged.
    let d1 = commit_hash(true, &vec![1, 2, 3]);
    assert_eq!(d1.len(), 32);
    assert_ne!(d1.as_slice(), [1u8, 1, 2, 3].as_slice());
    // Different secrets and different vote bits give different digests.
    let d2 = commit_hash(true, &vec![1, 2, 4]);
    let d3 = commit_hash(false, &vec![1, 2, 3]);
    assert_ne!(d1, d2);
    assert_ne!(d1, d3);
    // The digest is a function of the vote and secret alone.
    assert_eq!(d1, commit_hash(true, &vec![1, 2, 3]));
}
