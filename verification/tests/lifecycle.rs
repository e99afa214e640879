//! The dispute lifecycle end to end: panel registration, commit-reveal,
//! settlement, and the terminal state.

use dispute_protocol::hashing::commit_hash;
use dispute_protocol::ProtocolContract;
use dispute_protocol::ProtocolError;

const OWNER: u64 = 1;
const TOKEN: u64 = 2;
const REQUESTER: u64 = 100;
const BENEFICIARY: u64 = 200;
const JUDGES: [u64; 5] = [11, 12, 13, 14, 15];

fn secret_for(judge: u64) -> Vec<u8> {
    vec![judge as u8, 0xaa, 0x55]
}

/// A protocol with five registered judges and one dispute whose panel is
/// full, so the dispute is open for commits.
fn open_dispute() -> (ProtocolContract, u64) {
    let mut p = ProtocolContract::init(OWNER, TOKEN);
    for j in JUDGES {
        p.register_as_judge(j).unwrap();
    }
    let id = p
        .create_dispute(REQUESTER, 7, REQUESTER, BENEFICIARY, "evidence")
        .unwrap();
    for j in JUDGES {
        p.register_to_vote(id, j).unwrap();
    }
    (p, id)
}

/// Drive one dispute to resolution with the given votes, one per judge.
fn resolve_with_votes(p: &mut ProtocolContract, votes: [bool; 5]) -> u64 {
    let id = p
        .create_dispute(REQUESTER, 7, REQUESTER, BENEFICIARY, "evidence")
        .unwrap();
    for j in JUDGES {
        p.register_to_vote(id, j).unwrap();
    }
    for (k, j) in JUDGES.iter().enumerate() {
        p.commit_vote(id, *j, commit_hash(votes[k], &secret_for(*j)))
            .unwrap();
    }
    for (k, j) in JUDGES.iter().enumerate() {
        p.reveal_votes(id, *j, votes[k], secret_for(*j)).unwrap();
    }
    id
}

#[test]
fn quorum_transition_opens_exactly_at_fifth_judge() {
    let mut p = ProtocolContract::init(OWNER, TOKEN);
    let extra: u64 = 16;
    for j in JUDGES {
        p.register_as_judge(j).unwrap();
    }
    p.register_as_judge(extra).unwrap();
    let id = p
        .create_dispute(REQUESTER, 7, REQUESTER, BENEFICIARY, "evidence")
        .unwrap();
    for (k, j) in JUDGES.iter().enumerate() {
        let (_, _, _, _, waiting, open, resolved) = p.get_dispute(id);
        assert!(waiting && !open && !resolved, "before judge {k} the dispute must wait");
        p.register_to_vote(id, *j).unwrap();
    }
    let (_, _, _, _, waiting, open, resolved) = p.get_dispute(id);
    assert!(!waiting && open && !resolved, "the fifth judge opens the dispute");
    // A sixth registration must not re-trigger the transition.
    assert_eq!(
        p.register_to_vote(id, extra),
        Err(ProtocolError::JudgesAlreadyAssigned)
    );
    let (_, _, _, _, waiting, open, resolved) = p.get_dispute(id);
    assert!(!waiting && open && !resolved);
}

#[test]
fn reveal_with_wrong_secret_is_rejected() {
    let (mut p, id) = open_dispute();
    let j = JUDGES[0];
    p.commit_vote(id, j, commit_hash(true, &secret_for(j))).unwrap();
    // Wrong secret: the digest cannot match the stored commit.
    assert_eq!(
        p.reveal_votes(id, j, true, vec![9, 9, 9]),
        Err(ProtocolError::HashMismatch)
    );
    // Wrong vote bit under the right secret is just as rejected.
    assert_eq!(
        p.reveal_votes(id, j, false, secret_for(j)),
        Err(ProtocolError::HashMismatch)
    );
    let (vf, va) = p.get_dispute_votes(id);
    assert_eq!((vf, va), (0, 0));
}

#[test]
fn reveal_with_matching_secret_succeeds_exactly_once() {
    let (mut p, id) = open_dispute();
    let j = JUDGES[0];
    p.commit_vote(id, j, commit_hash(true, &secret_for(j))).unwrap();
    assert_eq!(p.reveal_votes(id, j, true, secret_for(j)), Ok(()));
    assert_eq!(p.get_dispute_votes(id), (1, 0));
    assert_eq!(
        p.reveal_votes(id, j, true, secret_for(j)),
        Err(ProtocolError::JudgeAlreadyVoted)
    );
    assert_eq!(p.get_dispute_votes(id), (1, 0));
}

#[test]
fn reveal_without_commit_is_rejected() {
    let (mut p, id) = open_dispute();
    assert_eq!(
        p.reveal_votes(id, JUDGES[0], true, secret_for(JUDGES[0])),
        Err(ProtocolError::JudgeNotAllowedToVote)
    );
}

#[test]
fn three_two_split_resolves_to_requester() {
    let mut p = ProtocolContract::init(OWNER, TOKEN);
    for j in JUDGES {
        p.register_as_judge(j).unwrap();
    }
    let id = resolve_with_votes(&mut p, [true, true, true, false, false]);
    assert_eq!(p.get_dispute_votes(id), (3, 2));
    assert_eq!(p.get_dispute_winner(id), Ok(true));
}

#[test]
fn two_three_split_resolves_to_beneficiary() {
    let mut p = ProtocolContract::init(OWNER, TOKEN);
    for j in JUDGES {
        p.register_as_judge(j).unwrap();
    }
    let id = resolve_with_votes(&mut p, [true, false, true, false, false]);
    assert_eq!(p.get_dispute_votes(id), (2, 3));
    assert_eq!(p.get_dispute_winner(id), Ok(false));
}

#[test]
fn settlement_scenario_pays_winners_and_treasury() {
    let mut p = ProtocolContract::init(OWNER, TOKEN);
    assert_eq!(p.number_of_votes(), 5);
    assert_eq!(p.dispute_price(), 50);
    for j in JUDGES {
        p.register_as_judge(j).unwrap();
    }
    let votes = [true, true, true, false, false];
    let id = resolve_with_votes(&mut p, votes);

    assert_eq!(p.get_dispute_votes(id), (3, 2));
    assert_eq!(p.get_dispute_winner(id), Ok(true));
    assert!(p.check_if_dispute_is_resolved(id));

    // Each of the three winning judges is credited 50 / 5 = 10 units and
    // gains one reputation point.
    for k in 0..3 {
        let (addr, balance, reputation) = p.get_judge(JUDGES[k]);
        assert_eq!(addr, JUDGES[k]);
        assert_eq!(balance, 10);
        assert_eq!(reputation, 1);
    }
    // Each of the two losing judges gets nothing and loses one point.
    for k in 3..5 {
        let (addr, balance, reputation) = p.get_judge(JUDGES[k]);
        assert_eq!(addr, JUDGES[k]);
        assert_eq!(balance, 0);
        assert_eq!(reputation, -1);
    }
    // The two forfeited shares, 10 * 2 = 20 units, sit in the treasury.
    assert_eq!(p.withdraw(OWNER), Ok(20));
    // A winner can withdraw the credited balance, exactly once.
    assert_eq!(p.judge_withdraw(JUDGES[0]), Ok(10));
    assert_eq!(
        p.judge_withdraw(JUDGES[0]),
        Err(ProtocolError::NoBalanceToWithdraw)
    );
}

#[test]
fn resolved_dispute_rejects_all_further_voting() {
    let mut p = ProtocolContract::init(OWNER, TOKEN);
    for j in JUDGES {
        p.register_as_judge(j).unwrap();
    }
    let id = resolve_with_votes(&mut p, [true, true, true, false, false]);

    let j = JUDGES[0];
    assert_eq!(
        p.commit_vote(id, j, commit_hash(true, &secret_for(j))),
        Err(ProtocolError::DisputeAlreadyResolved)
    );
    assert_eq!(
        p.reveal_votes(id, j, true, secret_for(j)),
        Err(ProtocolError::DisputeAlreadyResolved)
    );
    assert_eq!(
        p.register_to_vote(id, j),
        Err(ProtocolError::JudgesAlreadyAssigned)
    );
    // The declared winner never changes.
    let first = p.get_dispute_winner(id);
    let second = p.get_dispute_winner(id);
    assert_eq!(first, Ok(true));
    assert_eq!(first, second);
    assert_eq!(p.execute_dispute_result(id), Ok(true));
}

#[test]
fn reputation_saturates_at_both_bounds() {
    let mut p = ProtocolContract::init(OWNER, TOKEN);
    for j in JUDGES {
        p.register_as_judge(j).unwrap();
    }
    // Judge JUDGES[0] always votes against the 4-1 majority: its score
    // falls one point per dispute until it clamps at the lower bound,
    // while the winners climb until they clamp at the upper bound.
    for _ in 0..130 {
        resolve_with_votes(&mut p, [false, true, true, true, true]);
    }
    let (_, loser_balance, loser_reputation) = p.get_judge(JUDGES[0]);
    assert_eq!(loser_reputation, -128);
    assert_eq!(loser_balance, 0);
    let (_, winner_balance, winner_reputation) = p.get_judge(JUDGES[1]);
    assert_eq!(winner_reputation, 127);
    // 130 disputes, one 50 / 5 = 10 unit prize each.
    assert_eq!(winner_balance, 1300);
    // One forfeited share per dispute accumulates in the treasury.
    assert_eq!(p.withdraw(OWNER), Ok(1300));
}

#[test]
fn commit_requires_an_open_dispute_and_panel_membership() {
    let mut p = ProtocolContract::init(OWNER, TOKEN);
    for j in JUDGES {
        p.register_as_judge(j).unwrap();
    }
    p.register_as_judge(16).unwrap();
    let id = p
        .create_dispute(REQUESTER, 7, REQUESTER, BENEFICIARY, "evidence")
        .unwrap();
    // Not open yet: the panel is still forming.
    assert_eq!(
        p.commit_vote(id, JUDGES[0], commit_hash(true, &secret_for(JUDGES[0]))),
        Err(ProtocolError::DisputeNotOpen)
    );
    for j in JUDGES {
        p.register_to_vote(id, j).unwrap();
    }
    // Open, but judge 16 is not on the panel.
    assert_eq!(
        p.commit_vote(id, 16, commit_hash(true, &secret_for(16))),
        Err(ProtocolError::JudgeNotAllowedToVote)
    );
    // A panel member commits once, not twice.
    p.commit_vote(id, JUDGES[0], commit_hash(true, &secret_for(JUDGES[0])))
        .unwrap();
    assert_eq!(
        p.commit_vote(id, JUDGES[0], commit_hash(true, &secret_for(JUDGES[0]))),
        Err(ProtocolError::JudgeAlreadyVoted)
    );
    // A dispute id never assigned is not open either.
    assert_eq!(
        p.commit_vote(99, JUDGES[0], commit_hash(true, &secret_for(JUDGES[0]))),
        Err(ProtocolError::DisputeNotOpen)
    );
}

#[test]
fn panel_membership_is_gated_and_deduplicated() {
    let mut p = ProtocolContract::init(OWNER, TOKEN);
    p.register_as_judge(JUDGES[0]).unwrap();
    let id = p
        .create_dispute(REQUESTER, 7, REQUESTER, BENEFICIARY, "evidence")
        .unwrap();
    assert_eq!(p.register_to_vote(id, 99), Err(ProtocolError::NotAJudge));
    p.register_to_vote(id, JUDGES[0]).unwrap();
    assert_eq!(
        p.register_to_vote(id, JUDGES[0]),
        Err(ProtocolError::JudgeAlreadyRegistered)
    );
}

#[test]
fn quorum_changes_apply_to_new_disputes_only() {
    let mut p = ProtocolContract::init(OWNER, TOKEN);
    for j in JUDGES {
        p.register_as_judge(j).unwrap();
    }
    let old_id = p
        .create_dispute(REQUESTER, 7, REQUESTER, BENEFICIARY, "evidence")
        .unwrap();
    p.update_number_of_votes(OWNER, 3).unwrap();
    let new_id = p
        .create_dispute(REQUESTER, 8, REQUESTER, BENEFICIARY, "evidence")
        .unwrap();
    for j in [JUDGES[0], JUDGES[1], JUDGES[2]] {
        p.register_to_vote(old_id, j).unwrap();
        p.register_to_vote(new_id, j).unwrap();
    }
    // The dispute created under quorum 5 still waits after three judges;
    // the one created under quorum 3 is already open.
    let (_, _, _, _, old_waiting, old_open, _) = p.get_dispute(old_id);
    assert!(old_waiting && !old_open);
    let (_, _, _, _, new_waiting, new_open, _) = p.get_dispute(new_id);
    assert!(!new_waiting && new_open);
    // Settle the small dispute 2-1: the prize share is 50 / 3 = 16 units,
    // the division residue stays with the fee, and the one forfeited
    // share goes to the treasury.
    let votes = [true, true, false];
    for (k, j) in [JUDGES[0], JUDGES[1], JUDGES[2]].iter().enumerate() {
        p.commit_vote(new_id, *j, commit_hash(votes[k], &secret_for(*j)))
            .unwrap();
    }
    for (k, j) in [JUDGES[0], JUDGES[1], JUDGES[2]].iter().enumerate() {
        p.reveal_votes(new_id, *j, votes[k], secret_for(*j)).unwrap();
    }
    assert_eq!(p.get_dispute_winner(new_id), Ok(true));
    assert_eq!(p.get_judge(JUDGES[0]).1, 16);
    assert_eq!(p.get_judge(JUDGES[2]).1, 0);
    assert_eq!(p.withdraw(OWNER), Ok(16));
}

#[test]
fn winner_is_unavailable_before_resolution() {
    let (p, id) = open_dispute();
    assert_eq!(
        p.get_dispute_winner(id),
        Err(ProtocolError::DisputeNotResolvedYet)
    );
    assert_eq!(
        p.get_dispute_winner(999),
        Err(ProtocolError::DisputeNotResolvedYet)
    );
}
