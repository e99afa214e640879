//! The protocol aggregate: global configuration, the judge registry, the
//! dispute table, and every operation a collaborator can invoke.
//!
//! Each operation is atomic: it either applies all of its effects and
//! returns `Ok`, or returns an error and leaves the state untouched.  The
//! caller identity is supplied explicitly by the host environment that
//! serializes the operations.

use std::collections::HashMap;
use vstd::prelude::*;

use crate::dispute::{reveal_step, CommitSlot, Dispute};
use crate::dispute::{lemma_all_revealed, lemma_commit_capacity, lemma_count_bounds,
    lemma_count_push, lemma_count_update};
use crate::errors::ProtocolError;
use crate::hashing::{bytes_eq, commit_digest, commit_hash};
use crate::judge::{settled_judge, Judge};

verus! {

broadcast use vstd::std_specs::hash::group_hash_axioms;

/// Judges required to open and to resolve a dispute, unless the owner
/// reconfigures it.
pub const DEFAULT_NUMBER_OF_VOTES: u8 = 5;

/// Fee escrowed per dispute, in token units; it forms the prize pool.
pub const DEFAULT_DISPUTE_PRICE: u64 = 50;

/// How many disputes in the table have reached their terminal state.
pub open spec fn resolved_total(ds: Seq<Dispute>) -> int
    decreases ds.len(),
{
    if ds.len() == 0 {
        0
    } else {
        resolved_total(ds.drop_last()) + if ds.last().resolved {
            1int
        } else {
            0int
        }
    }
}

/// The resolved count lies between zero and the table length.
pub proof fn lemma_resolved_bounds(ds: Seq<Dispute>)
    ensures
        0 <= resolved_total(ds) <= ds.len(),
    decreases ds.len(),
{
    if ds.len() > 0 {
        lemma_resolved_bounds(ds.drop_last());
    }
}

/// Appending a dispute adds its contribution to the resolved count.
pub proof fn lemma_resolved_push(ds: Seq<Dispute>, d: Dispute)
    ensures
        resolved_total(ds.push(d)) == resolved_total(ds) + if d.resolved {
            1int
        } else {
            0int
        },
{
    assert(ds.push(d).drop_last() =~= ds);
    assert(ds.push(d).last() == d);
}

/// Replacing one dispute moves the resolved count by the difference of the
/// old and new contributions.
pub proof fn lemma_resolved_update(ds: Seq<Dispute>, i: int, d: Dispute)
    requires
        0 <= i < ds.len(),
    ensures
        resolved_total(ds.update(i, d)) == resolved_total(ds) - (if ds[i].resolved {
            1int
        } else {
            0int
        }) + (if d.resolved {
            1int
        } else {
            0int
        }),
    decreases ds.len(),
{
    let t = ds.update(i, d);
    if i == ds.len() - 1 {
        assert(t.drop_last() =~= ds.drop_last());
        assert(t.last() == d);
        assert(ds.last() == ds[i]);
    } else {
        assert(t.drop_last() =~= ds.drop_last().update(i, d));
        assert(t.last() == ds.last());
        lemma_resolved_update(ds.drop_last(), i, d);
        assert(ds.drop_last()[i] == ds[i]);
    }
}

/// A table holding an unresolved dispute has strictly fewer resolved
/// disputes than entries.
pub proof fn lemma_resolved_missing_one(ds: Seq<Dispute>, i: int)
    requires
        0 <= i < ds.len(),
        !ds[i].resolved,
    ensures
        resolved_total(ds) <= ds.len() - 1,
    decreases ds.len(),
{
    lemma_resolved_bounds(ds.drop_last());
    if i == ds.len() - 1 {
        assert(ds.last() == ds[i]);
    } else {
        assert(ds.drop_last()[i] == ds[i]);
        lemma_resolved_missing_one(ds.drop_last(), i);
    }
}

/// How one settlement changes the judge registry: every judge who holds a
/// slot in the settled dispute is adjusted as `settled_judge` prescribes —
/// credited and rewarded when their revealed vote matches the winning side,
/// penalized otherwise — and every other judge is untouched.  No judge is
/// created or deleted.
pub open spec fn settlement_applied(
    pre_judges: Map<u64, Judge>,
    post_judges: Map<u64, Judge>,
    d: Dispute,
    requester_wins: bool,
    prize: u64,
) -> bool {
    &&& post_judges.dom() == pre_judges.dom()
    &&& forall|a: u64|
        pre_judges.contains_key(a) && d.has_slot(a) ==> #[trigger] post_judges[a] == settled_judge(
            pre_judges[a],
            d.vote_of(a) == requester_wins,
            prize,
        )
    &&& forall|a: u64|
        pre_judges.contains_key(a) && !d.has_slot(a) ==> #[trigger] post_judges[a] == pre_judges[a]
}

/// Updating one dispute in place — without resolving it, and adding only
/// registered judges to its panel — preserves the aggregate invariant.
pub proof fn lemma_wf_after_dispute_update(pre: ProtocolContract, post: ProtocolContract, idx: int)
    requires
        pre.wf(),
        0 <= idx < pre.disputes@.len(),
        post.disputes@.len() == pre.disputes@.len(),
        forall|i: int|
            0 <= i < pre.disputes@.len() && i != idx ==> post.disputes@[i] == pre.disputes@[i],
        post.disputes@[idx].wf(),
        post.disputes@[idx].resolved == pre.disputes@[idx].resolved,
        forall|j: int|
            0 <= j < post.disputes@[idx].eligible@.len() ==> pre.judges@.contains_key(
                #[trigger] post.disputes@[idx].eligible@[j],
            ),
        post.judges@ == pre.judges@,
        post.contract_balance == pre.contract_balance,
        post.dispute_count == pre.dispute_count,
        post.config_unchanged(pre),
    ensures
        post.wf(),
{
    assert(post.disputes@ =~= pre.disputes@.update(idx, post.disputes@[idx]));
    lemma_resolved_update(pre.disputes@, idx, post.disputes@[idx]);
    assert(resolved_total(post.disputes@) == resolved_total(pre.disputes@));
    assert(post.payout_cap() == pre.payout_cap());
    assert forall|i: int| 0 <= i < post.disputes@.len() implies (
    #[trigger] post.disputes@[i]).wf() by {
        if i != idx {
            assert(post.disputes@[i] == pre.disputes@[i]);
        }
    }
    assert forall|i: int, j: int|
        0 <= i < post.disputes@.len() && 0 <= j
            < post.disputes@[i].eligible@.len() implies post.judges@.contains_key(
        #[trigger] post.disputes@[i].eligible@[j],
    ) by {
        if i != idx {
            assert(post.disputes@[i] == pre.disputes@[i]);
            assert(pre.judges@.contains_key(pre.disputes@[i].eligible@[j]));
        }
    }
}

/// The whole protocol state.
pub struct ProtocolContract {
    /// The operator allowed to tune the configuration.
    pub owner: u64,
    /// The identity of the fee token collaborator, kept for the host.
    pub usdc_token: u64,
    /// The treasury: fees retained from losing-side reward shares.
    pub contract_balance: u128,
    /// The id the next dispute will take; ids start at one and are never
    /// reused.
    pub dispute_count: u64,
    /// The quorum: judges required to open and to resolve a dispute.
    pub number_of_votes: u8,
    /// The per-dispute fee that forms the prize pool.
    pub dispute_price: u64,
    /// The judge registry, keyed by identity.
    pub judges: HashMap<u64, Judge>,
    /// The dispute table: the dispute with id `i` sits at index `i - 1`.
    pub disputes: Vec<Dispute>,
}

impl ProtocolContract {
    /// A dispute with this id exists.
    pub open spec fn has_dispute(self, id: u64) -> bool {
        1 <= id && id - 1 < self.disputes@.len()
    }

    /// The dispute with the given id (meaningful when `has_dispute`).
    pub open spec fn dispute_at(self, id: u64) -> Dispute {
        self.disputes@[id - 1]
    }

    /// The stored requester of a dispute; a never-created dispute reads as
    /// all-zero storage, as the host's key-value model prescribes.
    pub open spec fn requester_of(self, id: u64) -> u64 {
        if self.has_dispute(id) {
            self.dispute_at(id).requester
        } else {
            0
        }
    }

    /// The stored beneficiary of a dispute, zero when never created.
    pub open spec fn beneficiary_of(self, id: u64) -> u64 {
        if self.has_dispute(id) {
            self.dispute_at(id).beneficiary
        } else {
            0
        }
    }

    /// Whether the dispute has been resolved; a never-created dispute has
    /// not.
    pub open spec fn resolved_of(self, id: u64) -> bool {
        self.has_dispute(id) && self.dispute_at(id).resolved
    }

    /// The upper bound the invariant keeps on every judge balance and on
    /// the treasury: each settled dispute moves at most one prize pool.
    pub open spec fn payout_cap(self) -> int {
        self.dispute_price * resolved_total(self.disputes@)
    }

    /// The configuration fields are unchanged.
    pub open spec fn config_unchanged(self, pre: ProtocolContract) -> bool {
        &&& self.owner == pre.owner
        &&& self.usdc_token == pre.usdc_token
        &&& self.number_of_votes == pre.number_of_votes
        &&& self.dispute_price == pre.dispute_price
    }

    /// Well-formedness: the invariants every reachable state satisfies.
    ///
    /// - the quorum configuration is positive;
    /// - dispute ids are dense: the table length is one less than the next
    ///   id, so ids are never reused and the counter only increases;
    /// - every stored dispute is well-formed, and every judge record is
    ///   filed under its own identity;
    /// - every eligible voter of every dispute is a registered judge;
    /// - no judge balance, and not the treasury, exceeds one prize pool per
    ///   settled dispute, which keeps the reward arithmetic in bounds.
    pub open spec fn wf(self) -> bool {
        &&& 1 <= self.number_of_votes
        &&& 1 <= self.dispute_count
        &&& self.disputes@.len() == self.dispute_count - 1
        &&& forall|i: int| 0 <= i < self.disputes@.len() ==> (#[trigger] self.disputes@[i]).wf()
        &&& forall|a: u64|
            self.judges@.contains_key(a) ==> (#[trigger] self.judges@[a]).address == a
        &&& forall|i: int, j: int|
            0 <= i < self.disputes@.len() && 0 <= j < self.disputes@[i].eligible@.len()
                ==> self.judges@.contains_key(#[trigger] self.disputes@[i].eligible@[j])
        &&& forall|a: u64|
            self.judges@.contains_key(a) ==> (#[trigger] self.judges@[a]).balance
                <= self.payout_cap()
        &&& self.contract_balance <= self.payout_cap()
    }

    /// Initialize the protocol: the given owner and fee token, an empty
    /// registry and dispute table, and the default quorum and fee.
    pub fn init(owner: u64, usdc_token: u64) -> (p: ProtocolContract)
        ensures
            p.wf(),
            p.owner == owner,
            p.usdc_token == usdc_token,
            p.contract_balance == 0,
            p.dispute_count == 1,
            p.number_of_votes == DEFAULT_NUMBER_OF_VOTES,
            p.dispute_price == DEFAULT_DISPUTE_PRICE,
            p.judges@ == Map::<u64, Judge>::empty(),
            p.disputes@ == Seq::<Dispute>::empty(),
    {
        ProtocolContract {
            owner,
            usdc_token,
            contract_balance: 0,
            dispute_count: 1,
            number_of_votes: DEFAULT_NUMBER_OF_VOTES,
            dispute_price: DEFAULT_DISPUTE_PRICE,
            judges: HashMap::new(),
            disputes: Vec::new(),
        }
    }

    /// Update the quorum required to open and resolve a dispute.  Only the
    /// owner may; the new quorum must be positive.  Disputes already
    /// created keep the quorum they were created with.
    pub fn update_number_of_votes(&mut self, caller: u64, new_number: u8) -> (r: Result<
        (),
        ProtocolError,
    >)
        requires
            old(self).wf(),
        ensures
            final(self).wf(),
            final(self).owner == old(self).owner,
            match r {
                Ok(()) => {
                    &&& caller == old(self).owner
                    &&& new_number > 0
                    &&& *final(self) == ProtocolContract {
                        number_of_votes: new_number,
                        ..*old(self)
                    }
                },
                Err(e) => {
                    &&& *final(self) == *old(self)
                    &&& (e == ProtocolError::NotOwner <==> caller != old(self).owner)
                    &&& (e == ProtocolError::MustBeGreaterThanZero <==> caller == old(self).owner
                        && new_number == 0)
                    &&& (caller != old(self).owner || new_number == 0)
                },
            },
    {
        if caller != self.owner {
            return Err(ProtocolError::NotOwner);
        }
        if new_number == 0 {
            return Err(ProtocolError::MustBeGreaterThanZero);
        }
        self.number_of_votes = new_number;
        Ok(())
    }

    /// Withdraw the treasury.  Only the owner may, and only when the
    /// treasury is non-empty.  The balance is zeroed first and the zeroed
    /// amount returned, so the host's transfer can never be replayed
    /// against a fresh balance.
    pub fn withdraw(&mut self, caller: u64) -> (r: Result<u128, ProtocolError>)
        requires
            old(self).wf(),
        ensures
            final(self).wf(),
            match r {
                Ok(amount) => {
                    &&& caller == old(self).owner
                    &&& old(self).contract_balance > 0
                    &&& amount == old(self).contract_balance
                    &&& *final(self) == ProtocolContract { contract_balance: 0, ..*old(self) }
                },
                Err(e) => {
                    &&& *final(self) == *old(self)
                    &&& (e == ProtocolError::NotOwner <==> caller != old(self).owner)
                    &&& (e == ProtocolError::NoFundsToWithdraw <==> caller == old(self).owner
                        && old(self).contract_balance == 0)
                    &&& (caller != old(self).owner || old(self).contract_balance == 0)
                },
            },
    {
        if caller != self.owner {
            return Err(ProtocolError::NotOwner);
        }
        if self.contract_balance == 0 {
            return Err(ProtocolError::NoFundsToWithdraw);
        }
        let amount = self.contract_balance;
        self.contract_balance = 0;
        proof {
            lemma_resolved_bounds(self.disputes@);
            vstd::arithmetic::mul::lemma_mul_nonnegative(
                self.dispute_price as int,
                resolved_total(self.disputes@),
            );
        }
        Ok(amount)
    }

    /// Register the caller as a judge, with a fresh record of zero balance
    /// and zero reputation.  Rejected when the caller already has a record;
    /// each distinct success grows the registry by exactly one entry.
    pub fn register_as_judge(&mut self, caller: u64) -> (r: Result<(), ProtocolError>)
        requires
            old(self).wf(),
        ensures
            final(self).wf(),
            match r {
                Ok(()) => {
                    &&& !old(self).judges@.contains_key(caller)
                    &&& final(self).judges@ == old(self).judges@.insert(
                        caller,
                        Judge { address: caller, balance: 0, reputation: 0 },
                    )
                    &&& final(self).judges@.len() == old(self).judges@.len() + 1
                    &&& final(self).disputes@ == old(self).disputes@
                    &&& final(self).contract_balance == old(self).contract_balance
                    &&& final(self).dispute_count == old(self).dispute_count
                    &&& final(self).config_unchanged(*old(self))
                },
                Err(e) => {
                    &&& *final(self) == *old(self)
                    &&& e == ProtocolError::AlreadyRegistered
                    &&& old(self).judges@.contains_key(caller)
                },
            },
    {
        if self.judges.contains_key(&caller) {
            return Err(ProtocolError::AlreadyRegistered);
        }
        self.judges.insert(caller, Judge::new(caller));
        proof {
            lemma_resolved_bounds(self.disputes@);
            vstd::arithmetic::mul::lemma_mul_nonnegative(
                self.dispute_price as int,
                resolved_total(self.disputes@),
            );
        }
        Ok(())
    }

    /// Zero and pay out the caller's judge balance.  Rejected when the
    /// caller is not a judge or has nothing to withdraw.  The balance is
    /// zeroed first and the zeroed amount returned, so a failed transfer
    /// by the host cannot be replayed against a fresh balance.
    pub fn judge_withdraw(&mut self, caller: u64) -> (r: Result<u128, ProtocolError>)
        requires
            old(self).wf(),
        ensures
            final(self).wf(),
            match r {
                Ok(amount) => {
                    &&& old(self).judges@.contains_key(caller)
                    &&& amount == old(self).judges@[caller].balance
                    &&& amount > 0
                    &&& final(self).judges@ == old(self).judges@.insert(
                        caller,
                        Judge { address: caller, balance: 0, reputation: old(self).judges@[caller].reputation },
                    )
                    &&& final(self).disputes@ == old(self).disputes@
                    &&& final(self).contract_balance == old(self).contract_balance
                    &&& final(self).dispute_count == old(self).dispute_count
                    &&& final(self).config_unchanged(*old(self))
                },
                Err(e) => {
                    &&& *final(self) == *old(self)
                    &&& (e == ProtocolError::NotAJudge <==> !old(self).judges@.contains_key(caller))
                    &&& (e == ProtocolError::NoBalanceToWithdraw <==> old(
                        self,
                    ).judges@.contains_key(caller) && old(self).judges@[caller].balance == 0)
                    &&& (!old(self).judges@.contains_key(caller) || old(
                        self,
                    ).judges@[caller].balance == 0)
                },
            },
    {
        let judge = match self.judges.get(&caller) {
            Some(j) => *j,
            None => {
                return Err(ProtocolError::NotAJudge);
            },
        };
        if judge.balance == 0 {
            return Err(ProtocolError::NoBalanceToWithdraw);
        }
        let amount = judge.balance;
        self.judges.insert(
            caller,
            Judge { address: caller, balance: 0, reputation: judge.reputation },
        );
        proof {
            lemma_resolved_bounds(self.disputes@);
            vstd::arithmetic::mul::lemma_mul_nonnegative(
                self.dispute_price as int,
                resolved_total(self.disputes@),
            );
        }
        Ok(amount)
    }

    /// Allocate the next dispute id and append a fresh dispute under it.
    fn append_dispute(
        &mut self,
        deal_id: u64,
        contract_address: u64,
        requester: u64,
        beneficiary: u64,
    ) -> (id: u64)
        requires
            old(self).wf(),
            old(self).dispute_count < u64::MAX,
        ensures
            final(self).wf(),
            id == old(self).dispute_count,
            final(self).has_dispute(id),
            final(self).dispute_count == old(self).dispute_count + 1,
            final(self).disputes@.len() == old(self).disputes@.len() + 1,
            forall|i: int|
                0 <= i < old(self).disputes@.len() ==> final(self).disputes@[i] == old(
                    self,
                ).disputes@[i],
            final(self).dispute_at(id).deal_id == deal_id,
            final(self).dispute_at(id).contract_address == contract_address,
            final(self).dispute_at(id).requester == requester,
            final(self).dispute_at(id).beneficiary == beneficiary,
            final(self).dispute_at(id).quorum == old(self).number_of_votes,
            final(self).dispute_at(id).waiting_for_judges,
            !final(self).dispute_at(id).is_open,
            !final(self).dispute_at(id).resolved,
            final(self).dispute_at(id).eligible@.len() == 0,
            final(self).dispute_at(id).slots@.len() == 0,
            final(self).dispute_at(id).votes_for == 0,
            final(self).dispute_at(id).votes_against == 0,
            final(self).judges@ == old(self).judges@,
            final(self).contract_balance == old(self).contract_balance,
            final(self).config_unchanged(*old(self)),
    {
        let id = self.dispute_count;
        let d = Dispute::new(deal_id, contract_address, requester, beneficiary, self.number_of_votes);
        self.disputes.push(d);
        self.dispute_count = self.dispute_count + 1;
        proof {
            lemma_resolved_push(old(self).disputes@, self.disputes@.last());
            assert(resolved_total(self.disputes@) == resolved_total(old(self).disputes@));
            assert(self.payout_cap() == old(self).payout_cap());
            assert forall|i: int| 0 <= i < self.disputes@.len() implies (
            #[trigger] self.disputes@[i]).wf() by {
                if i < old(self).disputes@.len() {
                    assert(self.disputes@[i] == old(self).disputes@[i]);
                }
            }
            assert forall|i: int, j: int|
                0 <= i < self.disputes@.len() && 0 <= j
                    < self.disputes@[i].eligible@.len() implies self.judges@.contains_key(
                #[trigger] self.disputes@[i].eligible@[j],
            ) by {
                assert(i < old(self).disputes@.len());
                assert(self.disputes@[i] == old(self).disputes@[i]);
                assert(old(self).judges@.contains_key(old(self).disputes@[i].eligible@[j]));
            }
        }
        id
    }

    /// Open a dispute on behalf of a marketplace collaborator: the caller
    /// is recorded as the opener, the parties as given.  The proof text
    /// must be non-empty; the new dispute takes the next id and starts
    /// waiting for its panel of judges, with the quorum configured now.
    pub fn create_dispute(
        &mut self,
        caller: u64,
        deal_id: u64,
        requester: u64,
        beneficiary: u64,
        proof_text: &str,
    ) -> (r: Result<u64, ProtocolError>)
        requires
            old(self).wf(),
            old(self).dispute_count < u64::MAX,
        ensures
            final(self).wf(),
            match r {
                Ok(id) => {
                    &&& proof_text@.len() > 0
                    &&& id == old(self).dispute_count
                    &&& final(self).dispute_count == old(self).dispute_count + 1
                    &&& final(self).disputes@.len() == old(self).disputes@.len() + 1
                    &&& forall|i: int|
                        0 <= i < old(self).disputes@.len() ==> final(self).disputes@[i] == old(
                            self,
                        ).disputes@[i]
                    &&& final(self).dispute_at(id).deal_id == deal_id
                    &&& final(self).dispute_at(id).contract_address == caller
                    &&& final(self).dispute_at(id).requester == requester
                    &&& final(self).dispute_at(id).beneficiary == beneficiary
                    &&& final(self).dispute_at(id).quorum == old(self).number_of_votes
                    &&& final(self).dispute_at(id).waiting_for_judges
                    &&& !final(self).dispute_at(id).is_open
                    &&& !final(self).dispute_at(id).resolved
                    &&& final(self).dispute_at(id).eligible@.len() == 0
                    &&& final(self).dispute_at(id).slots@.len() == 0
                    &&& final(self).judges@ == old(self).judges@
                    &&& final(self).contract_balance == old(self).contract_balance
                    &&& final(self).config_unchanged(*old(self))
                },
                Err(e) => {
                    &&& *final(self) == *old(self)
                    &&& e == ProtocolError::ProofCannotBeEmpty
                    &&& proof_text@.len() == 0
                },
            },
    {
        if proof_text.is_empty() {
            return Err(ProtocolError::ProofCannotBeEmpty);
        }
        let id = self.append_dispute(deal_id, caller, requester, beneficiary);
        Ok(id)
    }

    /// Open a dispute directly: the caller is the requester and must have
    /// paid the dispute fee; the host reports whether the fee transfer
    /// succeeded, and a failed transfer aborts the whole operation.
    pub fn create_dispute_direct(
        &mut self,
        caller: u64,
        deal_id: u64,
        beneficiary: u64,
        proof_text: &str,
        fee_transfer_ok: bool,
    ) -> (r: Result<u64, ProtocolError>)
        requires
            old(self).wf(),
            old(self).dispute_count < u64::MAX,
        ensures
            final(self).wf(),
            match r {
                Ok(id) => {
                    &&& fee_transfer_ok
                    &&& proof_text@.len() > 0
                    &&& id == old(self).dispute_count
                    &&& final(self).dispute_count == old(self).dispute_count + 1
                    &&& final(self).disputes@.len() == old(self).disputes@.len() + 1
                    &&& forall|i: int|
                        0 <= i < old(self).disputes@.len() ==> final(self).disputes@[i] == old(
                            self,
                        ).disputes@[i]
                    &&& final(self).dispute_at(id).deal_id == deal_id
                    &&& final(self).dispute_at(id).contract_address == caller
                    &&& final(self).dispute_at(id).requester == caller
                    &&& final(self).dispute_at(id).beneficiary == beneficiary
                    &&& final(self).dispute_at(id).quorum == old(self).number_of_votes
                    &&& final(self).dispute_at(id).waiting_for_judges
                    &&& !final(self).dispute_at(id).is_open
                    &&& !final(self).dispute_at(id).resolved
                    &&& final(self).dispute_at(id).eligible@.len() == 0
                    &&& final(self).dispute_at(id).slots@.len() == 0
                    &&& final(self).judges@ == old(self).judges@
                    &&& final(self).contract_balance == old(self).contract_balance
                    &&& final(self).config_unchanged(*old(self))
                },
                Err(e) => {
                    &&& *final(self) == *old(self)
                    &&& (e == ProtocolError::CallFailed <==> !fee_transfer_ok)
                    &&& (e == ProtocolError::ProofCannotBeEmpty <==> fee_transfer_ok
                        && proof_text@.len() == 0)
                    &&& (!fee_transfer_ok || proof_text@.len() == 0)
                },
            },
    {
        if !fee_transfer_ok {
            return Err(ProtocolError::CallFailed);
        }
        if proof_text.is_empty() {
            return Err(ProtocolError::ProofCannotBeEmpty);
        }
        let id = self.append_dispute(deal_id, caller, caller, beneficiary);
        Ok(id)
    }

    /// Record that the requester supplied further proof text.  The text is
    /// validated and the identity gate enforced; the voting state is never
    /// touched by this audit path.
    pub fn update_dispute_for_payer(
        &mut self,
        dispute_id: u64,
        requester: u64,
        proof_text: &str,
    ) -> (r: Result<(), ProtocolError>)
        requires
            old(self).wf(),
        ensures
            *final(self) == *old(self),
            final(self).wf(),
            match r {
                Ok(()) => {
                    &&& old(self).requester_of(dispute_id) == requester
                    &&& proof_text@.len() > 0
                    &&& !old(self).resolved_of(dispute_id)
                },
                Err(e) => {
                    &&& (e == ProtocolError::NotTheRequester <==> old(self).requester_of(dispute_id)
                        != requester)
                    &&& (e == ProtocolError::ProofCannotBeEmpty <==> old(self).requester_of(
                        dispute_id,
                    ) == requester && proof_text@.len() == 0)
                    &&& (e == ProtocolError::DisputeAlreadyResolved <==> old(self).requester_of(
                        dispute_id,
                    ) == requester && proof_text@.len() > 0 && old(self).resolved_of(dispute_id))
                    &&& (old(self).requester_of(dispute_id) != requester || proof_text@.len() == 0
                        || old(self).resolved_of(dispute_id))
                },
            },
    {
        let stored_requester = if dispute_id >= 1 && dispute_id - 1 < self.disputes.len() as u64 {
            self.disputes[(dispute_id - 1) as usize].requester
        } else {
            0
        };
        if stored_requester != requester {
            return Err(ProtocolError::NotTheRequester);
        }
        if proof_text.is_empty() {
            return Err(ProtocolError::ProofCannotBeEmpty);
        }
        if self.check_if_dispute_is_resolved(dispute_id) {
            return Err(ProtocolError::DisputeAlreadyResolved);
        }
        Ok(())
    }

    /// Record that the beneficiary supplied further proof text, under the
    /// same gates as the requester's path.
    pub fn update_dispute_for_beneficiary(
        &mut self,
        dispute_id: u64,
        beneficiary: u64,
        proof_text: &str,
    ) -> (r: Result<(), ProtocolError>)
        requires
            old(self).wf(),
        ensures
            *final(self) == *old(self),
            final(self).wf(),
            match r {
                Ok(()) => {
                    &&& old(self).beneficiary_of(dispute_id) == beneficiary
                    &&& proof_text@.len() > 0
                    &&& !old(self).resolved_of(dispute_id)
                },
                Err(e) => {
                    &&& (e == ProtocolError::NotTheBeneficiary <==> old(self).beneficiary_of(
                        dispute_id,
                    ) != beneficiary)
                    &&& (e == ProtocolError::ProofCannotBeEmpty <==> old(self).beneficiary_of(
                        dispute_id,
                    ) == beneficiary && proof_text@.len() == 0)
                    &&& (e == ProtocolError::DisputeAlreadyResolved <==> old(self).beneficiary_of(
                        dispute_id,
                    ) == beneficiary && proof_text@.len() > 0 && old(self).resolved_of(dispute_id))
                    &&& (old(self).beneficiary_of(dispute_id) != beneficiary || proof_text@.len()
                        == 0 || old(self).resolved_of(dispute_id))
                },
            },
    {
        let stored_beneficiary = if dispute_id >= 1 && dispute_id - 1 < self.disputes.len() as u64 {
            self.disputes[(dispute_id - 1) as usize].beneficiary
        } else {
            0
        };
        if stored_beneficiary != beneficiary {
            return Err(ProtocolError::NotTheBeneficiary);
        }
        if proof_text.is_empty() {
            return Err(ProtocolError::ProofCannotBeEmpty);
        }
        if self.check_if_dispute_is_resolved(dispute_id) {
            return Err(ProtocolError::DisputeAlreadyResolved);
        }
        Ok(())
    }

    /// Register the caller as an eligible voter on a dispute that still
    /// waits for its panel.  The caller must be a registered judge and not
    /// yet on the panel; when the panel reaches the dispute's quorum, the
    /// dispute leaves the waiting state and opens for commits — exactly
    /// once, since a full panel rejects every further registration.
    pub fn register_to_vote(&mut self, dispute_id: u64, caller: u64) -> (r: Result<
        (),
        ProtocolError,
    >)
        requires
            old(self).wf(),
            old(self).has_dispute(dispute_id),
        ensures
            final(self).wf(),
            final(self).dispute_count == old(self).dispute_count,
            match r {
                Ok(()) => {
                    &&& old(self).dispute_at(dispute_id).waiting_for_judges
                    &&& old(self).judges@.contains_key(caller)
                    &&& !old(self).dispute_at(dispute_id).eligible@.contains(caller)
                    &&& final(self).dispute_at(dispute_id).eligible@ == old(self).dispute_at(
                        dispute_id,
                    ).eligible@.push(caller)
                    &&& final(self).dispute_at(dispute_id).waiting_for_judges == (old(
                        self,
                    ).dispute_at(dispute_id).eligible@.len() + 1 < old(self).dispute_at(
                        dispute_id,
                    ).quorum)
                    &&& final(self).dispute_at(dispute_id).is_open == (old(self).dispute_at(
                        dispute_id,
                    ).eligible@.len() + 1 == old(self).dispute_at(dispute_id).quorum)
                    &&& !final(self).dispute_at(dispute_id).resolved
                    &&& final(self).dispute_at(dispute_id).slots@ == old(self).dispute_at(
                        dispute_id,
                    ).slots@
                    &&& final(self).dispute_at(dispute_id).quorum == old(self).dispute_at(
                        dispute_id,
                    ).quorum
                    &&& final(self).dispute_at(dispute_id).requester == old(self).dispute_at(
                        dispute_id,
                    ).requester
                    &&& final(self).dispute_at(dispute_id).beneficiary == old(self).dispute_at(
                        dispute_id,
                    ).beneficiary
                    &&& forall|i: int|
                        0 <= i < old(self).disputes@.len() && i != dispute_id - 1
                            ==> final(self).disputes@[i] == old(self).disputes@[i]
                    &&& final(self).judges@ == old(self).judges@
                    &&& final(self).contract_balance == old(self).contract_balance
                    &&& final(self).config_unchanged(*old(self))
                },
                Err(e) => {
                    &&& *final(self) == *old(self)
                    &&& (e == ProtocolError::JudgesAlreadyAssigned <==> !old(self).dispute_at(
                        dispute_id,
                    ).waiting_for_judges)
                    &&& (e == ProtocolError::NotAJudge <==> old(self).dispute_at(
                        dispute_id,
                    ).waiting_for_judges && !old(self).judges@.contains_key(caller))
                    &&& (e == ProtocolError::JudgeAlreadyRegistered <==> old(self).dispute_at(
                        dispute_id,
                    ).waiting_for_judges && old(self).judges@.contains_key(caller) && old(
                        self,
                    ).dispute_at(dispute_id).eligible@.contains(caller))
                    &&& (!old(self).dispute_at(dispute_id).waiting_for_judges || !old(
                        self,
                    ).judges@.contains_key(caller) || old(self).dispute_at(
                        dispute_id,
                    ).eligible@.contains(caller))
                },
            },
    {
        let n = self.disputes.len();
        proof {
            assert(dispute_id - 1 < n);
        }
        let idx = (dispute_id - 1) as usize;
        assert(idx == dispute_id - 1);
        if !self.disputes[idx].waiting_for_judges {
            return Err(ProtocolError::JudgesAlreadyAssigned);
        }
        if !self.judges.contains_key(&caller) {
            return Err(ProtocolError::NotAJudge);
        }
        if self.disputes[idx].is_eligible(caller) {
            return Err(ProtocolError::JudgeAlreadyRegistered);
        }
        let ghost pre = *self;
        let d = &mut self.disputes[idx];
        d.eligible.push(caller);
        if d.eligible.len() == d.quorum as usize {
            d.waiting_for_judges = false;
            d.is_open = true;
        }
        proof {
            let dd = self.disputes@[idx as int];
            assert(dd.eligible@ == pre.disputes@[idx as int].eligible@.push(caller));
            assert forall|i: int, j: int|
                0 <= i < dd.eligible@.len() && 0 <= j < dd.eligible@.len() && i
                    != j implies dd.eligible@[i] != dd.eligible@[j] by {
                if i < dd.eligible@.len() - 1 && j < dd.eligible@.len() - 1 {
                    assert(pre.disputes@[idx as int].eligible@.no_duplicates());
                } else {
                    assert(!pre.disputes@[idx as int].eligible@.contains(caller));
                }
            }
            assert(dd.wf());
            lemma_wf_after_dispute_update(pre, *self, idx as int);
        }
        Ok(())
    }

    /// Record the caller's commit on an open dispute: the next commit slot,
    /// in first-come order, binds the caller to the given digest.  Only a
    /// panel member without a slot may commit, and only while the dispute
    /// is open.
    pub fn commit_vote(&mut self, dispute_id: u64, caller: u64, commit_hash: Vec<u8>) -> (r: Result<
        (),
        ProtocolError,
    >)
        requires
            old(self).wf(),
            commit_hash@.len() == 32,
        ensures
            final(self).wf(),
            final(self).dispute_count == old(self).dispute_count,
            match r {
                Ok(()) => {
                    &&& old(self).has_dispute(dispute_id)
                    &&& old(self).dispute_at(dispute_id).is_open
                    &&& old(self).dispute_at(dispute_id).eligible@.contains(caller)
                    &&& !old(self).dispute_at(dispute_id).has_slot(caller)
                    &&& final(self).dispute_at(dispute_id).slots@ == old(self).dispute_at(
                        dispute_id,
                    ).slots@.push(
                        (CommitSlot { voter: caller, hash: commit_hash, revealed: false, vote: false }),
                    )
                    &&& final(self).dispute_at(dispute_id).has_slot(caller)
                    &&& final(self).dispute_at(dispute_id).eligible@ == old(self).dispute_at(
                        dispute_id,
                    ).eligible@
                    &&& final(self).dispute_at(dispute_id).is_open
                    &&& !final(self).dispute_at(dispute_id).resolved
                    &&& final(self).dispute_at(dispute_id).votes_for == old(self).dispute_at(
                        dispute_id,
                    ).votes_for
                    &&& final(self).dispute_at(dispute_id).votes_against == old(self).dispute_at(
                        dispute_id,
                    ).votes_against
                    &&& final(self).dispute_at(dispute_id).reveals_count == old(self).dispute_at(
                        dispute_id,
                    ).reveals_count
                    &&& final(self).dispute_at(dispute_id).quorum == old(self).dispute_at(
                        dispute_id,
                    ).quorum
                    &&& forall|i: int|
                        0 <= i < old(self).disputes@.len() && i != dispute_id - 1
                            ==> final(self).disputes@[i] == old(self).disputes@[i]
                    &&& final(self).judges@ == old(self).judges@
                    &&& final(self).contract_balance == old(self).contract_balance
                    &&& final(self).config_unchanged(*old(self))
                },
                Err(e) => {
                    &&& *final(self) == *old(self)
                    &&& (e == ProtocolError::DisputeAlreadyResolved <==> old(self).resolved_of(
                        dispute_id,
                    ))
                    &&& (e == ProtocolError::DisputeNotOpen <==> !old(self).resolved_of(dispute_id)
                        && !(old(self).has_dispute(dispute_id) && old(self).dispute_at(
                        dispute_id,
                    ).is_open))
                    &&& (e == ProtocolError::JudgeNotAllowedToVote <==> old(self).has_dispute(
                        dispute_id,
                    ) && old(self).dispute_at(dispute_id).is_open && !old(self).dispute_at(
                        dispute_id,
                    ).eligible@.contains(caller))
                    &&& (e == ProtocolError::JudgeAlreadyVoted <==> old(self).has_dispute(
                        dispute_id,
                    ) && old(self).dispute_at(dispute_id).is_open && old(self).dispute_at(
                        dispute_id,
                    ).eligible@.contains(caller) && old(self).dispute_at(dispute_id).has_slot(
                        caller,
                    ))
                    &&& (old(self).resolved_of(dispute_id) || !(old(self).has_dispute(dispute_id)
                        && old(self).dispute_at(dispute_id).is_open) || !old(self).dispute_at(
                        dispute_id,
                    ).eligible@.contains(caller) || old(self).dispute_at(dispute_id).has_slot(
                        caller,
                    ))
                },
            },
    {
        if !(dispute_id >= 1 && dispute_id - 1 < self.disputes.len() as u64) {
            return Err(ProtocolError::DisputeNotOpen);
        }
        let idx = (dispute_id - 1) as usize;
        if self.disputes[idx].resolved {
            return Err(ProtocolError::DisputeAlreadyResolved);
        }
        if !self.disputes[idx].is_open {
            return Err(ProtocolError::DisputeNotOpen);
        }
        if !self.disputes[idx].is_eligible(caller) {
            return Err(ProtocolError::JudgeNotAllowedToVote);
        }
        match self.disputes[idx].find_slot(caller) {
            Some(_) => {
                return Err(ProtocolError::JudgeAlreadyVoted);
            },
            None => {},
        }
        proof {
            lemma_commit_capacity(self.disputes@[idx as int], caller);
        }
        let ghost pre = *self;
        let d = &mut self.disputes[idx];
        d.slots.push(CommitSlot { voter: caller, hash: commit_hash, revealed: false, vote: false });
        proof {
            let dd = self.disputes@[idx as int];
            let pre_d = pre.disputes@[idx as int];
            lemma_count_push(pre_d.slots@, dd.slots@.last());
            assert(dd.has_slot(caller)) by {
                assert(dd.slots@[dd.slots@.len() - 1].voter == caller);
            }
            assert forall|i: int, j: int|
                0 <= i < j < dd.slots@.len() implies dd.slots@[i].voter != dd.slots@[j].voter by {
                if j < dd.slots@.len() - 1 {
                    assert(pre_d.slots@[i].voter != pre_d.slots@[j].voter);
                } else {
                    assert(dd.slots@[j].voter == caller);
                    assert(dd.slots@[i] == pre_d.slots@[i]);
                    if pre_d.slots@[i].voter == caller {
                        assert(pre_d.has_slot(caller));
                    }
                }
            }
            assert forall|i: int|
                0 <= i < dd.slots@.len() implies dd.eligible@.contains(
                (#[trigger] dd.slots@[i]).voter,
            ) by {
                if i < dd.slots@.len() - 1 {
                    assert(dd.slots@[i] == pre_d.slots@[i]);
                    assert(pre_d.eligible@.contains(pre_d.slots@[i].voter));
                }
            }
            assert(dd.wf());
            lemma_wf_after_dispute_update(pre, *self, idx as int);
        }
        Ok(())
    }

    /// Reveal the caller's vote: the plaintext vote bit and secret nonce
    /// must hash to the caller's stored commit, each judge reveals at most
    /// once, and nothing can be revealed on a resolved dispute.  The reveal
    /// that reaches the dispute's quorum settles it at once: the requester
    /// wins exactly on a strict majority of revealed votes (a tie favours
    /// the beneficiary); every judge who voted with the winning side is
    /// credited one prize share — the dispute fee divided by the quorum —
    /// and gains a reputation point; every judge who voted against it
    /// forfeits the share and loses a point; the forfeited shares
    /// accumulate in the treasury; and the dispute becomes terminal.
    pub fn reveal_votes(&mut self, dispute_id: u64, caller: u64, vote: bool, secret: Vec<u8>) -> (r:
        Result<(), ProtocolError>)
        requires
            old(self).wf(),
        ensures
            final(self).wf(),
            final(self).dispute_count == old(self).dispute_count,
            final(self).config_unchanged(*old(self)),
            match r {
                Ok(()) => {
                    &&& old(self).has_dispute(dispute_id)
                    &&& !old(self).dispute_at(dispute_id).resolved
                    &&& old(self).dispute_at(dispute_id).has_slot(caller)
                    &&& !old(self).dispute_at(dispute_id).slots@[old(self).dispute_at(
                        dispute_id,
                    ).slot_index(caller)].revealed
                    &&& old(self).dispute_at(dispute_id).slots@[old(self).dispute_at(
                        dispute_id,
                    ).slot_index(caller)].hash@ == commit_digest(vote, secret@)
                    &&& reveal_step(
                        old(self).dispute_at(dispute_id),
                        final(self).dispute_at(dispute_id),
                        caller,
                        vote,
                    )
                    &&& forall|i: int|
                        0 <= i < old(self).disputes@.len() && i != dispute_id - 1
                            ==> final(self).disputes@[i] == old(self).disputes@[i]
                    &&& (!final(self).dispute_at(dispute_id).resolved ==> final(self).judges@ == old(
                        self,
                    ).judges@ && final(self).contract_balance == old(self).contract_balance)
                    &&& (final(self).dispute_at(dispute_id).resolved ==> {
                        &&& settlement_applied(
                            old(self).judges@,
                            final(self).judges@,
                            final(self).dispute_at(dispute_id),
                            final(self).dispute_at(dispute_id).votes_for > final(self).dispute_at(
                                dispute_id,
                            ).votes_against,
                            old(self).dispute_price / (old(self).dispute_at(
                                dispute_id,
                            ).quorum as u64),
                        )
                        &&& final(self).contract_balance == old(self).contract_balance + (old(
                            self,
                        ).dispute_price / (old(self).dispute_at(dispute_id).quorum as u64)) * (
                        if final(self).dispute_at(dispute_id).votes_for > final(self).dispute_at(
                            dispute_id,
                        ).votes_against {
                            final(self).dispute_at(dispute_id).votes_against
                        } else {
                            final(self).dispute_at(dispute_id).votes_for
                        })
                    })
                },
                Err(e) => {
                    &&& *final(self) == *old(self)
                    &&& (e == ProtocolError::DisputeAlreadyResolved <==> old(self).resolved_of(
                        dispute_id,
                    ))
                    &&& (e == ProtocolError::JudgeNotAllowedToVote <==> !old(self).resolved_of(
                        dispute_id,
                    ) && !(old(self).has_dispute(dispute_id) && old(self).dispute_at(
                        dispute_id,
                    ).has_slot(caller)))
                    &&& (e == ProtocolError::JudgeAlreadyVoted <==> !old(self).resolved_of(
                        dispute_id,
                    ) && old(self).has_dispute(dispute_id) && old(self).dispute_at(
                        dispute_id,
                    ).has_slot(caller) && old(self).dispute_at(dispute_id).slots@[old(
                        self,
                    ).dispute_at(dispute_id).slot_index(caller)].revealed)
                    &&& (e == ProtocolError::HashMismatch <==> !old(self).resolved_of(dispute_id)
                        && old(self).has_dispute(dispute_id) && old(self).dispute_at(
                        dispute_id,
                    ).has_slot(caller) && !old(self).dispute_at(dispute_id).slots@[old(
                        self,
                    ).dispute_at(dispute_id).slot_index(caller)].revealed && old(self).dispute_at(
                        dispute_id,
                    ).slots@[old(self).dispute_at(dispute_id).slot_index(caller)].hash@
                        != commit_digest(vote, secret@))
                    &&& (old(self).resolved_of(dispute_id) || !(old(self).has_dispute(dispute_id)
                        && old(self).dispute_at(dispute_id).has_slot(caller)) || old(
                        self,
                    ).dispute_at(dispute_id).slots@[old(self).dispute_at(dispute_id).slot_index(
                        caller,
                    )].revealed || old(self).dispute_at(dispute_id).slots@[old(self).dispute_at(
                        dispute_id,
                    ).slot_index(caller)].hash@ != commit_digest(vote, secret@))
                },
            },
    {
        if !(dispute_id >= 1 && dispute_id - 1 < self.disputes.len() as u64) {
            return Err(ProtocolError::JudgeNotAllowedToVote);
        }
        let idx = (dispute_id - 1) as usize;
        if self.disputes[idx].resolved {
            return Err(ProtocolError::DisputeAlreadyResolved);
        }
        let slot_idx = match self.disputes[idx].find_slot(caller) {
            Some(i) => i,
            None => {
                return Err(ProtocolError::JudgeNotAllowedToVote);
            },
        };
        if self.disputes[idx].slots[slot_idx].revealed {
            return Err(ProtocolError::JudgeAlreadyVoted);
        }
        let expected = commit_hash(vote, &secret);
        if !bytes_eq(&self.disputes[idx].slots[slot_idx].hash, &expected) {
            return Err(ProtocolError::HashMismatch);
        }

        let ghost pre = *self;
        let ghost i = slot_idx as int;
        proof {
            assert(pre.disputes@[idx as int].wf());
            lemma_count_bounds(pre.disputes@[idx as int].slots@);
        }
        let d = &mut self.disputes[idx];
        let slot = &mut d.slots[slot_idx];
        slot.revealed = true;
        slot.vote = vote;
        let reveals_now = d.reveals_count + 1;
        d.reveals_count = reveals_now;
        if vote {
            d.votes_for = d.votes_for + 1;
        } else {
            d.votes_against = d.votes_against + 1;
        }
        let settles = reveals_now == d.quorum;
        if settles {
            d.is_open = false;
            d.resolved = true;
        }

        proof {
            let pre_d = pre.disputes@[idx as int];
            let cur_d = self.disputes@[idx as int];
            assert(cur_d.slots@ =~= pre_d.slots@.update(
                i,
                (CommitSlot { voter: caller, hash: pre_d.slots@[i].hash, revealed: true, vote: vote }),
            ));
            lemma_count_update(pre_d.slots@, i, cur_d.slots@[i]);
            assert(reveal_step(pre_d, cur_d, caller, vote));
            lemma_count_bounds(cur_d.slots@);
            assert(cur_d.wf());
        }

        if !settles {
            proof {
                lemma_wf_after_dispute_update(pre, *self, idx as int);
            }
            return Ok(());
        }

        // The quorum-th reveal: settle the dispute now.
        let ghost mid = *self;
        let ghost d_fin = self.disputes@[idx as int];
        let winner_for = self.disputes[idx].votes_for > self.disputes[idx].votes_against;
        let quorum = self.disputes[idx].quorum;
        let prize = self.dispute_price / (quorum as u64);
        proof {
            lemma_count_bounds(d_fin.slots@);
            lemma_all_revealed(d_fin.slots@);
            lemma_resolved_missing_one(pre.disputes@, idx as int);
            lemma_resolved_bounds(pre.disputes@);
            // prize and payouts stay within one prize pool per settlement
            vstd::arithmetic::div_mod::lemma_fundamental_div_mod(
                self.dispute_price as int,
                quorum as int,
            );
            vstd::arithmetic::mul::lemma_mul_nonnegative(
                self.dispute_price as int,
                resolved_total(pre.disputes@),
            );
            vstd::arithmetic::mul::lemma_mul_inequality(1, quorum as int, prize as int);
            vstd::arithmetic::mul::lemma_mul_basics(prize as int);
            assert(prize <= self.dispute_price);
            // the cap after settlement still fits the balance type
            vstd::arithmetic::mul::lemma_mul_is_distributive_add(
                self.dispute_price as int,
                resolved_total(pre.disputes@),
                1,
            );
            vstd::arithmetic::mul::lemma_mul_basics(self.dispute_price as int);
            vstd::arithmetic::mul::lemma_mul_upper_bound(
                self.dispute_price as int,
                u64::MAX as int,
                resolved_total(pre.disputes@) + 1,
                u64::MAX as int,
            );
            assert((u64::MAX as int) * (u64::MAX as int) < u128::MAX as int) by (nonlinear_arith);
            assert(pre.payout_cap() + self.dispute_price <= u128::MAX);
        }

        let n = self.disputes[idx].slots.len();
        let mut k: usize = 0;
        while k < n
            invariant
                0 <= idx < mid.disputes@.len(),
                self.disputes@ == mid.disputes@,
                self.contract_balance == mid.contract_balance,
                self.dispute_count == mid.dispute_count,
                self.owner == mid.owner,
                self.usdc_token == mid.usdc_token,
                self.number_of_votes == mid.number_of_votes,
                self.dispute_price == mid.dispute_price,
                mid.dispute_price == pre.dispute_price,
                d_fin == mid.disputes@[idx as int],
                d_fin.wf(),
                n == d_fin.slots@.len(),
                k <= n,
                mid.judges@ == pre.judges@,
                pre.wf(),
                prize == pre.dispute_price / (d_fin.quorum as u64),
                prize <= pre.dispute_price,
                pre.payout_cap() + pre.dispute_price <= u128::MAX,
                0 <= pre.payout_cap(),
                forall|j2: int|
                    0 <= j2 < d_fin.eligible@.len() ==> pre.judges@.contains_key(
                        #[trigger] d_fin.eligible@[j2],
                    ),
                self.judges@.dom() == pre.judges@.dom(),
                forall|m: int|
                    0 <= m < k ==> self.judges@[(#[trigger] d_fin.slots@[m]).voter]
                        == settled_judge(
                        pre.judges@[d_fin.slots@[m].voter],
                        d_fin.slots@[m].vote == winner_for,
                        prize,
                    ),
                forall|a: u64|
                    pre.judges@.contains_key(a) && !(exists|m: int|
                        0 <= m < k && (#[trigger] d_fin.slots@[m]).voter == a)
                        ==> #[trigger] self.judges@[a] == pre.judges@[a],
                forall|a: u64|
                    self.judges@.contains_key(a) ==> (#[trigger] self.judges@[a]).address == a,
                forall|a: u64|
                    self.judges@.contains_key(a) ==> (#[trigger] self.judges@[a]).balance
                        <= pre.payout_cap() + prize,
            decreases n - k,
        {
            let voter = self.disputes[idx].slots[k].voter;
            let v = self.disputes[idx].slots[k].vote;
            proof {
                assert(d_fin.slots@[k as int].voter == voter);
                assert(d_fin.eligible@.contains(voter));
                let j2 = choose|j2: int|
                    0 <= j2 < d_fin.eligible@.len() && d_fin.eligible@[j2] == voter;
                assert(pre.judges@.contains_key(voter));
                assert(!(exists|m: int| 0 <= m < k && d_fin.slots@[m].voter == voter)) by {
                    if exists|m: int| 0 <= m < k && (#[trigger] d_fin.slots@[m]).voter == voter {
                        let m = choose|m: int|
                            0 <= m < k && (#[trigger] d_fin.slots@[m]).voter == voter;
                        assert(d_fin.slots@[m].voter != d_fin.slots@[k as int].voter);
                    }
                }
                assert(self.judges@[voter] == pre.judges@[voter]);
                assert(pre.judges@[voter].balance <= pre.payout_cap());
            }
            let j = match self.judges.get(&voter) {
                Some(jr) => *jr,
                None => vstd::pervasive::unreached(),
            };
            let won = v == winner_for;
            let new_rep = if won {
                j.reward_reputation()
            } else {
                j.penalize_reputation()
            };
            let new_balance = if won {
                j.balance + (prize as u128)
            } else {
                j.balance
            };
            self.judges.insert(voter, Judge { address: voter, balance: new_balance, reputation: new_rep });
            proof {
                assert(self.judges@.dom() =~= pre.judges@.dom());
                assert(self.judges@[voter] == settled_judge(
                    pre.judges@[voter],
                    d_fin.slots@[k as int].vote == winner_for,
                    prize,
                ));
                assert forall|m: int|
                    0 <= m < k + 1 implies self.judges@[(#[trigger] d_fin.slots@[m]).voter]
                    == settled_judge(
                    pre.judges@[d_fin.slots@[m].voter],
                    d_fin.slots@[m].vote == winner_for,
                    prize,
                ) by {
                    if m < k {
                        assert(d_fin.slots@[m].voter != voter);
                    }
                }
                assert forall|a: u64|
                    pre.judges@.contains_key(a) && !(exists|m: int|
                        0 <= m < k + 1 && (#[trigger] d_fin.slots@[m]).voter == a)
                    implies #[trigger] self.judges@[a] == pre.judges@[a] by {
                    assert(d_fin.slots@[k as int].voter == voter);
                    assert(a != voter);
                    assert(!(exists|m: int| 0 <= m < k && (#[trigger] d_fin.slots@[m]).voter == a));
                }
            }
            k = k + 1;
        }

        let losers_count: u8 = if winner_for {
            self.disputes[idx].votes_against
        } else {
            self.disputes[idx].votes_for
        };
        proof {
            // the forfeited shares never exceed one prize pool
            let p = pre.dispute_price as int;
            let q = d_fin.quorum as int;
            vstd::arithmetic::div_mod::lemma_fundamental_div_mod(p, q);
            assert(q * (prize as int) <= p);
            vstd::arithmetic::mul::lemma_mul_inequality(losers_count as int, q, prize as int);
            assert((losers_count as int) * (prize as int) <= q * (prize as int));
            assert((prize as int) * (losers_count as int) <= pre.dispute_price);
        }
        self.contract_balance = self.contract_balance + (prize as u128) * (losers_count as u128);

        proof {
            let rt_pre = resolved_total(pre.disputes@);
            lemma_resolved_update(pre.disputes@, idx as int, d_fin);
            assert(self.disputes@ =~= pre.disputes@.update(idx as int, d_fin));
            assert(resolved_total(self.disputes@) == rt_pre + 1);
            vstd::arithmetic::mul::lemma_mul_is_distributive_add(
                pre.dispute_price as int,
                rt_pre,
                1,
            );
            vstd::arithmetic::mul::lemma_mul_basics(pre.dispute_price as int);
            assert(self.payout_cap() == pre.payout_cap() + pre.dispute_price);
            assert forall|i2: int| 0 <= i2 < self.disputes@.len() implies (
            #[trigger] self.disputes@[i2]).wf() by {
                if i2 != idx as int {
                    assert(self.disputes@[i2] == pre.disputes@[i2]);
                }
            }
            assert forall|i2: int, j2: int|
                0 <= i2 < self.disputes@.len() && 0 <= j2
                    < self.disputes@[i2].eligible@.len() implies self.judges@.contains_key(
                #[trigger] self.disputes@[i2].eligible@[j2],
            ) by {
                if i2 != idx as int {
                    assert(self.disputes@[i2] == pre.disputes@[i2]);
                    assert(pre.judges@.contains_key(pre.disputes@[i2].eligible@[j2]));
                } else {
                    assert(pre.judges@.contains_key(d_fin.eligible@[j2]));
                }
            }
            assert forall|a: u64|
                self.judges@.contains_key(a) implies (#[trigger] self.judges@[a]).balance
                <= self.payout_cap() by {
                assert(self.judges@[a].balance <= pre.payout_cap() + prize);
            }
            assert(settlement_applied(pre.judges@, self.judges@, d_fin, winner_for, prize)) by {
                assert forall|a: u64|
                    pre.judges@.contains_key(a) && d_fin.has_slot(a) implies #[trigger] self.judges@[a]
                    == settled_judge(pre.judges@[a], d_fin.vote_of(a) == winner_for, prize) by {
                    let m = d_fin.slot_index(a);
                    assert(0 <= m < d_fin.slots@.len() && d_fin.slots@[m].voter == a);
                    assert(self.judges@[d_fin.slots@[m].voter] == settled_judge(
                        pre.judges@[d_fin.slots@[m].voter],
                        d_fin.slots@[m].vote == winner_for,
                        prize,
                    ));
                    assert(d_fin.vote_of(a) == d_fin.slots@[m].vote);
                }
                assert forall|a: u64|
                    pre.judges@.contains_key(a) && !d_fin.has_slot(a) implies #[trigger] self.judges@[a]
                    == pre.judges@[a] by {
                    assert(!(exists|m: int|
                        0 <= m < d_fin.slots@.len() && (#[trigger] d_fin.slots@[m]).voter == a));
                }
            }
        }
        Ok(())
    }

    /// The protocol owner.
    pub fn owner(&self) -> (r: u64)
        ensures
            r == self.owner,
    {
        self.owner
    }

    /// The id the next dispute will take.
    pub fn dispute_count(&self) -> (r: u64)
        ensures
            r == self.dispute_count,
    {
        self.dispute_count
    }

    /// The configured quorum.
    pub fn number_of_votes(&self) -> (r: u8)
        ensures
            r == self.number_of_votes,
    {
        self.number_of_votes
    }

    /// The configured per-dispute fee.
    pub fn dispute_price(&self) -> (r: u64)
        ensures
            r == self.dispute_price,
    {
        self.dispute_price
    }

    /// Whether the dispute has reached its terminal state.
    pub fn check_if_dispute_is_resolved(&self, dispute_id: u64) -> (r: bool)
        ensures
            r == self.resolved_of(dispute_id),
    {
        if dispute_id >= 1 && dispute_id - 1 < self.disputes.len() as u64 {
            let idx = (dispute_id - 1) as usize;
            self.disputes[idx].resolved
        } else {
            false
        }
    }

    /// A judge record, projected as (identity, balance, reputation); an
    /// identity that never registered reads as all-zero storage.
    pub fn get_judge(&self, judge_address: u64) -> (r: (u64, u128, i8))
        requires
            self.wf(),
        ensures
            self.judges@.contains_key(judge_address) ==> r == (
                judge_address,
                self.judges@[judge_address].balance,
                self.judges@[judge_address].reputation,
            ),
            !self.judges@.contains_key(judge_address) ==> r == (0u64, 0u128, 0i8),
    {
        match self.judges.get(&judge_address) {
            Some(j) => (j.address, j.balance, j.reputation),
            None => (0, 0, 0),
        }
    }

    /// A dispute, projected as (deal id, opener, requester, beneficiary,
    /// waiting, open, resolved); an id never assigned reads as all-zero
    /// storage.
    pub fn get_dispute(&self, dispute_id: u64) -> (r: (u64, u64, u64, u64, bool, bool, bool))
        ensures
            self.has_dispute(dispute_id) ==> r == (
                self.dispute_at(dispute_id).deal_id,
                self.dispute_at(dispute_id).contract_address,
                self.dispute_at(dispute_id).requester,
                self.dispute_at(dispute_id).beneficiary,
                self.dispute_at(dispute_id).waiting_for_judges,
                self.dispute_at(dispute_id).is_open,
                self.dispute_at(dispute_id).resolved,
            ),
            !self.has_dispute(dispute_id) ==> r == (0u64, 0u64, 0u64, 0u64, false, false, false),
    {
        if dispute_id >= 1 && dispute_id - 1 < self.disputes.len() as u64 {
            let idx = (dispute_id - 1) as usize;
            let d = &self.disputes[idx];
            (
                d.deal_id,
                d.contract_address,
                d.requester,
                d.beneficiary,
                d.waiting_for_judges,
                d.is_open,
                d.resolved,
            )
        } else {
            (0, 0, 0, 0, false, false, false)
        }
    }

    /// The running tallies of a dispute, as (votes for the requester,
    /// votes for the beneficiary).
    pub fn get_dispute_votes(&self, dispute_id: u64) -> (r: (u8, u8))
        ensures
            self.has_dispute(dispute_id) ==> r == (
                self.dispute_at(dispute_id).votes_for,
                self.dispute_at(dispute_id).votes_against,
            ),
            !self.has_dispute(dispute_id) ==> r == (0u8, 0u8),
    {
        if dispute_id >= 1 && dispute_id - 1 < self.disputes.len() as u64 {
            let idx = (dispute_id - 1) as usize;
            (self.disputes[idx].votes_for, self.disputes[idx].votes_against)
        } else {
            (0, 0)
        }
    }

    /// The resolution outcome: true when the requester won, false when the
    /// beneficiary did, by strict majority of the revealed votes — a tie
    /// favours the beneficiary.  Rejected until the dispute is resolved;
    /// once it is, the answer never changes again.
    pub fn get_dispute_winner(&self, dispute_id: u64) -> (r: Result<bool, ProtocolError>)
        ensures
            match r {
                Ok(w) => self.resolved_of(dispute_id) && w == (self.dispute_at(dispute_id).votes_for
                    > self.dispute_at(dispute_id).votes_against),
                Err(e) => e == ProtocolError::DisputeNotResolvedYet && !self.resolved_of(
                    dispute_id,
                ),
            },
    {
        if dispute_id >= 1 && dispute_id - 1 < self.disputes.len() as u64 {
            let idx = (dispute_id - 1) as usize;
            let d = &self.disputes[idx];
            if d.resolved {
                Ok(d.votes_for > d.votes_against)
            } else {
                Err(ProtocolError::DisputeNotResolvedYet)
            }
        } else {
            Err(ProtocolError::DisputeNotResolvedYet)
        }
    }

    /// Ask for the resolution outcome; kept as a second name for
    /// `get_dispute_winner`, with the same contract.
    pub fn execute_dispute_result(&self, dispute_id: u64) -> (r: Result<bool, ProtocolError>)
        ensures
            match r {
                Ok(w) => self.resolved_of(dispute_id) && w == (self.dispute_at(dispute_id).votes_for
                    > self.dispute_at(dispute_id).votes_against),
                Err(e) => e == ProtocolError::DisputeNotResolvedYet && !self.resolved_of(
                    dispute_id,
                ),
            },
    {
        self.get_dispute_winner(dispute_id)
    }
}

} // verus!
