//! The protocol's standing laws, each proved once and for all inputs.
//!
//! Most of the protocol's guarantees are stated directly on the operations
//! as `ensures` clauses; the lemmas here state the properties that cut
//! across those contracts, so a reader finds them written down rather than
//! left as consequences.

use vstd::prelude::*;

use crate::dispute::{count_revealed, count_votes, lemma_all_revealed, lemma_count_bounds, Dispute};
use crate::judge::{sat_dec, sat_inc, settled_judge, Judge};

verus! {

/// The dispute-table invariants hold of every well-formed dispute: the
/// revealed count never exceeds the commit count, which never exceeds the
/// quorum, and the two stored tallies partition the revealed votes exactly.
pub proof fn lemma_dispute_counts(d: Dispute)
    requires
        d.wf(),
    ensures
        0 <= count_revealed(d.slots@) <= d.slots@.len() <= d.quorum,
        d.reveals_count == count_revealed(d.slots@),
        d.votes_for == count_votes(d.slots@, true),
        d.votes_against == count_votes(d.slots@, false),
        d.votes_for + d.votes_against == d.reveals_count,
{
    lemma_count_bounds(d.slots@);
}

/// Settlement is determined by the revealed votes alone: a resolved dispute
/// carries exactly one revealed vote per quorum member, and the requester
/// has won exactly when strictly more than half of those votes are for the
/// requester — so a tie goes to the beneficiary.
pub proof fn lemma_settlement_determinism(d: Dispute)
    requires
        d.wf(),
        d.resolved,
    ensures
        d.votes_for + d.votes_against == d.quorum,
        d.votes_for == count_votes(d.slots@, true),
        d.votes_against == count_votes(d.slots@, false),
        (d.votes_for > d.votes_against) <==> 2 * (d.votes_for as int) > d.quorum,
{
    lemma_count_bounds(d.slots@);
}

/// The resolved state is terminal and complete: a resolved dispute is
/// neither waiting nor open — so the operations' contracts reject every
/// further commit, reveal, and registration on it — and every one of its
/// quorum of commit slots has been revealed.
pub proof fn lemma_terminal_dispute(d: Dispute)
    requires
        d.wf(),
        d.resolved,
    ensures
        !d.is_open,
        !d.waiting_for_judges,
        d.reveals_count == d.quorum,
        d.slots@.len() == d.quorum,
        forall|i: int| 0 <= i < d.slots@.len() ==> (#[trigger] d.slots@[i]).revealed,
{
    lemma_count_bounds(d.slots@);
    lemma_all_revealed(d.slots@);
}

/// Reputation stays in the signed 8-bit range however many settlements a
/// judge goes through, because each settlement moves it by exactly one
/// point, clamped at the bounds rather than wrapped.
pub proof fn lemma_reputation_bound(j: Judge, won: bool, prize: u64)
    ensures
        i8::MIN <= settled_judge(j, won, prize).reputation <= i8::MAX,
        won ==> settled_judge(j, won, prize).reputation == sat_inc(j.reputation),
        !won ==> settled_judge(j, won, prize).reputation == sat_dec(j.reputation),
        j.reputation < i8::MAX ==> sat_inc(j.reputation) == j.reputation + 1,
        sat_inc(i8::MAX) == i8::MAX,
        j.reputation > i8::MIN ==> sat_dec(j.reputation) == j.reputation - 1,
        sat_dec(i8::MIN) == i8::MIN,
{
}

} // verus!
