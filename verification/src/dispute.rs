//! Per-dispute state: the parties, the panel of eligible voters, the
//! commit-reveal table, the running tallies, and the lifecycle flags.
//!
//! A dispute moves through three states: waiting for judges, open (the
//! commit-reveal phase), and resolved, which is terminal.

use vstd::prelude::*;

verus! {

/// One commit slot: the committing judge, the stored commit digest, and —
/// once the judge reveals — the plaintext vote.  Slots are allocated in
/// first-come order and never removed.
#[derive(Clone, PartialEq, Eq, Debug)]
pub struct CommitSlot {
    /// The judge who owns this slot.
    pub voter: u64,
    /// The commit digest the judge is bound to.
    pub hash: Vec<u8>,
    /// Whether the judge has revealed.
    pub revealed: bool,
    /// The revealed vote: true is a vote for the requester, false for the
    /// beneficiary.  Meaningful only once `revealed` is set.
    pub vote: bool,
}

/// How many slots have been revealed.
pub open spec fn count_revealed(s: Seq<CommitSlot>) -> int
    decreases s.len(),
{
    if s.len() == 0 {
        0
    } else {
        count_revealed(s.drop_last()) + if s.last().revealed {
            1int
        } else {
            0int
        }
    }
}

/// How many slots have been revealed with the given vote bit.
pub open spec fn count_votes(s: Seq<CommitSlot>, v: bool) -> int
    decreases s.len(),
{
    if s.len() == 0 {
        0
    } else {
        count_votes(s.drop_last(), v) + if s.last().revealed && s.last().vote == v {
            1int
        } else {
            0int
        }
    }
}

/// The two vote tallies partition the revealed slots, and no count can
/// exceed the number of slots.
pub proof fn lemma_count_bounds(s: Seq<CommitSlot>)
    ensures
        0 <= count_revealed(s) <= s.len(),
        0 <= count_votes(s, true),
        0 <= count_votes(s, false),
        count_votes(s, true) + count_votes(s, false) == count_revealed(s),
    decreases s.len(),
{
    if s.len() > 0 {
        lemma_count_bounds(s.drop_last());
    }
}

/// Appending a slot adds its contribution to each count.
pub proof fn lemma_count_push(s: Seq<CommitSlot>, c: CommitSlot)
    ensures
        count_revealed(s.push(c)) == count_revealed(s) + if c.revealed {
            1int
        } else {
            0int
        },
        forall|v: bool|
            count_votes(s.push(c), v) == count_votes(s, v) + if c.revealed && c.vote == v {
                1int
            } else {
                0int
            },
{
    assert(s.push(c).drop_last() =~= s);
    assert(s.push(c).last() == c);
}

/// Replacing one slot moves each count by the difference of the old and
/// new contributions of that slot.
pub proof fn lemma_count_update(s: Seq<CommitSlot>, i: int, c: CommitSlot)
    requires
        0 <= i < s.len(),
    ensures
        count_revealed(s.update(i, c)) == count_revealed(s) - (if s[i].revealed {
            1int
        } else {
            0int
        }) + (if c.revealed {
            1int
        } else {
            0int
        }),
        forall|v: bool|
            count_votes(s.update(i, c), v) == count_votes(s, v) - (if s[i].revealed && s[i].vote
                == v {
                1int
            } else {
                0int
            }) + (if c.revealed && c.vote == v {
                1int
            } else {
                0int
            }),
    decreases s.len(),
{
    let t = s.update(i, c);
    if i == s.len() - 1 {
        assert(t.drop_last() =~= s.drop_last());
        assert(t.last() == c);
        assert(s.last() == s[i]);
    } else {
        assert(t.drop_last() =~= s.drop_last().update(i, c));
        assert(t.last() == s.last());
        lemma_count_update(s.drop_last(), i, c);
        assert(s.drop_last()[i] == s[i]);
        assert forall|v: bool|
            count_votes(t, v) == count_votes(s, v) - (if s[i].revealed && s[i].vote == v {
                1int
            } else {
                0int
            }) + (if c.revealed && c.vote == v {
                1int
            } else {
                0int
            }) by {
            assert(count_votes(s.drop_last().update(i, c), v) == count_votes(s.drop_last(), v) - (
            if s.drop_last()[i].revealed && s.drop_last()[i].vote == v {
                1int
            } else {
                0int
            }) + (if c.revealed && c.vote == v {
                1int
            } else {
                0int
            }));
        }
    }
}

/// When every slot is revealed, the revealed count equals the slot count,
/// and conversely.
pub proof fn lemma_all_revealed(s: Seq<CommitSlot>)
    requires
        count_revealed(s) == s.len(),
    ensures
        forall|i: int| 0 <= i < s.len() ==> (#[trigger] s[i]).revealed,
    decreases s.len(),
{
    if s.len() > 0 {
        lemma_count_bounds(s.drop_last());
        lemma_all_revealed(s.drop_last());
        assert forall|i: int| 0 <= i < s.len() implies (#[trigger] s[i]).revealed by {
            if i < s.len() - 1 {
                assert(s[i] == s.drop_last()[i]);
            } else {
                assert(s[i] == s.last());
            }
        }
    }
}

/// How one reveal changes a dispute: the caller's slot is marked revealed
/// with the plaintext vote, the matching tally and the reveal count grow by
/// one, everything else is kept, and the dispute leaves the open state
/// exactly when the reveals reach the quorum.
pub open spec fn reveal_step(pre: Dispute, post: Dispute, caller: u64, vote: bool) -> bool {
    let i = pre.slot_index(caller);
    &&& post.slots@ == pre.slots@.update(
        i,
        (CommitSlot { voter: caller, hash: pre.slots@[i].hash, revealed: true, vote: vote }),
    )
    &&& post.reveals_count == pre.reveals_count + 1
    &&& post.votes_for == pre.votes_for + (if vote {
        1int
    } else {
        0int
    })
    &&& post.votes_against == pre.votes_against + (if vote {
        0int
    } else {
        1int
    })
    &&& post.eligible@ == pre.eligible@
    &&& post.quorum == pre.quorum
    &&& post.requester == pre.requester
    &&& post.beneficiary == pre.beneficiary
    &&& post.deal_id == pre.deal_id
    &&& post.contract_address == pre.contract_address
    &&& !post.waiting_for_judges
    &&& post.is_open == (pre.reveals_count + 1 < pre.quorum)
    &&& post.resolved == (pre.reveals_count + 1 == pre.quorum)
}

/// A full panel whose members all hold commit slots has no room left:
/// a panel member without a slot therefore witnesses spare capacity.
pub proof fn lemma_commit_capacity(d: Dispute, a: u64)
    requires
        d.wf(),
        !d.waiting_for_judges,
        d.eligible@.contains(a),
        !d.has_slot(a),
    ensures
        d.slots@.len() < d.quorum,
{
    let voters = d.slots@.map_values(|c: CommitSlot| c.voter);
    assert(forall|i: int|
        0 <= i < voters.len() ==> voters[i] == (#[trigger] d.slots@[i]).voter);
    assert(voters.no_duplicates());
    voters.unique_seq_to_set();
    let pool = d.eligible@.to_set().remove(a);
    assert forall|x: u64| voters.to_set().contains(x) implies pool.contains(x) by {
        let i = choose|i: int| 0 <= i < voters.len() && voters[i] == x;
        assert(d.eligible@.contains(x));
        assert(x != a) by {
            if x == a {
                assert(d.slots@[i].voter == a);
            }
        }
    }
    vstd::seq_lib::seq_to_set_is_finite(d.eligible@);
    vstd::set::axiom_set_remove_len(d.eligible@.to_set(), a);
    vstd::set_lib::lemma_len_subset(voters.to_set(), pool);
    d.eligible@.lemma_cardinality_of_set();
    assert(d.eligible@.to_set().contains(a));
    assert(pool.len() == d.eligible@.to_set().len() - 1);
    assert(d.eligible@.len() == d.quorum);
}

/// One dispute between a requester and a beneficiary.
#[derive(Clone, PartialEq, Eq, Debug)]
pub struct Dispute {
    /// The deal this dispute was opened for, as given by the creator.
    pub deal_id: u64,
    /// The identity that opened the dispute, kept for provenance.
    pub contract_address: u64,
    /// The party claiming against the beneficiary.
    pub requester: u64,
    /// The party defending the deal.
    pub beneficiary: u64,
    /// The number of judges required, fixed when the dispute is created.
    pub quorum: u8,
    /// The judges allowed to vote, in registration order, capped at
    /// `quorum` and append-only until full.
    pub eligible: Vec<u64>,
    /// The commit-reveal table, in commit order.
    pub slots: Vec<CommitSlot>,
    /// Running tally of revealed votes for the requester.
    pub votes_for: u8,
    /// Running tally of revealed votes for the beneficiary.
    pub votes_against: u8,
    /// Running count of revealed slots.
    pub reveals_count: u8,
    /// The dispute is still collecting its panel of judges.
    pub waiting_for_judges: bool,
    /// The dispute is in its commit-reveal phase.
    pub is_open: bool,
    /// The dispute has been settled.  Terminal: nothing mutates a
    /// resolved dispute.
    pub resolved: bool,
}

impl Dispute {
    /// The three lifecycle flags encode exactly one state.
    pub open spec fn status_ok(self) -> bool {
        ||| (self.waiting_for_judges && !self.is_open && !self.resolved)
        ||| (!self.waiting_for_judges && self.is_open && !self.resolved)
        ||| (!self.waiting_for_judges && !self.is_open && self.resolved)
    }

    /// The judge has a commit slot.
    pub open spec fn has_slot(self, a: u64) -> bool {
        exists|i: int| 0 <= i < self.slots@.len() && self.slots@[i].voter == a
    }

    /// The index of the judge's commit slot (meaningful when `has_slot`).
    pub open spec fn slot_index(self, a: u64) -> int {
        choose|i: int| 0 <= i < self.slots@.len() && self.slots@[i].voter == a
    }

    /// The vote the judge revealed (meaningful when the judge's slot is
    /// revealed).
    pub open spec fn vote_of(self, a: u64) -> bool {
        self.slots@[self.slot_index(a)].vote
    }

    /// Well-formedness: the invariants every reachable dispute satisfies.
    ///
    /// - the panel is duplicate-free and capped at the quorum, and the
    ///   dispute waits exactly while the panel is short;
    /// - commit slots belong to distinct panel members;
    /// - the stored tallies equal the counts over the slot table;
    /// - the dispute is resolved exactly when the reveals reach the quorum.
    pub open spec fn wf(self) -> bool {
        &&& 1 <= self.quorum
        &&& self.status_ok()
        &&& self.eligible@.no_duplicates()
        &&& self.eligible@.len() <= self.quorum
        &&& (self.waiting_for_judges <==> self.eligible@.len() < self.quorum)
        &&& self.waiting_for_judges ==> self.slots@.len() == 0
        &&& self.slots@.len() <= self.quorum
        &&& forall|i: int|
            0 <= i < self.slots@.len() ==> self.eligible@.contains(
                (#[trigger] self.slots@[i]).voter,
            )
        &&& forall|i: int, j: int|
            0 <= i < j < self.slots@.len() ==> self.slots@[i].voter != self.slots@[j].voter
        &&& self.reveals_count == count_revealed(self.slots@)
        &&& self.votes_for == count_votes(self.slots@, true)
        &&& self.votes_against == count_votes(self.slots@, false)
        &&& (self.resolved ==> self.reveals_count == self.quorum && self.slots@.len()
            == self.quorum)
        &&& (!self.resolved ==> self.reveals_count < self.quorum)
    }

    /// A fresh dispute, waiting for its panel of judges.
    pub fn new(deal_id: u64, contract_address: u64, requester: u64, beneficiary: u64, quorum: u8) -> (d:
        Dispute)
        requires
            quorum >= 1,
        ensures
            d.wf(),
            d.deal_id == deal_id,
            d.contract_address == contract_address,
            d.requester == requester,
            d.beneficiary == beneficiary,
            d.quorum == quorum,
            d.eligible@ =~= Seq::<u64>::empty(),
            d.slots@ =~= Seq::<CommitSlot>::empty(),
            d.votes_for == 0,
            d.votes_against == 0,
            d.reveals_count == 0,
            d.waiting_for_judges,
            !d.is_open,
            !d.resolved,
    {
        Dispute {
            deal_id,
            contract_address,
            requester,
            beneficiary,
            quorum,
            eligible: Vec::new(),
            slots: Vec::new(),
            votes_for: 0,
            votes_against: 0,
            reveals_count: 0,
            waiting_for_judges: true,
            is_open: false,
            resolved: false,
        }
    }

    /// Whether the identity is on the panel of eligible voters.
    pub fn is_eligible(&self, a: u64) -> (r: bool)
        ensures
            r == self.eligible@.contains(a),
    {
        let mut i: usize = 0;
        while i < self.eligible.len()
            invariant
                i <= self.eligible@.len(),
                forall|j: int| 0 <= j < i ==> self.eligible@[j] != a,
            decreases self.eligible@.len() - i,
        {
            if self.eligible[i] == a {
                return true;
            }
            i = i + 1;
        }
        false
    }

    /// Linear scan for the identity's commit slot, in first-come order.
    pub fn find_slot(&self, a: u64) -> (r: Option<usize>)
        requires
            self.wf(),
        ensures
            match r {
                Some(i) => i < self.slots@.len() && self.slots@[i as int].voter == a && i
                    == self.slot_index(a),
                None => !self.has_slot(a),
            },
    {
        let mut i: usize = 0;
        while i < self.slots.len()
            invariant
                self.wf(),
                i <= self.slots@.len(),
                forall|j: int| 0 <= j < i ==> (#[trigger] self.slots@[j]).voter != a,
            decreases self.slots@.len() - i,
        {
            if self.slots[i].voter == a {
                proof {
                    let k = self.slot_index(a);
                    assert(0 <= k < self.slots@.len() && self.slots@[k].voter == a);
                    if k != i as int {
                        assert(self.slots@[k].voter != self.slots@[i as int].voter);
                    }
                }
                return Some(i);
            }
            i = i + 1;
        }
        None
    }
}

} // verus!
