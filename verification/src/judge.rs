//! Judge records: identity, withdrawable balance, and a bounded
//! signed reputation score.

use vstd::prelude::*;

verus! {

/// A registered judge.  The record is created once on registration and
/// never deleted; settlement adjusts the balance and the reputation, and
/// withdrawal zeroes the balance.
#[derive(Clone, Copy, PartialEq, Eq, Structural, Debug)]
pub struct Judge {
    /// The judge's identity.
    pub address: u64,
    /// Accumulated unclaimed reward, zeroed on withdrawal.
    pub balance: u128,
    /// Signed score moved by exactly one per settled dispute the judge
    /// revealed in, clamped to the 8-bit signed range.
    pub reputation: i8,
}

/// Reputation increment, saturating at the upper bound.
pub open spec fn sat_inc(r: i8) -> i8 {
    if r == i8::MAX {
        r
    } else {
        (r + 1) as i8
    }
}

/// Reputation decrement, saturating at the lower bound.
pub open spec fn sat_dec(r: i8) -> i8 {
    if r == i8::MIN {
        r
    } else {
        (r - 1) as i8
    }
}

/// The judge record after one settled dispute in which the judge revealed:
/// a judge on the winning side is credited the prize and gains one
/// reputation point; a judge on the losing side receives nothing and loses
/// one reputation point.
pub open spec fn settled_judge(j: Judge, won: bool, prize: u64) -> Judge {
    if won {
        Judge { address: j.address, balance: (j.balance + prize) as u128, reputation: sat_inc(j.reputation) }
    } else {
        Judge { address: j.address, balance: j.balance, reputation: sat_dec(j.reputation) }
    }
}

impl Judge {
    /// A fresh judge record for the given identity.
    pub fn new(address: u64) -> (j: Judge)
        ensures
            j.address == address,
            j.balance == 0,
            j.reputation == 0,
    {
        Judge { address, balance: 0, reputation: 0 }
    }

    /// Saturating reputation increment.
    pub fn reward_reputation(&self) -> (r: i8)
        ensures
            r == sat_inc(self.reputation),
    {
        if self.reputation == i8::MAX {
            self.reputation
        } else {
            self.reputation + 1
        }
    }

    /// Saturating reputation decrement.
    pub fn penalize_reputation(&self) -> (r: i8)
        ensures
            r == sat_dec(self.reputation),
    {
        if self.reputation == i8::MIN {
            self.reputation
        } else {
            self.reputation - 1
        }
    }
}

} // verus!
