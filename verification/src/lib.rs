//! A commit-reveal governance module for a permissioned voting committee.
//!
//! Members stake collateral to join, submit hidden vote commitments on
//! proposals, later reveal them, and the module tallies the results,
//! slashing the losing side's collateral and redistributing it to the
//! winners. The host ledger supplies authenticated callers, the current
//! block height and the identity oracle's answers; everything else is
//! modelled and verified here.

pub mod bank;
pub mod calls;
pub mod commits;
pub mod crypto;
pub mod laws;
pub mod protocol;
pub mod settle;
pub mod state;
pub mod table;
pub mod types;

use vstd::prelude::*;

verus! {

/// Quadratic token cost of a commit of the given weight: weight one costs
/// one token, any larger weight costs its square.
pub open spec fn commit_cost(number: u8) -> int {
    if number <= 1 {
        number as int
    } else {
        number * number
    }
}

/// Computes the vote-token cost of a commit of the given weight.
pub fn compute_commit_cost(number: u8) -> (cost: u32)
    ensures
        cost == commit_cost(number),
{
    if number <= 1 {
        number as u32
    } else {
        let n = number as u32;
        assert(n * n <= 65025) by (nonlinear_arith)
            requires
                n <= 255,
        ;
        n * n
    }
}

} // verus!
