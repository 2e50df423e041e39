//! The Settlement Engine's building blocks: slashing a side of voters into
//! the pot and redistributing the pot evenly over the other side.

use vstd::prelude::*;

use crate::bank::BankAccount;
use crate::bank::acct;
use crate::bank::move_reserved;
use crate::state::GovState;
use crate::state::GovView;
use crate::state::pot_id;
use crate::types::Vote;
use crate::types::VoteRecordView;

verus! {

broadcast use crate::table::lemma_bytes_deep_view;

/// The accounts of the recorded votes with the given choice, in order.
pub open spec fn side_accounts(votes: Seq<VoteRecordView>, v: Vote) -> Seq<Seq<u8>>
    decreases votes.len(),
{
    if votes.len() == 0 {
        Seq::empty()
    } else {
        let rest = side_accounts(votes.drop_last(), v);
        if votes.last().vote == v {
            rest.push(votes.last().account)
        } else {
            rest
        }
    }
}

/// The accounts of all recorded votes, in order.
pub open spec fn vote_accounts(votes: Seq<VoteRecordView>) -> Seq<Seq<u8>>
    decreases votes.len(),
{
    if votes.len() == 0 {
        Seq::empty()
    } else {
        vote_accounts(votes.drop_last()).push(votes.last().account)
    }
}

/// The ledger and the pooled total after slashing each account in turn by a
/// tenth of its then-current reserved collateral into the pot.
pub open spec fn slash_all(m: Map<Seq<u8>, BankAccount>, voters: Seq<Seq<u8>>, pot: Seq<u8>) -> (
    Map<Seq<u8>, BankAccount>,
    int,
)
    decreases voters.len(),
{
    if voters.len() == 0 {
        (m, 0)
    } else {
        let r = slash_all(m, voters.drop_last(), pot);
        let v = voters.last();
        let slash = (acct(r.0, v).reserved as int) / 10;
        (move_reserved(r.0, v, pot, slash as u128), r.1 + slash)
    }
}

/// The ledger after rewarding each account in turn with one share out of
/// the pot's reserve.
pub open spec fn reward_all(
    m: Map<Seq<u8>, BankAccount>,
    winners: Seq<Seq<u8>>,
    pot: Seq<u8>,
    share: u128,
) -> Map<Seq<u8>, BankAccount>
    decreases winners.len(),
{
    if winners.len() == 0 {
        m
    } else {
        move_reserved(reward_all(m, winners.drop_last(), pot, share), pot, winners.last(), share)
    }
}

impl GovState {
    /// Slashes each voter a tenth of their reserved collateral, pooling the
    /// proceeds in the pot, and returns the pooled total.
    pub fn slash_voting_side(&mut self, voters: &Vec<Vec<u8>>, pot: &Vec<u8>) -> (amount: u128)
        requires
            old(self).wf(),
            pot@ == pot_id(),
            forall|j: int| 0 <= j < voters.deep_view().len() ==> #[trigger] voters.deep_view()[j]
                != pot_id(),
        ensures
            final(self).wf(),
            final(self).cfg == old(self).cfg,
            final(self)@ == (GovView {
                bank: slash_all(old(self)@.bank, voters.deep_view(), pot@).0,
                ..old(self)@
            }),
            amount == slash_all(old(self)@.bank, voters.deep_view(), pot@).1,
            final(self).bank.total() == old(self).bank.total(),
    {
        let ghost vs = voters.deep_view();
        let n = voters.len();
        let mut amount: u128 = 0;
        let mut i: usize = 0;
        while i < n
            invariant
                n == voters@.len(),
                vs == voters.deep_view(),
                i <= n,
                pot@ == pot_id(),
                forall|j: int| 0 <= j < vs.len() ==> #[trigger] vs[j] != pot_id(),
                old(self).wf(),
                self.cfg == old(self).cfg,
                self.wf(),
                self@ == (GovView {
                    bank: slash_all(old(self)@.bank, vs.subrange(0, i as int), pot@).0,
                    ..old(self)@
                }),
                amount == slash_all(old(self)@.bank, vs.subrange(0, i as int), pot@).1,
                acct(self@.bank, pot@).reserved == acct(old(self)@.bank, pot@).reserved + amount,
                self.bank.total() == old(self).bank.total(),
            decreases n - i,
        {
            let ghost pre = vs.subrange(0, i as int);
            let ghost bank_pre = self@.bank;
            let reserved = self.bank.reserved_balance(&voters[i]);
            let slash = reserved / 10;
            let _ = self.bank.repatriate_reserved(&voters[i], pot, slash);
            proof {
                let v = vs[i as int];
                assert(vs.subrange(0, i + 1 as int) =~= pre.push(v));
                assert(pre.push(v).drop_last() =~= pre);
                assert(pre.push(v).last() == v);
                assert(self@.bank == move_reserved(bank_pre, v, pot@, slash));
                assert(acct(self@.bank, pot@).reserved == acct(bank_pre, pot@).reserved + slash);
                self.bank.lemma_account_le_total(pot@);
                assert(self@ =~= (GovView {
                    bank: slash_all(old(self)@.bank, vs.subrange(0, i + 1 as int), pot@).0,
                    ..old(self)@
                }));
            }
            amount = amount + slash;
            i += 1;
        }
        proof {
            assert(vs.subrange(0, n as int) =~= vs);
        }
        amount
    }

    /// Rewards each winner one even share of the pooled total out of the
    /// pot's reserve; the division remainder stays with the pot.
    pub fn reward_voting_side(&mut self, voters: &Vec<Vec<u8>>, pot: &Vec<u8>, total: u128)
        requires
            old(self).wf(),
            pot@ == pot_id(),
            voters.deep_view().len() > 0,
            forall|j: int| 0 <= j < voters.deep_view().len() ==> #[trigger] voters.deep_view()[j]
                != pot_id(),
        ensures
            final(self).wf(),
            final(self).cfg == old(self).cfg,
            final(self)@ == (GovView {
                bank: reward_all(
                    old(self)@.bank,
                    voters.deep_view(),
                    pot@,
                    (total / voters.deep_view().len() as u128) as u128,
                ),
                ..old(self)@
            }),
            final(self).bank.total() == old(self).bank.total(),
    {
        let ghost vs = voters.deep_view();
        let n = voters.len();
        let share = total / (n as u128);
        let mut i: usize = 0;
        while i < n
            invariant
                n == voters@.len(),
                vs == voters.deep_view(),
                i <= n,
                pot@ == pot_id(),
                forall|j: int| 0 <= j < vs.len() ==> #[trigger] vs[j] != pot_id(),
                share == total / (n as u128),
                n > 0,
                old(self).wf(),
                self.cfg == old(self).cfg,
                self.wf(),
                self@ == (GovView {
                    bank: reward_all(old(self)@.bank, vs.subrange(0, i as int), pot@, share),
                    ..old(self)@
                }),
                self.bank.total() == old(self).bank.total(),
            decreases n - i,
        {
            let ghost pre = vs.subrange(0, i as int);
            let _ = self.bank.repatriate_reserved(pot, &voters[i], share);
            proof {
                let v = vs[i as int];
                assert(vs.subrange(0, i + 1 as int) =~= pre.push(v));
                assert(pre.push(v).drop_last() =~= pre);
                assert(pre.push(v).last() == v);
                assert(self@ =~= (GovView {
                    bank: reward_all(old(self)@.bank, vs.subrange(0, i + 1 as int), pot@, share),
                    ..old(self)@
                }));
            }
            i += 1;
        }
        proof {
            assert(vs.subrange(0, n as int) =~= vs);
        }
    }
}

} // verus!
