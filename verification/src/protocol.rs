//! Revealing votes and closing the two windows: the reveal that must match
//! its commitment, the late-reveal punishment, and the settlement at the
//! close of the reveal phase.

use vstd::prelude::*;

use crate::crypto::encode_vote_salt;
use crate::crypto::sig_verifies;
use crate::crypto::verify_signature;
use crate::crypto::vote_salt_bytes;
use crate::settle::reward_all;
use crate::settle::side_accounts;
use crate::settle::slash_all;
use crate::settle::vote_accounts;
use crate::state::GovState;
use crate::state::GovView;
use crate::state::account_id;
use crate::state::added_tokens;
use crate::state::copy_bytes;
use crate::state::no_weight;
use crate::state::pot_id;
use crate::state::prop_wf;
use crate::state::yes_weight;
use crate::types::Error;
use crate::types::Event;
use crate::types::ProposalView;
use crate::types::Vote;
use crate::types::VoteRecord;
use crate::types::VoteRecordView;

verus! {

broadcast use crate::table::lemma_bytes_deep_view;

/// Whether a reveal at this height falls after the reveal deadline.
pub open spec fn reveal_is_late(s: GovView, proposal: Seq<u8>, now: u64) -> bool {
    match s.props[proposal].reveal_end {
        Some(re) => now > re,
        None => false,
    }
}

/// Why a reveal fails, or `None` when it succeeds; a late reveal succeeds
/// as a punished no-op.
pub open spec fn reveal_error(
    s: GovView,
    caller: Seq<u8>,
    proposal: Seq<u8>,
    vote: Vote,
    now: u64,
) -> Option<Error> {
    if !s.members.contains_key(caller) {
        Some(Error::NotMember)
    } else if !s.commits.contains_key((caller, proposal)) {
        Some(Error::NoCommit)
    } else if !sig_verifies(
        vote_salt_bytes(vote, s.commits[(caller, proposal)].salt),
        s.commits[(caller, proposal)].signature,
        caller,
    ) {
        Some(Error::SignatureInvalid)
    } else if !s.props.contains_key(proposal) {
        Some(Error::ProposalMissing)
    } else if reveal_is_late(s, proposal, now) {
        None
    } else if s.props[proposal].revealed.contains(caller) {
        Some(Error::DuplicateVote)
    } else {
        None
    }
}

/// The state a reveal leaves. A timely reveal consumes the commitment, adds
/// the committed weight to the chosen tally and records the vote; a late
/// reveal consumes the commitment, slashes the revealer a tenth of their
/// collateral into the pot and refunds the squared weight in tokens, while
/// the tallies stay untouched.
pub open spec fn reveal_state(
    s: GovView,
    caller: Seq<u8>,
    proposal: Seq<u8>,
    vote: Vote,
    now: u64,
) -> GovView {
    if reveal_error(s, caller, proposal, vote, now) is Some {
        s
    } else {
        let c = s.commits[(caller, proposal)];
        if reveal_is_late(s, proposal, now) {
            GovView {
                commits: s.commits.remove((caller, proposal)),
                bank: slash_all(s.bank, seq![caller], pot_id()).0,
                members: s.members.insert(
                    caller,
                    added_tokens(s.members, caller, c.number * c.number),
                ),
                ..s
            }
        } else {
            let p = s.props[proposal];
            let p2 = ProposalView {
                ayes: if vote is Yes {
                    (p.ayes + c.number) as u32
                } else {
                    p.ayes
                },
                nays: if vote is No {
                    (p.nays + c.number) as u32
                } else {
                    p.nays
                },
                votes: p.votes.push(
                    VoteRecordView { account: caller, number: c.number, vote },
                ),
                revealed: p.revealed.push(caller),
                ..p
            };
            GovView {
                commits: s.commits.remove((caller, proposal)),
                props: s.props.insert(proposal, p2),
                ..s
            }
        }
    }
}

/// Room left in a proposal's tallies for one more vote; a machine limit on
/// the unbounded accumulation of weight.
pub open spec fn tally_headroom(s: GovView, proposal: Seq<u8>) -> bool {
    s.props.contains_key(proposal) ==> s.props[proposal].ayes <= u32::MAX - 10
        && s.props[proposal].nays <= u32::MAX - 10
}

/// Why closing the reveal phase fails, or `None` when it succeeds.
pub open spec fn close_reveal_error(
    s: GovView,
    caller: Seq<u8>,
    proposal: Seq<u8>,
    now: u64,
) -> Option<Error> {
    if !s.members.contains_key(caller) {
        Some(Error::NotMember)
    } else if !s.props.contains_key(proposal) {
        Some(Error::ProposalMissing)
    } else {
        match s.props[proposal].reveal_end {
            None => Some(Error::RevealNotStarted),
            Some(re) => if now < re {
                Some(Error::TooEarly)
            } else {
                None
            },
        }
    }
}

/// The voters on the losing side: with a tie, everyone who voted loses.
pub open spec fn settlement_losers(p: ProposalView) -> Seq<Seq<u8>> {
    if p.ayes > p.nays {
        side_accounts(p.votes, Vote::No)
    } else if p.ayes < p.nays {
        side_accounts(p.votes, Vote::Yes)
    } else {
        vote_accounts(p.votes)
    }
}

/// The accounts the pot is split over: with a tie, the proposer alone.
pub open spec fn settlement_winners(p: ProposalView) -> Seq<Seq<u8>> {
    if p.ayes > p.nays {
        side_accounts(p.votes, Vote::Yes)
    } else if p.ayes < p.nays {
        side_accounts(p.votes, Vote::No)
    } else {
        seq![p.proposer]
    }
}

/// The Membership Ledger after refunding each recorded vote its squared
/// weight in tokens, capped at the ceiling.
pub open spec fn refund_all(members: Map<Seq<u8>, u8>, votes: Seq<VoteRecordView>) -> Map<
    Seq<u8>,
    u8,
>
    decreases votes.len(),
{
    if votes.len() == 0 {
        members
    } else {
        let m1 = refund_all(members, votes.drop_last());
        let r = votes.last();
        m1.insert(r.account, added_tokens(m1, r.account, r.number * r.number))
    }
}

/// The state closing the reveal phase leaves: every voter's tokens are
/// refunded, the losing side is slashed a tenth each into the pot, the pot
/// is split evenly over the winning side, and the payout is recorded.
pub open spec fn close_reveal_state(
    s: GovView,
    caller: Seq<u8>,
    proposal: Seq<u8>,
    now: u64,
) -> GovView {
    if close_reveal_error(s, caller, proposal, now) is Some {
        s
    } else {
        let p = s.props[proposal];
        let members2 = refund_all(s.members, p.votes);
        let sl = slash_all(s.bank, settlement_losers(p), pot_id());
        let winners = settlement_winners(p);
        let share = ((sl.1 as u128) / (winners.len() as u128)) as u128;
        GovView {
            members: members2,
            bank: reward_all(sl.0, winners, pot_id(), share),
            props: s.props.insert(proposal, (ProposalView { payout: sl.1 as u128, ..p })),
            ..s
        }
    }
}

/// Accounts named by a side of the vote list all appear in the vote list.
proof fn lemma_side_accounts_sources(votes: Seq<VoteRecordView>, v: Vote)
    ensures
        forall|j: int|
            0 <= j < side_accounts(votes, v).len() ==> exists|k: int|
                0 <= k < votes.len() && #[trigger] side_accounts(votes, v)[j] == votes[k].account,
    decreases votes.len(),
{
    if votes.len() > 0 {
        lemma_side_accounts_sources(votes.drop_last(), v);
        let side = side_accounts(votes, v);
        let rest = side_accounts(votes.drop_last(), v);
        assert forall|j: int| 0 <= j < side.len() implies exists|k: int|
            0 <= k < votes.len() && #[trigger] side[j] == votes[k].account by {
            if votes.last().vote == v && j == side.len() - 1 {
                assert(side[j] == votes[votes.len() - 1].account);
            } else {
                assert(side[j] == rest[j]);
                let k = choose|k: int|
                    0 <= k < votes.drop_last().len() && #[trigger] rest[j] == votes.drop_last()[
                        k
                    ].account;
                assert(votes.drop_last()[k].account == votes[k].account);
                assert(side[j] == votes[k].account);
            }
        }
    }
}

/// Accounts of the whole vote list all appear in the vote list.
proof fn lemma_vote_accounts_sources(votes: Seq<VoteRecordView>)
    ensures
        vote_accounts(votes).len() == votes.len(),
        forall|j: int|
            0 <= j < votes.len() ==> #[trigger] vote_accounts(votes)[j] == votes[j].account,
    decreases votes.len(),
{
    if votes.len() > 0 {
        lemma_vote_accounts_sources(votes.drop_last());
        assert(forall|k: int|
            0 <= k < votes.len() - 1 ==> #[trigger] votes.drop_last()[k].account
                == votes[k].account);
    }
}

/// A side with positive weight names at least one account.
proof fn lemma_weight_nonempty(votes: Seq<VoteRecordView>, v: Vote)
    ensures
        v is Yes && yes_weight(votes) > 0 ==> side_accounts(votes, v).len() > 0,
        v is No && no_weight(votes) > 0 ==> side_accounts(votes, v).len() > 0,
    decreases votes.len(),
{
    if votes.len() > 0 {
        lemma_weight_nonempty(votes.drop_last(), v);
    }
}

/// Copies a vote record list.
fn copy_votes(votes: &Vec<VoteRecord>) -> (r: Vec<VoteRecord>)
    ensures
        r.deep_view() == votes.deep_view(),
{
    let ghost vs = votes.deep_view();
    let n = votes.len();
    let mut r: Vec<VoteRecord> = Vec::new();
    let mut i: usize = 0;
    while i < n
        invariant
            n == votes@.len(),
            vs == votes.deep_view(),
            i <= n,
            r.deep_view() == vs.subrange(0, i as int),
        decreases n - i,
    {
        let ghost pre = r.deep_view();
        r.push(
            VoteRecord {
                account: copy_bytes(&votes[i].account),
                number: votes[i].number,
                vote: votes[i].vote,
            },
        );
        proof {
            assert(r.deep_view() =~= pre.push(vs[i as int]));
            assert(vs.subrange(0, i + 1 as int) =~= pre.push(vs[i as int]));
        }
        i += 1;
    }
    proof {
        assert(vs.subrange(0, n as int) =~= vs);
    }
    r
}

/// Collects the accounts of the votes with the given choice.
fn side_of(votes: &Vec<VoteRecord>, v: Vote) -> (r: Vec<Vec<u8>>)
    ensures
        r.deep_view() == side_accounts(votes.deep_view(), v),
{
    let ghost vs = votes.deep_view();
    let n = votes.len();
    let mut r: Vec<Vec<u8>> = Vec::new();
    let mut i: usize = 0;
    while i < n
        invariant
            n == votes@.len(),
            vs == votes.deep_view(),
            i <= n,
            r.deep_view() == side_accounts(vs.subrange(0, i as int), v),
        decreases n - i,
    {
        let ghost pre = vs.subrange(0, i as int);
        let ghost acc = r.deep_view();
        if votes[i].vote == v {
            r.push(copy_bytes(&votes[i].account));
            proof {
                assert(r.deep_view() =~= acc.push(vs[i as int].account));
            }
        }
        proof {
            assert(vs.subrange(0, i + 1 as int) =~= pre.push(vs[i as int]));
            assert(pre.push(vs[i as int]).drop_last() =~= pre);
        }
        i += 1;
    }
    proof {
        assert(vs.subrange(0, n as int) =~= vs);
    }
    r
}

/// Collects the accounts of all votes.
fn all_of(votes: &Vec<VoteRecord>) -> (r: Vec<Vec<u8>>)
    ensures
        r.deep_view() == vote_accounts(votes.deep_view()),
{
    let ghost vs = votes.deep_view();
    let n = votes.len();
    let mut r: Vec<Vec<u8>> = Vec::new();
    let mut i: usize = 0;
    while i < n
        invariant
            n == votes@.len(),
            vs == votes.deep_view(),
            i <= n,
            r.deep_view() == vote_accounts(vs.subrange(0, i as int)),
        decreases n - i,
    {
        let ghost pre = vs.subrange(0, i as int);
        let ghost acc = r.deep_view();
        r.push(copy_bytes(&votes[i].account));
        proof {
            assert(r.deep_view() =~= acc.push(vs[i as int].account));
            assert(vs.subrange(0, i + 1 as int) =~= pre.push(vs[i as int]));
            assert(pre.push(vs[i as int]).drop_last() =~= pre);
        }
        i += 1;
    }
    proof {
        assert(vs.subrange(0, n as int) =~= vs);
    }
    r
}

impl GovState {
    /// Reveals a committed vote. The revealed choice and the stored salt
    /// must verify against the commitment's signature; a timely reveal adds
    /// the weight to the chosen tally, a late one is absorbed and punished.
    /// The tally headroom bound is a machine limit of the tally type.
    pub fn reveal_vote(&mut self, caller: &Vec<u8>, proposal: &Vec<u8>, vote: Vote, now: u64) -> (r:
        Result<Option<Event>, Error>)
        requires
            old(self).wf(),
            tally_headroom(old(self)@, proposal@),
        ensures
            final(self).wf(),
            final(self).cfg == old(self).cfg,
            final(self)@ == reveal_state(old(self)@, caller@, proposal@, vote, now),
            final(self).bank.total() == old(self).bank.total(),
            match r {
                Ok(e) => reveal_error(old(self)@, caller@, proposal@, vote, now) is None && (
                match e {
                    Some(ev) => !reveal_is_late(old(self)@, proposal@, now) && (
                    ev matches Event::Voted { account, proposal_hash } && account@ == caller@
                        && proposal_hash@ == proposal@),
                    None => reveal_is_late(old(self)@, proposal@, now),
                }),
                Err(e) => Some(e) == reveal_error(old(self)@, caller@, proposal@, vote, now),
            },
    {
        if !self.is_member(caller) {
            return Err(Error::NotMember);
        }
        let (number, sig_ok) = match self.commits.get(caller, proposal) {
            Some(c) => {
                let payload = encode_vote_salt(vote, c.salt);
                let ok = verify_signature(&payload, &c.signature, caller);
                (c.number, ok)
            },
            None => {
                return Err(Error::NoCommit);
            },
        };
        if !sig_ok {
            return Err(Error::SignatureInvalid);
        }
        let (late, voted) = match self.props.get(proposal) {
            Some(p) => {
                let late = match p.reveal_end {
                    Some(re) => now > re,
                    None => false,
                };
                let voted = self.already_voted(caller, p);
                (late, voted)
            },
            None => {
                return Err(Error::ProposalMissing);
            },
        };
        proof {
            assert(caller@ != pot_id());
            assert(1 <= number <= 10);
        }
        if late {
            proof {
                assert(number * number <= 100) by (nonlinear_arith)
                    requires
                        1 <= number <= 10,
                ;
            }
            let _ = self.commits.take(caller, proposal);
            let pot = account_id();
            let mut solo: Vec<Vec<u8>> = Vec::new();
            solo.push(copy_bytes(caller));
            proof {
                assert(solo.deep_view() =~= seq![caller@]);
            }
            let _ = self.slash_voting_side(&solo, &pot);
            let refund: u8 = number * number;
            self.deposit_votes(caller, refund);
            proof {
                assert(self@ =~= reveal_state(old(self)@, caller@, proposal@, vote, now));
            }
            return Ok(None);
        }
        if voted {
            return Err(Error::DuplicateVote);
        }
        let commit = self.commits.take(caller, proposal).unwrap();
        let mut p = self.props.remove(proposal).unwrap();
        let ghost pv = old(self)@.props[proposal@];
        match vote {
            Vote::Yes => {
                p.ayes = p.ayes + commit.number as u32;
            },
            Vote::No => {
                p.nays = p.nays + commit.number as u32;
            },
        }
        p.votes.push(VoteRecord { account: copy_bytes(caller), number: commit.number, vote });
        p.revealed.push(copy_bytes(caller));
        proof {
            let p2 = p@;
            assert(p2.votes =~= pv.votes.push(
                VoteRecordView { account: caller@, number: commit.number, vote },
            ));
            assert(p2.revealed =~= pv.revealed.push(caller@));
            assert(prop_wf(p2)) by {
                assert(p2.votes.drop_last() =~= pv.votes);
                assert(p2.ayes == yes_weight(p2.votes));
                assert(p2.nays == no_weight(p2.votes));
                assert(forall|k: int|
                    0 <= k < pv.votes.len() ==> #[trigger] p2.votes[k] == pv.votes[k]);
                assert(forall|k: int|
                    0 <= k < pv.revealed.len() ==> #[trigger] p2.revealed[k] == pv.revealed[k]);
                assert(!pv.revealed.contains(caller@));
                assert forall|k: int| 0 <= k < pv.votes.len() implies pv.votes[k].account
                    != caller@ by {
                    assert(pv.revealed[k] == pv.votes[k].account);
                    if pv.votes[k].account == caller@ {
                        assert(pv.revealed[k] == caller@);
                        assert(pv.revealed.contains(caller@));
                    }
                }
            }
        }
        self.props.insert(copy_bytes(proposal), p);
        proof {
            assert(self@ =~= reveal_state(old(self)@, caller@, proposal@, vote, now));
        }
        Ok(
            Some(
                Event::Voted {
                    account: copy_bytes(caller),
                    proposal_hash: copy_bytes(proposal),
                },
            ),
        )
    }

    /// Closes the reveal phase and settles the proposal: refunds every
    /// recorded voter's squared weight in tokens, slashes each loser a
    /// tenth of their collateral into the pot, splits the pot evenly over
    /// the winners (the proposer alone on a tie) and records the payout.
    pub fn close_reveal(&mut self, caller: &Vec<u8>, proposal: &Vec<u8>, now: u64) -> (r: Result<
        (),
        Error,
    >)
        requires
            old(self).wf(),
        ensures
            final(self).wf(),
            final(self).cfg == old(self).cfg,
            final(self)@ == close_reveal_state(old(self)@, caller@, proposal@, now),
            final(self).bank.total() == old(self).bank.total(),
            match r {
                Ok(()) => close_reveal_error(old(self)@, caller@, proposal@, now) is None,
                Err(e) => Some(e) == close_reveal_error(old(self)@, caller@, proposal@, now),
            },
    {
        if !self.is_member(caller) {
            return Err(Error::NotMember);
        }
        let (votes, proposer, ayes, nays) = match self.props.get(proposal) {
            Some(p) => {
                match p.reveal_end {
                    None => {
                        return Err(Error::RevealNotStarted);
                    },
                    Some(re) => {
                        if now < re {
                            return Err(Error::TooEarly);
                        }
                    },
                }
                (copy_votes(&p.votes), copy_bytes(&p.proposer), p.ayes, p.nays)
            },
            None => {
                return Err(Error::ProposalMissing);
            },
        };
        let ghost pv = old(self)@.props[proposal@];
        let pot = account_id();

        // refund the quadratic token cost of every recorded vote
        let n = votes.len();
        let mut i: usize = 0;
        while i < n
            invariant
                n == votes@.len(),
                votes.deep_view() == pv.votes,
                i <= n,
                prop_wf(pv),
                old(self).wf(),
                self.wf(),
                self.cfg == old(self).cfg,
                self.bank == old(self).bank,
                self@ == (GovView {
                    members: refund_all(old(self)@.members, pv.votes.subrange(0, i as int)),
                    ..old(self)@
                }),
            decreases n - i,
        {
            let ghost pre = pv.votes.subrange(0, i as int);
            let w = votes[i].number;
            proof {
                assert(pv.votes[i as int].number == w);
                assert(1 <= w <= 10);
                assert(w * w <= 100) by (nonlinear_arith)
                    requires
                        1 <= w <= 10,
                ;
                assert(pv.votes[i as int].account != pot_id());
            }
            let refund: u8 = w * w;
            self.deposit_votes(&votes[i].account, refund);
            proof {
                assert(pv.votes.subrange(0, i + 1 as int) =~= pre.push(pv.votes[i as int]));
                assert(pre.push(pv.votes[i as int]).drop_last() =~= pre);
                assert(self@ =~= (GovView {
                    members: refund_all(old(self)@.members, pv.votes.subrange(0, i + 1 as int)),
                    ..old(self)@
                }));
            }
            i += 1;
        }
        proof {
            assert(pv.votes.subrange(0, n as int) =~= pv.votes);
        }

        // slash the losing side and reward the winning side
        let amount: u128;
        proof {
            lemma_side_accounts_sources(pv.votes, Vote::Yes);
            lemma_side_accounts_sources(pv.votes, Vote::No);
            lemma_vote_accounts_sources(pv.votes);
            lemma_weight_nonempty(pv.votes, Vote::Yes);
            lemma_weight_nonempty(pv.votes, Vote::No);
        }
        let ghost s_refunded = self@;
        let ghost sl = slash_all(s_refunded.bank, settlement_losers(pv), pot_id());
        let ghost wacc = settlement_winners(pv);
        if ayes > nays {
            let losers = side_of(&votes, Vote::No);
            amount = self.slash_voting_side(&losers, &pot);
            let winners = side_of(&votes, Vote::Yes);
            proof {
                assert(self@ == (GovView { bank: sl.0, ..s_refunded }));
                assert(amount == sl.1);
                assert(winners.deep_view() == wacc);
            }
            self.reward_voting_side(&winners, &pot, amount);
            proof {
                assert((winners.deep_view().len() as u128) == (wacc.len() as u128));
                assert(self@ == (GovView {
                    bank: reward_all(
                        sl.0,
                        wacc,
                        pot_id(),
                        ((amount / (wacc.len() as u128)) as u128),
                    ),
                    ..s_refunded
                }));
            }
        } else if nays > ayes {
            let losers = side_of(&votes, Vote::Yes);
            amount = self.slash_voting_side(&losers, &pot);
            let winners = side_of(&votes, Vote::No);
            proof {
                assert(self@ == (GovView { bank: sl.0, ..s_refunded }));
                assert(amount == sl.1);
                assert(winners.deep_view() == wacc);
            }
            self.reward_voting_side(&winners, &pot, amount);
            proof {
                assert((winners.deep_view().len() as u128) == (wacc.len() as u128));
                assert(self@ == (GovView {
                    bank: reward_all(
                        sl.0,
                        wacc,
                        pot_id(),
                        ((amount / (wacc.len() as u128)) as u128),
                    ),
                    ..s_refunded
                }));
            }
        } else {
            let losers = all_of(&votes);
            amount = self.slash_voting_side(&losers, &pot);
            let mut winners: Vec<Vec<u8>> = Vec::new();
            winners.push(proposer);
            proof {
                assert(self@ == (GovView { bank: sl.0, ..s_refunded }));
                assert(amount == sl.1);
                assert(winners.deep_view() =~= seq![pv.proposer]);
                assert(winners.deep_view() == wacc);
            }
            self.reward_voting_side(&winners, &pot, amount);
            proof {
                assert((winners.deep_view().len() as u128) == (wacc.len() as u128));
                assert(self@ == (GovView {
                    bank: reward_all(
                        sl.0,
                        wacc,
                        pot_id(),
                        ((amount / (wacc.len() as u128)) as u128),
                    ),
                    ..s_refunded
                }));
            }
        }
        proof {
            assert((sl.1 as u128) == amount);
            assert(self@ == (GovView {
                bank: reward_all(
                    sl.0,
                    wacc,
                    pot_id(),
                    (((sl.1 as u128) / (wacc.len() as u128)) as u128),
                ),
                ..s_refunded
            }));
        }

        // record the payout on the proposal
        let mut p = self.props.remove(proposal).unwrap();
        p.payout = amount;
        self.props.insert(copy_bytes(proposal), p);
        proof {
            assert(self@ =~= close_reveal_state(old(self)@, caller@, proposal@, now));
        }
        Ok(())
    }
}

} // verus!
