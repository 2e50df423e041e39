//! The module's state: configuration, the currency ledger, the Membership
//! Ledger, the Proposal Store and the commit relation, with the invariant
//! every call preserves.

use vstd::prelude::*;

use crate::bank::Bank;
use crate::bank::BankAccount;
use crate::bank::acct;
use crate::commits::CommitStore;
use crate::table::Table;
use crate::table::bytes_eq;
use crate::types::CommitView;
use crate::types::Proposal;
use crate::types::ProposalView;
use crate::types::VoteRecordView;
use crate::types::VoterBalance;

verus! {

broadcast use crate::table::lemma_bytes_deep_view;

/// The ceiling on a member's vote tokens.
pub const MAX_TOKENS: u8 = 100;

/// The constants the environment configures the module with.
#[derive(Clone, Copy, PartialEq, Eq, Structural, Debug)]
pub struct Config {
    /// Collateral reserved from a member on joining.
    pub basic_deposit: u128,
    /// Length of the reveal phase in blocks.
    pub reveal_length: u64,
    /// Shortest allowed voting window in blocks.
    pub min_length: u64,
    /// Ceiling on concurrently active proposals.
    pub max_proposals: u32,
}

/// The account the module pools slashed collateral in, derived from the
/// module identifier.
pub open spec fn pot_id() -> Seq<u8> {
    seq![109u8, 111u8, 100u8, 108u8, 112u8, 47u8, 118u8, 56u8, 116u8, 49u8, 110u8, 103u8]
}

/// Returns the module's pot account.
pub fn account_id() -> (r: Vec<u8>)
    ensures
        r@ == pot_id(),
{
    let mut r: Vec<u8> = Vec::new();
    r.push(109);
    r.push(111);
    r.push(100);
    r.push(108);
    r.push(112);
    r.push(47);
    r.push(118);
    r.push(56);
    r.push(116);
    r.push(49);
    r.push(110);
    r.push(103);
    proof {
        assert(r@ =~= pot_id());
    }
    r
}

/// Total weight of the recorded votes in favour.
pub open spec fn yes_weight(votes: Seq<VoteRecordView>) -> int
    decreases votes.len(),
{
    if votes.len() == 0 {
        0
    } else {
        yes_weight(votes.drop_last()) + if votes.last().vote is Yes {
            votes.last().number as int
        } else {
            0
        }
    }
}

/// Total weight of the recorded votes against.
pub open spec fn no_weight(votes: Seq<VoteRecordView>) -> int
    decreases votes.len(),
{
    if votes.len() == 0 {
        0
    } else {
        no_weight(votes.drop_last()) + if votes.last().vote is No {
            votes.last().number as int
        } else {
            0
        }
    }
}

/// A member's tokens after a refund of `amount`, capped at the ceiling.
pub open spec fn added_tokens(m: Map<Seq<u8>, u8>, who: Seq<u8>, amount: int) -> u8 {
    let cur: int = if m.contains_key(who) {
        m[who] as int
    } else {
        0
    };
    if cur + amount >= MAX_TOKENS {
        MAX_TOKENS
    } else {
        (cur + amount) as u8
    }
}

/// The internal consistency of one proposal's record: the tallies sum the
/// recorded votes, the reveal set mirrors the vote list, every weight was
/// affordable, and the pot never votes or proposes.
pub open spec fn prop_wf(p: ProposalView) -> bool {
    &&& p.ayes == yes_weight(p.votes)
    &&& p.nays == no_weight(p.votes)
    &&& p.revealed.len() == p.votes.len()
    &&& forall|i: int| 0 <= i < p.votes.len() ==> #[trigger] p.revealed[i] == p.votes[i].account
    &&& forall|i: int| 0 <= i < p.votes.len() ==> 1 <= #[trigger] p.votes[i].number <= 10
    &&& forall|i: int, j: int|
        0 <= i < j < p.votes.len() ==> p.votes[i].account != p.votes[j].account
    &&& forall|i: int| 0 <= i < p.votes.len() ==> #[trigger] p.votes[i].account != pot_id()
    &&& p.proposer != pot_id()
}

/// The mathematical value of the whole state.
#[verifier::ext_equal]
pub ghost struct GovView {
    /// Free and reserved funds by account.
    pub bank: Map<Seq<u8>, BankAccount>,
    /// Vote tokens by member; key presence is membership.
    pub members: Map<Seq<u8>, u8>,
    /// The active proposal hashes, in creation order.
    pub proposals: Seq<Seq<u8>>,
    /// Per-proposal state by hash.
    pub props: Map<Seq<u8>, ProposalView>,
    /// Outstanding commitments by voter and proposal.
    pub commits: Map<(Seq<u8>, Seq<u8>), CommitView>,
}

/// The governance module's state.
pub struct GovState {
    /// The environment's configuration, fixed at construction.
    pub cfg: Config,
    /// The reservable-currency ledger.
    pub bank: Bank,
    /// The Membership Ledger: vote tokens by member.
    pub members: Table<u8>,
    /// The index of active proposal hashes.
    pub proposals: Vec<Vec<u8>>,
    /// The Proposal Store.
    pub props: Table<Proposal>,
    /// The commit relation.
    pub commits: CommitStore,
}

impl View for GovState {
    type V = GovView;

    open spec fn view(&self) -> GovView {
        GovView {
            bank: self.bank@,
            members: self.members@,
            proposals: self.proposals.deep_view(),
            props: self.props@,
            commits: self.commits@,
        }
    }
}

impl GovState {
    /// Every invariant of the state: the stores are consistent, proposal
    /// hashes are unique and indexed, token balances respect the ceiling,
    /// the pot is never a member, and each proposal's record is internally
    /// consistent.
    pub open spec fn wf(&self) -> bool {
        &&& self.bank.wf()
        &&& self.members.wf()
        &&& self.props.wf()
        &&& self.commits.wf()
        &&& forall|i: int, j: int|
            0 <= i < j < self@.proposals.len() ==> self@.proposals[i] != self@.proposals[j]
        &&& self@.proposals.len() <= self.cfg.max_proposals
        &&& forall|h: Seq<u8>| #[trigger]
            self@.props.contains_key(h) <==> self@.proposals.contains(h)
        &&& forall|a: Seq<u8>| #[trigger]
            self@.members.contains_key(a) ==> self@.members[a] <= MAX_TOKENS
        &&& !self@.members.contains_key(pot_id())
        &&& forall|h: Seq<u8>| #[trigger] self@.props.contains_key(h) ==> prop_wf(self@.props[h])
        &&& forall|k: (Seq<u8>, Seq<u8>)| #[trigger]
            self@.commits.contains_key(k) ==> 1 <= self@.commits[k].number <= 10
    }

    /// Creates the genesis state: no accounts, no members, no proposals.
    pub fn new(cfg: Config) -> (s: GovState)
        ensures
            s.wf(),
            s.cfg == cfg,
            s@.bank == Map::<Seq<u8>, BankAccount>::empty(),
            s@.members == Map::<Seq<u8>, u8>::empty(),
            s@.proposals == Seq::<Seq<u8>>::empty(),
            s@.props == Map::<Seq<u8>, ProposalView>::empty(),
            s@.commits == Map::<(Seq<u8>, Seq<u8>), CommitView>::empty(),
            s.bank.total() == 0,
    {
        let s = GovState {
            cfg,
            bank: Bank::new(),
            members: Table::new(),
            proposals: Vec::new(),
            props: Table::new(),
            commits: CommitStore::new(),
        };
        proof {
            assert(s@.proposals =~= Seq::<Seq<u8>>::empty());
        }
        s
    }

    /// Credits newly issued funds to an account, as the host's genesis does.
    pub fn endow(&mut self, who: &Vec<u8>, amount: u128)
        requires
            old(self).wf(),
            old(self).bank.total() + amount <= u128::MAX,
        ensures
            final(self).wf(),
            final(self).cfg == old(self).cfg,
            final(self)@ == (GovView {
                bank: old(self)@.bank.insert(
                    who@,
                    (BankAccount {
                        free: (acct(old(self)@.bank, who@).free + amount) as u128,
                        reserved: acct(old(self)@.bank, who@).reserved,
                    }),
                ),
                ..old(self)@
            }),
            final(self).bank.total() == old(self).bank.total() + amount,
    {
        self.bank.endow(who, amount);
        proof {
            assert(self@ =~= (GovView {
                bank: old(self)@.bank.insert(
                    who@,
                    (BankAccount {
                        free: (acct(old(self)@.bank, who@).free + amount) as u128,
                        reserved: acct(old(self)@.bank, who@).reserved,
                    }),
                ),
                ..old(self)@
            }));
        }
    }

    /// Whether an account is a committee member.
    pub fn is_member(&self, account: &Vec<u8>) -> (r: bool)
        requires
            self.wf(),
        ensures
            r == self@.members.contains_key(account@),
    {
        self.members.contains(account)
    }

    /// A member's vote tokens and reserved collateral.
    pub fn member_info(&self, account: &Vec<u8>) -> (r: Option<VoterBalance>)
        requires
            self.wf(),
        ensures
            match r {
                Some(v) => self@.members.contains_key(account@) && v.voting_tokens
                    == self@.members[account@] && v.reserved_balance == acct(
                    self@.bank,
                    account@,
                ).reserved,
                None => !self@.members.contains_key(account@),
            },
    {
        match self.members.get(account) {
            Some(tokens) => {
                let reserved = self.bank.reserved_balance(account);
                Some(VoterBalance { voting_tokens: *tokens, reserved_balance: reserved })
            },
            None => None,
        }
    }

    /// An account's reserved collateral, as the host currency reports it.
    pub fn reserved_balance(&self, who: &Vec<u8>) -> (r: u128)
        requires
            self.wf(),
        ensures
            r == acct(self@.bank, who@).reserved,
    {
        self.bank.reserved_balance(who)
    }

    /// The stored record of a proposal, if it is active.
    pub fn proposal_data(&self, proposal: &Vec<u8>) -> (r: Option<&Proposal>)
        requires
            self.wf(),
        ensures
            match r {
                Some(p) => self@.props.contains_key(proposal@) && p@ == self@.props[proposal@],
                None => !self@.props.contains_key(proposal@),
            },
    {
        self.props.get(proposal)
    }

    /// Whether a proposal hash is active, together with the active index.
    pub fn proposal_exist(&self, proposal: &Vec<u8>) -> (r: (bool, Vec<Vec<u8>>))
        requires
            self.wf(),
        ensures
            r.0 == self@.proposals.contains(proposal@),
            r.1.deep_view() == self@.proposals,
    {
        let n = self.proposals.len();
        let mut found = false;
        let mut copy: Vec<Vec<u8>> = Vec::new();
        let mut i: usize = 0;
        while i < n
            invariant
                n == self.proposals.len(),
                i <= n,
                found == exists|j: int| 0 <= j < i && self@.proposals[j] == proposal@,
                copy.deep_view() == self@.proposals.subrange(0, i as int),
            decreases n - i,
        {
            let ghost pre = self@.proposals.subrange(0, i as int);
            if bytes_eq(&self.proposals[i], proposal) {
                found = true;
                proof {
                    assert(self@.proposals[i as int] == proposal@);
                }
            }
            copy.push(copy_bytes(&self.proposals[i]));
            proof {
                assert(copy.deep_view() =~= pre.push(self@.proposals[i as int]));
                assert(self@.proposals.subrange(0, i + 1 as int) =~= pre.push(
                    self@.proposals[i as int],
                ));
            }
            i += 1;
        }
        proof {
            assert(found == self@.proposals.contains(proposal@));
            assert(self@.proposals.subrange(0, n as int) =~= self@.proposals);
        }
        (found, copy)
    }

    /// Whether an account has already revealed on a proposal.
    pub fn already_voted(&self, who: &Vec<u8>, proposal: &Proposal) -> (r: bool)
        ensures
            r == proposal@.revealed.contains(who@),
    {
        let n = proposal.revealed.len();
        let mut i: usize = 0;
        while i < n
            invariant
                n == proposal.revealed.len(),
                i <= n,
                forall|j: int| 0 <= j < i ==> proposal@.revealed[j] != who@,
            decreases n - i,
        {
            if bytes_eq(&proposal.revealed[i], who) {
                proof {
                    assert(proposal@.revealed[i as int] == who@);
                }
                return true;
            }
            i += 1;
        }
        proof {
            assert(!proposal@.revealed.contains(who@));
        }
        false
    }

    /// Whether an account holds a commitment on a proposal.
    pub fn already_committed_and_exist(&self, who: &Vec<u8>, proposal_hash: &Vec<u8>) -> (r: bool)
        requires
            self.wf(),
        ensures
            r == self@.commits.contains_key((who@, proposal_hash@)),
    {
        self.commits.contains(who, proposal_hash)
    }

    /// Credits vote tokens to an account, capped at the ceiling.
    pub fn deposit_votes(&mut self, who: &Vec<u8>, tokens: u8)
        requires
            old(self).wf(),
            who@ != pot_id(),
        ensures
            final(self).wf(),
            final(self).cfg == old(self).cfg,
            final(self).bank == old(self).bank,
            final(self)@ == (GovView {
                members: old(self)@.members.insert(
                    who@,
                    added_tokens(old(self)@.members, who@, tokens as int),
                ),
                ..old(self)@
            }),
    {
        let cur: u8 = match self.members.get(who) {
            Some(t) => *t,
            None => 0,
        };
        let summed: u32 = cur as u32 + tokens as u32;
        let updated: u8 = if summed >= MAX_TOKENS as u32 {
            MAX_TOKENS
        } else {
            summed as u8
        };
        self.members.insert(copy_bytes(who), updated);
        proof {
            assert(self@ =~= (GovView {
                members: old(self)@.members.insert(
                    who@,
                    added_tokens(old(self)@.members, who@, tokens as int),
                ),
                ..old(self)@
            }));
        }
    }

    /// Debits vote tokens from a member; fails without changing anything if
    /// the account is no member or short of tokens.
    pub fn decrease_votes(&mut self, who: &Vec<u8>, amount: u8) -> (ok: bool)
        requires
            old(self).wf(),
        ensures
            final(self).wf(),
            final(self).cfg == old(self).cfg,
            final(self).bank == old(self).bank,
            ok == (old(self)@.members.contains_key(who@) && old(self)@.members[who@] >= amount),
            ok ==> final(self)@ == (GovView {
                members: old(self)@.members.insert(
                    who@,
                    (old(self)@.members[who@] - amount) as u8,
                ),
                ..old(self)@
            }),
            !ok ==> *final(self) == *old(self),
    {
        let cur: u8 = match self.members.get(who) {
            Some(t) => *t,
            None => {
                return false;
            },
        };
        if cur < amount {
            return false;
        }
        self.members.insert(copy_bytes(who), cur - amount);
        proof {
            assert(self@ =~= (GovView {
                members: old(self)@.members.insert(
                    who@,
                    (old(self)@.members[who@] - amount) as u8,
                ),
                ..old(self)@
            }));
        }
        true
    }
}

/// Copies a byte string.
pub fn copy_bytes(v: &Vec<u8>) -> (r: Vec<u8>)
    ensures
        r@ == v@,
{
    let n = v.len();
    let mut r: Vec<u8> = Vec::new();
    let mut i: usize = 0;
    while i < n
        invariant
            n == v.len(),
            i <= n,
            r@ == v@.subrange(0, i as int),
        decreases n - i,
    {
        let ghost pre = r@;
        r.push(v[i]);
        proof {
            assert(r@ =~= v@.subrange(0, i + 1 as int));
        }
        i += 1;
    }
    proof {
        assert(v@.subrange(0, n as int) =~= v@);
    }
    r
}

} // verus!
