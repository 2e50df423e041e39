//! The callable operations: membership lifecycle, proposal creation, the
//! commit-reveal protocol and the window transitions. Each call is described
//! by a pair of specification functions — the error it returns and the state
//! it leaves — and the executable code is proved to match them exactly.

use vstd::prelude::*;

use crate::bank::BankAccount;
use crate::bank::acct;
use crate::commit_cost;
use crate::compute_commit_cost;
use crate::crypto::blake2b_256;
use crate::crypto::hash_of;
use crate::state::Config;
use crate::state::GovState;
use crate::state::GovView;
use crate::state::MAX_TOKENS;
use crate::state::copy_bytes;
use crate::state::pot_id;
use crate::state::prop_wf;
use crate::types::CommitView;
use crate::types::Error;
use crate::types::Event;
use crate::types::ProposalView;

verus! {

broadcast use crate::table::lemma_bytes_deep_view;

/// Why a join fails, or `None` when it succeeds.
pub open spec fn join_error(s: GovView, cfg: Config, caller: Seq<u8>, has_identity: bool) -> Option<
    Error,
> {
    if s.members.contains_key(caller) {
        Some(Error::AlreadyMember)
    } else if !has_identity {
        Some(Error::NoIdentity)
    } else if acct(s.bank, caller).free < cfg.basic_deposit {
        Some(Error::NotEnoughFunds)
    } else {
        None
    }
}

/// The state a join leaves: on success the deposit moves into reserve and
/// the caller becomes a member with a full purse of vote tokens.
pub open spec fn join_state(
    s: GovView,
    cfg: Config,
    caller: Seq<u8>,
    has_identity: bool,
) -> GovView {
    if join_error(s, cfg, caller, has_identity) is Some {
        s
    } else {
        GovView {
            bank: s.bank.insert(
                caller,
                (BankAccount {
                    free: (acct(s.bank, caller).free - cfg.basic_deposit) as u128,
                    reserved: (acct(s.bank, caller).reserved + cfg.basic_deposit) as u128,
                }),
            ),
            members: s.members.insert(caller, MAX_TOKENS),
            ..s
        }
    }
}

/// Why a leave fails, or `None` when it succeeds.
pub open spec fn leave_error(s: GovView, caller: Seq<u8>, has_identity: bool) -> Option<Error> {
    if !has_identity {
        Some(Error::NoIdentity)
    } else if exists|h: Seq<u8>| s.commits.contains_key((caller, h)) {
        Some(Error::InMotion)
    } else {
        None
    }
}

/// The state a leave leaves: the caller's whole reserve is released and the
/// membership entry disappears.
pub open spec fn leave_state(s: GovView, caller: Seq<u8>, has_identity: bool) -> GovView {
    if leave_error(s, caller, has_identity) is Some {
        s
    } else {
        GovView {
            bank: s.bank.insert(
                caller,
                (BankAccount {
                    free: (acct(s.bank, caller).free + acct(s.bank, caller).reserved) as u128,
                    reserved: 0,
                }),
            ),
            members: s.members.remove(caller),
            ..s
        }
    }
}

/// Why creating a proposal fails, or `None` when it succeeds.
pub open spec fn create_error(
    s: GovView,
    cfg: Config,
    caller: Seq<u8>,
    content: Seq<u8>,
    duration: u64,
    now: u64,
) -> Option<Error> {
    if duration < cfg.min_length {
        Some(Error::WrongProposalLength)
    } else if !s.members.contains_key(caller) {
        Some(Error::NotMember)
    } else if s.proposals.len() >= cfg.max_proposals {
        Some(Error::TooManyProposals)
    } else if s.proposals.contains(hash_of(content)) {
        Some(Error::DuplicateProposal)
    } else {
        None
    }
}

/// A freshly created proposal: zeroed tallies, an open reveal window, no
/// votes yet.
pub open spec fn new_proposal(caller: Seq<u8>, content: Seq<u8>, poll_end: u64) -> ProposalView {
    ProposalView {
        title: content,
        proposer: caller,
        ayes: 0,
        nays: 0,
        poll_end,
        reveal_end: None,
        votes: Seq::empty(),
        revealed: Seq::empty(),
        payout: 0,
    }
}

/// The state creating a proposal leaves: on success the content hash joins
/// the index and the record is stored under it.
pub open spec fn create_state(
    s: GovView,
    cfg: Config,
    caller: Seq<u8>,
    content: Seq<u8>,
    duration: u64,
    now: u64,
) -> GovView {
    if create_error(s, cfg, caller, content, duration, now) is Some {
        s
    } else {
        let h = hash_of(content);
        GovView {
            proposals: s.proposals.push(h),
            props: s.props.insert(h, new_proposal(caller, content, (now + duration) as u64)),
            ..s
        }
    }
}

/// Why closing the voting phase fails, or `None` when it succeeds.
pub open spec fn close_vote_error(
    s: GovView,
    caller: Seq<u8>,
    proposal: Seq<u8>,
    now: u64,
) -> Option<Error> {
    if !s.members.contains_key(caller) {
        Some(Error::NotMember)
    } else if !s.props.contains_key(proposal) {
        Some(Error::ProposalMissing)
    } else if s.props[proposal].reveal_end is Some {
        Some(Error::VoteAlreadyEnded)
    } else if now < s.props[proposal].poll_end {
        Some(Error::TooEarly)
    } else {
        None
    }
}

/// The state closing the voting phase leaves: the reveal deadline is set,
/// once and never again.
pub open spec fn close_vote_state(
    s: GovView,
    cfg: Config,
    caller: Seq<u8>,
    proposal: Seq<u8>,
    now: u64,
) -> GovView {
    if close_vote_error(s, caller, proposal, now) is Some {
        s
    } else {
        let p = s.props[proposal];
        GovView {
            props: s.props.insert(
                proposal,
                (ProposalView { reveal_end: Some((now + cfg.reveal_length) as u64), ..p }),
            ),
            ..s
        }
    }
}

/// Why a commit fails, or `None` when it succeeds.
pub open spec fn commit_error(
    s: GovView,
    caller: Seq<u8>,
    proposal: Seq<u8>,
    number: u8,
    now: u64,
) -> Option<Error> {
    if !s.members.contains_key(caller) {
        Some(Error::NotMember)
    } else if number == 0 {
        Some(Error::InvalidArgument)
    } else if s.commits.contains_key((caller, proposal)) {
        Some(Error::DuplicateVote)
    } else if !s.props.contains_key(proposal) {
        Some(Error::ProposalMissing)
    } else if now >= s.props[proposal].poll_end {
        Some(Error::VoteEnded)
    } else if (s.members[caller] as int) < commit_cost(number) {
        Some(Error::NotEnoughVotingTokens)
    } else {
        None
    }
}

/// The state a commit leaves: on success the quadratic cost is charged and
/// the commitment is recorded.
pub open spec fn commit_state(
    s: GovView,
    caller: Seq<u8>,
    proposal: Seq<u8>,
    signature: Seq<u8>,
    number: u8,
    salt: u32,
    now: u64,
) -> GovView {
    if commit_error(s, caller, proposal, number, now) is Some {
        s
    } else {
        GovView {
            members: s.members.insert(
                caller,
                (s.members[caller] - commit_cost(number)) as u8,
            ),
            commits: s.commits.insert(
                (caller, proposal),
                CommitView { signature, number, salt },
            ),
            ..s
        }
    }
}

impl GovState {
    /// Joins the committee: reserves the entry deposit and grants the full
    /// purse of vote tokens.
    pub fn join_committee(&mut self, caller: &Vec<u8>, has_identity: bool) -> (r: Result<
        Event,
        Error,
    >)
        requires
            old(self).wf(),
            caller@ != pot_id(),
        ensures
            final(self).wf(),
            final(self).cfg == old(self).cfg,
            final(self)@ == join_state(old(self)@, old(self).cfg, caller@, has_identity),
            match r {
                Ok(e) => join_error(old(self)@, old(self).cfg, caller@, has_identity) is None && (
                e matches Event::Joined { account } && account@ == caller@),
                Err(e) => Some(e) == join_error(old(self)@, old(self).cfg, caller@, has_identity),
            },
    {
        if self.is_member(caller) {
            return Err(Error::AlreadyMember);
        }
        if !has_identity {
            return Err(Error::NoIdentity);
        }
        if !self.bank.can_reserve(caller, self.cfg.basic_deposit) {
            return Err(Error::NotEnoughFunds);
        }
        let _ = self.bank.reserve(caller, self.cfg.basic_deposit);
        proof {
            assert(self@.members == old(self)@.members);
            assert(self@.props == old(self)@.props);
            assert(self@.proposals == old(self)@.proposals);
            assert(self@.commits == old(self)@.commits);
            assert(self.wf());
        }
        self.deposit_votes(caller, MAX_TOKENS);
        proof {
            assert(self@ =~= join_state(old(self)@, old(self).cfg, caller@, has_identity));
        }
        Ok(Event::Joined { account: copy_bytes(caller) })
    }

    /// Leaves the committee: possible only with no outstanding commitment;
    /// the whole reserved collateral is cashed out.
    pub fn leave_committee(&mut self, caller: &Vec<u8>, has_identity: bool) -> (r: Result<
        Event,
        Error,
    >)
        requires
            old(self).wf(),
        ensures
            final(self).wf(),
            final(self).cfg == old(self).cfg,
            final(self)@ == leave_state(old(self)@, caller@, has_identity),
            match r {
                Ok(e) => leave_error(old(self)@, caller@, has_identity) is None && (
                e matches Event::Left { account, cashout } && account@ == caller@ && cashout
                    == acct(old(self)@.bank, caller@).reserved),
                Err(e) => Some(e) == leave_error(old(self)@, caller@, has_identity),
            },
    {
        if !has_identity {
            return Err(Error::NoIdentity);
        }
        if self.commits.has_any(caller) {
            return Err(Error::InMotion);
        }
        let reserved = self.bank.reserved_balance(caller);
        let cashout = self.bank.unreserve(caller, reserved);
        let _ = self.members.remove(caller);
        proof {
            assert(self@ =~= leave_state(old(self)@, caller@, has_identity));
        }
        Ok(Event::Left { account: copy_bytes(caller), cashout })
    }

    /// Creates a proposal keyed by the content hash of its payload.
    pub fn create_proposal(&mut self, caller: &Vec<u8>, content: Vec<u8>, duration: u64, now: u64)
        -> (r: Result<Event, Error>)
        requires
            old(self).wf(),
            caller@ != pot_id(),
            now + duration <= u64::MAX,
        ensures
            final(self).wf(),
            final(self).cfg == old(self).cfg,
            final(self)@ == create_state(
                old(self)@,
                old(self).cfg,
                caller@,
                content@,
                duration,
                now,
            ),
            match r {
                Ok(e) => create_error(old(self)@, old(self).cfg, caller@, content@, duration, now)
                    is None && (e matches Event::Proposed { account, proposal_hash } && account@
                    == caller@ && proposal_hash@ == hash_of(content@)),
                Err(e) => Some(e) == create_error(
                    old(self)@,
                    old(self).cfg,
                    caller@,
                    content@,
                    duration,
                    now,
                ),
            },
    {
        if duration < self.cfg.min_length {
            return Err(Error::WrongProposalLength);
        }
        if !self.is_member(caller) {
            return Err(Error::NotMember);
        }
        if self.proposals.len() >= self.cfg.max_proposals as usize {
            return Err(Error::TooManyProposals);
        }
        let proposal_hash = blake2b_256(&content);
        let (exist, _) = self.proposal_exist(&proposal_hash);
        if exist {
            return Err(Error::DuplicateProposal);
        }
        let end = now + duration;
        let proposal = crate::types::Proposal {
            title: content,
            proposer: copy_bytes(caller),
            ayes: 0,
            nays: 0,
            poll_end: end,
            reveal_end: None,
            votes: Vec::new(),
            revealed: Vec::new(),
            payout: 0,
        };
        self.proposals.push(copy_bytes(&proposal_hash));
        self.props.insert(copy_bytes(&proposal_hash), proposal);
        proof {
            let s = old(self)@;
            let h = hash_of(content@);
            assert(proposal@.votes =~= Seq::<crate::types::VoteRecordView>::empty());
            assert(proposal@.revealed =~= Seq::<Seq<u8>>::empty());
            assert(self@.proposals =~= s.proposals.push(h));
            assert(self@ =~= create_state(s, old(self).cfg, caller@, content@, duration, now));
            assert(self.wf()) by {
                assert(forall|h2: Seq<u8>|
                    self@.props.contains_key(h2) <==> #[trigger] self@.proposals.contains(h2)) by {
                    assert(forall|h2: Seq<u8>| #[trigger]
                        self@.proposals.contains(h2) <==> (s.proposals.contains(h2) || h2 == h))
                        by {
                        assert(forall|h2: Seq<u8>|
                            s.proposals.contains(h2) ==> #[trigger] self@.proposals.contains(h2))
                            by {
                            assert(forall|j: int|
                                0 <= j < s.proposals.len() ==> self@.proposals[j] == #[trigger] s
                                    .proposals[j]);
                        }
                        assert(self@.proposals[s.proposals.len() as int] == h);
                    }
                }
                assert(prop_wf(self@.props[h]));
            }
        }
        Ok(Event::Proposed { account: copy_bytes(caller), proposal_hash })
    }

    /// Closes the voting phase: from now on commits are rejected and the
    /// reveal deadline is fixed.
    pub fn close_vote(&mut self, caller: &Vec<u8>, proposal: &Vec<u8>, now: u64) -> (r: Result<
        (),
        Error,
    >)
        requires
            old(self).wf(),
            now + old(self).cfg.reveal_length <= u64::MAX,
        ensures
            final(self).wf(),
            final(self).cfg == old(self).cfg,
            final(self)@ == close_vote_state(old(self)@, old(self).cfg, caller@, proposal@, now),
            match r {
                Ok(()) => close_vote_error(old(self)@, caller@, proposal@, now) is None,
                Err(e) => Some(e) == close_vote_error(old(self)@, caller@, proposal@, now),
            },
    {
        if !self.is_member(caller) {
            return Err(Error::NotMember);
        }
        let (already_closed, poll_end) = match self.props.get(proposal) {
            Some(p) => (p.reveal_end.is_some(), p.poll_end),
            None => {
                return Err(Error::ProposalMissing);
            },
        };
        if already_closed {
            return Err(Error::VoteAlreadyEnded);
        }
        if now < poll_end {
            return Err(Error::TooEarly);
        }
        let mut p = self.props.remove(proposal).unwrap();
        p.reveal_end = Some(now + self.cfg.reveal_length);
        self.props.insert(copy_bytes(proposal), p);
        proof {
            assert(self@ =~= close_vote_state(old(self)@, old(self).cfg, caller@, proposal@, now));
        }
        Ok(())
    }

    /// Commits a hidden vote: the declared weight is charged quadratically
    /// in vote tokens while the choice stays sealed in the signature.
    pub fn commit_vote(
        &mut self,
        caller: &Vec<u8>,
        proposal: &Vec<u8>,
        signature: Vec<u8>,
        number: u8,
        salt: u32,
        now: u64,
    ) -> (r: Result<Event, Error>)
        requires
            old(self).wf(),
        ensures
            final(self).wf(),
            final(self).cfg == old(self).cfg,
            final(self)@ == commit_state(
                old(self)@,
                caller@,
                proposal@,
                signature@,
                number,
                salt,
                now,
            ),
            match r {
                Ok(e) => commit_error(old(self)@, caller@, proposal@, number, now) is None && (
                e matches Event::Committed { account, proposal_hash } && account@ == caller@
                    && proposal_hash@ == proposal@),
                Err(e) => Some(e) == commit_error(old(self)@, caller@, proposal@, number, now),
            },
    {
        if !self.is_member(caller) {
            return Err(Error::NotMember);
        }
        if number == 0 {
            return Err(Error::InvalidArgument);
        }
        if self.already_committed_and_exist(caller, proposal) {
            return Err(Error::DuplicateVote);
        }
        let poll_end = match self.props.get(proposal) {
            Some(p) => p.poll_end,
            None => {
                return Err(Error::ProposalMissing);
            },
        };
        if now >= poll_end {
            return Err(Error::VoteEnded);
        }
        let cost = compute_commit_cost(number);
        let enough = if cost > MAX_TOKENS as u32 {
            false
        } else {
            self.decrease_votes(caller, cost as u8)
        };
        if !enough {
            proof {
                assert(old(self)@.members[caller@] <= MAX_TOKENS);
            }
            return Err(Error::NotEnoughVotingTokens);
        }
        proof {
            if number > 1 {
                assert(number <= 10) by (nonlinear_arith)
                    requires
                        number * number <= 100,
                        number >= 0,
                ;
            }
        }
        let commit = crate::types::Commit { signature, number, salt };
        self.commits.insert(copy_bytes(caller), copy_bytes(proposal), commit);
        proof {
            assert(self@ =~= commit_state(
                old(self)@,
                caller@,
                proposal@,
                commit@.signature,
                number,
                salt,
                now,
            ));
        }
        Ok(Event::Committed { account: copy_bytes(caller), proposal_hash: copy_bytes(proposal) })
    }
}

} // verus!
