//! The data model: votes, commits, proposals, balances, errors and events.

use vstd::prelude::*;

verus! {

/// A binary vote choice.
#[derive(Clone, Copy, PartialEq, Eq, Structural, Debug)]
pub enum Vote {
    Yes,
    No,
}

/// A hidden vote commitment: the signed choice, the declared weight and the
/// salt that guards the choice against replay. Only the choice stays hidden;
/// the weight is visible so that vote tokens can be charged at commit time.
pub struct Commit {
    /// Signature over the encoding of the hidden choice and the salt.
    pub signature: Vec<u8>,
    /// The declared vote weight, charged quadratically in vote tokens.
    pub number: u8,
    /// Random nonce bound into the signed payload.
    pub salt: u32,
}

/// The mathematical value of a [`Commit`].
pub ghost struct CommitView {
    pub signature: Seq<u8>,
    pub number: u8,
    pub salt: u32,
}

impl View for Commit {
    type V = CommitView;

    open spec fn view(&self) -> CommitView {
        CommitView { signature: self.signature@, number: self.number, salt: self.salt }
    }
}

/// One revealed vote: the voter, the weight and the choice.
pub struct VoteRecord {
    pub account: Vec<u8>,
    pub number: u8,
    pub vote: Vote,
}

/// The mathematical value of a [`VoteRecord`].
pub ghost struct VoteRecordView {
    pub account: Seq<u8>,
    pub number: u8,
    pub vote: Vote,
}

impl View for VoteRecord {
    type V = VoteRecordView;

    open spec fn view(&self) -> VoteRecordView {
        VoteRecordView { account: self.account@, number: self.number, vote: self.vote }
    }
}

/// Per-proposal state: the payload voted on, the deadlines, the running
/// tallies and the record of every revealed vote.
pub struct Proposal {
    /// The community note being voted on.
    pub title: Vec<u8>,
    /// Who proposed it.
    pub proposer: Vec<u8>,
    /// Running vote weight in favour.
    pub ayes: u32,
    /// Running vote weight against.
    pub nays: u32,
    /// Block height at which committing closes.
    pub poll_end: u64,
    /// Block height at which revealing closes; `None` while the commit
    /// phase has not been explicitly closed yet.
    pub reveal_end: Option<u64>,
    /// Every revealed vote, in reveal order.
    pub votes: Vec<VoteRecord>,
    /// Accounts that have revealed, used to reject a double reveal.
    pub revealed: Vec<Vec<u8>>,
    /// Total amount slashed and redistributed at settlement.
    pub payout: u128,
}

/// The mathematical value of a [`Proposal`].
pub ghost struct ProposalView {
    pub title: Seq<u8>,
    pub proposer: Seq<u8>,
    pub ayes: u32,
    pub nays: u32,
    pub poll_end: u64,
    pub reveal_end: Option<u64>,
    pub votes: Seq<VoteRecordView>,
    pub revealed: Seq<Seq<u8>>,
    pub payout: u128,
}

impl View for Proposal {
    type V = ProposalView;

    open spec fn view(&self) -> ProposalView {
        ProposalView {
            title: self.title@,
            proposer: self.proposer@,
            ayes: self.ayes,
            nays: self.nays,
            poll_end: self.poll_end,
            reveal_end: self.reveal_end,
            votes: self.votes.deep_view(),
            revealed: self.revealed.deep_view(),
            payout: self.payout,
        }
    }
}

impl DeepView for VoteRecord {
    type V = VoteRecordView;

    open spec fn deep_view(&self) -> VoteRecordView {
        self.view()
    }
}

/// A member's standing: remaining vote tokens and the collateral held in
/// reserve for them.
#[derive(Clone, Copy, PartialEq, Eq, Structural, Debug)]
pub struct VoterBalance {
    /// Vote tokens still available for commits.
    pub voting_tokens: u8,
    /// Collateral currently reserved against the member's balance.
    pub reserved_balance: u128,
}

/// Everything that can go wrong with a call.
#[derive(Clone, Copy, PartialEq, Eq, Structural, Debug)]
pub enum Error {
    /// Account is not a member.
    NotMember,
    /// Account is already a member.
    AlreadyMember,
    /// Account does not have an identity.
    NoIdentity,
    /// Duplicate proposals are not allowed.
    DuplicateProposal,
    /// The proposal must exist.
    ProposalMissing,
    /// An invalid argument was supplied.
    InvalidArgument,
    /// Duplicate vote rejected.
    DuplicateVote,
    /// The call was made too early.
    TooEarly,
    /// No more active proposals are allowed.
    TooManyProposals,
    /// The voting window would be shorter than the allowed minimum.
    WrongProposalLength,
    /// Not enough funds to reserve the entry deposit.
    NotEnoughFunds,
    /// Not enough vote tokens for the declared weight.
    NotEnoughVotingTokens,
    /// The voting phase has ended.
    VoteEnded,
    /// The voting phase had already been closed.
    VoteAlreadyEnded,
    /// The reveal phase has not started yet.
    RevealNotStarted,
    /// No commit has been submitted.
    NoCommit,
    /// The signature does not match the commitment.
    SignatureInvalid,
    /// The voter is in the middle of a vote.
    InMotion,
}

/// A domain event, returned by the call that caused it.
pub enum Event {
    Joined { account: Vec<u8> },
    Left { account: Vec<u8>, cashout: u128 },
    Proposed { account: Vec<u8>, proposal_hash: Vec<u8> },
    Committed { account: Vec<u8>, proposal_hash: Vec<u8> },
    Voted { account: Vec<u8>, proposal_hash: Vec<u8> },
}

} // verus!
