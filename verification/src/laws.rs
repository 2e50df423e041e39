//! The protocol's laws, stated over the call transitions and proved once
//! and for all: what repeated joins, commits and reveals must do, how the
//! quadratic cost behaves, where the timing boundaries lie, and what a late
//! reveal costs.

use vstd::prelude::*;

use crate::bank::acct;
use crate::calls::commit_error;
use crate::calls::commit_state;
use crate::calls::create_error;
use crate::calls::create_state;
use crate::calls::close_vote_error;
use crate::calls::join_error;
use crate::calls::join_state;
use crate::calls::leave_error;
use crate::calls::leave_state;
use crate::commit_cost;
use crate::crypto::hash_of;
use crate::crypto::sig_verifies;
use crate::crypto::vote_salt_bytes;
use crate::protocol::close_reveal_error;
use crate::protocol::reveal_error;
use crate::protocol::reveal_is_late;
use crate::protocol::reveal_state;
use crate::settle::slash_all;
use crate::state::Config;
use crate::state::GovView;
use crate::state::added_tokens;
use crate::state::pot_id;
use crate::types::Error;
use crate::types::Vote;
use crate::types::VoteRecordView;

verus! {

/// Joining twice fails: after a successful join, a second join by the same
/// account fails with `AlreadyMember` and changes nothing.
pub proof fn lemma_join_twice(s: GovView, cfg: Config, caller: Seq<u8>, h1: bool, h2: bool)
    requires
        join_error(s, cfg, caller, h1) is None,
    ensures
        ({
            let s1 = join_state(s, cfg, caller, h1);
            &&& join_error(s1, cfg, caller, h2) == Some(Error::AlreadyMember)
            &&& join_state(s1, cfg, caller, h2) == s1
        }),
{
}

/// Leaving while any commitment of the caller is outstanding fails with
/// `InMotion` and changes nothing.
pub proof fn lemma_leave_in_motion(s: GovView, caller: Seq<u8>, proposal: Seq<u8>)
    requires
        s.commits.contains_key((caller, proposal)),
    ensures
        leave_error(s, caller, true) == Some(Error::InMotion),
        leave_state(s, caller, true) == s,
{
}

/// While a proposal is active, creating another one with the same content
/// hash fails with `DuplicateProposal` and changes nothing, whoever asks.
pub proof fn lemma_create_duplicate(
    s: GovView,
    cfg: Config,
    caller: Seq<u8>,
    content: Seq<u8>,
    duration: u64,
    now: u64,
    caller2: Seq<u8>,
    content2: Seq<u8>,
    duration2: u64,
    now2: u64,
)
    requires
        create_error(s, cfg, caller, content, duration, now) is None,
        hash_of(content2) == hash_of(content),
        duration2 >= cfg.min_length,
        s.members.contains_key(caller2),
        s.proposals.len() + 1 < cfg.max_proposals,
    ensures
        ({
            let s1 = create_state(s, cfg, caller, content, duration, now);
            &&& create_error(s1, cfg, caller2, content2, duration2, now2) == Some(
                Error::DuplicateProposal,
            )
            &&& create_state(s1, cfg, caller2, content2, duration2, now2) == s1
        }),
{
    let s1 = create_state(s, cfg, caller, content, duration, now);
    assert(s1.proposals[s.proposals.len() as int] == hash_of(content));
    assert(s1.proposals.contains(hash_of(content2)));
}

/// The commit-then-reveal round trip: after a successful commit whose
/// signature covers the encoding of the vote and the salt, a timely reveal
/// of that vote by a voter who has not revealed yet succeeds, consumes the
/// commitment and adds exactly the committed weight to the matching tally.
pub proof fn lemma_commit_reveal_round_trip(
    s: GovView,
    caller: Seq<u8>,
    proposal: Seq<u8>,
    signature: Seq<u8>,
    number: u8,
    salt: u32,
    vote: Vote,
    t1: u64,
    t2: u64,
)
    requires
        commit_error(s, caller, proposal, number, t1) is None,
        sig_verifies(vote_salt_bytes(vote, salt), signature, caller),
        !s.props[proposal].revealed.contains(caller),
        match s.props[proposal].reveal_end {
            Some(re) => t2 <= re,
            None => true,
        },
        s.props[proposal].ayes + number <= u32::MAX,
        s.props[proposal].nays + number <= u32::MAX,
    ensures
        ({
            let s1 = commit_state(s, caller, proposal, signature, number, salt, t1);
            let s2 = reveal_state(s1, caller, proposal, vote, t2);
            &&& reveal_error(s1, caller, proposal, vote, t2) is None
            &&& !reveal_is_late(s1, proposal, t2)
            &&& !s2.commits.contains_key((caller, proposal))
            &&& vote is Yes ==> s2.props[proposal].ayes == s.props[proposal].ayes + number
                && s2.props[proposal].nays == s.props[proposal].nays
            &&& vote is No ==> s2.props[proposal].nays == s.props[proposal].nays + number
                && s2.props[proposal].ayes == s.props[proposal].ayes
            &&& s2.props[proposal].votes == s.props[proposal].votes.push(
                (VoteRecordView { account: caller, number, vote }),
            )
            &&& s2.props[proposal].revealed == s.props[proposal].revealed.push(caller)
        }),
{
    let s1 = commit_state(s, caller, proposal, signature, number, salt, t1);
    assert(s1.props == s.props);
    assert(s1.commits[(caller, proposal)].signature == signature);
    assert(s1.commits[(caller, proposal)].salt == salt);
    assert(reveal_error(s1, caller, proposal, vote, t2) is None);
}

/// Revealing a vote that the commitment's signature does not cover fails
/// with `SignatureInvalid` and changes nothing.
pub proof fn lemma_reveal_wrong_vote(
    s: GovView,
    caller: Seq<u8>,
    proposal: Seq<u8>,
    vote: Vote,
    now: u64,
)
    requires
        s.members.contains_key(caller),
        s.commits.contains_key((caller, proposal)),
        !sig_verifies(
            vote_salt_bytes(vote, s.commits[(caller, proposal)].salt),
            s.commits[(caller, proposal)].signature,
            caller,
        ),
    ensures
        reveal_error(s, caller, proposal, vote, now) == Some(Error::SignatureInvalid),
        reveal_state(s, caller, proposal, vote, now) == s,
{
}

/// A reveal consumes the commitment: an immediate second reveal attempt
/// fails with `NoCommit` and changes nothing.
pub proof fn lemma_reveal_consumes_commit(
    s: GovView,
    caller: Seq<u8>,
    proposal: Seq<u8>,
    vote: Vote,
    now: u64,
    vote2: Vote,
    t2: u64,
)
    requires
        reveal_error(s, caller, proposal, vote, now) is None,
    ensures
        ({
            let s1 = reveal_state(s, caller, proposal, vote, now);
            &&& reveal_error(s1, caller, proposal, vote2, t2) == Some(Error::NoCommit)
            &&& reveal_state(s1, caller, proposal, vote2, t2) == s1
        }),
{
}

/// One timely tally contribution per voter and proposal, ever: after a
/// successful timely reveal, even a fresh commit cannot be revealed in
/// time again — the attempt fails with `DuplicateVote` and changes nothing.
pub proof fn lemma_no_second_tally(
    s: GovView,
    caller: Seq<u8>,
    proposal: Seq<u8>,
    vote: Vote,
    now: u64,
    signature2: Seq<u8>,
    number2: u8,
    salt2: u32,
    t2: u64,
    vote2: Vote,
    t3: u64,
)
    requires
        reveal_error(s, caller, proposal, vote, now) is None,
        !reveal_is_late(s, proposal, now),
        s.props.contains_key(proposal),
        ({
            let s1 = reveal_state(s, caller, proposal, vote, now);
            &&& commit_error(s1, caller, proposal, number2, t2) is None
            &&& sig_verifies(vote_salt_bytes(vote2, salt2), signature2, caller)
            &&& !reveal_is_late(
                commit_state(s1, caller, proposal, signature2, number2, salt2, t2),
                proposal,
                t3,
            )
        }),
    ensures
        ({
            let s1 = reveal_state(s, caller, proposal, vote, now);
            let s2 = commit_state(s1, caller, proposal, signature2, number2, salt2, t2);
            &&& reveal_error(s2, caller, proposal, vote2, t3) == Some(Error::DuplicateVote)
            &&& reveal_state(s2, caller, proposal, vote2, t3) == s2
        }),
{
    let s1 = reveal_state(s, caller, proposal, vote, now);
    let s2 = commit_state(s1, caller, proposal, signature2, number2, salt2, t2);
    let p1 = s1.props[proposal];
    assert(p1.revealed == s.props[proposal].revealed.push(caller));
    assert(p1.revealed[p1.revealed.len() - 1] == caller);
    assert(s2.props[proposal].revealed.contains(caller));
}

/// A second commit for the same voter and proposal before the first is
/// revealed fails with `DuplicateVote` and changes nothing.
pub proof fn lemma_commit_twice(
    s: GovView,
    caller: Seq<u8>,
    proposal: Seq<u8>,
    signature: Seq<u8>,
    number: u8,
    salt: u32,
    t1: u64,
    number2: u8,
    t2: u64,
)
    requires
        commit_error(s, caller, proposal, number, t1) is None,
        number2 != 0,
    ensures
        ({
            let s1 = commit_state(s, caller, proposal, signature, number, salt, t1);
            &&& commit_error(s1, caller, proposal, number2, t2) == Some(Error::DuplicateVote)
            &&& commit_state(s1, caller, proposal, signature, number2, salt, t2) == s1
        }),
{
}

/// The quadratic cost law: a successful commit of weight one costs one
/// token, of any larger weight its square.
pub proof fn lemma_quadratic_cost(
    s: GovView,
    caller: Seq<u8>,
    proposal: Seq<u8>,
    signature: Seq<u8>,
    number: u8,
    salt: u32,
    now: u64,
)
    requires
        commit_error(s, caller, proposal, number, now) is None,
    ensures
        ({
            let s1 = commit_state(s, caller, proposal, signature, number, salt, now);
            &&& number > 1 ==> s1.members[caller] == s.members[caller] - number * number
            &&& number == 1 ==> s1.members[caller] == s.members[caller] - 1
        }),
{
}

/// An unaffordable commit fails with `NotEnoughVotingTokens` and leaves
/// the token balance — and everything else — unchanged.
pub proof fn lemma_insufficient_tokens(
    s: GovView,
    caller: Seq<u8>,
    proposal: Seq<u8>,
    signature: Seq<u8>,
    number: u8,
    salt: u32,
    now: u64,
)
    requires
        s.members.contains_key(caller),
        number != 0,
        !s.commits.contains_key((caller, proposal)),
        s.props.contains_key(proposal),
        now < s.props[proposal].poll_end,
        (s.members[caller] as int) < commit_cost(number),
    ensures
        commit_error(s, caller, proposal, number, now) == Some(Error::NotEnoughVotingTokens),
        commit_state(s, caller, proposal, signature, number, salt, now) == s,
{
}

/// Committing exactly at the end of the poll fails with `VoteEnded`.
pub proof fn lemma_commit_at_poll_end(
    s: GovView,
    caller: Seq<u8>,
    proposal: Seq<u8>,
    number: u8,
    now: u64,
)
    requires
        s.members.contains_key(caller),
        number != 0,
        !s.commits.contains_key((caller, proposal)),
        s.props.contains_key(proposal),
        now == s.props[proposal].poll_end,
    ensures
        commit_error(s, caller, proposal, number, now) == Some(Error::VoteEnded),
{
}

/// Closing the voting phase exactly at the end of the poll succeeds: the
/// boundary is inclusive.
pub proof fn lemma_close_vote_at_poll_end(s: GovView, caller: Seq<u8>, proposal: Seq<u8>, now: u64)
    requires
        s.members.contains_key(caller),
        s.props.contains_key(proposal),
        s.props[proposal].reveal_end is None,
        now == s.props[proposal].poll_end,
    ensures
        close_vote_error(s, caller, proposal, now) is None,
{
}

/// Closing the reveal phase before the reveal deadline fails with
/// `TooEarly`.
pub proof fn lemma_close_reveal_early(
    s: GovView,
    caller: Seq<u8>,
    proposal: Seq<u8>,
    re: u64,
    now: u64,
)
    requires
        s.members.contains_key(caller),
        s.props.contains_key(proposal),
        s.props[proposal].reveal_end == Some(re),
        now < re,
    ensures
        close_reveal_error(s, caller, proposal, now) == Some(Error::TooEarly),
{
}

/// A late reveal is absorbed, not rejected: it consumes the commitment,
/// slashes a tenth of the revealer's reserved collateral into the pot,
/// refunds the squared weight in vote tokens, and leaves every proposal —
/// in particular every tally — unchanged.
pub proof fn lemma_late_reveal(s: GovView, caller: Seq<u8>, proposal: Seq<u8>, vote: Vote, now: u64)
    requires
        reveal_error(s, caller, proposal, vote, now) is None,
        reveal_is_late(s, proposal, now),
        caller != pot_id(),
    ensures
        ({
            let s1 = reveal_state(s, caller, proposal, vote, now);
            let c = s.commits[(caller, proposal)];
            let res = acct(s.bank, caller).reserved;
            &&& s1.props == s.props
            &&& !s1.commits.contains_key((caller, proposal))
            &&& acct(s1.bank, caller).reserved == res - (res as int) / 10
            &&& acct(s1.bank, pot_id()).reserved == (acct(s.bank, pot_id()).reserved + ((
            res as int) / 10)) as u128
            &&& s1.members == s.members.insert(
                caller,
                added_tokens(s.members, caller, c.number * c.number),
            )
        }),
{
    let solo: Seq<Seq<u8>> = seq![caller];
    assert(solo.drop_last() =~= Seq::<Seq<u8>>::empty());
    assert(solo.last() == caller);
    assert(slash_all(s.bank, solo.drop_last(), pot_id()).0 == s.bank);
    let res = acct(s.bank, caller).reserved;
    let slash = ((res as int) / 10) as u128;
    assert(slash <= res);
    let fa = acct(s.bank, caller);
    let ta = acct(s.bank, pot_id());
    let b1 = s.bank.insert(
        caller,
        (crate::bank::BankAccount { free: fa.free, reserved: (fa.reserved - slash) as u128 }),
    ).insert(
        pot_id(),
        (crate::bank::BankAccount { free: ta.free, reserved: (ta.reserved + slash) as u128 }),
    );
    assert(slash_all(s.bank, solo, pot_id()).0 == b1);
    assert(acct(b1, caller).reserved == res - (res as int) / 10);
}

} // verus!
