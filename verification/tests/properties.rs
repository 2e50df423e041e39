//! The spelled-out scenarios: quadratic costs, timing boundaries, duplicate
//! handling, the settlement arithmetic, the tie, the late reveal, and one
//! input for every error.

use pallet_voting::compute_commit_cost;
use pallet_voting::crypto::encode_vote_salt;
use pallet_voting::state::Config;
use pallet_voting::state::GovState;
use pallet_voting::state::account_id;
use pallet_voting::types::Error;
use pallet_voting::types::Event;
use pallet_voting::types::Vote;

const UNIT: u128 = 1_000_000_000_000;
const ENTRY_FEE: u128 = 30_000 * UNIT;
const SALT: u32 = 10;

fn test_config() -> Config {
    Config { basic_deposit: ENTRY_FEE, reveal_length: 50, min_length: 100, max_proposals: 10 }
}

fn keypair(seed: u8) -> schnorrkel::Keypair {
    let mini = schnorrkel::MiniSecretKey::from_bytes(&[seed; 32]).unwrap();
    mini.expand_to_keypair(schnorrkel::ExpansionMode::Ed25519)
}

fn account_of(kp: &schnorrkel::Keypair) -> Vec<u8> {
    kp.public.to_bytes().to_vec()
}

fn sign_vote(kp: &schnorrkel::Keypair, vote: Vote, salt: u32) -> Vec<u8> {
    let payload = encode_vote_salt(vote, salt);
    kp.sign_simple(b"substrate", &payload).to_bytes().to_vec()
}

fn alice_pair() -> schnorrkel::Keypair {
    keypair(1)
}

fn bob_pair() -> schnorrkel::Keypair {
    keypair(2)
}

fn charlie_pair() -> schnorrkel::Keypair {
    keypair(3)
}

fn new_test_state() -> GovState {
    let mut s = GovState::new(test_config());
    s.endow(&account_of(&alice_pair()), 1_000_000 * UNIT);
    s.endow(&account_of(&bob_pair()), 1_000_000 * UNIT);
    s.endow(&account_of(&charlie_pair()), 20_000 * UNIT);
    s
}

fn proposed_hash(r: &Result<Event, Error>) -> Vec<u8> {
    match r {
        Ok(Event::Proposed { proposal_hash, .. }) => proposal_hash.clone(),
        _ => panic!("expected a Proposed event"),
    }
}

/// Membership, one proposal of duration 100 created by alice at height 0.
fn state_with_proposal() -> (GovState, Vec<u8>, Vec<u8>, Vec<u8>) {
    let mut s = new_test_state();
    let alice = account_of(&alice_pair());
    let bob = account_of(&bob_pair());
    let _ = s.join_committee(&alice, true);
    let _ = s.join_committee(&bob, true);
    let created = s.create_proposal(&alice, Vec::new(), 100, 0);
    let hash = proposed_hash(&created);
    (s, alice, bob, hash)
}

#[test]
fn join_twice_fails() {
    let mut s = new_test_state();
    let alice = account_of(&alice_pair());
    assert!(s.join_committee(&alice, true).is_ok());
    let r = s.join_committee(&alice, true);
    assert!(matches!(r, Err(Error::AlreadyMember)));
}

#[test]
fn join_without_funds_fails() {
    let mut s = new_test_state();
    let charlie = account_of(&charlie_pair());
    let r = s.join_committee(&charlie, true);
    assert!(matches!(r, Err(Error::NotEnoughFunds)));
}

#[test]
fn join_reserves_the_deposit() {
    let mut s = new_test_state();
    let alice = account_of(&alice_pair());
    let _ = s.join_committee(&alice, true);
    let info = s.member_info(&alice).unwrap();
    assert_eq!(info.voting_tokens, 100);
    assert_eq!(info.reserved_balance, ENTRY_FEE);
}

#[test]
fn proposal_hash_is_a_digest() {
    let mut s = new_test_state();
    let alice = account_of(&alice_pair());
    let _ = s.join_committee(&alice, true);
    let r1 = s.create_proposal(&alice, vec![1], 100, 0);
    let h1 = proposed_hash(&r1);
    let r2 = s.create_proposal(&alice, vec![2], 100, 0);
    let h2 = proposed_hash(&r2);
    assert_eq!(h1.len(), 32);
    assert_eq!(h2.len(), 32);
    assert_ne!(h1, h2);
}

#[test]
fn short_proposal_rejected() {
    let mut s = new_test_state();
    let alice = account_of(&alice_pair());
    let _ = s.join_committee(&alice, true);
    let r = s.create_proposal(&alice, Vec::new(), 99, 0);
    assert!(matches!(r, Err(Error::WrongProposalLength)));
}

#[test]
fn proposal_count_is_capped() {
    let mut s = new_test_state();
    let alice = account_of(&alice_pair());
    let _ = s.join_committee(&alice, true);
    for i in 0..10u8 {
        let r = s.create_proposal(&alice, vec![i], 100, 0);
        assert!(r.is_ok());
    }
    let r = s.create_proposal(&alice, vec![100], 100, 0);
    assert!(matches!(r, Err(Error::TooManyProposals)));
}

#[test]
fn commit_on_missing_proposal_fails() {
    let mut s = new_test_state();
    let alice = account_of(&alice_pair());
    let _ = s.join_committee(&alice, true);
    let bogus = vec![0u8; 32];
    let sig = sign_vote(&alice_pair(), Vote::Yes, SALT);
    let r = s.commit_vote(&alice, &bogus, sig, 1, SALT, 0);
    assert!(matches!(r, Err(Error::ProposalMissing)));
}

#[test]
fn commit_weight_zero_rejected() {
    let (mut s, alice, _, hash) = state_with_proposal();
    let sig = sign_vote(&alice_pair(), Vote::Yes, SALT);
    let r = s.commit_vote(&alice, &hash, sig, 0, SALT, 0);
    assert!(matches!(r, Err(Error::InvalidArgument)));
}

#[test]
fn commit_weight_one_costs_one_token() {
    let (mut s, alice, _, hash) = state_with_proposal();
    let sig = sign_vote(&alice_pair(), Vote::Yes, SALT);
    let r = s.commit_vote(&alice, &hash, sig, 1, SALT, 0);
    assert!(r.is_ok());
    assert_eq!(s.member_info(&alice).unwrap().voting_tokens, 99);
}

#[test]
fn commit_cost_is_quadratic() {
    let (mut s, alice, _, hash) = state_with_proposal();
    let sig = sign_vote(&alice_pair(), Vote::Yes, SALT);
    let r = s.commit_vote(&alice, &hash, sig, 7, SALT, 0);
    assert!(r.is_ok());
    assert_eq!(s.member_info(&alice).unwrap().voting_tokens, 100 - 49);
    assert_eq!(compute_commit_cost(7), 49);
    assert_eq!(compute_commit_cost(1), 1);
}

#[test]
fn cannot_submit_votes_more_than_have() {
    let (mut s, alice, _, hash) = state_with_proposal();
    let sig = sign_vote(&alice_pair(), Vote::Yes, SALT);
    let r = s.commit_vote(&alice, &hash, sig, 11, SALT, 0);
    assert!(matches!(r, Err(Error::NotEnoughVotingTokens)));
    assert_eq!(s.member_info(&alice).unwrap().voting_tokens, 100);
}

#[test]
fn commit_twice_fails() {
    let (mut s, alice, _, hash) = state_with_proposal();
    let sig = sign_vote(&alice_pair(), Vote::Yes, SALT);
    assert!(s.commit_vote(&alice, &hash, sig, 2, SALT, 0).is_ok());
    let sig = sign_vote(&alice_pair(), Vote::Yes, SALT);
    let r = s.commit_vote(&alice, &hash, sig, 2, SALT, 0);
    assert!(matches!(r, Err(Error::DuplicateVote)));
}

#[test]
fn commit_at_poll_end_fails() {
    let (mut s, alice, _, hash) = state_with_proposal();
    let sig = sign_vote(&alice_pair(), Vote::Yes, SALT);
    let r = s.commit_vote(&alice, &hash, sig, 2, SALT, 100);
    assert!(matches!(r, Err(Error::VoteEnded)));
}

#[test]
fn close_vote_exactly_at_poll_end_succeeds() {
    let (mut s, alice, _, hash) = state_with_proposal();
    let r = s.close_vote(&alice, &hash, 100);
    assert!(r.is_ok());
}

#[test]
fn close_vote_twice_fails() {
    let (mut s, alice, _, hash) = state_with_proposal();
    assert!(s.close_vote(&alice, &hash, 100).is_ok());
    let r = s.close_vote(&alice, &hash, 120);
    assert!(matches!(r, Err(Error::VoteAlreadyEnded)));
}

#[test]
fn reveal_without_commit_fails() {
    let (mut s, alice, _, hash) = state_with_proposal();
    let r = s.reveal_vote(&alice, &hash, Vote::Yes, 0);
    assert!(matches!(r, Err(Error::NoCommit)));
}

#[test]
fn reveal_twice_fails() {
    let (mut s, alice, _, hash) = state_with_proposal();
    let sig = sign_vote(&alice_pair(), Vote::Yes, SALT);
    let _ = s.commit_vote(&alice, &hash, sig, 2, SALT, 0);
    assert!(s.reveal_vote(&alice, &hash, Vote::Yes, 10).is_ok());
    // the reveal consumed the commitment
    let r = s.reveal_vote(&alice, &hash, Vote::Yes, 10);
    assert!(matches!(r, Err(Error::NoCommit)));
    // even a fresh commit cannot be revealed a second time
    let sig = sign_vote(&alice_pair(), Vote::Yes, SALT);
    let _ = s.commit_vote(&alice, &hash, sig, 2, SALT, 10);
    let r = s.reveal_vote(&alice, &hash, Vote::Yes, 10);
    assert!(matches!(r, Err(Error::DuplicateVote)));
}

#[test]
fn settlement_transfers_slash_to_winner() {
    let (mut s, alice, bob, hash) = state_with_proposal();
    let sig = sign_vote(&alice_pair(), Vote::Yes, SALT);
    let _ = s.commit_vote(&alice, &hash, sig, 8, SALT, 0);
    let sig = sign_vote(&bob_pair(), Vote::No, SALT);
    let _ = s.commit_vote(&bob, &hash, sig, 2, SALT, 0);
    let _ = s.close_vote(&bob, &hash, 101);
    assert!(s.reveal_vote(&alice, &hash, Vote::Yes, 101).is_ok());
    assert!(s.reveal_vote(&bob, &hash, Vote::No, 101).is_ok());

    let r = s.close_reveal(&bob, &hash, 160);
    assert!(r.is_ok());

    // ayes 8 beat nays 2: bob lost a tenth of his reserve, alice — the
    // single winner — received the whole pot
    let slash = ENTRY_FEE / 10;
    assert_eq!(s.member_info(&bob).unwrap().reserved_balance, ENTRY_FEE - slash);
    assert_eq!(s.member_info(&alice).unwrap().reserved_balance, ENTRY_FEE + slash);
    assert_eq!(s.reserved_balance(&account_id()), 0);
    let p = s.proposal_data(&hash).unwrap();
    assert_eq!(p.payout, slash);
    assert_eq!(p.ayes, 8);
    assert_eq!(p.nays, 2);
}

#[test]
fn tie_slashes_everyone_and_pays_the_proposer() {
    let (mut s, alice, bob, hash) = state_with_proposal();
    let sig = sign_vote(&alice_pair(), Vote::Yes, SALT);
    let _ = s.commit_vote(&alice, &hash, sig, 2, SALT, 0);
    let sig = sign_vote(&bob_pair(), Vote::No, SALT);
    let _ = s.commit_vote(&bob, &hash, sig, 2, SALT, 0);
    let _ = s.close_vote(&bob, &hash, 101);
    assert!(s.reveal_vote(&alice, &hash, Vote::Yes, 101).is_ok());
    assert!(s.reveal_vote(&bob, &hash, Vote::No, 101).is_ok());

    let r = s.close_reveal(&bob, &hash, 160);
    assert!(r.is_ok());

    // 2 aye against 2 nay: both voters slashed, the proposer alice takes
    // the whole pot
    let slash = ENTRY_FEE / 10;
    assert_eq!(s.member_info(&bob).unwrap().reserved_balance, ENTRY_FEE - slash);
    assert_eq!(s.member_info(&alice).unwrap().reserved_balance, ENTRY_FEE - slash + 2 * slash);
    assert_eq!(s.reserved_balance(&account_id()), 0);
    assert_eq!(s.proposal_data(&hash).unwrap().payout, 2 * slash);
}

#[test]
fn late_reveal_is_punished_not_rejected() {
    let (mut s, alice, bob, hash) = state_with_proposal();
    let sig = sign_vote(&alice_pair(), Vote::Yes, SALT);
    let _ = s.commit_vote(&alice, &hash, sig, 8, SALT, 0);
    let _ = s.close_vote(&bob, &hash, 100);
    assert_eq!(s.member_info(&alice).unwrap().voting_tokens, 100 - 64);

    // the reveal window ends at 150; revealing at 151 is late
    let r = s.reveal_vote(&alice, &hash, Vote::Yes, 151);
    assert!(matches!(r, Ok(None)));

    // no tally was registered, the squared weight came back in tokens, and
    // a tenth of the collateral went to the pot
    let p = s.proposal_data(&hash).unwrap();
    assert_eq!(p.ayes, 0);
    assert_eq!(p.nays, 0);
    assert_eq!(s.member_info(&alice).unwrap().voting_tokens, 100);
    let slash = ENTRY_FEE / 10;
    assert_eq!(s.member_info(&alice).unwrap().reserved_balance, ENTRY_FEE - slash);
    assert_eq!(s.reserved_balance(&account_id()), slash);
}

#[test]
fn leave_cashes_out_everything() {
    let mut s = new_test_state();
    let alice = account_of(&alice_pair());
    let _ = s.join_committee(&alice, true);
    let r = s.leave_committee(&alice, true);
    match r {
        Ok(Event::Left { cashout, .. }) => assert_eq!(cashout, ENTRY_FEE),
        _ => panic!("expected a Left event"),
    }
    assert!(s.member_info(&alice).is_none());
    assert_eq!(s.reserved_balance(&alice), 0);
}

#[test]
fn leave_without_identity_fails() {
    let mut s = new_test_state();
    let alice = account_of(&alice_pair());
    let _ = s.join_committee(&alice, true);
    let r = s.leave_committee(&alice, false);
    assert!(matches!(r, Err(Error::NoIdentity)));
}

#[test]
fn encode_vote_salt_layout() {
    let bytes = encode_vote_salt(Vote::Yes, 0x04030201);
    assert_eq!(bytes, vec![0u8, 1, 2, 3, 4]);
    let bytes = encode_vote_salt(Vote::No, 10);
    assert_eq!(bytes, vec![1u8, 10, 0, 0, 0]);
}

#[test]
fn settlement_conserves_funds() {
    let (mut s, alice, bob, hash) = state_with_proposal();
    let sig = sign_vote(&alice_pair(), Vote::Yes, SALT);
    let _ = s.commit_vote(&alice, &hash, sig, 8, SALT, 0);
    let sig = sign_vote(&bob_pair(), Vote::No, SALT);
    let _ = s.commit_vote(&bob, &hash, sig, 2, SALT, 0);
    let _ = s.close_vote(&bob, &hash, 101);
    let _ = s.reveal_vote(&alice, &hash, Vote::Yes, 101);
    let _ = s.reveal_vote(&bob, &hash, Vote::No, 101);

    let before = s.reserved_balance(&alice) + s.reserved_balance(&bob) + s.reserved_balance(
        &account_id(),
    );
    let _ = s.close_reveal(&bob, &hash, 160);
    let after = s.reserved_balance(&alice) + s.reserved_balance(&bob) + s.reserved_balance(
        &account_id(),
    );
    assert_eq!(before, after);
}

#[test]
fn reward_remainder_stays_with_the_pot() {
    // a deposit of 35 slashes to 3, which two winners cannot split evenly
    let cfg = Config { basic_deposit: 35, reveal_length: 50, min_length: 100, max_proposals: 10 };
    let mut s = GovState::new(cfg);
    let alice = account_of(&alice_pair());
    let bob = account_of(&bob_pair());
    let dave = account_of(&keypair(4));
    s.endow(&alice, 1000);
    s.endow(&bob, 1000);
    s.endow(&dave, 1000);
    let _ = s.join_committee(&alice, true);
    let _ = s.join_committee(&bob, true);
    let _ = s.join_committee(&dave, true);
    let created = s.create_proposal(&alice, Vec::new(), 100, 0);
    let hash = proposed_hash(&created);

    let sig = sign_vote(&alice_pair(), Vote::Yes, SALT);
    let _ = s.commit_vote(&alice, &hash, sig, 1, SALT, 0);
    let sig = sign_vote(&keypair(4), Vote::Yes, SALT);
    let _ = s.commit_vote(&dave, &hash, sig, 1, SALT, 0);
    let sig = sign_vote(&bob_pair(), Vote::No, SALT);
    let _ = s.commit_vote(&bob, &hash, sig, 1, SALT, 0);

    let _ = s.close_vote(&bob, &hash, 101);
    assert!(s.reveal_vote(&alice, &hash, Vote::Yes, 101).is_ok());
    assert!(s.reveal_vote(&dave, &hash, Vote::Yes, 101).is_ok());
    assert!(s.reveal_vote(&bob, &hash, Vote::No, 101).is_ok());
    assert!(s.close_reveal(&bob, &hash, 160).is_ok());

    // bob lost 35 / 10 = 3; each winner gets 3 / 2 = 1; the dust stays put
    assert_eq!(s.member_info(&bob).unwrap().reserved_balance, 32);
    assert_eq!(s.member_info(&alice).unwrap().reserved_balance, 36);
    assert_eq!(s.member_info(&dave).unwrap().reserved_balance, 36);
    assert_eq!(s.reserved_balance(&account_id()), 1);
    assert_eq!(s.proposal_data(&hash).unwrap().payout, 3);
}
