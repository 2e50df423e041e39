//! The calls exercised end to end, with real sr25519 keys and real hashing.

use pallet_voting::crypto::encode_vote_salt;
use pallet_voting::state::Config;
use pallet_voting::state::GovState;
use pallet_voting::types::Error;
use pallet_voting::types::Event;
use pallet_voting::types::Vote;

const UNIT: u128 = 1_000_000_000_000;
const ENTRY_FEE: u128 = 30_000 * UNIT;
const SALT: u32 = 10;

fn test_config() -> Config {
    Config { basic_deposit: ENTRY_FEE, reveal_length: 50, min_length: 100, max_proposals: 10 }
}

fn keypair(seed: u8) -> schnorrkel::Keypair {
    let mini = schnorrkel::MiniSecretKey::from_bytes(&[seed; 32]).unwrap();
    mini.expand_to_keypair(schnorrkel::ExpansionMode::Ed25519)
}

fn account_of(kp: &schnorrkel::Keypair) -> Vec<u8> {
    kp.public.to_bytes().to_vec()
}

fn sign_vote(kp: &schnorrkel::Keypair, vote: Vote, salt: u32) -> Vec<u8> {
    let payload = encode_vote_salt(vote, salt);
    kp.sign_simple(b"substrate", &payload).to_bytes().to_vec()
}

fn alice_pair() -> schnorrkel::Keypair {
    keypair(1)
}

fn bob_pair() -> schnorrkel::Keypair {
    keypair(2)
}

fn charlie_pair() -> schnorrkel::Keypair {
    keypair(3)
}

/// A fresh state with alice and bob richly endowed and charlie short.
fn new_test_state() -> GovState {
    let mut s = GovState::new(test_config());
    s.endow(&account_of(&alice_pair()), 1_000_000 * UNIT);
    s.endow(&account_of(&bob_pair()), 1_000_000 * UNIT);
    s.endow(&account_of(&charlie_pair()), 20_000 * UNIT);
    s
}

fn proposed_hash(r: &Result<Event, Error>) -> Vec<u8> {
    match r {
        Ok(Event::Proposed { proposal_hash, .. }) => proposal_hash.clone(),
        _ => panic!("expected a Proposed event"),
    }
}

#[test]
fn not_join_without_identity() {
    let mut s = new_test_state();
    let alice = account_of(&alice_pair());
    let r = s.join_committee(&alice, false);
    assert!(matches!(r, Err(Error::NoIdentity)));
}

#[test]
fn join_with_identity() {
    let mut s = new_test_state();
    let alice = account_of(&alice_pair());
    let r = s.join_committee(&alice, true);
    assert!(r.is_ok());
}

#[test]
fn disallow_action_for_non_members() {
    let mut s = new_test_state();
    let bob = account_of(&bob_pair());
    let r = s.create_proposal(&bob, Vec::new(), 100, 0);
    assert!(matches!(r, Err(Error::NotMember)));
}

#[test]
fn create_proposal_success() {
    let mut s = new_test_state();
    let alice = account_of(&alice_pair());
    let _ = s.join_committee(&alice, true);
    let r = s.create_proposal(&alice, Vec::new(), 100, 0);
    assert!(r.is_ok());
    let hash = proposed_hash(&r);
    let (exists, index) = s.proposal_exist(&hash);
    assert!(exists);
    assert_eq!(index.len(), 1);
}

#[test]
fn no_proposal_duplicates() {
    let mut s = new_test_state();
    let alice = account_of(&alice_pair());
    let _ = s.join_committee(&alice, true);
    let _ = s.create_proposal(&alice, Vec::new(), 100, 0);
    let r = s.create_proposal(&alice, Vec::new(), 100, 0);
    assert!(matches!(r, Err(Error::DuplicateProposal)));
}

#[test]
fn submit_commits() {
    let mut s = new_test_state();
    let alice = account_of(&alice_pair());
    let _ = s.join_committee(&alice, true);
    let created = s.create_proposal(&alice, Vec::new(), 100, 0);
    let hash = proposed_hash(&created);
    let sig = sign_vote(&alice_pair(), Vote::Yes, SALT);
    let r = s.commit_vote(&alice, &hash, sig, 8, SALT, 0);
    assert!(r.is_ok());
}

#[test]
fn cannot_commit_after_deadline() {
    let mut s = new_test_state();
    let alice = account_of(&alice_pair());
    let _ = s.join_committee(&alice, true);
    let created = s.create_proposal(&alice, Vec::new(), 100, 0);
    let hash = proposed_hash(&created);
    let sig = sign_vote(&alice_pair(), Vote::Yes, SALT);
    let r = s.commit_vote(&alice, &hash, sig, 5, SALT, 105);
    assert!(matches!(r, Err(Error::VoteEnded)));
}

#[test]
fn reveal_vote_success() {
    let mut s = new_test_state();
    let alice = account_of(&alice_pair());
    let _ = s.join_committee(&alice, true);
    let created = s.create_proposal(&alice, Vec::new(), 100, 0);
    let hash = proposed_hash(&created);
    let sig = sign_vote(&alice_pair(), Vote::Yes, SALT);
    let _ = s.commit_vote(&alice, &hash, sig, 8, SALT, 20);
    let r = s.reveal_vote(&alice, &hash, Vote::Yes, 20);
    assert!(r.is_ok());
    let p = s.proposal_data(&hash).unwrap();
    assert_eq!(p.ayes, 8);
    assert_eq!(p.nays, 0);
}

#[test]
fn cannot_reveal_incorrect_vote() {
    let mut s = new_test_state();
    let alice = account_of(&alice_pair());
    let _ = s.join_committee(&alice, true);
    let created = s.create_proposal(&alice, Vec::new(), 100, 0);
    let hash = proposed_hash(&created);
    let sig = sign_vote(&alice_pair(), Vote::Yes, SALT);
    let _ = s.commit_vote(&alice, &hash, sig, 8, SALT, 20);
    let r = s.reveal_vote(&alice, &hash, Vote::No, 20);
    assert!(matches!(r, Err(Error::SignatureInvalid)));
}

#[test]
fn close_vote_success() {
    let mut s = new_test_state();
    let alice = account_of(&alice_pair());
    let _ = s.join_committee(&alice, true);
    let created = s.create_proposal(&alice, Vec::new(), 100, 0);
    let hash = proposed_hash(&created);
    let r = s.close_vote(&alice, &hash, 120);
    assert!(r.is_ok());
}

#[test]
fn cannot_close_vote_before_deadline() {
    let mut s = new_test_state();
    let alice = account_of(&alice_pair());
    let _ = s.join_committee(&alice, true);
    let created = s.create_proposal(&alice, Vec::new(), 100, 0);
    let hash = proposed_hash(&created);
    let r = s.close_vote(&alice, &hash, 0);
    assert!(matches!(r, Err(Error::TooEarly)));
}

#[test]
fn close_reveal_success() {
    let mut s = new_test_state();
    let alice = account_of(&alice_pair());
    let _ = s.join_committee(&alice, true);
    let created = s.create_proposal(&alice, Vec::new(), 100, 0);
    let hash = proposed_hash(&created);
    let _ = s.close_vote(&alice, &hash, 110);
    let r = s.close_reveal(&alice, &hash, 160);
    assert!(r.is_ok());
}

#[test]
fn cannot_close_reveal_early() {
    let mut s = new_test_state();
    let alice = account_of(&alice_pair());
    let _ = s.join_committee(&alice, true);
    let created = s.create_proposal(&alice, Vec::new(), 100, 0);
    let hash = proposed_hash(&created);
    let _ = s.close_vote(&alice, &hash, 110);
    let r = s.close_reveal(&alice, &hash, 140);
    assert!(matches!(r, Err(Error::TooEarly)));
}

#[test]
fn cannot_close_reveal_before_vote_end() {
    let mut s = new_test_state();
    let alice = account_of(&alice_pair());
    let _ = s.join_committee(&alice, true);
    let created = s.create_proposal(&alice, Vec::new(), 100, 0);
    let hash = proposed_hash(&created);
    let r = s.close_reveal(&alice, &hash, 140);
    assert!(matches!(r, Err(Error::RevealNotStarted)));
}

#[test]
fn slashed_correctly() {
    let mut s = new_test_state();
    let alice = account_of(&alice_pair());
    let bob = account_of(&bob_pair());
    let _ = s.join_committee(&alice, true);
    let _ = s.join_committee(&bob, true);
    let created = s.create_proposal(&alice, Vec::new(), 100, 0);
    let hash = proposed_hash(&created);
    let sig = sign_vote(&alice_pair(), Vote::Yes, SALT);
    let _ = s.commit_vote(&alice, &hash, sig, 8, SALT, 0);
    let sig = sign_vote(&bob_pair(), Vote::No, SALT);
    let _ = s.commit_vote(&bob, &hash, sig, 2, SALT, 0);
    let _ = s.close_vote(&bob, &hash, 101);

    let alice_original_balance = s.member_info(&alice).unwrap().reserved_balance;
    let bob_original_balance = s.member_info(&bob).unwrap().reserved_balance;

    let _ = s.close_reveal(&bob, &hash, 160);

    let alice_current_balance = s.member_info(&alice).unwrap().reserved_balance;
    let bob_current_balance = s.member_info(&bob).unwrap().reserved_balance;

    let slash = bob_original_balance - bob_current_balance;
    assert!(alice_current_balance == alice_original_balance + slash);
}

#[test]
fn votes_deducted_and_refunded() {
    let mut s = new_test_state();
    let alice = account_of(&alice_pair());
    let bob = account_of(&bob_pair());
    let _ = s.join_committee(&alice, true);
    let _ = s.join_committee(&bob, true);
    let created = s.create_proposal(&alice, Vec::new(), 100, 0);
    let hash = proposed_hash(&created);

    let sig = sign_vote(&alice_pair(), Vote::Yes, SALT);
    let _ = s.commit_vote(&alice, &hash, sig, 8, SALT, 0);
    let alice_original_votes = s.member_info(&alice).unwrap().voting_tokens;
    assert!(alice_original_votes == 100 - 8u8.pow(2));

    let sig = sign_vote(&bob_pair(), Vote::No, SALT);
    let _ = s.commit_vote(&bob, &hash, sig, 2, SALT, 0);
    let bob_original_votes = s.member_info(&bob).unwrap().voting_tokens;
    assert!(bob_original_votes == 100 - 2u8.pow(2));

    let _ = s.close_vote(&bob, &hash, 101);
    let _ = s.reveal_vote(&alice, &hash, Vote::Yes, 101);
    let _ = s.reveal_vote(&bob, &hash, Vote::No, 101);
    let _ = s.close_reveal(&bob, &hash, 160);

    assert!(s.member_info(&alice).unwrap().voting_tokens == 100);
    assert!(s.member_info(&bob).unwrap().voting_tokens == 100);
}

#[test]
fn cannot_leave_while_in_vote() {
    let mut s = new_test_state();
    let alice = account_of(&alice_pair());
    let _ = s.join_committee(&alice, true);
    let created = s.create_proposal(&alice, Vec::new(), 100, 0);
    let hash = proposed_hash(&created);
    let sig = sign_vote(&alice_pair(), Vote::Yes, SALT);
    let _ = s.commit_vote(&alice, &hash, sig, 8, SALT, 0);

    let r = s.leave_committee(&alice, true);
    assert!(matches!(r, Err(Error::InMotion)));

    let _ = s.close_vote(&alice, &hash, 110);
    let r = s.leave_committee(&alice, true);
    assert!(matches!(r, Err(Error::InMotion)));
}

#[test]
fn cashout() {
    let mut s = new_test_state();
    let alice = account_of(&alice_pair());
    let bob = account_of(&bob_pair());
    let _ = s.join_committee(&alice, true);
    let _ = s.join_committee(&bob, true);
    let created = s.create_proposal(&alice, Vec::new(), 100, 0);
    let hash = proposed_hash(&created);

    let sig = sign_vote(&alice_pair(), Vote::Yes, SALT);
    let _ = s.commit_vote(&alice, &hash, sig, 8, SALT, 0);
    let sig = sign_vote(&bob_pair(), Vote::No, SALT);
    let _ = s.commit_vote(&bob, &hash, sig, 2, SALT, 0);

    let _ = s.close_vote(&bob, &hash, 101);
    let _ = s.reveal_vote(&alice, &hash, Vote::Yes, 101);
    let _ = s.reveal_vote(&bob, &hash, Vote::No, 101);
    let _ = s.close_reveal(&bob, &hash, 160);

    let r = s.leave_committee(&alice, true);
    assert!(r.is_ok());
    assert!(s.reserved_balance(&alice) == 0);
}
