//! The commit relation: at most one hidden vote commitment per voter and
//! proposal, consumed when the vote is revealed.

use vstd::prelude::*;

use crate::table::bytes_eq;
use crate::table::distinct_keys;
use crate::table::lemma_map_of_contains;
use crate::table::lemma_map_of_index;
use crate::table::lemma_map_of_push;
use crate::table::lemma_map_of_remove;
use crate::table::map_of;
use crate::types::Commit;
use crate::types::CommitView;

verus! {

/// The commitments, keyed by voter and proposal hash.
pub struct CommitStore {
    entries: Vec<(Vec<u8>, Vec<u8>, Commit)>,
}

impl View for CommitStore {
    type V = Map<(Seq<u8>, Seq<u8>), CommitView>;

    open spec fn view(&self) -> Map<(Seq<u8>, Seq<u8>), CommitView> {
        map_of(self.kvs())
    }
}

impl CommitStore {
    /// The entries as key/value pairs, in insertion order.
    pub closed spec fn kvs(&self) -> Seq<((Seq<u8>, Seq<u8>), CommitView)> {
        self.entries@.map_values(|t: (Vec<u8>, Vec<u8>, Commit)| ((t.0@, t.1@), t.2@))
    }

    /// No voter holds two commitments on one proposal.
    pub open spec fn wf(&self) -> bool {
        distinct_keys(self.kvs())
    }

    /// Creates an empty relation.
    pub fn new() -> (c: CommitStore)
        ensures
            c.wf(),
            c@ == Map::<(Seq<u8>, Seq<u8>), CommitView>::empty(),
    {
        let c = CommitStore { entries: Vec::new() };
        proof {
            assert(c.kvs() =~= Seq::<((Seq<u8>, Seq<u8>), CommitView)>::empty());
        }
        c
    }

    /// Looks up a voter's commitment on a proposal.
    pub fn get(&self, voter: &Vec<u8>, proposal: &Vec<u8>) -> (r: Option<&Commit>)
        requires
            self.wf(),
        ensures
            match r {
                Some(c) => self@.contains_key((voter@, proposal@)) && c@ == self@[
                    (voter@, proposal@)
                ],
                None => !self@.contains_key((voter@, proposal@)),
            },
    {
        let n = self.entries.len();
        let mut i: usize = 0;
        while i < n
            invariant
                n == self.entries.len(),
                i <= n,
                self.wf(),
                forall|j: int| 0 <= j < i ==> self.kvs()[j].0 != (voter@, proposal@),
            decreases n - i,
        {
            assert(self.kvs()[i as int] == ((self.entries@[i as int].0@,
                self.entries@[i as int].1@), self.entries@[i as int].2@));
            if bytes_eq(&self.entries[i].0, voter) && bytes_eq(&self.entries[i].1, proposal) {
                proof {
                    lemma_map_of_index(self.kvs(), i as int);
                }
                return Some(&self.entries[i].2);
            }
            i += 1;
        }
        proof {
            lemma_map_of_contains(self.kvs(), (voter@, proposal@));
        }
        None
    }

    /// Tests whether a voter has committed on a proposal.
    pub fn contains(&self, voter: &Vec<u8>, proposal: &Vec<u8>) -> (r: bool)
        requires
            self.wf(),
        ensures
            r == self@.contains_key((voter@, proposal@)),
    {
        self.get(voter, proposal).is_some()
    }

    /// Tests whether a voter has a commitment on any proposal.
    pub fn has_any(&self, voter: &Vec<u8>) -> (r: bool)
        requires
            self.wf(),
        ensures
            r == exists|h: Seq<u8>| self@.contains_key((voter@, h)),
    {
        let n = self.entries.len();
        let mut i: usize = 0;
        while i < n
            invariant
                n == self.entries.len(),
                i <= n,
                self.wf(),
                forall|j: int| 0 <= j < i ==> self.kvs()[j].0.0 != voter@,
            decreases n - i,
        {
            assert(self.kvs()[i as int] == ((self.entries@[i as int].0@,
                self.entries@[i as int].1@), self.entries@[i as int].2@));
            if bytes_eq(&self.entries[i].0, voter) {
                proof {
                    lemma_map_of_index(self.kvs(), i as int);
                    assert(self@.contains_key((voter@, self.entries@[i as int].1@)));
                }
                return true;
            }
            i += 1;
        }
        proof {
            if exists|h: Seq<u8>| self@.contains_key((voter@, h)) {
                let h = choose|h: Seq<u8>| self@.contains_key((voter@, h));
                lemma_map_of_contains(self.kvs(), (voter@, h));
            }
        }
        false
    }

    /// Records a new commitment; the voter must not already hold one on this
    /// proposal.
    pub fn insert(&mut self, voter: Vec<u8>, proposal: Vec<u8>, commit: Commit)
        requires
            old(self).wf(),
            !old(self)@.contains_key((voter@, proposal@)),
        ensures
            final(self).wf(),
            final(self)@ == old(self)@.insert((voter@, proposal@), commit@),
    {
        proof {
            lemma_map_of_push(old(self).kvs(), (voter@, proposal@), commit@);
        }
        let ghost pre = self.kvs();
        self.entries.push((voter, proposal, commit));
        proof {
            assert(self.kvs() =~= pre.push(((voter@, proposal@), commit@)));
        }
    }

    /// Removes and returns a voter's commitment on a proposal, if any.
    pub fn take(&mut self, voter: &Vec<u8>, proposal: &Vec<u8>) -> (r: Option<Commit>)
        requires
            old(self).wf(),
        ensures
            final(self).wf(),
            final(self)@ == old(self)@.remove((voter@, proposal@)),
            match r {
                Some(c) => old(self)@.contains_key((voter@, proposal@)) && c@ == old(self)@[
                    (voter@, proposal@)
                ],
                None => !old(self)@.contains_key((voter@, proposal@)),
            },
            !old(self)@.contains_key((voter@, proposal@)) ==> *final(self) == *old(self),
    {
        let n = self.entries.len();
        let mut i: usize = 0;
        while i < n
            invariant
                n == self.entries.len(),
                i <= n,
                self == old(self),
                old(self).wf(),
                forall|j: int| 0 <= j < i ==> self.kvs()[j].0 != (voter@, proposal@),
            decreases n - i,
        {
            assert(self.kvs()[i as int] == ((self.entries@[i as int].0@,
                self.entries@[i as int].1@), self.entries@[i as int].2@));
            if bytes_eq(&self.entries[i].0, voter) && bytes_eq(&self.entries[i].1, proposal) {
                proof {
                    lemma_map_of_index(old(self).kvs(), i as int);
                    lemma_map_of_remove(old(self).kvs(), i as int);
                }
                let (_, _, c) = self.entries.remove(i);
                proof {
                    assert(self.kvs() =~= old(self).kvs().remove(i as int));
                }
                return Some(c);
            }
            i += 1;
        }
        proof {
            lemma_map_of_contains(old(self).kvs(), (voter@, proposal@));
            assert(self@ =~= old(self)@.remove((voter@, proposal@)));
        }
        None
    }
}

} // verus!
