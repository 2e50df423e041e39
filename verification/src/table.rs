//! A key-value store keyed by byte strings, the repository behind the
//! Membership Ledger and the Proposal Store. It is a plain association
//! list whose mathematical value is a `Map` from key to value view.

use vstd::prelude::*;
use vstd::std_specs::cmp::PartialEqSpec;

verus! {

/// Turns a sequence of entries into the map it represents; a later entry
/// wins over an earlier one with the same key.
pub open spec fn map_of<K, W>(s: Seq<(K, W)>) -> Map<K, W>
    decreases s.len(),
{
    if s.len() == 0 {
        Map::empty()
    } else {
        map_of(s.drop_last()).insert(s.last().0, s.last().1)
    }
}

/// No two entries share a key.
pub open spec fn distinct_keys<K, W>(s: Seq<(K, W)>) -> bool {
    forall|i: int, j: int| 0 <= i < j < s.len() ==> s[i].0 != s[j].0
}

/// The map has a key exactly when some entry carries it.
pub proof fn lemma_map_of_contains<K, W>(s: Seq<(K, W)>, k: K)
    ensures
        map_of(s).contains_key(k) <==> exists|i: int| 0 <= i < s.len() && s[i].0 == k,
    decreases s.len(),
{
    if s.len() > 0 {
        lemma_map_of_contains(s.drop_last(), k);
        if s.last().0 == k {
            assert(s[s.len() - 1].0 == k);
        } else {
            if exists|i: int| 0 <= i < s.len() && s[i].0 == k {
                let i = choose|i: int| 0 <= i < s.len() && s[i].0 == k;
                assert(s.drop_last()[i].0 == k);
            }
        }
    }
}

/// With distinct keys, the entry at any index gives the map's value there.
pub proof fn lemma_map_of_index<K, W>(s: Seq<(K, W)>, i: int)
    requires
        distinct_keys(s),
        0 <= i < s.len(),
    ensures
        map_of(s).contains_key(s[i].0),
        map_of(s)[s[i].0] == s[i].1,
    decreases s.len(),
{
    if i < s.len() - 1 {
        assert(s[i].0 != s[s.len() - 1].0);
        assert(s.drop_last()[i] == s[i]);
        lemma_map_of_index(s.drop_last(), i);
    }
}

/// Replacing the value at an index updates the map at that entry's key.
pub proof fn lemma_map_of_update<K, W>(s: Seq<(K, W)>, i: int, w: W)
    requires
        distinct_keys(s),
        0 <= i < s.len(),
    ensures
        map_of(s.update(i, (s[i].0, w))) == map_of(s).insert(s[i].0, w),
        distinct_keys(s.update(i, (s[i].0, w))),
    decreases s.len(),
{
    let t = s.update(i, (s[i].0, w));
    assert(distinct_keys(t)) by {
        assert(forall|a: int, b: int| 0 <= a < b < t.len() ==> t[a].0 == s[a].0 && t[b].0 == s[b].0);
    }
    if i == s.len() - 1 {
        assert(t.drop_last() =~= s.drop_last());
        assert(map_of(t) =~= map_of(s).insert(s[i].0, w));
    } else {
        assert(t.drop_last() =~= s.drop_last().update(i, (s[i].0, w)));
        assert(s.drop_last()[i] == s[i]);
        lemma_map_of_update(s.drop_last(), i, w);
        assert(s[i].0 != s.last().0);
        assert(map_of(t) =~= map_of(s).insert(s[i].0, w));
    }
}

/// Appending an entry inserts its key into the map.
pub proof fn lemma_map_of_push<K, W>(s: Seq<(K, W)>, k: K, w: W)
    requires
        distinct_keys(s),
        !map_of(s).contains_key(k),
    ensures
        map_of(s.push((k, w))) == map_of(s).insert(k, w),
        distinct_keys(s.push((k, w))),
{
    let t = s.push((k, w));
    assert(t.drop_last() =~= s);
    assert(map_of(t) == map_of(s).insert(k, w));
    lemma_map_of_contains(s, k);
    assert(distinct_keys(t)) by {
        assert(forall|a: int, b: int| 0 <= a < b < t.len() && b < s.len() ==> t[a].0 == s[a].0
            && t[b].0 == s[b].0);
        assert(forall|a: int| 0 <= a < s.len() ==> s[a].0 != k);
    }
}

/// Removing the entry at an index removes its key from the map.
pub proof fn lemma_map_of_remove<K, W>(s: Seq<(K, W)>, i: int)
    requires
        distinct_keys(s),
        0 <= i < s.len(),
    ensures
        map_of(s.remove(i)) == map_of(s).remove(s[i].0),
        distinct_keys(s.remove(i)),
        !map_of(s.remove(i)).contains_key(s[i].0),
    decreases s.len(),
{
    let t = s.remove(i);
    assert(distinct_keys(t)) by {
        assert(forall|a: int, b: int| 0 <= a < b < t.len() ==> t[a].0 != t[b].0) by {
            assert(forall|a: int| 0 <= a < t.len() ==> t[a] == (if a < i {
                s[a]
            } else {
                s[a + 1]
            }));
        }
    }
    if i == s.len() - 1 {
        assert(t =~= s.drop_last());
        lemma_map_of_contains(s.drop_last(), s[i].0);
        assert(forall|a: int| 0 <= a < s.len() - 1 ==> s.drop_last()[a].0 == s[a].0);
        assert(!map_of(s.drop_last()).contains_key(s[i].0));
        assert(map_of(t) =~= map_of(s).remove(s[i].0));
    } else {
        assert(t.drop_last() =~= s.drop_last().remove(i));
        assert(s.drop_last()[i] == s[i]);
        lemma_map_of_remove(s.drop_last(), i);
        assert(s[i].0 != s.last().0);
        assert(map_of(t) =~= map_of(s).remove(s[i].0));
    }
    lemma_map_of_contains(t, s[i].0);
}

/// A byte string's deep view is its view.
pub broadcast proof fn lemma_bytes_deep_view(v: Vec<u8>)
    ensures
        #[trigger] v.deep_view() == v@,
{
    assert(v.deep_view() =~= v@);
}

/// Compares two byte strings.
pub fn bytes_eq(a: &Vec<u8>, b: &Vec<u8>) -> (r: bool)
    ensures
        r == (a@ == b@),
{
    let r = a == b;
    proof {
        if r {
            assert(a@ =~= b@);
        } else {
            if a@ == b@ {
                assert(a.eq_spec(b)) by {
                    assert(forall|i: int| 0 <= i < a@.len() ==> a@[i] == b@[i]);
                }
            }
        }
    }
    r
}

/// An association-list store from byte-string keys to values.
pub struct Table<V> {
    entries: Vec<(Vec<u8>, V)>,
}

impl<V: View> Table<V> {
    /// The entries as key-view/value-view pairs, in insertion order.
    pub closed spec fn kvs(&self) -> Seq<(Seq<u8>, V::V)> {
        self.entries@.map_values(|p: (Vec<u8>, V)| (p.0@, p.1@))
    }

    /// The store's keys never repeat.
    pub open spec fn wf(&self) -> bool {
        distinct_keys(self.kvs())
    }

    /// Creates an empty store.
    pub fn new() -> (t: Table<V>)
        ensures
            t.wf(),
            t@ == Map::<Seq<u8>, V::V>::empty(),
            t.kvs() == Seq::<(Seq<u8>, V::V)>::empty(),
    {
        let t = Table { entries: Vec::new() };
        proof {
            assert(t.kvs() =~= Seq::<(Seq<u8>, V::V)>::empty());
        }
        t
    }

    /// Looks a key up.
    pub fn get(&self, key: &Vec<u8>) -> (r: Option<&V>)
        requires
            self.wf(),
        ensures
            match r {
                Some(v) => self@.contains_key(key@) && v@ == self@[key@],
                None => !self@.contains_key(key@),
            },
    {
        let n = self.entries.len();
        let mut i: usize = 0;
        while i < n
            invariant
                n == self.entries.len(),
                i <= n,
                self.wf(),
                forall|j: int| 0 <= j < i ==> self.kvs()[j].0 != key@,
            decreases n - i,
        {
            assert(self.kvs()[i as int] == (self.entries@[i as int].0@, self.entries@[i as int].1@));
            if bytes_eq(&self.entries[i].0, key) {
                proof {
                    lemma_map_of_index(self.kvs(), i as int);
                }
                return Some(&self.entries[i].1);
            }
            i += 1;
        }
        proof {
            lemma_map_of_contains(self.kvs(), key@);
        }
        None
    }

    /// Tests whether a key is present.
    pub fn contains(&self, key: &Vec<u8>) -> (r: bool)
        requires
            self.wf(),
        ensures
            r == self@.contains_key(key@),
    {
        self.get(key).is_some()
    }

    /// Inserts a value, replacing any previous value under the same key.
    pub fn insert(&mut self, key: Vec<u8>, value: V)
        requires
            old(self).wf(),
        ensures
            final(self).wf(),
            final(self)@ == old(self)@.insert(key@, value@),
            old(self)@.contains_key(key@) ==> exists|i: int|
                0 <= i < old(self).kvs().len() && #[trigger] old(self).kvs()[i].0 == key@
                    && final(self).kvs() == old(self).kvs().update(i, (key@, value@)),
            !old(self)@.contains_key(key@) ==> final(self).kvs() == old(self).kvs().push((
                key@,
                value@,
            )),
    {
        let n = self.entries.len();
        let mut i: usize = 0;
        while i < n
            invariant
                n == self.entries.len(),
                i <= n,
                self == old(self),
                old(self).wf(),
                forall|j: int| 0 <= j < i ==> self.kvs()[j].0 != key@,
            decreases n - i,
        {
            assert(self.kvs()[i as int] == (self.entries@[i as int].0@, self.entries@[i as int].1@));
            if bytes_eq(&self.entries[i].0, &key) {
                proof {
                    lemma_map_of_index(old(self).kvs(), i as int);
                    lemma_map_of_update(old(self).kvs(), i as int, value@);
                }
                self.entries.set(i, (key, value));
                proof {
                    assert(self.kvs() =~= old(self).kvs().update(i as int, (key@, value@)));
                }
                return ;
            }
            i += 1;
        }
        proof {
            lemma_map_of_contains(old(self).kvs(), key@);
            lemma_map_of_push(old(self).kvs(), key@, value@);
        }
        self.entries.push((key, value));
        proof {
            assert(self.kvs() =~= old(self).kvs().push((key@, value@)));
        }
    }

    /// Removes a key, returning its value if it was present.
    pub fn remove(&mut self, key: &Vec<u8>) -> (r: Option<V>)
        requires
            old(self).wf(),
        ensures
            final(self).wf(),
            final(self)@ == old(self)@.remove(key@),
            match r {
                Some(v) => old(self)@.contains_key(key@) && v@ == old(self)@[key@],
                None => !old(self)@.contains_key(key@),
            },
            old(self)@.contains_key(key@) ==> exists|i: int|
                0 <= i < old(self).kvs().len() && #[trigger] old(self).kvs()[i].0 == key@
                    && final(self).kvs() == old(self).kvs().remove(i),
            !old(self)@.contains_key(key@) ==> *final(self) == *old(self),
    {
        let n = self.entries.len();
        let mut i: usize = 0;
        while i < n
            invariant
                n == self.entries.len(),
                i <= n,
                self == old(self),
                old(self).wf(),
                forall|j: int| 0 <= j < i ==> self.kvs()[j].0 != key@,
            decreases n - i,
        {
            assert(self.kvs()[i as int] == (self.entries@[i as int].0@, self.entries@[i as int].1@));
            if bytes_eq(&self.entries[i].0, key) {
                proof {
                    lemma_map_of_index(old(self).kvs(), i as int);
                    lemma_map_of_remove(old(self).kvs(), i as int);
                }
                let (_, v) = self.entries.remove(i);
                proof {
                    assert(self.kvs() =~= old(self).kvs().remove(i as int));
                }
                return Some(v);
            }
            i += 1;
        }
        proof {
            lemma_map_of_contains(old(self).kvs(), key@);
            assert(self@ =~= old(self)@.remove(key@));
        }
        None
    }
}

impl<V: View> View for Table<V> {
    type V = Map<Seq<u8>, V::V>;

    open spec fn view(&self) -> Map<Seq<u8>, V::V> {
        map_of(self.kvs())
    }
}

} // verus!
