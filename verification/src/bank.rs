//! The reservable-currency ledger the module settles against: every account
//! holds a free and a reserved balance, funds only ever move, and the sum of
//! all holdings never changes under reserve, unreserve or repatriation.

use vstd::prelude::*;

use crate::table::Table;
use crate::table::bytes_eq;
use crate::table::lemma_map_of_contains;
use crate::table::lemma_map_of_index;

verus! {

/// One account's balances.
#[derive(Clone, Copy, PartialEq, Eq, Structural, Debug)]
pub struct BankAccount {
    /// Freely spendable funds.
    pub free: u128,
    /// Funds locked as collateral.
    pub reserved: u128,
}

impl View for BankAccount {
    type V = BankAccount;

    open spec fn view(&self) -> BankAccount {
        *self
    }
}

/// An account's balances in a ledger map; an absent account holds nothing.
pub open spec fn acct(m: Map<Seq<u8>, BankAccount>, who: Seq<u8>) -> BankAccount {
    if m.contains_key(who) {
        m[who]
    } else {
        BankAccount { free: 0, reserved: 0 }
    }
}

/// How much a repatriation of `amount` out of `from`'s reserve can move.
pub open spec fn movable(m: Map<Seq<u8>, BankAccount>, from: Seq<u8>, amount: u128) -> u128 {
    if amount <= acct(m, from).reserved {
        amount
    } else {
        acct(m, from).reserved
    }
}

/// The ledger after moving as much as possible of `amount` from `from`'s
/// reserve into `to`'s reserve; moving within one account changes nothing.
pub open spec fn move_reserved(
    m: Map<Seq<u8>, BankAccount>,
    from: Seq<u8>,
    to: Seq<u8>,
    amount: u128,
) -> Map<Seq<u8>, BankAccount> {
    if from == to {
        m
    } else {
        let v = movable(m, from, amount);
        let fa = acct(m, from);
        let ta = acct(m, to);
        m.insert(from, (BankAccount { free: fa.free, reserved: (fa.reserved - v) as u128 })).insert(
            to,
            (BankAccount { free: ta.free, reserved: (ta.reserved + v) as u128 }),
        )
    }
}

/// The sum of all funds recorded in a run of ledger entries.
pub open spec fn holdings(s: Seq<(Seq<u8>, BankAccount)>) -> int
    decreases s.len(),
{
    if s.len() == 0 {
        0
    } else {
        holdings(s.drop_last()) + s.last().1.free + s.last().1.reserved
    }
}

proof fn lemma_holdings_nonneg(s: Seq<(Seq<u8>, BankAccount)>)
    ensures
        holdings(s) >= 0,
    decreases s.len(),
{
    if s.len() > 0 {
        lemma_holdings_nonneg(s.drop_last());
    }
}

proof fn lemma_holdings_update(s: Seq<(Seq<u8>, BankAccount)>, i: int, w: BankAccount)
    requires
        0 <= i < s.len(),
    ensures
        holdings(s.update(i, (s[i].0, w))) == holdings(s) - s[i].1.free - s[i].1.reserved + w.free
            + w.reserved,
    decreases s.len(),
{
    let t = s.update(i, (s[i].0, w));
    if i == s.len() - 1 {
        assert(t.drop_last() =~= s.drop_last());
    } else {
        assert(t.drop_last() =~= s.drop_last().update(i, (s[i].0, w)));
        assert(s.drop_last()[i] == s[i]);
        lemma_holdings_update(s.drop_last(), i, w);
    }
}

proof fn lemma_holdings_push(s: Seq<(Seq<u8>, BankAccount)>, k: Seq<u8>, w: BankAccount)
    ensures
        holdings(s.push((k, w))) == holdings(s) + w.free + w.reserved,
{
    assert(s.push((k, w)).drop_last() =~= s);
}

/// One entry's funds never exceed the whole ledger's holdings.
proof fn lemma_entry_le_holdings(s: Seq<(Seq<u8>, BankAccount)>, i: int)
    requires
        0 <= i < s.len(),
    ensures
        s[i].1.free + s[i].1.reserved <= holdings(s),
    decreases s.len(),
{
    lemma_holdings_nonneg(s.drop_last());
    if i < s.len() - 1 {
        assert(s.drop_last()[i] == s[i]);
        lemma_entry_le_holdings(s.drop_last(), i);
    }
}

/// Two different entries' funds together never exceed the holdings.
proof fn lemma_two_entries_le_holdings(s: Seq<(Seq<u8>, BankAccount)>, i: int, j: int)
    requires
        0 <= i < s.len(),
        0 <= j < s.len(),
        i != j,
    ensures
        s[i].1.free + s[i].1.reserved + s[j].1.free + s[j].1.reserved <= holdings(s),
    decreases s.len(),
{
    let a = if i < j {
        i
    } else {
        j
    };
    let b = if i < j {
        j
    } else {
        i
    };
    if b == s.len() - 1 {
        assert(s.drop_last()[a] == s[a]);
        lemma_entry_le_holdings(s.drop_last(), a);
    } else {
        assert(s.drop_last()[a] == s[a]);
        assert(s.drop_last()[b] == s[b]);
        lemma_two_entries_le_holdings(s.drop_last(), a, b);
    }
}

/// The reservable-currency ledger.
pub struct Bank {
    accounts: Table<BankAccount>,
}

impl View for Bank {
    type V = Map<Seq<u8>, BankAccount>;

    closed spec fn view(&self) -> Map<Seq<u8>, BankAccount> {
        self.accounts@
    }
}

impl Bank {
    /// The sum of all funds the ledger holds.
    pub closed spec fn total(&self) -> int {
        holdings(self.accounts.kvs())
    }

    /// Keys are unique and the holdings fit the balance type, so funds can
    /// always move without overflowing.
    pub closed spec fn wf(&self) -> bool {
        self.accounts.wf() && self.total() <= u128::MAX
    }

    /// An account's funds are part of the ledger's holdings.
    pub proof fn lemma_account_le_total(&self, who: Seq<u8>)
        requires
            self.wf(),
        ensures
            acct(self@, who).free + acct(self@, who).reserved <= self.total(),
            self.total() <= u128::MAX,
            self.total() >= 0,
    {
        lemma_holdings_nonneg(self.accounts.kvs());
        if self@.contains_key(who) {
            lemma_map_of_contains(self.accounts.kvs(), who);
            let i = choose|i: int|
                0 <= i < self.accounts.kvs().len() && self.accounts.kvs()[i].0 == who;
            lemma_map_of_index(self.accounts.kvs(), i);
            lemma_entry_le_holdings(self.accounts.kvs(), i);
        }
    }

    /// Funds of two different accounts together fit the balance type.
    proof fn lemma_pair_bound(&self, x: Seq<u8>, y: Seq<u8>)
        requires
            self.wf(),
            x != y,
        ensures
            acct(self@, x).free + acct(self@, x).reserved + acct(self@, y).free + acct(
                self@,
                y,
            ).reserved <= u128::MAX,
    {
        self.lemma_account_le_total(x);
        self.lemma_account_le_total(y);
        if self@.contains_key(x) && self@.contains_key(y) {
            lemma_map_of_contains(self.accounts.kvs(), x);
            lemma_map_of_contains(self.accounts.kvs(), y);
            let i = choose|i: int|
                0 <= i < self.accounts.kvs().len() && self.accounts.kvs()[i].0 == x;
            let j = choose|j: int|
                0 <= j < self.accounts.kvs().len() && self.accounts.kvs()[j].0 == y;
            lemma_map_of_index(self.accounts.kvs(), i);
            lemma_map_of_index(self.accounts.kvs(), j);
            lemma_two_entries_le_holdings(self.accounts.kvs(), i, j);
        }
    }

    /// Relates the ledger's holdings before and after one table insert.
    proof fn lemma_total_after_insert(pre: Self, post: Self, who: Seq<u8>, w: BankAccount)
        requires
            pre.wf(),
            post.accounts@ == pre.accounts@.insert(who, w),
            pre@.contains_key(who) ==> exists|i: int|
                0 <= i < pre.accounts.kvs().len() && #[trigger] pre.accounts.kvs()[i].0 == who
                    && post.accounts.kvs() == pre.accounts.kvs().update(i, (who, w)),
            !pre@.contains_key(who) ==> post.accounts.kvs() == pre.accounts.kvs().push((who, w)),
        ensures
            post.total() == pre.total() - acct(pre@, who).free - acct(pre@, who).reserved + w.free
                + w.reserved,
    {
        if pre@.contains_key(who) {
            let i = choose|i: int|
                0 <= i < pre.accounts.kvs().len() && #[trigger] pre.accounts.kvs()[i].0 == who
                    && post.accounts.kvs() == pre.accounts.kvs().update(i, (who, w));
            lemma_map_of_index(pre.accounts.kvs(), i);
            lemma_holdings_update(pre.accounts.kvs(), i, w);
        } else {
            lemma_holdings_push(pre.accounts.kvs(), who, w);
        }
    }

    /// Creates an empty ledger.
    pub fn new() -> (b: Bank)
        ensures
            b.wf(),
            b@ == Map::<Seq<u8>, BankAccount>::empty(),
            b.total() == 0,
    {
        Bank { accounts: Table::new() }
    }

    /// Credits newly issued funds to an account's free balance.
    pub fn endow(&mut self, who: &Vec<u8>, amount: u128)
        requires
            old(self).wf(),
            old(self).total() + amount <= u128::MAX,
        ensures
            final(self).wf(),
            final(self)@ == old(self)@.insert(
                who@,
                (BankAccount {
                    free: (acct(old(self)@, who@).free + amount) as u128,
                    reserved: acct(old(self)@, who@).reserved,
                }),
            ),
            final(self).total() == old(self).total() + amount,
    {
        let a = self.balances(who);
        proof {
            self.lemma_account_le_total(who@);
        }
        let updated = BankAccount { free: a.free + amount, reserved: a.reserved };
        self.accounts.insert(who.clone(), updated);
        proof {
            Self::lemma_total_after_insert(*old(self), *self, who@, updated);
        }
    }

    /// Reads an account's balances.
    pub fn balances(&self, who: &Vec<u8>) -> (r: BankAccount)
        requires
            self.wf(),
        ensures
            r == acct(self@, who@),
    {
        match self.accounts.get(who) {
            Some(a) => *a,
            None => BankAccount { free: 0, reserved: 0 },
        }
    }

    /// Reads an account's reserved balance.
    pub fn reserved_balance(&self, who: &Vec<u8>) -> (r: u128)
        requires
            self.wf(),
        ensures
            r == acct(self@, who@).reserved,
    {
        self.balances(who).reserved
    }

    /// Tests whether an account can lock `amount` of its free balance.
    pub fn can_reserve(&self, who: &Vec<u8>, amount: u128) -> (r: bool)
        requires
            self.wf(),
        ensures
            r == (acct(self@, who@).free >= amount),
    {
        self.balances(who).free >= amount
    }

    /// Locks `amount` of an account's free balance as collateral.
    pub fn reserve(&mut self, who: &Vec<u8>, amount: u128) -> (ok: bool)
        requires
            old(self).wf(),
        ensures
            final(self).wf(),
            final(self).total() == old(self).total(),
            ok == (acct(old(self)@, who@).free >= amount),
            ok ==> final(self)@ == old(self)@.insert(
                who@,
                (BankAccount {
                    free: (acct(old(self)@, who@).free - amount) as u128,
                    reserved: (acct(old(self)@, who@).reserved + amount) as u128,
                }),
            ),
            !ok ==> *final(self) == *old(self),
    {
        let a = self.balances(who);
        if a.free >= amount {
            proof {
                self.lemma_account_le_total(who@);
            }
            let updated = BankAccount { free: a.free - amount, reserved: a.reserved + amount };
            self.accounts.insert(who.clone(), updated);
            proof {
                Self::lemma_total_after_insert(*old(self), *self, who@, updated);
            }
            true
        } else {
            false
        }
    }

    /// Releases up to `amount` of an account's collateral back into its free
    /// balance, returning how much actually moved.
    pub fn unreserve(&mut self, who: &Vec<u8>, amount: u128) -> (moved: u128)
        requires
            old(self).wf(),
        ensures
            final(self).wf(),
            final(self).total() == old(self).total(),
            moved == movable(old(self)@, who@, amount),
            final(self)@ == old(self)@.insert(
                who@,
                (BankAccount {
                    free: (acct(old(self)@, who@).free + moved) as u128,
                    reserved: (acct(old(self)@, who@).reserved - moved) as u128,
                }),
            ),
    {
        let a = self.balances(who);
        let moved = if amount <= a.reserved {
            amount
        } else {
            a.reserved
        };
        proof {
            self.lemma_account_le_total(who@);
        }
        let updated = BankAccount { free: a.free + moved, reserved: a.reserved - moved };
        self.accounts.insert(who.clone(), updated);
        proof {
            Self::lemma_total_after_insert(*old(self), *self, who@, updated);
        }
        moved
    }

    /// Moves up to `amount` from `from`'s reserve into `to`'s reserve,
    /// keeping the funds locked; moving within one account is a no-op.
    pub fn repatriate_reserved(&mut self, from: &Vec<u8>, to: &Vec<u8>, amount: u128) -> (moved:
        u128)
        requires
            old(self).wf(),
        ensures
            final(self).wf(),
            final(self).total() == old(self).total(),
            final(self)@ == move_reserved(old(self)@, from@, to@, amount),
            moved == if from@ == to@ {
                0u128
            } else {
                movable(old(self)@, from@, amount)
            },
            from@ != to@ ==> acct(old(self)@, to@).reserved + movable(old(self)@, from@, amount)
                <= u128::MAX,
    {
        if bytes_eq(from, to) {
            return 0;
        }
        let fa = self.balances(from);
        let ta = self.balances(to);
        let moved = if amount <= fa.reserved {
            amount
        } else {
            fa.reserved
        };
        proof {
            self.lemma_pair_bound(from@, to@);
        }
        let from_updated = BankAccount { free: fa.free, reserved: fa.reserved - moved };
        self.accounts.insert(from.clone(), from_updated);
        proof {
            Self::lemma_total_after_insert(*old(self), *self, from@, from_updated);
        }
        let ghost mid = *self;
        let to_updated = BankAccount { free: ta.free, reserved: ta.reserved + moved };
        self.accounts.insert(to.clone(), to_updated);
        proof {
            Self::lemma_total_after_insert(mid, *self, to@, to_updated);
            assert(acct(mid@, to@) == ta);
        }
        moved
    }
}

} // verus!
