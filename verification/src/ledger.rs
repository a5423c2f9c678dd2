use vstd::prelude::*;

use crate::errors::Error;

verus! {

/// One entry of the balance store.
#[derive(Clone, Copy, Debug, PartialEq, Eq, Structural)]
pub struct Account {
    /// The account's identity.
    pub id: u64,
    /// The account's free balance.
    pub free: u128,
}

/// The balance held by `who` in `s`: the balance of its entry, or 0 when no
/// entry exists. An account with no entry and an account holding 0 are
/// indistinguishable.
pub open spec fn balance_in(s: Seq<Account>, who: u64) -> u128
    decreases s.len(),
{
    if s.len() == 0 {
        0
    } else if s[0].id == who {
        s[0].free
    } else {
        balance_in(s.subrange(1, s.len() as int), who)
    }
}

/// No two entries share an account identity.
pub open spec fn unique_ids(s: Seq<Account>) -> bool {
    forall|i: int, j: int| 0 <= i < j < s.len() ==> (#[trigger] s[i]).id != (#[trigger] s[j]).id
}

/// Whether a transfer of `amount` from `from` to `to` is accepted over the
/// balances `b`. With `keep_alive`, the sender must retain at least `min`
/// after paying; without it, the sender may be drained to zero.
pub open spec fn can_transfer(
    b: Map<u64, u128>,
    from: u64,
    to: u64,
    amount: u128,
    keep_alive: bool,
    min: u128,
) -> bool {
    &&& b[from] >= amount
    &&& (keep_alive ==> b[from] - amount >= min)
    &&& (from != to ==> b[to] + amount <= u128::MAX)
}

/// The balances after an accepted transfer.
pub open spec fn apply_transfer(
    b: Map<u64, u128>,
    from: u64,
    to: u64,
    amount: u128,
) -> Map<u64, u128> {
    if from == to {
        b
    } else {
        b.insert(from, (b[from] - amount) as u128).insert(to, (b[to] + amount) as u128)
    }
}

/// The balances after a best-effort transfer: applied when accepted,
/// untouched when refused.
pub open spec fn try_transfer(
    b: Map<u64, u128>,
    from: u64,
    to: u64,
    amount: u128,
    keep_alive: bool,
    min: u128,
) -> Map<u64, u128> {
    if can_transfer(b, from, to, amount, keep_alive, min) {
        apply_transfer(b, from, to, amount)
    } else {
        b
    }
}

/// The error a refused transfer reports, checked in the order the transfer
/// checks them.
pub open spec fn transfer_error(
    b: Map<u64, u128>,
    from: u64,
    to: u64,
    amount: u128,
    keep_alive: bool,
    min: u128,
) -> Error {
    if b[from] < amount {
        Error::InsufficientBalance
    } else if keep_alive && b[from] - amount < min {
        Error::WouldKillAccount
    } else {
        Error::Overflow
    }
}

/// A fungible balance store: every account identity holds a balance, absent
/// entries holding 0, and transfers move value between accounts under an
/// existence policy.
pub struct Ledger {
    accounts: Vec<Account>,
    min_balance: u128,
}

impl Ledger {
    /// The full balance assignment, as a total map from identity to balance.
    pub closed spec fn balances(self) -> Map<u64, u128> {
        Map::new(|a: u64| true, |a: u64| balance_in(self.accounts@, a))
    }

    /// The minimum balance an account must retain under a keep-alive
    /// transfer.
    pub closed spec fn spec_min(self) -> u128 {
        self.min_balance
    }

    /// The store holds at most one entry per account.
    pub closed spec fn wf(self) -> bool {
        unique_ids(self.accounts@)
    }

    /// An empty ledger: every account holds 0.
    pub fn new(min_balance: u128) -> (r: Ledger)
        ensures
            r.wf(),
            r.spec_min() == min_balance,
            forall|a: u64| r.balances()[a] == 0,
    {
        Ledger { accounts: Vec::new(), min_balance }
    }

    /// The minimum retained balance this ledger enforces.
    pub fn min_balance(&self) -> (r: u128)
        ensures
            r == self.spec_min(),
    {
        self.min_balance
    }

    /// The balance held by `who`.
    pub fn balance_of(&self, who: u64) -> (r: u128)
        ensures
            r == self.balances()[who],
    {
        let n = self.accounts.len();
        let mut i: usize = 0;
        while i < n
            invariant
                i <= n,
                n == self.accounts@.len(),
                forall|j: int| 0 <= j < i ==> (#[trigger] self.accounts@[j]).id != who,
            decreases n - i,
        {
            if self.accounts[i].id == who {
                proof {
                    lemma_balance_at(self.accounts@, i as int, who);
                }
                return self.accounts[i].free;
            }
            i += 1;
        }
        proof {
            lemma_balance_absent(self.accounts@, who);
        }
        0
    }

    /// Sets the balance of `who` to `value`, creating the entry if absent.
    fn set_balance(&mut self, who: u64, value: u128)
        requires
            old(self).wf(),
        ensures
            final(self).wf(),
            final(self).spec_min() == old(self).spec_min(),
            final(self).balances() == old(self).balances().insert(who, value),
    {
        let ghost s0 = self.accounts@;
        let n = self.accounts.len();
        let mut i: usize = 0;
        while i < n
            invariant
                i <= n,
                n == s0.len(),
                self.accounts@ == s0,
                s0 == old(self).accounts@,
                self.min_balance == old(self).min_balance,
                unique_ids(s0),
                forall|j: int| 0 <= j < i ==> (#[trigger] s0[j]).id != who,
            decreases n - i,
        {
            if self.accounts[i].id == who {
                self.accounts[i] = Account { id: who, free: value };
                proof {
                    lemma_balance_set(s0, i as int, who, value);
                    assert(forall|p: int|
                        0 <= p < self.accounts@.len() ==> (#[trigger] self.accounts@[p]).id
                            == s0[p].id);
                    assert forall|a: u64|
                        self.balances()[a] == old(self).balances().insert(who, value)[a] by {}
                    assert(self.balances() =~= old(self).balances().insert(who, value));
                }
                return ;
            }
            i += 1;
        }
        self.accounts.push(Account { id: who, free: value });
        proof {
            assert forall|p: int, q: int|
                0 <= p < q < self.accounts@.len() implies (#[trigger] self.accounts@[p]).id != (
            #[trigger] self.accounts@[q]).id by {
                if q == s0.len() {
                    assert(s0[p].id != who);
                }
            }
            lemma_balance_at(self.accounts@, s0.len() as int, who);
            assert forall|a: u64| a != who implies balance_in(self.accounts@, a) == balance_in(
                s0,
                a,
            ) by {
                lemma_balance_push_other(s0, Account { id: who, free: value }, a);
            }
            assert(self.balances() =~= old(self).balances().insert(who, value));
        }
    }

    /// Moves `amount` from `from` to `to`. With `keep_alive` the sender must
    /// retain at least the ledger's minimum balance; without it the sender
    /// may be drained to zero. A refused transfer changes nothing.
    pub fn transfer(&mut self, from: u64, to: u64, amount: u128, keep_alive: bool) -> (r: Result<
        (),
        Error,
    >)
        requires
            old(self).wf(),
        ensures
            final(self).wf(),
            final(self).spec_min() == old(self).spec_min(),
            r is Ok <==> can_transfer(
                old(self).balances(),
                from,
                to,
                amount,
                keep_alive,
                old(self).spec_min(),
            ),
            final(self).balances() == try_transfer(
                old(self).balances(),
                from,
                to,
                amount,
                keep_alive,
                old(self).spec_min(),
            ),
            r is Err ==> *final(self) == *old(self) && r == Err::<(), Error>(
                transfer_error(
                    old(self).balances(),
                    from,
                    to,
                    amount,
                    keep_alive,
                    old(self).spec_min(),
                ),
            ),
    {
        let from_balance = self.balance_of(from);
        if from_balance < amount {
            return Err(Error::InsufficientBalance);
        }
        if keep_alive && from_balance - amount < self.min_balance {
            return Err(Error::WouldKillAccount);
        }
        if from == to {
            return Ok(());
        }
        let to_balance = self.balance_of(to);
        if to_balance > u128::MAX - amount {
            return Err(Error::Overflow);
        }
        self.set_balance(from, from_balance - amount);
        self.set_balance(to, to_balance + amount);
        Ok(())
    }

    /// Creates `amount` of new value in the account of `who`.
    pub fn mint(&mut self, who: u64, amount: u128) -> (r: Result<(), Error>)
        requires
            old(self).wf(),
        ensures
            final(self).wf(),
            final(self).spec_min() == old(self).spec_min(),
            r is Ok <==> old(self).balances()[who] + amount <= u128::MAX,
            r is Ok ==> final(self).balances() == old(self).balances().insert(
                who,
                (old(self).balances()[who] + amount) as u128,
            ),
            r is Err ==> *final(self) == *old(self) && r == Err::<(), Error>(Error::Overflow),
    {
        let balance = self.balance_of(who);
        if balance > u128::MAX - amount {
            return Err(Error::Overflow);
        }
        self.set_balance(who, balance + amount);
        Ok(())
    }
}

/// Without the keep-alive policy the minimum retained balance plays no
/// part in a transfer's outcome.
pub proof fn lemma_try_transfer_min_irrelevant(
    b: Map<u64, u128>,
    from: u64,
    to: u64,
    amount: u128,
    min1: u128,
    min2: u128,
)
    ensures
        try_transfer(b, from, to, amount, false, min1) == try_transfer(b, from, to, amount, false, min2),
{
}

/// When `who` has its first entry at index `i`, that entry's balance is the
/// account's balance.
proof fn lemma_balance_at(s: Seq<Account>, i: int, who: u64)
    requires
        0 <= i < s.len(),
        s[i].id == who,
        forall|j: int| 0 <= j < i ==> (#[trigger] s[j]).id != who,
    ensures
        balance_in(s, who) == s[i].free,
    decreases i,
{
    if i > 0 {
        let t = s.subrange(1, s.len() as int);
        lemma_balance_at(t, i - 1, who);
    }
}

/// An account with no entry holds 0.
proof fn lemma_balance_absent(s: Seq<Account>, who: u64)
    requires
        forall|j: int| 0 <= j < s.len() ==> (#[trigger] s[j]).id != who,
    ensures
        balance_in(s, who) == 0,
    decreases s.len(),
{
    if s.len() > 0 {
        let t = s.subrange(1, s.len() as int);
        lemma_balance_absent(t, who);
    }
}

/// Replacing the entry at index `i` with one of the same identity changes
/// no other account's balance, and sets that identity's balance when the
/// entry was its first.
proof fn lemma_balance_set(s: Seq<Account>, i: int, who: u64, value: u128)
    requires
        0 <= i < s.len(),
        s[i].id == who,
        forall|j: int| 0 <= j < i ==> (#[trigger] s[j]).id != who,
    ensures
        balance_in(s.update(i, Account { id: who, free: value }), who) == value,
        forall|a: u64|
            a != who ==> balance_in(s.update(i, Account { id: who, free: value }), a)
                == balance_in(s, a),
{
    let s2 = s.update(i, Account { id: who, free: value });
    lemma_balance_at(s2, i, who);
    assert forall|a: u64| a != who implies balance_in(s2, a) == balance_in(s, a) by {
        lemma_balance_update_other(s, i, Account { id: who, free: value }, a);
    }
}

/// Replacing the entry at index `i` leaves the balance of any identity that
/// matches neither the old nor the new entry unchanged.
proof fn lemma_balance_update_other(s: Seq<Account>, i: int, acc: Account, a: u64)
    requires
        0 <= i < s.len(),
        s[i].id != a,
        acc.id != a,
    ensures
        balance_in(s.update(i, acc), a) == balance_in(s, a),
    decreases s.len(),
{
    let s2 = s.update(i, acc);
    if i == 0 {
        assert(s2.subrange(1, s2.len() as int) =~= s.subrange(1, s.len() as int));
    } else {
        assert(s2.subrange(1, s2.len() as int) =~= s.subrange(1, s.len() as int).update(
            i - 1,
            acc,
        ));
        lemma_balance_update_other(s.subrange(1, s.len() as int), i - 1, acc, a);
    }
}

/// Appending an entry leaves every other identity's balance unchanged.
proof fn lemma_balance_push_other(s: Seq<Account>, acc: Account, a: u64)
    requires
        acc.id != a,
    ensures
        balance_in(s.push(acc), a) == balance_in(s, a),
    decreases s.len(),
{
    let s2 = s.push(acc);
    if s.len() == 0 {
        assert(s2.subrange(1, s2.len() as int) =~= Seq::<Account>::empty());
        assert(balance_in(Seq::<Account>::empty(), a) == 0);
        assert(balance_in(s2, a) == 0);
        assert(balance_in(s, a) == 0);
    } else {
        assert(s2.subrange(1, s2.len() as int) =~= s.subrange(1, s.len() as int).push(acc));
        lemma_balance_push_other(s.subrange(1, s.len() as int), acc, a);
    }
}

} // verus!
