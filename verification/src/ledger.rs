//! The ledger state machine: a balance for each account, a supply
//! counter that always equals the sum of the balances, and an owner
//! address fixed at construction.
//!
//! Every mutating operation either succeeds and reports the event it
//! produced, or fails with a structured error and leaves the state
//! bit-for-bit unchanged.

use vstd::prelude::*;
use crate::account::Address;
use crate::u256::U256;
use crate::u256::u256_bound;

verus! {

/// The event produced by a successful transfer, exactly one per call.
#[derive(Clone, Copy, Debug, PartialEq, Eq, Structural)]
pub struct TransferEvent {
    pub from: Address,
    pub to: Address,
    pub value: U256,
}

/// The three ways a ledger operation can fail. No failure changes any
/// state.
#[derive(Clone, Copy, Debug, PartialEq, Eq, Structural)]
pub enum LedgerError {
    /// The sender's balance is below the requested amount.
    InsufficientBalance { account: Address, required: U256, available: U256 },
    /// A checked addition or subtraction left the 256-bit range.
    ArithmeticOverflow,
    /// A privileged operation was attempted by an account other than the
    /// owner.
    NotAuthorized,
}

/// The balance an account holds in a sequence of `(account, balance)`
/// rows: the balance of the last row for that account, or zero when no
/// row mentions it.
pub open spec fn balance_in(rows: Seq<(Address, U256)>, account: Address) -> nat
    decreases rows.len(),
{
    if rows.len() == 0 {
        0
    } else if rows.last().0 == account {
        rows.last().1.as_nat()
    } else {
        balance_in(rows.drop_last(), account)
    }
}

/// The sum of all balances in a sequence of rows.
pub open spec fn sum_in(rows: Seq<(Address, U256)>) -> nat
    decreases rows.len(),
{
    if rows.len() == 0 {
        0
    } else {
        sum_in(rows.drop_last()) + rows.last().1.as_nat()
    }
}

/// No two rows mention the same account.
pub open spec fn distinct_accounts(rows: Seq<(Address, U256)>) -> bool {
    forall|p: int, q: int| 0 <= p < q < rows.len() ==> rows[p].0 != rows[q].0
}

/// A ledger: balances, total supply and owner.
pub struct Ledger {
    balances: Vec<(Address, U256)>,
    total_supply: U256,
    owner: Address,
}

impl Ledger {
    /// The balance of an account, as a mathematical value; zero for
    /// accounts the ledger has never seen.
    pub closed spec fn balance_nat(self, account: Address) -> nat {
        balance_in(self.balances@, account)
    }

    /// The sum of all balances, as a mathematical value.
    pub closed spec fn sum_of_balances(self) -> nat {
        sum_in(self.balances@)
    }

    /// The stored supply counter, as a mathematical value.
    pub closed spec fn total_supply_nat(self) -> nat {
        self.total_supply.as_nat()
    }

    /// The owner fixed at construction.
    pub closed spec fn owner_spec(self) -> Address {
        self.owner
    }

    /// Each account has at most one row in the balance table. Every
    /// constructor establishes this and every operation preserves it.
    pub closed spec fn accounts_distinct(self) -> bool {
        distinct_accounts(self.balances@)
    }

    /// The conservation invariant: the supply counter equals the sum of
    /// all balances.
    pub open spec fn well_formed(self) -> bool {
        self.accounts_distinct() && self.sum_of_balances() == self.total_supply_nat()
    }

    /// A transfer of `amount_val` from `caller` to `to` is allowed when
    /// the sender can cover it and the recipient side cannot overflow.
    /// The recipient balance is read after the debit is applied, so a
    /// self-transfer can never overflow.
    pub open spec fn transfer_allowed(self, caller: Address, to: Address, amount_val: nat) -> bool {
        amount_val <= self.balance_nat(caller) && (to == caller || self.balance_nat(to) + amount_val
            < u256_bound())
    }

    /// A fresh ledger: the given owner, no balances, zero supply.
    pub fn new(owner: Address) -> (r: Ledger)
        ensures
            r.owner_spec() == owner,
            r.total_supply_nat() == 0,
            forall|x: Address| r.balance_nat(x) == 0,
            r.accounts_distinct(),
            r.well_formed(),
    {
        let r = Ledger { balances: Vec::new(), total_supply: U256::zero(), owner };
        proof {
            assert forall|x: Address| r.balance_nat(x) == 0 by {
                assert(r.balances@.len() == 0);
            }
        }
        r
    }

    /// Rebuilds a ledger from raw storage contents. Succeeds exactly
    /// when no account appears twice; the supply counter is taken as
    /// stored, whether or not it matches the sum of the balances.
    pub fn from_storage(owner: Address, balances: Vec<(Address, U256)>, total_supply: U256) -> (r:
        Option<Ledger>)
        ensures
            r is Some <==> distinct_accounts(balances@),
            r matches Some(l) ==> {
                &&& l.owner_spec() == owner
                &&& l.total_supply_nat() == total_supply.as_nat()
                &&& l.accounts_distinct()
                &&& forall|x: Address| l.balance_nat(x) == balance_in(balances@, x)
                &&& l.sum_of_balances() == sum_in(balances@)
                &&& (l.well_formed() <==> sum_in(balances@) == total_supply.as_nat())
            },
    {
        let n = balances.len();
        let mut i: usize = 0;
        while i < n
            invariant
                i <= n,
                n == balances@.len(),
                forall|p: int, q: int| 0 <= p < q < n && p < i ==> balances@[p].0 != balances@[q].0,
            decreases n - i,
        {
            let mut j: usize = i + 1;
            while j < n
                invariant
                    i < j <= n,
                    n == balances@.len(),
                    forall|q: int| i < q < j ==> balances@[i as int].0 != balances@[q].0,
                decreases n - j,
            {
                if balances[i].0 == balances[j].0 {
                    return None;
                }
                j = j + 1;
            }
            i = i + 1;
        }
        Some(Ledger { balances, total_supply, owner })
    }

    /// The balance of an account; zero for accounts the ledger has never
    /// seen. A pure read: the result is a function of the state alone.
    pub fn balance_of(&self, account: Address) -> (r: U256)
        requires
            self.accounts_distinct(),
        ensures
            r.as_nat() == self.balance_nat(account),
    {
        let n = self.balances.len();
        let mut i: usize = 0;
        while i < n
            invariant
                i <= n,
                n == self.balances@.len(),
                self.accounts_distinct(),
                forall|k: int| 0 <= k < i ==> self.balances@[k].0 != account,
            decreases n - i,
        {
            if self.balances[i].0 == account {
                proof {
                    lemma_present_balance(self.balances@, i as int);
                }
                return self.balances[i].1;
            }
            i = i + 1;
        }
        proof {
            lemma_absent_balance(self.balances@, account);
        }
        U256::zero()
    }

    /// The total supply. A pure read: the result is a function of the
    /// state alone.
    pub fn total_supply(&self) -> (r: U256)
        ensures
            r.as_nat() == self.total_supply_nat(),
    {
        self.total_supply
    }

    /// The guard for privileged operations: succeeds only for the owner,
    /// never changes any state.
    pub fn only_owner(&self, caller: Address) -> (r: Result<(), LedgerError>)
        ensures
            r is Ok <==> caller == self.owner_spec(),
            r is Err ==> r == Err::<(), LedgerError>(LedgerError::NotAuthorized),
    {
        if caller == self.owner {
            Ok(())
        } else {
            Err(LedgerError::NotAuthorized)
        }
    }

    /// Moves `amount` from `caller` to `to`.
    ///
    /// The sender's balance is checked, the debit and the credit are both
    /// computed with checked arithmetic, and only then are both written:
    /// a failure leaves the ledger bit-for-bit unchanged. The recipient's
    /// balance is read after the debit is applied, so a self-transfer
    /// nets to no change while still passing through the full checked
    /// path. Exactly one event is produced, only on success.
    pub fn transfer(&mut self, caller: Address, to: Address, amount: U256) -> (r: Result<
        TransferEvent,
        LedgerError,
    >)
        requires
            old(self).accounts_distinct(),
        ensures
            final(self).accounts_distinct(),
            final(self).owner_spec() == old(self).owner_spec(),
            final(self).total_supply_nat() == old(self).total_supply_nat(),
            final(self).sum_of_balances() == old(self).sum_of_balances(),
            old(self).well_formed() ==> final(self).well_formed(),
            r is Ok <==> old(self).transfer_allowed(caller, to, amount.as_nat()),
            r matches Ok(ev) ==> ev == (TransferEvent { from: caller, to, value: amount }),
            r is Ok && to != caller ==> final(self).balance_nat(caller) + amount.as_nat() == old(
                self,
            ).balance_nat(caller) && final(self).balance_nat(to) == old(self).balance_nat(to)
                + amount.as_nat(),
            r is Ok && to == caller ==> final(self).balance_nat(caller) == old(self).balance_nat(
                caller,
            ),
            forall|x: Address| x != caller && x != to ==> final(self).balance_nat(x) == old(
                self,
            ).balance_nat(x),
            r is Err ==> *final(self) == *old(self),
            (r matches Err(e) && e is InsufficientBalance) <==> old(self).balance_nat(caller)
                < amount.as_nat(),
            r matches Err(e) ==> (e matches LedgerError::InsufficientBalance {
                account,
                required,
                available,
            } ==> account == caller && required == amount && available.as_nat() == old(
                self,
            ).balance_nat(caller)),
            (r matches Err(e) && e is ArithmeticOverflow) <==> (to != caller && amount.as_nat()
                <= old(self).balance_nat(caller) && old(self).balance_nat(to) + amount.as_nat()
                >= u256_bound()),
    {
        let sender_balance = self.balance_of(caller);
        if sender_balance.lt(&amount) {
            return Err(LedgerError::InsufficientBalance {
                account: caller,
                required: amount,
                available: sender_balance,
            });
        }
        let new_sender_balance = match sender_balance.checked_sub(&amount) {
            Some(v) => v,
            None => { return Err(LedgerError::ArithmeticOverflow) },
        };
        let recipient_balance = if to == caller {
            new_sender_balance
        } else {
            self.balance_of(to)
        };
        let new_recipient_balance = match recipient_balance.checked_add(&amount) {
            Some(v) => v,
            None => { return Err(LedgerError::ArithmeticOverflow) },
        };
        self.store(caller, new_sender_balance);
        self.store(to, new_recipient_balance);
        Ok(TransferEvent { from: caller, to, value: amount })
    }

    /// Writes `value` as the balance of `account`, replacing its row or
    /// appending one.
    fn store(&mut self, account: Address, value: U256)
        requires
            old(self).accounts_distinct(),
        ensures
            final(self).accounts_distinct(),
            final(self).owner_spec() == old(self).owner_spec(),
            final(self).total_supply_nat() == old(self).total_supply_nat(),
            final(self).balance_nat(account) == value.as_nat(),
            forall|x: Address| x != account ==> final(self).balance_nat(x) == old(self).balance_nat(
                x,
            ),
            final(self).sum_of_balances() + old(self).balance_nat(account) == old(
                self,
            ).sum_of_balances() + value.as_nat(),
    {
        let ghost old_rows = self.balances@;
        let n = self.balances.len();
        let mut i: usize = 0;
        while i < n
            invariant
                i <= n,
                n == self.balances@.len(),
                self.balances@ == old_rows,
                old_rows == old(self).balances@,
                self.owner == old(self).owner,
                self.total_supply == old(self).total_supply,
                distinct_accounts(old_rows),
                forall|k: int| 0 <= k < i ==> old_rows[k].0 != account,
            decreases n - i,
        {
            if self.balances[i].0 == account {
                self.balances[i] = (account, value);
                proof {
                    lemma_present_balance(old_rows, i as int);
                    lemma_update_sum(old_rows, i as int, value);
                    assert forall|x: Address| #[trigger] balance_in(self.balances@, x) == (if x
                        == account {
                        value.as_nat()
                    } else {
                        balance_in(old_rows, x)
                    }) by {
                        lemma_update_balance(old_rows, i as int, value, x);
                    }
                }
                return ;
            }
            i = i + 1;
        }
        self.balances.push((account, value));
        proof {
            lemma_absent_balance(old_rows, account);
            assert(self.balances@.drop_last() =~= old_rows);
            assert forall|x: Address| x != account implies #[trigger] balance_in(
                self.balances@,
                x,
            ) == balance_in(old_rows, x) by {
            }
        }
    }
}

impl Ledger {
    /// No account balance is ever negative: balances are natural
    /// numbers, and `balance_of` returns exactly such a value.
    pub proof fn lemma_balance_nonnegative(self, account: Address)
        ensures
            0 <= self.balance_nat(account),
    {
    }

    /// In a well-formed ledger no balance exceeds the total supply.
    pub proof fn lemma_balance_le_supply(self, account: Address)
        requires
            self.well_formed(),
        ensures
            self.balance_nat(account) <= self.total_supply_nat(),
    {
        lemma_balance_le_sum(self.balances@, account);
    }

    /// In a well-formed ledger a covered transfer is always allowed: the
    /// recipient side cannot overflow, because sender and recipient
    /// balances together never exceed the supply, which fits in 256
    /// bits. The defensive overflow check in `transfer` can therefore
    /// only fire on a ledger whose stored supply counter disagrees with
    /// its balances.
    pub proof fn lemma_covered_transfer_allowed(
        self,
        caller: Address,
        to: Address,
        amount_val: nat,
    )
        requires
            self.well_formed(),
            amount_val <= self.balance_nat(caller),
        ensures
            self.transfer_allowed(caller, to, amount_val),
    {
        if to != caller {
            lemma_two_balances_le_sum(self.balances@, caller, to);
            crate::u256::lemma_as_nat_bound(self.total_supply);
        }
    }
}

/// In a table with distinct accounts, the balance of the account in row
/// `i` is the balance that row stores.
proof fn lemma_present_balance(rows: Seq<(Address, U256)>, i: int)
    requires
        distinct_accounts(rows),
        0 <= i < rows.len(),
    ensures
        balance_in(rows, rows[i].0) == rows[i].1.as_nat(),
    decreases rows.len(),
{
    if i < rows.len() - 1 {
        assert(rows.last().0 != rows[i].0);
        assert(rows.drop_last()[i] == rows[i]);
        lemma_present_balance(rows.drop_last(), i);
    }
}

/// An account no row mentions holds balance zero.
proof fn lemma_absent_balance(rows: Seq<(Address, U256)>, account: Address)
    requires
        forall|k: int| 0 <= k < rows.len() ==> rows[k].0 != account,
    ensures
        balance_in(rows, account) == 0,
    decreases rows.len(),
{
    if rows.len() > 0 {
        lemma_absent_balance(rows.drop_last(), account);
    }
}

/// Replacing the balance in row `i` changes the sum by exactly the
/// difference of the new and old balance of that row.
proof fn lemma_update_sum(rows: Seq<(Address, U256)>, i: int, value: U256)
    requires
        0 <= i < rows.len(),
    ensures
        sum_in(rows.update(i, (rows[i].0, value))) + rows[i].1.as_nat() == sum_in(rows)
            + value.as_nat(),
    decreases rows.len(),
{
    let updated = rows.update(i, (rows[i].0, value));
    if i == rows.len() - 1 {
        assert(updated.drop_last() =~= rows.drop_last());
    } else {
        assert(updated.drop_last() =~= rows.drop_last().update(i, (rows[i].0, value)));
        assert(rows.drop_last()[i] == rows[i]);
        lemma_update_sum(rows.drop_last(), i, value);
    }
}

/// Replacing the balance in row `i` sets that account's balance and
/// leaves every other account's balance unchanged.
proof fn lemma_update_balance(rows: Seq<(Address, U256)>, i: int, value: U256, x: Address)
    requires
        distinct_accounts(rows),
        0 <= i < rows.len(),
    ensures
        balance_in(rows.update(i, (rows[i].0, value)), x) == (if x == rows[i].0 {
            value.as_nat()
        } else {
            balance_in(rows, x)
        }),
    decreases rows.len(),
{
    let updated = rows.update(i, (rows[i].0, value));
    if i == rows.len() - 1 {
        assert(updated.drop_last() =~= rows.drop_last());
    } else {
        assert(updated.drop_last() =~= rows.drop_last().update(i, (rows[i].0, value)));
        assert(rows.drop_last()[i] == rows[i]);
        lemma_update_balance(rows.drop_last(), i, value, x);
    }
}

/// Any single balance is at most the sum of all balances.
pub proof fn lemma_balance_le_sum(rows: Seq<(Address, U256)>, account: Address)
    ensures
        balance_in(rows, account) <= sum_in(rows),
    decreases rows.len(),
{
    if rows.len() > 0 {
        lemma_balance_le_sum(rows.drop_last(), account);
    }
}

/// The balances of two distinct accounts together are at most the sum of
/// all balances.
pub proof fn lemma_two_balances_le_sum(rows: Seq<(Address, U256)>, a: Address, b: Address)
    requires
        a != b,
    ensures
        balance_in(rows, a) + balance_in(rows, b) <= sum_in(rows),
    decreases rows.len(),
{
    if rows.len() > 0 {
        if rows.last().0 == a {
            lemma_balance_le_sum(rows.drop_last(), b);
        } else if rows.last().0 == b {
            lemma_balance_le_sum(rows.drop_last(), a);
        } else {
            lemma_two_balances_le_sum(rows.drop_last(), a, b);
        }
    }
}

} // verus!
