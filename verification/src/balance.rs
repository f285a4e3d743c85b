//! Reading and writing single balances of the token's balance table.

use vstd::prelude::*;

use crate::assoc::{
    assoc_get, assoc_has, lemma_assoc_get_absent, lemma_assoc_get_present,
    lemma_assoc_get_update, lemma_assoc_push, lemma_unique_keys_update, unique_keys,
};
use crate::errors::Error;
use crate::sums::{
    lemma_seq_sum_nonneg, lemma_seq_sum_push, lemma_seq_sum_update, seq_sum,
};
use crate::token::{balance_weight, Token};
use vstd::pervasive::VecAdditionalExecFns;

verus! {

/// In a table of nonnegative balances, every account's balance lies between
/// zero and the sum of all balances.
pub proof fn lemma_balance_le_supply(s: Seq<(u64, i128)>, x: u64)
    requires
        forall|i: int| 0 <= i < s.len() ==> (#[trigger] s[i]).1 >= 0,
    ensures
        0 <= assoc_get(s, x, 0),
        assoc_get(s, x, 0) <= seq_sum(s, |e: (u64, i128)| balance_weight(e)),
    decreases s.len(),
{
    if s.len() > 0 {
        lemma_balance_le_supply(s.drop_last(), x);
        lemma_seq_sum_nonneg(s.drop_last(), |e: (u64, i128)| balance_weight(e));
    }
}

/// The balance of `addr`; zero when no entry carries `addr`.
pub fn read_balance(t: &Token, addr: u64) -> (r: i128)
    requires
        t.wf(),
    ensures
        r == t.balance_of(addr),
{
    let n: usize = t.balances.len();
    let mut i: usize = 0;
    while i < n
        invariant
            t.wf(),
            n == t.balances@.len(),
            0 <= i <= n,
            forall|j: int| 0 <= j < i ==> (#[trigger] t.balances@[j]).0 != addr,
        decreases n - i,
    {
        let e: (u64, i128) = t.balances[i];
        if e.0 == addr {
            proof {
                lemma_assoc_get_present(t.balances@, addr, 0, i as int);
            }
            return e.1;
        }
        i += 1;
    }
    proof {
        lemma_assoc_get_absent(t.balances@, addr, 0);
    }
    0
}

/// Sets the balance of `addr` to `amount`, leaving every other account, all
/// allowances and the metadata unchanged.
pub fn write_balance(t: &mut Token, addr: u64, amount: i128)
    requires
        old(t).wf(),
        amount >= 0,
        old(t).supply() - old(t).balance_of(addr) + amount <= i128::MAX as int,
    ensures
        final(t).wf(),
        forall|x: u64|
            final(t).balance_of(x) == if x == addr {
                amount
            } else {
                old(t).balance_of(x)
            },
        final(t).supply() == old(t).supply() - old(t).balance_of(addr) + amount,
        final(t).allowances == old(t).allowances,
        final(t).same_meta(*old(t)),
{
    let ghost s0 = t.balances@;
    let n: usize = t.balances.len();
    let mut i: usize = 0;
    while i < n
        invariant
            t.wf(),
            *t == *old(t),
            s0 == t.balances@,
            amount >= 0,
            t.supply() - t.balance_of(addr) + amount <= i128::MAX as int,
            n == t.balances@.len(),
            0 <= i <= n,
            forall|j: int| 0 <= j < i ==> (#[trigger] t.balances@[j]).0 != addr,
        decreases n - i,
    {
        let e: (u64, i128) = t.balances[i];
        if e.0 == addr {
            proof {
                lemma_assoc_get_present(s0, addr, 0, i as int);
                lemma_unique_keys_update(s0, addr, amount, i as int);
                lemma_seq_sum_update(
                    s0,
                    |e: (u64, i128)| balance_weight(e),
                    i as int,
                    (addr, amount),
                );
                assert forall|x: u64|
                    assoc_get(s0.update(i as int, (addr, amount)), x, 0) == (if x == addr {
                        amount
                    } else {
                        assoc_get(s0, x, 0)
                    }) by {
                    lemma_assoc_get_update(s0, addr, amount, 0, i as int, x);
                }
                assert forall|j: int|
                    0 <= j < s0.len() implies (#[trigger] s0.update(i as int, (addr, amount))[j]).1
                    >= 0 by {
                    if j != i as int {
                        assert(s0.update(i as int, (addr, amount))[j] == s0[j]);
                        assert(t.balances@[j].1 >= 0);
                    }
                }
            }
            t.balances.set(i, (addr, amount));
            return ;
        }
        i += 1;
    }
    proof {
        assert(!assoc_has(s0, addr));
        lemma_assoc_get_absent(s0, addr, 0);
        lemma_seq_sum_push(s0, |e: (u64, i128)| balance_weight(e), (addr, amount));
        assert forall|x: u64|
            assoc_get(s0.push((addr, amount)), x, 0) == (if x == addr {
                amount
            } else {
                assoc_get(s0, x, 0)
            }) by {
            lemma_assoc_push(s0, addr, amount, 0, x);
        }
        lemma_assoc_push(s0, addr, amount, 0, addr);
        assert(forall|j: int|
            0 <= j < s0.len() + 1 ==> (#[trigger] s0.push((addr, amount))[j]).1 >= 0);
    }
    t.balances.push((addr, amount));
}

/// Credits `amount` to `addr`. The caller accounts for the growth of the
/// supply, so the addition cannot overflow.
pub fn receive_balance(t: &mut Token, addr: u64, amount: i128)
    requires
        old(t).wf(),
        amount >= 0,
        old(t).supply() + amount <= i128::MAX as int,
    ensures
        final(t).wf(),
        forall|x: u64|
            final(t).balance_of(x) == if x == addr {
                old(t).balance_of(x) + amount
            } else {
                old(t).balance_of(x) as int
            },
        final(t).supply() == old(t).supply() + amount,
        final(t).allowances == old(t).allowances,
        final(t).same_meta(*old(t)),
{
    proof {
        lemma_balance_le_supply(t.balances@, addr);
    }
    let balance = read_balance(t, addr);
    write_balance(t, addr, balance + amount);
}

/// Debits `amount` from `addr`, refusing with `InsufficientFunds` when the
/// account holds less; a refusal changes nothing.
pub fn spend_balance(t: &mut Token, addr: u64, amount: i128) -> (r: Result<(), Error>)
    requires
        old(t).wf(),
        amount >= 0,
    ensures
        final(t).wf(),
        r == if old(t).balance_of(addr) >= amount {
            Result::<(), Error>::Ok(())
        } else {
            Result::<(), Error>::Err(Error::InsufficientFunds)
        },
        r is Err ==> *final(t) == *old(t),
        r is Ok ==> {
            &&& forall|x: u64|
                final(t).balance_of(x) == if x == addr {
                    old(t).balance_of(x) - amount
                } else {
                    old(t).balance_of(x) as int
                }
            &&& final(t).supply() == old(t).supply() - amount
            &&& final(t).allowances == old(t).allowances
            &&& final(t).same_meta(*old(t))
        },
{
    proof {
        lemma_balance_le_supply(t.balances@, addr);
    }
    let balance = read_balance(t, addr);
    if balance < amount {
        return Err(Error::InsufficientFunds);
    }
    write_balance(t, addr, balance - amount);
    Ok(())
}

} // verus!
