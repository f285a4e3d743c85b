//! Reading, granting and spending allowances of the token's allowance table.

use vstd::prelude::*;

use crate::assoc::{
    assoc_has, lemma_assoc_get_absent, lemma_assoc_get_present, lemma_assoc_get_update,
    lemma_assoc_push, lemma_unique_keys_update,
};
use crate::errors::Error;
use crate::storage_types::{AllowanceDataKey, AllowanceValue};
use crate::token::Token;
use vstd::pervasive::VecAdditionalExecFns;

verus! {

/// The grant recorded from `from` to `spender`; a zero grant when none is.
pub fn read_allowance(t: &Token, from: u64, spender: u64) -> (r: AllowanceValue)
    requires
        t.wf(),
    ensures
        r == t.allowance_record(from, spender),
{
    let n: usize = t.allowances.len();
    let mut i: usize = 0;
    while i < n
        invariant
            t.wf(),
            n == t.allowances@.len(),
            0 <= i <= n,
            forall|j: int|
                0 <= j < i ==> (#[trigger] t.allowances@[j]).0 != (AllowanceDataKey {
                    from,
                    spender,
                }),
        decreases n - i,
    {
        let e: (AllowanceDataKey, AllowanceValue) = t.allowances[i];
        if e.0.from == from && e.0.spender == spender {
            proof {
                lemma_assoc_get_present(
                    t.allowances@,
                    AllowanceDataKey { from, spender },
                    AllowanceValue { amount: 0, expiration_ledger: 0 },
                    i as int,
                );
            }
            return e.1;
        }
        i += 1;
    }
    proof {
        lemma_assoc_get_absent(
            t.allowances@,
            AllowanceDataKey { from, spender },
            AllowanceValue { amount: 0, expiration_ledger: 0 },
        );
    }
    AllowanceValue { amount: 0, expiration_ledger: 0 }
}

/// Records the grant from `from` to `spender`, overwriting any earlier one.
/// No balance and no other grant moves.
pub fn write_allowance(t: &mut Token, from: u64, spender: u64, amount: i128, expiration_ledger: u32)
    requires
        old(t).wf(),
        amount >= 0,
    ensures
        final(t).wf(),
        forall|f: u64, s: u64|
            final(t).allowance_record(f, s) == if f == from && s == spender {
                AllowanceValue { amount, expiration_ledger }
            } else {
                old(t).allowance_record(f, s)
            },
        final(t).balances == old(t).balances,
        final(t).same_meta(*old(t)),
{
    let ghost d = AllowanceValue { amount: 0, expiration_ledger: 0 };
    let ghost key = AllowanceDataKey { from, spender };
    let ghost s0 = t.allowances@;
    let value = AllowanceValue { amount, expiration_ledger };
    let n: usize = t.allowances.len();
    let mut i: usize = 0;
    while i < n
        invariant
            t.wf(),
            *t == *old(t),
            s0 == t.allowances@,
            key == (AllowanceDataKey { from, spender }),
            d == (AllowanceValue { amount: 0, expiration_ledger: 0 }),
            value == (AllowanceValue { amount, expiration_ledger }),
            amount >= 0,
            n == t.allowances@.len(),
            0 <= i <= n,
            forall|j: int| 0 <= j < i ==> (#[trigger] t.allowances@[j]).0 != key,
        decreases n - i,
    {
        let e: (AllowanceDataKey, AllowanceValue) = t.allowances[i];
        if e.0.from == from && e.0.spender == spender {
            proof {
                assert(s0[i as int].0 == key);
                lemma_unique_keys_update(s0, key, value, i as int);
                assert forall|f: u64, s: u64|
                    crate::assoc::assoc_get(s0.update(i as int, (key, value)), AllowanceDataKey { from: f, spender: s }, d)
                        == (if f == from && s == spender {
                        value
                    } else {
                        crate::assoc::assoc_get(s0, AllowanceDataKey { from: f, spender: s }, d)
                    }) by {
                    lemma_assoc_get_update(s0, key, value, d, i as int, AllowanceDataKey { from: f, spender: s });
                }
                assert forall|j: int|
                    0 <= j < s0.len() implies (#[trigger] s0.update(
                    i as int,
                    (key, value),
                )[j]).1.amount >= 0 by {
                    if j != i as int {
                        assert(s0.update(i as int, (key, value))[j] == s0[j]);
                        assert(t.allowances@[j].1.amount >= 0);
                    }
                }
            }
            t.allowances.set(i, (AllowanceDataKey { from, spender }, value));
            return ;
        }
        i += 1;
    }
    proof {
        assert(!assoc_has(s0, key));
        assert forall|f: u64, s: u64|
            crate::assoc::assoc_get(s0.push((key, value)), AllowanceDataKey { from: f, spender: s }, d)
                == (if f == from && s == spender {
                value
            } else {
                crate::assoc::assoc_get(s0, AllowanceDataKey { from: f, spender: s }, d)
            }) by {
            lemma_assoc_push(s0, key, value, d, AllowanceDataKey { from: f, spender: s });
        }
        lemma_assoc_push(s0, key, value, d, key);
        assert(forall|j: int|
            0 <= j < s0.len() + 1 ==> (#[trigger] s0.push((key, value))[j]).1.amount >= 0);
    }
    t.allowances.push((AllowanceDataKey { from, spender }, value));
}

/// Consumes `amount` of the grant from `from` to `spender`, refusing with
/// `InsufficientAllowance` when the grant is smaller; a refusal changes
/// nothing. The recorded expiration ledger is kept.
pub fn spend_allowance(t: &mut Token, from: u64, spender: u64, amount: i128) -> (r: Result<
    (),
    Error,
>)
    requires
        old(t).wf(),
        amount >= 0,
    ensures
        final(t).wf(),
        r == if old(t).allowance_of(from, spender) >= amount {
            Result::<(), Error>::Ok(())
        } else {
            Result::<(), Error>::Err(Error::InsufficientAllowance)
        },
        r is Err ==> *final(t) == *old(t),
        r is Ok ==> {
            &&& forall|f: u64, s: u64|
                final(t).allowance_record(f, s) == if f == from && s == spender {
                    AllowanceValue {
                        amount: (old(t).allowance_of(from, spender) - amount) as i128,
                        expiration_ledger: old(t).allowance_record(from, spender).expiration_ledger,
                    }
                } else {
                    old(t).allowance_record(f, s)
                }
            &&& final(t).balances == old(t).balances
            &&& final(t).same_meta(*old(t))
        },
{
    let current = read_allowance(t, from, spender);
    if current.amount < amount {
        return Err(Error::InsufficientAllowance);
    }
    write_allowance(t, from, spender, current.amount - amount, current.expiration_ledger);
    Ok(())
}

} // verus!
