//! The engine's cross-operation guarantees, stated and proved once for all
//! states: funding cannot be repeated, the two-tranche payment conserves
//! value, and refunding is idempotent.
//!
//! Each lemma's hypotheses are exactly what the corresponding operation's
//! `ensures` gives a successful first call, so a verified caller can
//! discharge them from the call itself; the conclusion then pins the second
//! call's outcome through that operation's own contract.

use vstd::prelude::*;

use crate::contract::FreelanceContract;
use crate::errors::Error;
use crate::storage_types::{
    clear_deposit, refundable_of, Objective, ProjectView,
};
use crate::sums::lemma_seq_sum_zero;
use crate::token::{moved, Token};

verus! {

/// Funding is not re-enterable: once `fund_objective` has escrowed the
/// deposit for an objective, a second `fund_objective` on the same
/// objective, without an intervening refund, is refused with
/// `AlreadyFunded` — whatever happened on the token ledger in between.
/// By that operation's contract the refused call leaves the deposit, the
/// project and the ledger unchanged. (For a one-unit price the deposit is
/// zero and the objective stays unfunded, so the law speaks of prices of
/// at least two.)
pub proof fn lemma_fund_objective_not_reentrant(
    c0: FreelanceContract,
    t0: Token,
    c1: FreelanceContract,
    t1: Token,
    project_id: u128,
    objective_id: u128,
    user: u64,
)
    requires
        c0.wf(),
        c0.fund_objective_err(t0, project_id, objective_id, user) is None,
        c0.project_at(project_id).objectives[objective_id as int].price >= 2,
        c0.only_project_changed(c1, project_id),
        c1.project_at(project_id) == (ProjectView {
            objectives: c0.project_at(project_id).objectives.update(
                objective_id as int,
                Objective {
                    half_paid: c0.project_at(project_id).objectives[objective_id as int].price / 2,
                    ..c0.project_at(project_id).objectives[objective_id as int]
                },
            ),
            ..c0.project_at(project_id)
        }),
    ensures
        c1.fund_objective_err(t1, project_id, objective_id, user) == Some(Error::AlreadyFunded),
{
}

/// The two-tranche payment conserves value: after a funding that escrowed
/// half the price and a completion that collected the remainder and paid
/// the freelancer, the freelancer holds exactly the price more, the client
/// exactly the price less, custody is back where it started, and every
/// other account is untouched — whichever amounts each tranche moved.
pub proof fn lemma_objective_payment_conserves_value(
    c0: FreelanceContract,
    t0: Token,
    c1: FreelanceContract,
    t1: Token,
    t2: Token,
    project_id: u128,
    objective_id: u128,
)
    requires
        c0.wf(),
        c0.fund_objective_err(t0, project_id, objective_id, c0.project_at(project_id).client)
            is None,
        c0.only_project_changed(c1, project_id),
        c1.project_at(project_id) == (ProjectView {
            objectives: c0.project_at(project_id).objectives.update(
                objective_id as int,
                Objective {
                    half_paid: c0.project_at(project_id).objectives[objective_id as int].price / 2,
                    ..c0.project_at(project_id).objectives[objective_id as int]
                },
            ),
            ..c0.project_at(project_id)
        }),
        forall|x: u64|
            t1.balance_of(x) == t0.balance_of(x) + moved(
                c0.project_at(project_id).client,
                c0.address,
                c0.project_at(project_id).objectives[objective_id as int].price as int / 2,
                x,
            ),
        c1.complete_objective_err(
            t1,
            project_id,
            objective_id,
            c0.project_at(project_id).freelancer,
        ) is None,
        forall|x: u64|
            t2.balance_of(x) == t1.balance_of(x) + moved(
                c1.project_at(project_id).client,
                c1.address,
                c1.project_at(project_id).objectives[objective_id as int].price
                    - c1.project_at(project_id).objectives[objective_id as int].half_paid,
                x,
            ) + moved(
                c1.address,
                c1.project_at(project_id).freelancer,
                c1.project_at(project_id).objectives[objective_id as int].price as int,
                x,
            ),
        c0.project_at(project_id).client != c0.address,
        c0.project_at(project_id).freelancer != c0.address,
    ensures
        t2.balance_of(c0.project_at(project_id).freelancer) == t0.balance_of(
            c0.project_at(project_id).freelancer,
        ) + c0.project_at(project_id).objectives[objective_id as int].price,
        t2.balance_of(c0.project_at(project_id).client) == t0.balance_of(
            c0.project_at(project_id).client,
        ) - c0.project_at(project_id).objectives[objective_id as int].price,
        t2.balance_of(c0.address) == t0.balance_of(c0.address),
        forall|x: u64|
            x != c0.project_at(project_id).client && x != c0.project_at(project_id).freelancer
                && x != c0.address ==> t2.balance_of(x) == t0.balance_of(x),
{
    let pv = c0.project_at(project_id);
    assert(pv.client != pv.freelancer);
    assert(t1.balance_of(pv.client) == t0.balance_of(pv.client) + moved(
        pv.client,
        c0.address,
        pv.objectives[objective_id as int].price as int / 2,
        pv.client,
    ));
    assert(t2.balance_of(pv.client) == t1.balance_of(pv.client) + moved(
        pv.client,
        c0.address,
        c1.project_at(project_id).objectives[objective_id as int].price
            - c1.project_at(project_id).objectives[objective_id as int].half_paid,
        pv.client,
    ) + moved(c0.address, pv.freelancer, pv.objectives[objective_id as int].price as int, pv.client));
    assert(t1.balance_of(pv.freelancer) == t0.balance_of(pv.freelancer));
    assert(t1.balance_of(c0.address) == t0.balance_of(c0.address) + pv.objectives[objective_id as int].price as int / 2);
}

/// Refunding is idempotent: a successful refund leaves the cancelled
/// project with no refundable deposit, so a second refund succeeds as a
/// no-op — it finds nothing to release and, by the operation's contract,
/// moves no funds and changes nothing.
pub proof fn lemma_refund_idempotent(
    c0: FreelanceContract,
    c1: FreelanceContract,
    project_id: u128,
    user: u64,
)
    requires
        c0.wf(),
        c0.refund_remaining_funds_err(project_id, user) is None,
        c0.only_project_changed(c1, project_id),
        c1.project_at(project_id) == (ProjectView {
            objectives: c0.project_at(project_id).objectives.map_values(
                |o: Objective| clear_deposit(o),
            ),
            ..c0.project_at(project_id)
        }),
    ensures
        c1.refund_remaining_funds_err(project_id, user) is None,
        refundable_of(c1.project_at(project_id).objectives) == 0,
        forall|t: Token| t.wf() ==> #[trigger] c1.refund_amount(t, project_id) == 0,
{
    let cleared = c1.project_at(project_id).objectives;
    assert forall|i: int|
        0 <= i < cleared.len() implies crate::storage_types::refundable_weight(
        #[trigger] cleared[i],
    ) == 0 by {
        assert(cleared[i] == clear_deposit(c0.project_at(project_id).objectives[i]));
    }
    lemma_seq_sum_zero(cleared, |o: Objective| crate::storage_types::refundable_weight(o));
    assert forall|t: Token| t.wf() implies #[trigger] c1.refund_amount(t, project_id) == 0 by {
        crate::balance::lemma_balance_le_supply(t.balances@, c1.address);
    }
}

} // verus!
