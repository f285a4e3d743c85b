//! The data model: objectives, projects, allowance records and registered
//! users, together with the spec-level measures and well-formedness
//! predicates that every operation preserves.

use vstd::prelude::*;

use crate::sums::seq_sum;

verus! {

/// A unit of deliverable work: a priced milestone within a project.
///
/// Lifecycle: created with `half_paid == 0` and `completed == false`; a
/// successful funding operation escrows `price / 2` into `half_paid`; a
/// successful completion sets `completed`; a refund after cancellation resets
/// `half_paid` of an uncompleted objective to zero. Objectives are never
/// deleted.
#[derive(Clone, Copy, Debug, PartialEq, Eq, Structural)]
pub struct Objective {
    /// Total amount owed on completion; always positive.
    pub price: u128,
    /// Amount currently escrowed toward this objective; at most `price`.
    pub half_paid: u128,
    /// True once the freelancer has been paid in full for this objective.
    pub completed: bool,
}

/// The invariant of a single objective.
pub open spec fn objective_wf(o: Objective) -> bool {
    &&& o.price > 0
    &&& o.half_paid <= o.price
}

/// Weight functions over objectives, used with `seq_sum`.
pub open spec fn price_of(o: Objective) -> int {
    o.price as int
}

/// The price of a completed objective, zero otherwise.
pub open spec fn earned_weight(o: Objective) -> int {
    if o.completed {
        o.price as int
    } else {
        0
    }
}

/// One for a completed objective, zero otherwise.
pub open spec fn completed_weight(o: Objective) -> int {
    if o.completed {
        1
    } else {
        0
    }
}

/// The deposit still held for an uncompleted objective, zero otherwise.
pub open spec fn refundable_weight(o: Objective) -> int {
    if !o.completed {
        o.half_paid as int
    } else {
        0
    }
}

/// The total price of all objectives.
pub open spec fn sum_prices(objs: Seq<Objective>) -> int {
    seq_sum(objs, |o: Objective| price_of(o))
}

/// The running audit total: the prices of the completed objectives.
pub open spec fn earned_of(objs: Seq<Objective>) -> int {
    seq_sum(objs, |o: Objective| earned_weight(o))
}

/// How many objectives are completed.
pub open spec fn completed_count(objs: Seq<Objective>) -> int {
    seq_sum(objs, |o: Objective| completed_weight(o))
}

/// The deposits a cancellation makes refundable.
pub open spec fn refundable_of(objs: Seq<Objective>) -> int {
    seq_sum(objs, |o: Objective| refundable_weight(o))
}

/// An uncompleted objective with its deposit released; a completed one is
/// left as it is.
pub open spec fn clear_deposit(o: Objective) -> Objective {
    if !o.completed {
        Objective { half_paid: 0, ..o }
    } else {
        o
    }
}

/// The mathematical value of a project record.
#[verifier::ext_equal]
pub ghost struct ProjectView {
    pub client: u64,
    pub freelancer: u64,
    pub objectives_count: u128,
    pub objectives: Seq<Objective>,
    pub completed_objectives: u128,
    pub earned_amount: u128,
    pub cancelled: bool,
    pub completed: bool,
}

/// A client/freelancer engagement: an ordered list of objectives plus the
/// counters and terminal-state flags of its lifecycle.
pub struct Project {
    /// The identity that pays: authorizes funding, cancellation, objective
    /// addition and project completion.
    pub client: u64,
    /// The identity that delivers: authorizes objective completion.
    pub freelancer: u64,
    /// Total number of objectives ever added; the next free index.
    pub objectives_count: u128,
    /// The objectives, in creation order; indices are never reused.
    pub objectives: Vec<Objective>,
    /// How many objectives are completed.
    pub completed_objectives: u128,
    /// Running sum of `price` over completed objectives; an audit total, not
    /// a spendable balance.
    pub earned_amount: u128,
    /// Terminal flag set by cancellation; excludes `completed`.
    pub cancelled: bool,
    /// Terminal flag set by project completion; excludes `cancelled`.
    pub completed: bool,
}

impl View for Project {
    type V = ProjectView;

    open spec fn view(&self) -> ProjectView {
        ProjectView {
            client: self.client,
            freelancer: self.freelancer,
            objectives_count: self.objectives_count,
            objectives: self.objectives@,
            completed_objectives: self.completed_objectives,
            earned_amount: self.earned_amount,
            cancelled: self.cancelled,
            completed: self.completed,
        }
    }
}

/// The invariant of a project record. The bound on the total price keeps
/// every token movement of the engine within `i128`.
pub open spec fn project_wf(p: ProjectView) -> bool {
    &&& p.client != p.freelancer
    &&& p.objectives_count == p.objectives.len()
    &&& p.completed_objectives == completed_count(p.objectives)
    &&& p.earned_amount == earned_of(p.objectives)
    &&& forall|i: int| 0 <= i < p.objectives.len() ==> objective_wf(#[trigger] p.objectives[i])
    &&& !(p.cancelled && p.completed)
    &&& p.completed ==> p.completed_objectives == p.objectives_count
    &&& sum_prices(p.objectives) <= i128::MAX as int
}

impl Clone for Project {
    /// A clone carries the same mathematical value.
    fn clone(&self) -> (res: Self)
        ensures
            res@ == self@,
    {
        let mut objectives: Vec<Objective> = Vec::new();
        let mut i: usize = 0;
        while i < self.objectives.len()
            invariant
                0 <= i <= self.objectives.len(),
                objectives@ =~= self.objectives@.take(i as int),
            decreases self.objectives.len() - i,
        {
            objectives.push(self.objectives[i]);
            i += 1;
        }
        proof {
            assert(objectives@ =~= self.objectives@);
        }
        Project {
            client: self.client,
            freelancer: self.freelancer,
            objectives_count: self.objectives_count,
            objectives,
            completed_objectives: self.completed_objectives,
            earned_amount: self.earned_amount,
            cancelled: self.cancelled,
            completed: self.completed,
        }
    }
}

/// How much may be spent from one account by another, and until when the
/// grant was meant to last. The engine records the expiration ledger it is
/// handed; it keeps no clock of its own, so the grant is spent, overwritten
/// or zeroed but never expires by itself.
#[derive(Clone, Copy, Debug, PartialEq, Eq, Structural)]
pub struct AllowanceValue {
    pub amount: i128,
    pub expiration_ledger: u32,
}

/// The key of an allowance record: who granted it and who may spend it.
#[derive(Clone, Copy, Debug, PartialEq, Eq, Structural)]
pub struct AllowanceDataKey {
    pub from: u64,
    pub spender: u64,
}

/// The mathematical value of a registered user.
#[verifier::ext_equal]
pub ghost struct UserView {
    pub id: u64,
    pub user: u64,
    pub name: Seq<char>,
    pub email: Seq<char>,
    pub registered: bool,
    pub timestamp: u64,
}

/// An entry of the user-registration directory.
pub struct User {
    pub id: u64,
    pub user: u64,
    pub name: String,
    pub email: String,
    pub registered: bool,
    pub timestamp: u64,
}

impl View for User {
    type V = UserView;

    open spec fn view(&self) -> UserView {
        UserView {
            id: self.id,
            user: self.user,
            name: self.name@,
            email: self.email@,
            registered: self.registered,
            timestamp: self.timestamp,
        }
    }
}

} // verus!
