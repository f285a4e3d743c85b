//! The escrow engine: every state transition of the milestone flow.
//!
//! A caller identity, an operation and its parameters enter the engine; the
//! engine looks the project up, validates authorization and state, optionally
//! moves funds on the token ledger, and commits the mutated project. Each
//! operation's contract says exactly on which inputs it succeeds, which error
//! it returns otherwise, and that a refused operation changes nothing.

use vstd::prelude::*;

use crate::errors::Error;
use crate::storage_types::{
    clear_deposit, completed_weight, earned_weight, price_of, project_wf, refundable_of,
    refundable_weight, sum_prices, AllowanceValue, Objective, Project, ProjectView, User, UserView,
};
use crate::sums::{
    lemma_seq_sum_elem_le, lemma_seq_sum_le, lemma_seq_sum_nonneg, lemma_seq_sum_pointwise,
    lemma_seq_sum_take_all, lemma_seq_sum_take_le, lemma_seq_sum_take_step, lemma_seq_sum_update,
    lemma_seq_sum_zero, seq_sum,
};
use crate::token::{moved, Token};
use vstd::pervasive::VecAdditionalExecFns;

verus! {

/// The total of a price list, as a mathematical integer.
pub open spec fn prices_total(prices: Seq<u128>) -> int {
    seq_sum(prices, |p: u128| p as int)
}

/// Whether some listed price is zero, which every operation refuses.
pub open spec fn has_zero_price(prices: Seq<u128>) -> bool {
    exists|i: int| 0 <= i < prices.len() && prices[i] == 0
}

/// The escrow engine: the project store plus the identity of the escrow
/// holder, the account that keeps deposits between funding and
/// completion or refund.
pub struct FreelanceContract {
    /// The engine's custody account on the token ledger.
    pub address: u64,
    /// The stored projects; the project with identifier `i` sits at
    /// index `i - 1`, and identifiers are never reused.
    pub projects: Vec<Project>,
    /// The user-registration directory; unrelated bookkeeping.
    pub users: Vec<User>,
}

impl FreelanceContract {
    /// How many projects were ever created.
    pub open spec fn n_projects(self) -> int {
        self.projects@.len() as int
    }

    /// Whether a project exists under `project_id`.
    pub open spec fn has_project(self, project_id: u128) -> bool {
        1 <= project_id <= self.projects@.len()
    }

    /// The record stored under `project_id`.
    pub open spec fn project_at(self, project_id: u128) -> ProjectView {
        self.projects@[project_id as int - 1]@
    }

    /// Every stored project is well formed, and no identity registers twice.
    pub open spec fn wf(self) -> bool {
        &&& forall|j: int|
            0 <= j < self.projects@.len() ==> project_wf((#[trigger] self.projects@[j])@)
        &&& forall|i: int, j: int|
            0 <= i < j < self.users@.len() ==> (#[trigger] self.users@[i]).user != (
            #[trigger] self.users@[j]).user
    }

    /// Everything except the record under `project_id` is untouched.
    pub open spec fn only_project_changed(self, c: FreelanceContract, project_id: u128) -> bool {
        &&& c.address == self.address
        &&& c.users == self.users
        &&& c.projects@.len() == self.projects@.len()
        &&& forall|j: int|
            0 <= j < self.projects@.len() && j != project_id - 1 ==> #[trigger] c.projects@[j]
                == self.projects@[j]
    }

    /// A fresh engine with custody account `address` and no projects.
    pub fn new(address: u64) -> (c: FreelanceContract)
        ensures
            c.wf(),
            c.address == address,
            c.n_projects() == 0,
            c.users@.len() == 0,
    {
        FreelanceContract { address, projects: Vec::new(), users: Vec::new() }
    }

    /// Why `create_project` would refuse, if it would.
    pub open spec fn create_project_err(
        self,
        freelancer: u64,
        prices: Seq<u128>,
        user: u64,
    ) -> Option<Error> {
        if prices.len() == 0 || has_zero_price(prices) || user == freelancer {
            Some(Error::InvalidInput)
        } else {
            None
        }
    }

    /// Creates a project for client `user` and `freelancer` with one
    /// objective per listed price, each unfunded and uncompleted, and
    /// returns the new identifier: one above the previous count, starting
    /// at one. Refused with `InvalidInput` when the list is empty, a price
    /// is zero, or the client equals the freelancer.
    pub fn create_project(&mut self, freelancer: u64, prices: &Vec<u128>, user: u64) -> (r: Result<
        u128,
        Error,
    >)
        requires
            old(self).wf(),
            prices_total(prices@) <= i128::MAX as int,
        ensures
            final(self).wf(),
            r == match old(self).create_project_err(freelancer, prices@, user) {
                Some(e) => Result::<u128, Error>::Err(e),
                None => Result::<u128, Error>::Ok((old(self).n_projects() + 1) as u128),
            },
            r is Err ==> *final(self) == *old(self),
            r is Ok ==> {
                &&& final(self).address == old(self).address
                &&& final(self).users == old(self).users
                &&& final(self).n_projects() == old(self).n_projects() + 1
                &&& forall|j: int|
                    0 <= j < old(self).projects@.len() ==> #[trigger] final(self).projects@[j]
                        == old(self).projects@[j]
                &&& final(self).project_at(r.unwrap()) == (ProjectView {
                    client: user,
                    freelancer,
                    objectives_count: prices@.len() as u128,
                    objectives: Seq::new(
                        prices@.len(),
                        |i: int| Objective { price: prices@[i], half_paid: 0, completed: false },
                    ),
                    completed_objectives: 0,
                    earned_amount: 0,
                    cancelled: false,
                    completed: false,
                })
            },
    {
        let n: usize = prices.len();
        if n == 0 {
            return Err(Error::InvalidInput);
        }
        let mut i: usize = 0;
        while i < n
            invariant
                *self == *old(self),
                self.wf(),
                n == prices@.len(),
                0 <= i <= n,
                forall|j: int| 0 <= j < i ==> prices@[j] != 0,
            decreases n - i,
        {
            if prices[i] == 0 {
                return Err(Error::InvalidInput);
            }
            i += 1;
        }
        if user == freelancer {
            return Err(Error::InvalidInput);
        }

        let ghost target = Seq::new(
            prices@.len(),
            |j: int| Objective { price: prices@[j], half_paid: 0, completed: false },
        );
        let mut objectives: Vec<Objective> = Vec::new();
        let mut k: usize = 0;
        while k < n
            invariant
                n == prices@.len(),
                0 <= k <= n,
                target == Seq::new(
                    prices@.len(),
                    |j: int| Objective { price: prices@[j], half_paid: 0, completed: false },
                ),
                objectives@ =~= target.take(k as int),
            decreases n - k,
        {
            objectives.push(Objective { price: prices[k], half_paid: 0, completed: false });
            proof {
                assert(objectives@ =~= target.take(k as int).push(target[k as int]));
                assert(target.take(k + 1).drop_last() =~= target.take(k as int));
                assert(objectives@ =~= target.take(k + 1));
            }
            k += 1;
        }
        proof {
            assert(objectives@ =~= target);
            lemma_seq_sum_pointwise(
                target,
                prices@,
                |o: Objective| price_of(o),
                |p: u128| p as int,
            );
            lemma_seq_sum_zero(target, |o: Objective| earned_weight(o));
            lemma_seq_sum_zero(target, |o: Objective| completed_weight(o));
        }
        let project = Project {
            client: user,
            freelancer,
            objectives_count: n as u128,
            objectives,
            completed_objectives: 0,
            earned_amount: 0,
            cancelled: false,
            completed: false,
        };
        proof {
            assert(project_wf(project@));
        }
        let id: u128 = self.projects.len() as u128 + 1;
        self.projects.push(project);
        Ok(id)
    }

    /// Why `cancel_project` would refuse, if it would.
    pub open spec fn cancel_project_err(self, project_id: u128, user: u64) -> Option<Error> {
        if !self.has_project(project_id) {
            Some(Error::NotFound)
        } else if user != self.project_at(project_id).client {
            Some(Error::Unauthorized)
        } else if self.project_at(project_id).completed {
            Some(Error::InvalidState)
        } else if self.project_at(project_id).cancelled {
            Some(Error::InvalidState)
        } else {
            None
        }
    }

    /// Marks the project cancelled, at the client's discretion, while it is
    /// still active. No funds move: refund is a separate, explicit step.
    pub fn cancel_project(&mut self, project_id: u128, user: u64) -> (r: Result<(), Error>)
        requires
            old(self).wf(),
        ensures
            final(self).wf(),
            r == match old(self).cancel_project_err(project_id, user) {
                Some(e) => Result::<(), Error>::Err(e),
                None => Result::<(), Error>::Ok(()),
            },
            r is Err ==> *final(self) == *old(self),
            r is Ok ==> {
                &&& old(self).only_project_changed(*final(self), project_id)
                &&& final(self).project_at(project_id) == (ProjectView {
                    cancelled: true,
                    ..old(self).project_at(project_id)
                })
            },
    {
        if project_id == 0 || project_id > self.projects.len() as u128 {
            return Err(Error::NotFound);
        }
        let idx: usize = (project_id - 1) as usize;
        if user != self.projects[idx].client {
            return Err(Error::Unauthorized);
        }
        if self.projects[idx].completed {
            return Err(Error::InvalidState);
        }
        if self.projects[idx].cancelled {
            return Err(Error::InvalidState);
        }
        let mut project = self.projects[idx].clone();
        project.cancelled = true;
        proof {
            assert(project@ == (ProjectView { cancelled: true, ..old(self).project_at(project_id) }));
        }
        self.projects.set(idx, project);
        proof {
            assert forall|j: int|
                0 <= j < self.projects@.len() implies project_wf(
                (#[trigger] self.projects@[j])@,
            ) by {
                if j != idx as int {
                    assert(self.projects@[j] == old(self).projects@[j]);
                }
            }
        }
        Ok(())
    }

    /// Why `complete_project` would refuse, if it would.
    pub open spec fn complete_project_err(self, project_id: u128, user: u64) -> Option<Error> {
        if !self.has_project(project_id) {
            Some(Error::NotFound)
        } else if user != self.project_at(project_id).client {
            Some(Error::Unauthorized)
        } else if self.project_at(project_id).completed {
            Some(Error::InvalidState)
        } else if self.project_at(project_id).cancelled {
            Some(Error::InvalidState)
        } else if self.project_at(project_id).completed_objectives != self.project_at(
            project_id,
        ).objectives_count {
            Some(Error::IncompleteObjectives)
        } else {
            None
        }
    }

    /// Marks the project completed, once the client confirms. Succeeds
    /// exactly when the project is active and every objective is completed;
    /// refused with `IncompleteObjectives` while any is not.
    pub fn complete_project(&mut self, project_id: u128, user: u64) -> (r: Result<(), Error>)
        requires
            old(self).wf(),
        ensures
            final(self).wf(),
            r == match old(self).complete_project_err(project_id, user) {
                Some(e) => Result::<(), Error>::Err(e),
                None => Result::<(), Error>::Ok(()),
            },
            r is Err ==> *final(self) == *old(self),
            r is Ok ==> {
                &&& old(self).only_project_changed(*final(self), project_id)
                &&& final(self).project_at(project_id) == (ProjectView {
                    completed: true,
                    ..old(self).project_at(project_id)
                })
            },
    {
        if project_id == 0 || project_id > self.projects.len() as u128 {
            return Err(Error::NotFound);
        }
        let idx: usize = (project_id - 1) as usize;
        if user != self.projects[idx].client {
            return Err(Error::Unauthorized);
        }
        if self.projects[idx].completed {
            return Err(Error::InvalidState);
        }
        if self.projects[idx].cancelled {
            return Err(Error::InvalidState);
        }
        if self.projects[idx].completed_objectives != self.projects[idx].objectives_count {
            return Err(Error::IncompleteObjectives);
        }
        let mut project = self.projects[idx].clone();
        project.completed = true;
        proof {
            assert(project@ == (ProjectView { completed: true, ..old(self).project_at(project_id) }));
        }
        self.projects.set(idx, project);
        proof {
            assert forall|j: int|
                0 <= j < self.projects@.len() implies project_wf(
                (#[trigger] self.projects@[j])@,
            ) by {
                if j != idx as int {
                    assert(self.projects@[j] == old(self).projects@[j]);
                }
            }
        }
        Ok(())
    }

    /// Why `add_objective` would refuse, if it would.
    pub open spec fn add_objective_err(self, project_id: u128, prices: Seq<u128>, user: u64) -> Option<
        Error,
    > {
        if !self.has_project(project_id) {
            Some(Error::NotFound)
        } else if user != self.project_at(project_id).client {
            Some(Error::Unauthorized)
        } else if self.project_at(project_id).completed {
            Some(Error::InvalidState)
        } else if self.project_at(project_id).cancelled {
            Some(Error::InvalidState)
        } else if has_zero_price(prices) {
            Some(Error::InvalidInput)
        } else {
            None
        }
    }

    /// Appends one unfunded, uncompleted objective per listed price at the
    /// next contiguous indices of an active project. Only the client may
    /// add, only while the project is active, and no price may be zero.
    pub fn add_objective(&mut self, project_id: u128, prices: &Vec<u128>, user: u64) -> (r: Result<
        (),
        Error,
    >)
        requires
            old(self).wf(),
            old(self).has_project(project_id) ==> sum_prices(
                old(self).project_at(project_id).objectives,
            ) + prices_total(prices@) <= i128::MAX as int,
        ensures
            final(self).wf(),
            r == match old(self).add_objective_err(project_id, prices@, user) {
                Some(e) => Result::<(), Error>::Err(e),
                None => Result::<(), Error>::Ok(()),
            },
            r is Err ==> *final(self) == *old(self),
            r is Ok ==> {
                &&& old(self).only_project_changed(*final(self), project_id)
                &&& final(self).project_at(project_id) == (ProjectView {
                    objectives_count: (old(self).project_at(project_id).objectives_count
                        + prices@.len()) as u128,
                    objectives: old(self).project_at(project_id).objectives + Seq::new(
                        prices@.len(),
                        |i: int| Objective { price: prices@[i], half_paid: 0, completed: false },
                    ),
                    ..old(self).project_at(project_id)
                })
            },
    {
        if project_id == 0 || project_id > self.projects.len() as u128 {
            return Err(Error::NotFound);
        }
        let idx: usize = (project_id - 1) as usize;
        if user != self.projects[idx].client {
            return Err(Error::Unauthorized);
        }
        if self.projects[idx].completed {
            return Err(Error::InvalidState);
        }
        if self.projects[idx].cancelled {
            return Err(Error::InvalidState);
        }
        let n: usize = prices.len();
        let mut i: usize = 0;
        while i < n
            invariant
                *self == *old(self),
                self.wf(),
                old(self).has_project(project_id),
                user == old(self).project_at(project_id).client,
                !old(self).project_at(project_id).completed,
                !old(self).project_at(project_id).cancelled,
                n == prices@.len(),
                0 <= i <= n,
                forall|j: int| 0 <= j < i ==> prices@[j] != 0,
            decreases n - i,
        {
            if prices[i] == 0 {
                return Err(Error::InvalidInput);
            }
            i += 1;
        }

        let mut project = self.projects[idx].clone();
        let orig_len: usize = project.objectives.len();
        let ghost orig = project.objectives@;
        let ghost target = Seq::new(
            prices@.len(),
            |j: int| Objective { price: prices@[j], half_paid: 0, completed: false },
        );
        let mut k: usize = 0;
        while k < n
            invariant
                n == prices@.len(),
                0 <= k <= n,
                target == Seq::new(
                    prices@.len(),
                    |j: int| Objective { price: prices@[j], half_paid: 0, completed: false },
                ),
                orig.len() == orig_len,
                project.objectives@ =~= orig + target.take(k as int),
                project.client == old(self).project_at(project_id).client,
                project.freelancer == old(self).project_at(project_id).freelancer,
                project.objectives_count == old(self).project_at(project_id).objectives_count,
                project.completed_objectives == old(self).project_at(
                    project_id,
                ).completed_objectives,
                project.earned_amount == old(self).project_at(project_id).earned_amount,
                project.cancelled == old(self).project_at(project_id).cancelled,
                project.completed == old(self).project_at(project_id).completed,
            decreases n - k,
        {
            project.objectives.push(
                Objective { price: prices[k], half_paid: 0, completed: false },
            );
            proof {
                assert(project.objectives@ =~= (orig + target.take(k as int)).push(
                    target[k as int],
                ));
                assert((orig + target.take(k + 1)).drop_last() =~= orig + target.take(k as int));
                assert(project.objectives@ =~= orig + target.take(k + 1));
            }
            k += 1;
        }
        proof {
            assert(project.objectives@ =~= orig + target);
        }
        project.objectives_count = project.objectives_count + n as u128;
        proof {
            let po = |o: Objective| price_of(o);
            let eo = |o: Objective| earned_weight(o);
            let co = |o: Objective| completed_weight(o);
            lemma_sum_append(orig, target, po);
            lemma_sum_append(orig, target, eo);
            lemma_sum_append(orig, target, co);
            lemma_seq_sum_pointwise(target, prices@, po, |p: u128| p as int);
            lemma_seq_sum_zero(target, eo);
            lemma_seq_sum_zero(target, co);
            assert(project_wf(project@));
        }
        self.projects.set(idx, project);
        proof {
            assert forall|j: int|
                0 <= j < self.projects@.len() implies project_wf(
                (#[trigger] self.projects@[j])@,
            ) by {
                if j != idx as int {
                    assert(self.projects@[j] == old(self).projects@[j]);
                }
            }
        }
        Ok(())
    }

    /// Why `fund_objective` would refuse, if it would.
    pub open spec fn fund_objective_err(
        self,
        t: Token,
        project_id: u128,
        objective_id: u128,
        user: u64,
    ) -> Option<Error> {
        if !self.has_project(project_id) {
            Some(Error::NotFound)
        } else if user != self.project_at(project_id).client {
            Some(Error::Unauthorized)
        } else if self.project_at(project_id).completed {
            Some(Error::InvalidState)
        } else if self.project_at(project_id).cancelled {
            Some(Error::InvalidState)
        } else if objective_id >= self.project_at(project_id).objectives.len() {
            Some(Error::NotFound)
        } else {
            let o = self.project_at(project_id).objectives[objective_id as int];
            if o.half_paid > 0 {
                Some(Error::AlreadyFunded)
            } else if (t.allowance_of(user, self.address) as int) < o.price as int / 2 {
                Some(Error::InsufficientAllowance)
            } else if (t.balance_of(user) as int) < o.price as int / 2 {
                Some(Error::InsufficientFunds)
            } else {
                None
            }
        }
    }

    /// Escrows the commitment deposit for one objective: half its price,
    /// rounded down, moves from the client to the custody account, and the
    /// spent grant is zeroed, as a fresh approval precedes each funding.
    /// Only the project's client may fund, only while the project is
    /// active, only an objective that carries no deposit yet, and only
    /// within the client's grant to the custody account and the client's
    /// balance. A refusal moves nothing and changes nothing.
    pub fn fund_objective(
        &mut self,
        token: &mut Token,
        project_id: u128,
        objective_id: u128,
        user: u64,
    ) -> (r: Result<(), Error>)
        requires
            old(self).wf(),
            old(token).wf(),
        ensures
            final(self).wf(),
            final(token).wf(),
            r == match old(self).fund_objective_err(*old(token), project_id, objective_id, user) {
                Some(e) => Result::<(), Error>::Err(e),
                None => Result::<(), Error>::Ok(()),
            },
            r is Err ==> *final(self) == *old(self) && *final(token) == *old(token),
            r is Ok ==> {
                let pv = old(self).project_at(project_id);
                let o = pv.objectives[objective_id as int];
                let half = o.price as int / 2;
                &&& old(self).only_project_changed(*final(self), project_id)
                &&& final(self).project_at(project_id) == (ProjectView {
                    objectives: pv.objectives.update(
                        objective_id as int,
                        Objective { half_paid: o.price / 2, ..o },
                    ),
                    ..pv
                })
                &&& forall|x: u64|
                    final(token).balance_of(x) == old(token).balance_of(x) + moved(
                        user,
                        old(self).address,
                        half,
                        x,
                    )
                &&& final(token).supply() == old(token).supply()
                &&& forall|f: u64, s: u64|
                    final(token).allowance_record(f, s) == if f == user && s == old(self).address {
                        AllowanceValue { amount: 0, expiration_ledger: 0 }
                    } else {
                        old(token).allowance_record(f, s)
                    }
                &&& final(token).same_meta(*old(token))
            },
    {
        if project_id == 0 || project_id > self.projects.len() as u128 {
            return Err(Error::NotFound);
        }
        let idx: usize = (project_id - 1) as usize;
        if user != self.projects[idx].client {
            return Err(Error::Unauthorized);
        }
        if self.projects[idx].completed {
            return Err(Error::InvalidState);
        }
        if self.projects[idx].cancelled {
            return Err(Error::InvalidState);
        }
        if objective_id >= self.projects[idx].objectives.len() as u128 {
            return Err(Error::NotFound);
        }
        let oidx: usize = objective_id as usize;
        let o: Objective = self.projects[idx].objectives[oidx];
        if o.half_paid > 0 {
            return Err(Error::AlreadyFunded);
        }
        proof {
            lemma_seq_sum_nonneg(
                old(self).project_at(project_id).objectives,
                |ob: Objective| price_of(ob),
            );
            lemma_seq_sum_elem_le(
                old(self).project_at(project_id).objectives,
                |ob: Objective| price_of(ob),
                objective_id as int,
            );
        }
        let half: u128 = o.price / 2;
        let half_price: i128 = half as i128;
        let addr: u64 = self.address;

        let granted: i128 = token.allowance(user, addr);
        if granted < half_price {
            return Err(Error::InsufficientAllowance);
        }
        match token.transfer(user, addr, half_price) {
            Err(e) => {
                proof {
                    assert(e == Error::InsufficientFunds);
                }
                return Err(e);
            },
            Ok(()) => {},
        }
        let ghost mid = *token;
        match token.approve(user, addr, 0, 0) {
            Err(_) => {
                proof {
                    assert(false);
                }
                return Err(Error::InvalidInput);
            },
            Ok(()) => {},
        }
        proof {
            assert(token.balances == mid.balances);
            assert forall|x: u64|
                token.balance_of(x) == old(token).balance_of(x) + moved(
                    user,
                    addr,
                    half as int,
                    x,
                ) by {
                assert(token.balance_of(x) == mid.balance_of(x));
            }
            assert(token.supply() == mid.supply());
            assert forall|f: u64, s: u64|
                token.allowance_record(f, s) == (if f == user && s == addr {
                    AllowanceValue { amount: 0, expiration_ledger: 0 }
                } else {
                    old(token).allowance_record(f, s)
                }) by {
                assert(mid.allowances == old(token).allowances);
                assert(mid.allowance_record(f, s) == old(token).allowance_record(f, s));
            }
        }

        let mut project = self.projects[idx].clone();
        let updated = Objective { price: o.price, half_paid: half, completed: o.completed };
        project.objectives.set(oidx, updated);
        proof {
            let objs = old(self).project_at(project_id).objectives;
            lemma_seq_sum_update(
                objs,
                |ob: Objective| price_of(ob),
                objective_id as int,
                updated,
            );
            lemma_seq_sum_update(
                objs,
                |ob: Objective| earned_weight(ob),
                objective_id as int,
                updated,
            );
            lemma_seq_sum_update(
                objs,
                |ob: Objective| completed_weight(ob),
                objective_id as int,
                updated,
            );
            assert(project@ == (ProjectView {
                objectives: objs.update(objective_id as int, updated),
                ..old(self).project_at(project_id)
            }));
            assert(project_wf(project@));
        }
        self.projects.set(idx, project);
        proof {
            assert forall|j: int|
                0 <= j < self.projects@.len() implies project_wf(
                (#[trigger] self.projects@[j])@,
            ) by {
                if j != idx as int {
                    assert(self.projects@[j] == old(self).projects@[j]);
                }
            }
        }
        Ok(())
    }

    /// Why `complete_objective` would refuse, if it would.
    pub open spec fn complete_objective_err(
        self,
        t: Token,
        project_id: u128,
        objective_id: u128,
        user: u64,
    ) -> Option<Error> {
        if !self.has_project(project_id) {
            Some(Error::NotFound)
        } else if user != self.project_at(project_id).freelancer {
            Some(Error::Unauthorized)
        } else if self.project_at(project_id).completed {
            Some(Error::InvalidState)
        } else if self.project_at(project_id).cancelled {
            Some(Error::InvalidState)
        } else if objective_id >= self.project_at(project_id).objectives.len() {
            Some(Error::NotFound)
        } else {
            let pv = self.project_at(project_id);
            let o = pv.objectives[objective_id as int];
            if o.half_paid == 0 {
                Some(Error::ObjectiveNotFunded)
            } else if o.completed {
                Some(Error::AlreadyCompleted)
            } else if (t.balance_of(pv.client) as int) < o.price - o.half_paid {
                Some(Error::InsufficientFunds)
            } else if (t.balance_of(self.address) as int) < (if pv.client == self.address {
                o.price as int
            } else {
                o.half_paid as int
            }) {
                Some(Error::InsufficientFunds)
            } else {
                None
            }
        }
    }

    /// Pays a funded objective out in full: the remainder of its price
    /// moves from the client into custody, then the whole price moves from
    /// custody to the freelancer, and only then is the objective marked
    /// completed, the completed count raised and the price added to the
    /// audit total. The two legs are checked before either moves, so a
    /// refusal moves nothing; the deposit plus the remainder is exactly
    /// the price, so custody is left where it started. Only the project's
    /// freelancer may complete, only while the project is active.
    pub fn complete_objective(
        &mut self,
        token: &mut Token,
        project_id: u128,
        objective_id: u128,
        user: u64,
    ) -> (r: Result<(), Error>)
        requires
            old(self).wf(),
            old(token).wf(),
        ensures
            final(self).wf(),
            final(token).wf(),
            r == match old(self).complete_objective_err(
                *old(token),
                project_id,
                objective_id,
                user,
            ) {
                Some(e) => Result::<(), Error>::Err(e),
                None => Result::<(), Error>::Ok(()),
            },
            r is Err ==> *final(self) == *old(self) && *final(token) == *old(token),
            r is Ok ==> {
                let pv = old(self).project_at(project_id);
                let o = pv.objectives[objective_id as int];
                &&& old(self).only_project_changed(*final(self), project_id)
                &&& final(self).project_at(project_id) == (ProjectView {
                    objectives: pv.objectives.update(
                        objective_id as int,
                        Objective { completed: true, ..o },
                    ),
                    completed_objectives: (pv.completed_objectives + 1) as u128,
                    earned_amount: (pv.earned_amount + o.price) as u128,
                    ..pv
                })
                &&& forall|x: u64|
                    final(token).balance_of(x) == old(token).balance_of(x) + moved(
                        pv.client,
                        old(self).address,
                        o.price - o.half_paid,
                        x,
                    ) + moved(old(self).address, pv.freelancer, o.price as int, x)
                &&& final(token).supply() == old(token).supply()
                &&& final(token).allowances == old(token).allowances
                &&& final(token).same_meta(*old(token))
            },
    {
        if project_id == 0 || project_id > self.projects.len() as u128 {
            return Err(Error::NotFound);
        }
        let idx: usize = (project_id - 1) as usize;
        if user != self.projects[idx].freelancer {
            return Err(Error::Unauthorized);
        }
        if self.projects[idx].completed {
            return Err(Error::InvalidState);
        }
        if self.projects[idx].cancelled {
            return Err(Error::InvalidState);
        }
        if objective_id >= self.projects[idx].objectives.len() as u128 {
            return Err(Error::NotFound);
        }
        let oidx: usize = objective_id as usize;
        let o: Objective = self.projects[idx].objectives[oidx];
        if o.half_paid == 0 {
            return Err(Error::ObjectiveNotFunded);
        }
        if o.completed {
            return Err(Error::AlreadyCompleted);
        }
        proof {
            lemma_seq_sum_nonneg(
                old(self).project_at(project_id).objectives,
                |ob: Objective| price_of(ob),
            );
            lemma_seq_sum_elem_le(
                old(self).project_at(project_id).objectives,
                |ob: Objective| price_of(ob),
                objective_id as int,
            );
        }
        let client: u64 = self.projects[idx].client;
        let freelancer: u64 = self.projects[idx].freelancer;
        let addr: u64 = self.address;
        let remaining: u128 = o.price - o.half_paid;
        let remaining_price: i128 = remaining as i128;
        let full_price: i128 = o.price as i128;

        let client_balance: i128 = token.balance(client);
        if client_balance < remaining_price {
            return Err(Error::InsufficientFunds);
        }
        let held: i128 = token.balance(addr);
        let needed: i128 = if client == addr {
            full_price
        } else {
            o.half_paid as i128
        };
        if held < needed {
            return Err(Error::InsufficientFunds);
        }
        match token.transfer(client, addr, remaining_price) {
            Err(_) => {
                proof {
                    assert(false);
                }
                return Err(Error::InsufficientFunds);
            },
            Ok(()) => {},
        }
        let ghost mid = *token;
        match token.transfer(addr, freelancer, full_price) {
            Err(_) => {
                proof {
                    assert(false);
                }
                return Err(Error::InsufficientFunds);
            },
            Ok(()) => {},
        }
        proof {
            assert(token.allowances == old(token).allowances);
            assert forall|x: u64|
                token.balance_of(x) == old(token).balance_of(x) + moved(
                    client,
                    addr,
                    remaining as int,
                    x,
                ) + moved(addr, freelancer, o.price as int, x) by {
                assert(mid.balance_of(x) == old(token).balance_of(x) + moved(
                    client,
                    addr,
                    remaining as int,
                    x,
                ));
            }
        }

        let mut project = self.projects[idx].clone();
        let updated = Objective { price: o.price, half_paid: o.half_paid, completed: true };
        proof {
            let objs = old(self).project_at(project_id).objectives;
            let po = |ob: Objective| price_of(ob);
            let eo = |ob: Objective| earned_weight(ob);
            let co = |ob: Objective| completed_weight(ob);
            lemma_seq_sum_le(objs, co, po);
            lemma_seq_sum_le(objs, eo, po);
            lemma_seq_sum_update(objs, po, objective_id as int, updated);
            lemma_seq_sum_update(objs, eo, objective_id as int, updated);
            lemma_seq_sum_update(objs, co, objective_id as int, updated);
        }
        project.objectives.set(oidx, updated);
        project.completed_objectives = project.completed_objectives + 1;
        project.earned_amount = project.earned_amount + o.price;
        proof {
            let objs = old(self).project_at(project_id).objectives;
            assert(project@ == (ProjectView {
                objectives: objs.update(objective_id as int, updated),
                completed_objectives: (old(self).project_at(project_id).completed_objectives
                    + 1) as u128,
                earned_amount: (old(self).project_at(project_id).earned_amount + o.price) as u128,
                ..old(self).project_at(project_id)
            }));
            assert(project_wf(project@));
        }
        self.projects.set(idx, project);
        proof {
            assert forall|j: int|
                0 <= j < self.projects@.len() implies project_wf(
                (#[trigger] self.projects@[j])@,
            ) by {
                if j != idx as int {
                    assert(self.projects@[j] == old(self).projects@[j]);
                }
            }
        }
        Ok(())
    }

    /// Why `refund_remaining_funds` would refuse, if it would.
    pub open spec fn refund_remaining_funds_err(self, project_id: u128, user: u64) -> Option<
        Error,
    > {
        if !self.has_project(project_id) {
            Some(Error::NotFound)
        } else if user != self.project_at(project_id).client {
            Some(Error::Unauthorized)
        } else if !self.project_at(project_id).cancelled {
            Some(Error::InvalidState)
        } else {
            None
        }
    }

    /// What a refund of this project returns to the client: the deposits
    /// still held for uncompleted objectives, bounded by what the custody
    /// account actually holds — never more.
    pub open spec fn refund_amount(self, t: Token, project_id: u128) -> int {
        let refundable = refundable_of(self.project_at(project_id).objectives);
        let held = t.balance_of(self.address) as int;
        if refundable <= held {
            refundable
        } else {
            held
        }
    }

    /// Returns the outstanding deposits of a cancelled project to its
    /// client: every uncompleted objective's deposit is released and the
    /// total, bounded by the custody account's balance, moves back to the
    /// client. Releasing makes a second call find nothing refundable and
    /// move nothing — the refund is idempotent — and a project with
    /// nothing to refund is a no-op, not an error. Only the client may
    /// refund, and only a cancelled project.
    pub fn refund_remaining_funds(
        &mut self,
        token: &mut Token,
        project_id: u128,
        user: u64,
    ) -> (r: Result<(), Error>)
        requires
            old(self).wf(),
            old(token).wf(),
        ensures
            final(self).wf(),
            final(token).wf(),
            r == match old(self).refund_remaining_funds_err(project_id, user) {
                Some(e) => Result::<(), Error>::Err(e),
                None => Result::<(), Error>::Ok(()),
            },
            r is Err ==> *final(self) == *old(self) && *final(token) == *old(token),
            r is Ok ==> {
                let pv = old(self).project_at(project_id);
                let refundable = refundable_of(pv.objectives);
                let amount = old(self).refund_amount(*old(token), project_id);
                &&& refundable == 0 ==> *final(self) == *old(self) && *final(token) == *old(
                    token,
                )
                &&& refundable > 0 ==> {
                    &&& old(self).only_project_changed(*final(self), project_id)
                    &&& final(self).project_at(project_id) == (ProjectView {
                        objectives: pv.objectives.map_values(|o: Objective| clear_deposit(o)),
                        ..pv
                    })
                    &&& amount > 0 ==> {
                        &&& forall|x: u64|
                            final(token).balance_of(x) == old(token).balance_of(x) + moved(
                                old(self).address,
                                pv.client,
                                amount,
                                x,
                            )
                        &&& final(token).supply() == old(token).supply()
                        &&& final(token).allowances == old(token).allowances
                        &&& final(token).same_meta(*old(token))
                    }
                    &&& amount == 0 ==> *final(token) == *old(token)
                }
            },
    {
        if project_id == 0 || project_id > self.projects.len() as u128 {
            return Err(Error::NotFound);
        }
        let idx: usize = (project_id - 1) as usize;
        if user != self.projects[idx].client {
            return Err(Error::Unauthorized);
        }
        if !self.projects[idx].cancelled {
            return Err(Error::InvalidState);
        }
        let client: u64 = self.projects[idx].client;
        let addr: u64 = self.address;

        let mut project = self.projects[idx].clone();
        let ghost orig = project.objectives@;
        let ghost po = |ob: Objective| price_of(ob);
        let ghost rw = |ob: Objective| refundable_weight(ob);
        let n: usize = project.objectives.len();
        proof {
            assert(project_wf(old(self).project_at(project_id)));
            lemma_seq_sum_nonneg(orig, po);
        }
        let mut refundable: u128 = 0;
        let mut i: usize = 0;
        while i < n
            invariant
                orig == old(self).project_at(project_id).objectives,
                project_wf(old(self).project_at(project_id)),
                po == (|ob: Objective| price_of(ob)),
                rw == (|ob: Objective| refundable_weight(ob)),
                n == orig.len(),
                0 <= i <= n,
                project.objectives@.len() == n,
                forall|j: int| 0 <= j < i ==> project.objectives@[j] == clear_deposit(#[trigger] orig[j]),
                forall|j: int| i <= j < n ==> #[trigger] project.objectives@[j] == orig[j],
                project.client == old(self).project_at(project_id).client,
                project.freelancer == old(self).project_at(project_id).freelancer,
                project.objectives_count == old(self).project_at(project_id).objectives_count,
                project.completed_objectives == old(self).project_at(
                    project_id,
                ).completed_objectives,
                project.earned_amount == old(self).project_at(project_id).earned_amount,
                project.cancelled == old(self).project_at(project_id).cancelled,
                project.completed == old(self).project_at(project_id).completed,
                refundable == refundable_of(orig.take(i as int)),
                refundable <= sum_prices(orig) <= i128::MAX as int,
            decreases n - i,
        {
            let ob: Objective = project.objectives[i];
            proof {
                lemma_seq_sum_take_step(orig, rw, i as int);
                lemma_seq_sum_le(orig, rw, po);
                lemma_seq_sum_take_le(orig, rw, i + 1);
            }
            if !ob.completed && ob.half_paid > 0 {
                refundable = refundable + ob.half_paid;
                project.objectives.set(
                    i,
                    Objective { price: ob.price, half_paid: 0, completed: false },
                );
            } else {
                proof {
                    assert(clear_deposit(orig[i as int]) == orig[i as int]);
                }
            }
            i += 1;
        }
        proof {
            lemma_seq_sum_take_all(orig, rw);
            assert(project.objectives@ =~= orig.map_values(|ob: Objective| clear_deposit(ob)));
        }

        if refundable == 0 {
            return Ok(());
        }

        let held: i128 = token.balance(addr);
        proof {
            crate::balance::lemma_balance_le_supply(token.balances@, addr);
        }
        let refundable_price: i128 = refundable as i128;
        let amount: i128 = if refundable_price <= held {
            refundable_price
        } else {
            held
        };
        if amount > 0 {
            match token.transfer(addr, client, amount) {
                Err(_) => {
                    proof {
                        assert(false);
                    }
                    return Err(Error::InsufficientFunds);
                },
                Ok(()) => {},
            }
        }
        proof {
            let objs = old(self).project_at(project_id).objectives;
            let cleared = objs.map_values(|ob: Objective| clear_deposit(ob));
            lemma_seq_sum_pointwise(cleared, objs, po, po);
            lemma_seq_sum_pointwise(
                cleared,
                objs,
                |ob: Objective| earned_weight(ob),
                |ob: Objective| earned_weight(ob),
            );
            lemma_seq_sum_pointwise(
                cleared,
                objs,
                |ob: Objective| completed_weight(ob),
                |ob: Objective| completed_weight(ob),
            );
            assert(project_wf(project@));
        }
        self.projects.set(idx, project);
        proof {
            assert forall|j: int|
                0 <= j < self.projects@.len() implies project_wf(
                (#[trigger] self.projects@[j])@,
            ) by {
                if j != idx as int {
                    assert(self.projects@[j] == old(self).projects@[j]);
                }
            }
        }
        Ok(())
    }

    /// The stored project records, as mathematical values, in identifier
    /// order.
    pub open spec fn project_views(self) -> Seq<ProjectView> {
        self.projects@.map_values(|p: Project| p@)
    }

    /// The projects whose freelancer is `freelancer`, in ascending
    /// identifier order. A pure read: no authorization, no side effect.
    pub fn get_projects_by_freelancer(&self, freelancer: u64) -> (r: Vec<Project>)
        ensures
            r@.map_values(|p: Project| p@) == self.project_views().filter(
                |pv: ProjectView| pv.freelancer == freelancer,
            ),
    {
        let ghost pred = |pv: ProjectView| pv.freelancer == freelancer;
        let mut result: Vec<Project> = Vec::new();
        let n: usize = self.projects.len();
        let mut i: usize = 0;
        while i < n
            invariant
                pred == (|pv: ProjectView| pv.freelancer == freelancer),
                n == self.projects@.len(),
                0 <= i <= n,
                result@.map_values(|p: Project| p@) == self.project_views().take(i as int).filter(
                    pred,
                ),
            decreases n - i,
        {
            proof {
                lemma_filter_take_step(self.project_views(), pred, i as int);
            }
            if self.projects[i].freelancer == freelancer {
                let ghost prev = result@;
                result.push(self.projects[i].clone());
                proof {
                    assert(result@.map_values(|p: Project| p@) =~= prev.map_values(
                        |p: Project| p@,
                    ).push(self.project_views()[i as int]));
                }
            }
            i += 1;
        }
        proof {
            assert(self.project_views().take(n as int) =~= self.project_views());
        }
        result
    }

    /// The projects whose client is `client`, in ascending identifier
    /// order. A pure read: no authorization, no side effect.
    pub fn get_projects_by_client(&self, client: u64) -> (r: Vec<Project>)
        ensures
            r@.map_values(|p: Project| p@) == self.project_views().filter(
                |pv: ProjectView| pv.client == client,
            ),
    {
        let ghost pred = |pv: ProjectView| pv.client == client;
        let mut result: Vec<Project> = Vec::new();
        let n: usize = self.projects.len();
        let mut i: usize = 0;
        while i < n
            invariant
                pred == (|pv: ProjectView| pv.client == client),
                n == self.projects@.len(),
                0 <= i <= n,
                result@.map_values(|p: Project| p@) == self.project_views().take(i as int).filter(
                    pred,
                ),
            decreases n - i,
        {
            proof {
                lemma_filter_take_step(self.project_views(), pred, i as int);
            }
            if self.projects[i].client == client {
                let ghost prev = result@;
                result.push(self.projects[i].clone());
                proof {
                    assert(result@.map_values(|p: Project| p@) =~= prev.map_values(
                        |p: Project| p@,
                    ).push(self.project_views()[i as int]));
                }
            }
            i += 1;
        }
        proof {
            assert(self.project_views().take(n as int) =~= self.project_views());
        }
        result
    }
}

impl FreelanceContract {
    /// Whether some user registered under `a`.
    pub open spec fn has_user(self, a: u64) -> bool {
        exists|i: int| 0 <= i < self.users@.len() && (#[trigger] self.users@[i]).user == a
    }

    /// Registers a user under its identity, assigning the next directory
    /// identifier, and reports whether a record was created: an identity
    /// registers at most once. Unrelated bookkeeping beside the escrow
    /// flow.
    pub fn register(&mut self, user_address: u64, name: String, email: String, timestamp: u64) -> (r:
        bool)
        requires
            old(self).wf(),
        ensures
            final(self).wf(),
            r == (!old(self).has_user(user_address) && old(self).users@.len() < u64::MAX),
            !r ==> *final(self) == *old(self),
            r ==> {
                &&& final(self).address == old(self).address
                &&& final(self).projects == old(self).projects
                &&& final(self).users@.len() == old(self).users@.len() + 1
                &&& forall|j: int|
                    0 <= j < old(self).users@.len() ==> #[trigger] final(self).users@[j] == old(
                        self,
                    ).users@[j]
                &&& final(self).users@.last()@ == (UserView {
                    id: (old(self).users@.len() + 1) as u64,
                    user: user_address,
                    name: name@,
                    email: email@,
                    registered: true,
                    timestamp,
                })
            },
    {
        let n: usize = self.users.len();
        let mut i: usize = 0;
        while i < n
            invariant
                *self == *old(self),
                self.wf(),
                n == self.users@.len(),
                0 <= i <= n,
                forall|j: int| 0 <= j < i ==> (#[trigger] self.users@[j]).user != user_address,
            decreases n - i,
        {
            if self.users[i].user == user_address {
                return false;
            }
            i += 1;
        }
        if (n as u128) >= (u64::MAX as u128) {
            return false;
        }
        let user_id: u64 = n as u64 + 1;
        self.users.push(
            User {
                id: user_id,
                user: user_address,
                name,
                email,
                registered: true,
                timestamp,
            },
        );
        proof {
            assert forall|i2: int, j2: int|
                0 <= i2 < j2 < self.users@.len() implies (#[trigger] self.users@[i2]).user != (
            #[trigger] self.users@[j2]).user by {
                if j2 == self.users@.len() - 1 {
                    assert(self.users@[i2] == old(self).users@[i2]);
                }
            }
        }
        true
    }

    /// The registered name of `user_address`, or a fixed notice when the
    /// identity never registered.
    pub fn login(&self, user_address: u64) -> (r: String)
        requires
            self.wf(),
        ensures
            forall|i: int|
                0 <= i < self.users@.len() && (#[trigger] self.users@[i]).user == user_address
                    ==> r@ == self.users@[i].name@,
            !self.has_user(user_address) ==> r@ == "User not found"@,
    {
        let n: usize = self.users.len();
        let mut i: usize = 0;
        while i < n
            invariant
                self.wf(),
                n == self.users@.len(),
                0 <= i <= n,
                forall|j: int| 0 <= j < i ==> (#[trigger] self.users@[j]).user != user_address,
            decreases n - i,
        {
            if self.users[i].user == user_address {
                return self.users[i].name.clone();
            }
            i += 1;
        }
        "User not found".to_owned()
    }
}

/// Keeping or dropping one more element extends a filtered prefix by that
/// element or not at all.
proof fn lemma_filter_take_step<A>(s: Seq<A>, pred: spec_fn(A) -> bool, i: int)
    requires
        0 <= i < s.len(),
    ensures
        s.take(i + 1).filter(pred) == if pred(s[i]) {
            s.take(i).filter(pred).push(s[i])
        } else {
            s.take(i).filter(pred)
        },
{
    reveal(Seq::filter);
    let t = s.take(i + 1);
    assert(t.drop_last() =~= s.take(i));
    assert(t.last() == s[i]);
}

/// Splitting a sequence splits its weighted sum.
proof fn lemma_sum_append<A>(s1: Seq<A>, s2: Seq<A>, f: spec_fn(A) -> int)
    ensures
        seq_sum(s1 + s2, f) == seq_sum(s1, f) + seq_sum(s2, f),
    decreases s2.len(),
{
    if s2.len() == 0 {
        assert(s1 + s2 =~= s1);
    } else {
        assert((s1 + s2).drop_last() =~= s1 + s2.drop_last());
        assert((s1 + s2).last() == s2.last());
        lemma_sum_append(s1, s2.drop_last(), f);
    }
}

} // verus!
