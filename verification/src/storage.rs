//! Reading project records out of the engine's store.

use vstd::prelude::*;

use crate::contract::FreelanceContract;
use crate::storage_types::Project;

verus! {

/// The record stored under `project_id`, or `None` when the identifier is
/// unknown. The copy carries the stored record's exact mathematical value.
pub fn get_project(c: &FreelanceContract, project_id: u128) -> (r: Option<Project>)
    ensures
        r is Some <==> c.has_project(project_id),
        r is Some ==> r.unwrap()@ == c.project_at(project_id),
{
    if project_id == 0 || project_id > c.projects.len() as u128 {
        return None;
    }
    let idx: usize = (project_id - 1) as usize;
    Some(c.projects[idx].clone())
}

/// Every stored project, in ascending identifier order.
pub fn get_all_projects(c: &FreelanceContract) -> (r: Vec<Project>)
    ensures
        r@.map_values(|p: Project| p@) == c.project_views(),
{
    let mut result: Vec<Project> = Vec::new();
    let n: usize = c.projects.len();
    let mut i: usize = 0;
    while i < n
        invariant
            n == c.projects@.len(),
            0 <= i <= n,
            result@.map_values(|p: Project| p@) =~= c.project_views().take(i as int),
        decreases n - i,
    {
        let ghost prev = result@;
        result.push(c.projects[i].clone());
        proof {
            assert(result@.map_values(|p: Project| p@) =~= prev.map_values(|p: Project| p@).push(
                c.project_views()[i as int],
            ));
            assert(c.project_views().take(i as int).push(c.project_views()[i as int])
                =~= c.project_views().take(i + 1));
        }
        i += 1;
    }
    proof {
        assert(c.project_views().take(n as int) =~= c.project_views());
    }
    result
}

} // verus!
