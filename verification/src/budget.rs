//! Which configured budgets a request counts against.
use vstd::prelude::*;
use crate::config::BudgetTarget;
use crate::text::str_eq;

verus! {

/// A budget applies to a request when its target's project (if set) and
/// gateway key (if set) are the request's.
pub open spec fn budget_applies(t: BudgetTarget, project_id: Seq<char>, key_id: Seq<char>) -> bool {
    (match t.project_id {
        Some(p) => p@ == project_id,
        None => true,
    }) && (match t.gateway_key_id {
        Some(k) => k@ == key_id,
        None => true,
    })
}

pub fn matches_budget(t: &BudgetTarget, project_id: &str, key_id: &str) -> (r: bool)
    ensures
        r == budget_applies(*t, project_id@, key_id@),
{
    let project_ok = match &t.project_id {
        Some(p) => str_eq(p.as_str(), project_id),
        None => true,
    };
    let key_ok = match &t.gateway_key_id {
        Some(k) => str_eq(k.as_str(), key_id),
        None => true,
    };
    project_ok && key_ok
}

/// A budget is listed for a project filter unless it targets another
/// project.
pub open spec fn budget_listed(t: BudgetTarget, project: Option<Seq<char>>) -> bool {
    match (project, t.project_id) {
        (Some(p), Some(tp)) => tp@ == p,
        _ => true,
    }
}

pub fn listed_for(t: &BudgetTarget, project: Option<&str>) -> (r: bool)
    ensures
        r == budget_listed(
            *t,
            match project {
                Some(p) => Some(p@),
                None => None,
            },
        ),
{
    match (project, &t.project_id) {
        (Some(p), Some(tp)) => str_eq(tp.as_str(), p),
        _ => true,
    }
}

/// A budget counts a request exactly when every part of its target that is
/// set names the request: a target naming a gateway key applies only to that
/// key, and one naming a project only to that project, whatever else it names.
pub proof fn lemma_budget_target_parts(t: BudgetTarget, project_id: Seq<char>, key_id: Seq<char>)
    ensures
        budget_applies(t, project_id, key_id) ==> (t.gateway_key_id is Some ==> t.gateway_key_id->Some_0@ == key_id),
        budget_applies(t, project_id, key_id) ==> (t.project_id is Some ==> t.project_id->Some_0@ == project_id),
        (t.gateway_key_id is Some ==> t.gateway_key_id->Some_0@ == key_id) && (t.project_id is Some
            ==> t.project_id->Some_0@ == project_id) ==> budget_applies(t, project_id, key_id),
{
}

} // verus!
