//! Policy groups: higher-order policies over named members.
//!
//! A policy group carries a boolean expression over named member
//! policies, a rejection message and a mode. Each member is evaluated on
//! its own; group evaluation substitutes each member's allow/deny into
//! the expression and yields a single verdict — allow when the expression
//! holds, reject with the group's configured message when it does not.

use vstd::prelude::*;

use crate::policies::{PolicyMode, SettingsMap};
use crate::verdict::{Verdict, VerdictView};

verus! {

/// A boolean expression over named member policies.
pub enum GroupExpr {
    /// A literal.
    Lit(bool),
    /// The allow/deny outcome of the named member.
    MemberCall(String),
    /// Negation.
    Not(Box<GroupExpr>),
    /// Conjunction.
    And(Box<GroupExpr>, Box<GroupExpr>),
    /// Disjunction.
    Or(Box<GroupExpr>, Box<GroupExpr>),
}

/// One member of a policy group.
pub struct PolicyGroupMember {
    /// Where the member's module is fetched from.
    pub url: String,
    /// The member's settings document, if any.
    pub settings: Option<SettingsMap>,
    /// Context-aware resource kinds the member may query.
    pub context_aware_resources: Vec<String>,
}

/// A policy-group descriptor.
pub struct PolicyGroup {
    /// The boolean expression over the members.
    pub expression: GroupExpr,
    /// The message a rejection carries.
    pub message: String,
    /// How the group's verdict is enforced.
    pub policy_mode: PolicyMode,
    /// The members, by name.
    pub policies: Vec<(String, PolicyGroupMember)>,
}

/// The outcome recorded for the named member: the first entry with that
/// name, if any.
pub open spec fn spec_member_result(results: Seq<(String, bool)>, name: Seq<char>) -> Option<bool>
    decreases results.len(),
{
    if results.len() == 0 {
        None
    } else if results[0].0@ == name {
        Some(results[0].1)
    } else {
        spec_member_result(results.drop_first(), name)
    }
}

/// The value of a group expression under the members' outcomes, or
/// nothing when the expression names a member with no outcome.
pub open spec fn spec_eval_expr(e: &GroupExpr, results: Seq<(String, bool)>) -> Option<bool>
    decreases e,
{
    match e {
        GroupExpr::Lit(b) => Some(*b),
        GroupExpr::MemberCall(name) => spec_member_result(results, name@),
        GroupExpr::Not(inner) => match spec_eval_expr(inner, results) {
            Some(v) => Some(!v),
            None => None,
        },
        GroupExpr::And(a, b) => match (spec_eval_expr(a, results), spec_eval_expr(b, results)) {
            (Some(va), Some(vb)) => Some(va && vb),
            _ => None,
        },
        GroupExpr::Or(a, b) => match (spec_eval_expr(a, results), spec_eval_expr(b, results)) {
            (Some(va), Some(vb)) => Some(va || vb),
            _ => None,
        },
    }
}

/// Look the named member's outcome up.
fn member_result(results: &Vec<(String, bool)>, name: &String) -> (r: Option<bool>)
    ensures
        r == spec_member_result(results@, name@),
{
    let mut i: usize = 0;
    proof {
        assert(results@.skip(0) =~= results@);
    }
    while i < results.len()
        invariant
            i <= results@.len(),
            spec_member_result(results@, name@) == spec_member_result(
                results@.skip(i as int),
                name@,
            ),
        decreases results@.len() - i,
    {
        let hit = results[i].0 == *name;
        proof {
            assert(results@.skip(i as int)[0] == results@[i as int]);
            assert(results@.skip(i as int).drop_first() =~= results@.skip(i + 1));
        }
        if hit {
            return Some(results[i].1);
        }
        i = i + 1;
    }
    proof {
        assert(results@.skip(results@.len() as int) =~= Seq::<(String, bool)>::empty());
    }
    None
}

/// Evaluate a group expression under the members' outcomes.
pub fn eval_expr(e: &GroupExpr, results: &Vec<(String, bool)>) -> (r: Option<bool>)
    ensures
        r == spec_eval_expr(e, results@),
    decreases e,
{
    match e {
        GroupExpr::Lit(b) => Some(*b),
        GroupExpr::MemberCall(name) => member_result(results, name),
        GroupExpr::Not(inner) => match eval_expr(inner, results) {
            Some(v) => Some(!v),
            None => None,
        },
        GroupExpr::And(a, b) => match (eval_expr(a, results), eval_expr(b, results)) {
            (Some(va), Some(vb)) => Some(va && vb),
            _ => None,
        },
        GroupExpr::Or(a, b) => match (eval_expr(a, results), eval_expr(b, results)) {
            (Some(va), Some(vb)) => Some(va || vb),
            _ => None,
        },
    }
}

/// The verdict a group evaluation yields: allow when the expression
/// holds of the members' outcomes, reject with the group's message when
/// it does not, and reject naming the broken expression when it calls a
/// member with no outcome.
pub fn evaluate_group(
    expression: &GroupExpr,
    message: &String,
    member_results: &Vec<(String, bool)>,
) -> (r: Verdict)
    ensures
        r@ == match spec_eval_expr(expression, member_results@) {
            Some(true) => VerdictView::Allow,
            Some(false) => VerdictView::Reject(message@),
            None => VerdictView::Reject("group expression names an unknown member"@),
        },
{
    match eval_expr(expression, member_results) {
        Some(true) => Verdict::Allow,
        Some(false) => Verdict::Reject(message.clone()),
        None => Verdict::Reject("group expression names an unknown member".to_owned()),
    }
}

} // verus!
