//! Deciding a condition at a program point: first with the abstract domains,
//! then, where they cannot tell, with the answers of an SMT solver.

use vstd::prelude::*;
use crate::expression::Expression;

verus! {

/// What a solver says of a predicate.
#[derive(PartialEq, Eq, Structural, Debug, Copy, Clone)]
pub enum SmtResult {
    Satisfiable,
    Unsatisfiable,
    Undefined,
}

/// A decision procedure. Its answers are not trusted to mean anything: the
/// analysis only draws conclusions that hold whatever it answers.
pub trait SmtSolver {
    /// Saves the current set of assertions.
    fn set_backtrack_position(&mut self);

    /// Restores the set of assertions saved last.
    fn backtrack(&mut self);

    /// Adds `predicate` to the current set of assertions.
    fn assert_predicate(&mut self, predicate: &Expression);

    /// Checks the current set of assertions.
    fn solve(&mut self) -> SmtResult;

    /// Checks the current set of assertions together with `predicate`.
    fn solve_expression(&mut self, predicate: &Expression) -> SmtResult;
}

/// A solver that never decides anything.
pub struct SolverStub {}

impl SmtSolver for SolverStub {
    fn set_backtrack_position(&mut self) {
    }

    fn backtrack(&mut self) {
    }

    fn assert_predicate(&mut self, _predicate: &Expression) {
    }

    fn solve(&mut self) -> SmtResult {
        SmtResult::Undefined
    }

    fn solve_expression(&mut self, _predicate: &Expression) -> SmtResult {
        SmtResult::Undefined
    }
}

/// The value of a condition given what the solver said of it (`cond_result`)
/// and of its negation (`inverted_result`).
pub open spec fn solver_verdict(cond_result: SmtResult, inverted_result: SmtResult) -> Option<bool> {
    if cond_result == SmtResult::Unsatisfiable {
        Some(false)
    } else if cond_result == SmtResult::Satisfiable && inverted_result == SmtResult::Unsatisfiable {
        Some(true)
    } else {
        None
    }
}

/// The pair (value of `cond`, reachability of the point) under `entry`, given
/// the solver's answers for the entry condition, for `cond` and for `!cond`.
pub open spec fn condition_verdict(
    cond: Expression,
    entry: Expression,
    entry_result: SmtResult,
    cond_result: SmtResult,
    inverted_result: SmtResult,
) -> (Option<bool>, Option<bool>) {
    let cond_as_bool = cond.known_bool();
    let entry_as_bool = entry.known_bool();
    match entry_as_bool {
        Some(e) => if e && cond_as_bool is None {
            (solver_verdict(cond_result, inverted_result), entry_as_bool)
        } else {
            (cond_as_bool, entry_as_bool)
        },
        None => if cond_as_bool == Some(true) || entry.spec_implies(cond) {
            (Some(true), None)
        } else if cond_as_bool == Some(false) || entry.spec_implies_not(cond) {
            (Some(false), None)
        } else {
            let reachable = if entry_result == SmtResult::Unsatisfiable {
                Some(false)
            } else {
                None
            };
            if reachable != Some(false) {
                (solver_verdict(cond_result, inverted_result), reachable)
            } else {
                (None, reachable)
            }
        },
    }
}

/// The value of a condition given what the solver said of it and of its negation.
pub fn solve_condition(cond_result: SmtResult, inverted_result: SmtResult) -> (r: Option<bool>)
    ensures
        r == solver_verdict(cond_result, inverted_result),
{
    match cond_result {
        SmtResult::Unsatisfiable => Some(false),
        SmtResult::Satisfiable => if inverted_result == SmtResult::Unsatisfiable {
            Some(true)
        } else {
            None
        },
        SmtResult::Undefined => None,
    }
}

/// Decides `cond` under `entry` from the abstract domains and the given solver answers.
pub fn resolve_condition(
    cond: &Expression,
    entry: &Expression,
    entry_result: SmtResult,
    cond_result: SmtResult,
    inverted_result: SmtResult,
) -> (r: (Option<bool>, Option<bool>))
    ensures
        r == condition_verdict(*cond, *entry, entry_result, cond_result, inverted_result),
{
    let cond_as_bool = cond.as_bool_if_known();
    let entry_as_bool = entry.as_bool_if_known();
    match entry_as_bool {
        Some(e) => {
            if e && cond_as_bool.is_none() {
                (solve_condition(cond_result, inverted_result), entry_as_bool)
            } else {
                (cond_as_bool, entry_as_bool)
            }
        },
        None => {
            if cond_as_bool == Some(true) || entry.implies(cond) {
                return (Some(true), None);
            }
            if cond_as_bool == Some(false) || entry.implies_not(cond) {
                return (Some(false), None);
            }
            let reachable = if entry_result == SmtResult::Unsatisfiable {
                Some(false)
            } else {
                None
            };
            if reachable != Some(false) {
                (solve_condition(cond_result, inverted_result), reachable)
            } else {
                (None, reachable)
            }
        },
    }
}

/// An expression is never its own negation.
pub proof fn lemma_not_self_negation(c: Expression)
    ensures
        c != (Expression::LogicalNot { operand: Box::new(c) }),
{
    let n = Expression::LogicalNot { operand: Box::new(c) };
    assert(decreases_to!(n => n->LogicalNot_operand));
}

/// A condition and its negation are never both found true under the same
/// entry condition, when the solver gives one answer per predicate (so what it
/// says of `!c` when asked about `c` is what it says of `!c`, and of `!!c` what
/// it says of `c`).
pub proof fn lemma_condition_and_negation_not_both_true(
    c: Expression,
    entry: Expression,
    entry_result: SmtResult,
    cond_result: SmtResult,
    inverted_result: SmtResult,
)
    ensures
        !(condition_verdict(c, entry, entry_result, cond_result, inverted_result).0 == Some(true)
            && condition_verdict(
            Expression::LogicalNot { operand: Box::new(c) },
            entry,
            entry_result,
            inverted_result,
            cond_result,
        ).0 == Some(true)),
{
    lemma_not_self_negation(c);
    lemma_not_self_negation(entry);
}

} // verus!
