//! Merging the states that flow into a block from its predecessors.

use vstd::prelude::*;
use crate::environment::{has_key, keys_unique, lemma_has_key_take, lemma_map_of_index, map_of, Environment};
use crate::expression::{ConstantDomain, Expression};
use crate::path::Path;
use crate::persistent_map::{block_trie_clone, trie_clone};

verus! {

/// The value `m` binds to `k`, or the unknown named by `k` where it binds none.
pub open spec fn value_or_unknown(m: Map<Path, Expression>, k: Path) -> Expression {
    if m.contains_key(k) {
        m[k]
    } else {
        Expression::Variable(k)
    }
}

/// For every path bound on either side: the value of `m1` where `condition`
/// holds, else that of `m2`.
pub open spec fn conditionally_joined(
    m1: Map<Path, Expression>,
    m2: Map<Path, Expression>,
    condition: Expression,
) -> Map<Path, Expression> {
    Map::new(
        |k: Path| m1.contains_key(k) || m2.contains_key(k),
        |k: Path|
            Expression::spec_conditional(condition, value_or_unknown(m1, k), value_or_unknown(m2, k)),
    )
}

impl Environment {
    /// A copy of this environment; it shares its bindings with this one.
    pub fn duplicate(&self) -> (r: Environment)
        ensures
            r@ == self@,
            r.entry_condition == self.entry_condition,
            r.exits() == self.exits(),
    {
        Environment {
            value_map: trie_clone(&self.value_map),
            entry_condition: self.entry_condition.duplicate(),
            exit_conditions: block_trie_clone(&self.exit_conditions),
        }
    }

    /// The state that is this one where `self_condition` holds and `other`
    /// elsewhere; it is entered where either condition holds.
    pub fn conditional_join(
        &self,
        other: &Environment,
        self_condition: &Expression,
        other_condition: &Expression,
    ) -> (r: Environment)
        ensures
            r@ == conditionally_joined(self@, other@, *self_condition),
            r.entry_condition == Expression::spec_or(*self_condition, *other_condition),
    {
        let e1 = self.entries();
        let e2 = other.entries();
        let ghost s1 = e1@;
        let ghost s2 = e2@;
        let ghost goal = conditionally_joined(self@, other@, *self_condition);
        let mut result = Environment::new();
        result.entry_condition = Expression::or(self_condition.duplicate(), other_condition.duplicate());
        let ghost entry = result.entry_condition;
        let n = e1.len();
        let mut i: usize = 0;
        proof {
            assert(result@ =~= Map::new(|k: Path| has_key(s1.take(0), k), |k: Path| goal[k]));
        }
        while i < n
            invariant
                s1 == e1@,
                s2 == e2@,
                map_of(s1) == self@,
                map_of(s2) == other@,
                keys_unique(s1),
                keys_unique(s2),
                goal == conditionally_joined(self@, other@, *self_condition),
                n == s1.len(),
                i <= n,
                result.entry_condition == entry,
                result@ == Map::new(|k: Path| has_key(s1.take(i as int), k), |k: Path| goal[k]),
            decreases n - i,
        {
            let k = &e1[i].0;
            let v = &e1[i].1;
            let alternate = match other.value_at(k) {
                Some(w) => w.duplicate(),
                None => Expression::Variable(k.duplicate()),
            };
            proof {
                lemma_map_of_index(s1, i as int);
            }
            let joined = Expression::conditional_expression(self_condition.duplicate(), v.duplicate(), alternate);
            result.insert(k.duplicate(), joined);
            proof {
                lemma_has_key_take(s1, i as int);
                assert(result@ =~= Map::new(|k: Path| has_key(s1.take(i as int + 1), k), |k: Path| goal[k]));
            }
            i += 1;
        }
        proof {
            assert(s1.take(n as int) =~= s1);
            assert(result@ =~= Map::new(|k: Path| has_key(s1, k) || has_key(s2.take(0), k), |k: Path| goal[k]));
        }
        let m = e2.len();
        let mut j: usize = 0;
        while j < m
            invariant
                s1 == e1@,
                s2 == e2@,
                map_of(s1) == self@,
                map_of(s2) == other@,
                keys_unique(s1),
                keys_unique(s2),
                goal == conditionally_joined(self@, other@, *self_condition),
                m == s2.len(),
                j <= m,
                result.entry_condition == entry,
                result@ == Map::new(|k: Path| has_key(s1, k) || has_key(s2.take(j as int), k), |k: Path| goal[k]),
            decreases m - j,
        {
            let k = &e2[j].0;
            proof {
                lemma_map_of_index(s2, j as int);
                lemma_has_key_take(s2, j as int);
            }
            if result.value_at(k).is_none() {
                let v = &e2[j].1;
                let joined = Expression::conditional_expression(
                    self_condition.duplicate(),
                    Expression::Variable(k.duplicate()),
                    v.duplicate(),
                );
                result.insert(k.duplicate(), joined);
            }
            proof {
                assert(result@ =~= Map::new(|q: Path| has_key(s1, q) || has_key(s2.take(j as int + 1), q), |q: Path| goal[q]));
            }
            j += 1;
        }
        proof {
            assert(s2.take(m as int) =~= s2);
            assert(result@ =~= goal);
        }
        result
    }

    /// This loop-head state widened by `other`, the state a later iteration
    /// brings in: a path keeps its value where both bind it to the same
    /// value and becomes the unknown it names otherwise, so that repeated
    /// widening settles. It is entered under this state's entry condition.
    pub fn widen(&self, other: &Environment) -> (r: Environment)
        ensures
            r@ == widened_bindings(self@, other@),
            r.entry_condition == self.entry_condition,
    {
        let e1 = self.entries();
        let e2 = other.entries();
        let ghost s1 = e1@;
        let ghost s2 = e2@;
        let ghost goal = widened_bindings(self@, other@);
        let mut result = Environment::new();
        result.entry_condition = self.entry_condition.duplicate();
        let ghost entry = result.entry_condition;
        let n = e1.len();
        let mut i: usize = 0;
        proof {
            assert(result@ =~= Map::new(|k: Path| has_key(s1.take(0), k), |k: Path| goal[k]));
        }
        while i < n
            invariant
                s1 == e1@,
                s2 == e2@,
                map_of(s1) == self@,
                map_of(s2) == other@,
                keys_unique(s1),
                keys_unique(s2),
                goal == widened_bindings(self@, other@),
                n == s1.len(),
                i <= n,
                result.entry_condition == entry,
                result@ == Map::new(|k: Path| has_key(s1.take(i as int), k), |k: Path| goal[k]),
            decreases n - i,
        {
            let k = &e1[i].0;
            let v = &e1[i].1;
            let joined = match other.value_at(k) {
                Some(w) => if w.same_as(v) {
                    v.duplicate()
                } else {
                    Expression::Variable(k.duplicate())
                },
                None => Expression::Variable(k.duplicate()),
            };
            proof {
                lemma_map_of_index(s1, i as int);
            }
            result.insert(k.duplicate(), joined);
            proof {
                lemma_has_key_take(s1, i as int);
                assert(result@ =~= Map::new(|k: Path| has_key(s1.take(i as int + 1), k), |k: Path| goal[k]));
            }
            i += 1;
        }
        proof {
            assert(s1.take(n as int) =~= s1);
            assert(result@ =~= Map::new(|k: Path| has_key(s1, k) || has_key(s2.take(0), k), |k: Path| goal[k]));
        }
        let m = e2.len();
        let mut j: usize = 0;
        while j < m
            invariant
                s1 == e1@,
                s2 == e2@,
                map_of(s1) == self@,
                map_of(s2) == other@,
                keys_unique(s1),
                keys_unique(s2),
                goal == widened_bindings(self@, other@),
                m == s2.len(),
                j <= m,
                result.entry_condition == entry,
                result@ == Map::new(|k: Path| has_key(s1, k) || has_key(s2.take(j as int), k), |k: Path| goal[k]),
            decreases m - j,
        {
            let k = &e2[j].0;
            proof {
                lemma_map_of_index(s2, j as int);
                lemma_has_key_take(s2, j as int);
            }
            if result.value_at(k).is_none() {
                let joined = Expression::Variable(k.duplicate());
                result.insert(k.duplicate(), joined);
            }
            proof {
                assert(result@ =~= Map::new(|q: Path| has_key(s1, q) || has_key(s2.take(j as int + 1), q), |q: Path| goal[q]));
            }
            j += 1;
        }
        proof {
            assert(s2.take(m as int) =~= s2);
            assert(result@ =~= goal);
        }
        result
    }
}

/// For every path bound on either side: its value where both bind it to the
/// same value, else the unknown it names.
pub open spec fn widened_bindings(m1: Map<Path, Expression>, m2: Map<Path, Expression>) -> Map<Path, Expression> {
    Map::new(
        |k: Path| m1.contains_key(k) || m2.contains_key(k),
        |k: Path|
            if m1.contains_key(k) && m2.contains_key(k) && m1[k] == m2[k] {
                m1[k]
            } else {
                Expression::Variable(k)
            },
    )
}

/// Widening is commutative and idempotent, and what it gives contains the
/// bindings both sides agree on.
pub proof fn lemma_widened_bindings(m1: Map<Path, Expression>, m2: Map<Path, Expression>)
    ensures
        widened_bindings(m1, m2) == widened_bindings(m2, m1),
        widened_bindings(m1, m1) == m1,
        forall|k: Path|
            #[trigger] m1.contains_key(k) && m2.contains_key(k) && m1[k] == m2[k] ==> widened_bindings(m1, m2)[k]
                == m1[k],
{
    assert(widened_bindings(m1, m2) =~= widened_bindings(m2, m1));
    assert(widened_bindings(m1, m1) =~= m1);
}

/// Every binding of `m1` is a binding of `m2`.
pub open spec fn bindings_within(m1: Map<Path, Expression>, m2: Map<Path, Expression>) -> bool {
    forall|k: Path| #[trigger] m1.contains_key(k) ==> m2.contains_key(k) && m2[k] == m1[k]
}

impl Environment {
    /// Returns true if every binding of this environment is one of `other`:
    /// the test by which a loop's out-state is found to have settled.
    pub fn subset(&self, other: &Environment) -> (r: bool)
        ensures
            r == bindings_within(self@, other@),
    {
        let entries = self.entries();
        let n = entries.len();
        let mut i: usize = 0;
        while i < n
            invariant
                n == entries@.len(),
                i <= n,
                keys_unique(entries@),
                map_of(entries@) == self@,
                forall|j: int|
                    0 <= j < i ==> other@.contains_key(#[trigger] entries@[j].0) && other@[entries@[j].0]
                        == entries@[j].1,
            decreases n - i,
        {
            proof {
                lemma_map_of_index(entries@, i as int);
            }
            match other.value_at(&entries[i].0) {
                Some(v) => {
                    if !v.same_as(&entries[i].1) {
                        return false;
                    }
                },
                None => {
                    return false;
                },
            }
            i += 1;
        }
        proof {
            assert forall|k: Path| #[trigger] self@.contains_key(k) implies other@.contains_key(k) && other@[k] == self@[k] by {
                let j = choose|j: int| 0 <= j < entries@.len() && entries@[j].0 == k;
                lemma_map_of_index(entries@, j);
            }
        }
        true
    }
}

/// Joining a state with itself, under any condition, gives the state.
pub proof fn lemma_conditionally_joined_idempotent(m: Map<Path, Expression>, condition: Expression)
    ensures
        conditionally_joined(m, m, condition) == m,
{
    assert(conditionally_joined(m, m, condition) =~= m);
}

/// What a predecessor block hands to the block being entered.
pub struct PredecessorState {
    /// The predecessor's state after its terminator, with the conditions
    /// under which it exits to each successor (none where it has not been
    /// visited yet, or always panics).
    pub exit_state: Environment,
    /// The predecessor is reached only through this block: a loop's back edge.
    pub is_loop_back: bool,
    /// The predecessor's state before its terminator, from which a cleanup
    /// block starts when the terminator unwinds.
    pub terminator_state: Environment,
}

/// The state and condition a predecessor contributes to the entry of
/// `block` in the given fixed-point iteration (0 outside loops): the first iteration
/// of a loop ignores back edges and later ones take only back edges; a
/// predecessor known not to exit to the block contributes nothing; one not
/// visited contributes its pre-terminator state, unconditionally, to a
/// cleanup block and nothing otherwise.
pub open spec fn contribution(p: PredecessorState, block: u64, iteration_count: u64, is_cleanup: bool) -> Option<
    (Map<Path, Expression>, Expression),
> {
    if iteration_count == 1 && p.is_loop_back {
        None
    } else if iteration_count > 1 && !p.is_loop_back {
        None
    } else {
        if p.exit_state.exits().contains_key(block) {
            let c = p.exit_state.exits()[block];
            if c.known_bool() == Some(false) {
                None
            } else {
                Some((p.exit_state@, c))
            }
        } else {
            if is_cleanup {
                Some((p.terminator_state@, Expression::CompileTimeConstant(ConstantDomain::Bool(true))))
            } else {
                None
            }
        }
    }
}

/// The bindings and entry condition merged from the contributions of the
/// first `n` predecessors. `None` where none contributes.
pub open spec fn merged_state(
    preds: Seq<PredecessorState>,
    block: u64,
    iteration_count: u64,
    is_cleanup: bool,
    n: nat,
) -> Option<(Map<Path, Expression>, Expression)>
    decreases n,
{
    if n == 0 {
        None
    } else {
        let prev = merged_state(preds, block, iteration_count, is_cleanup, (n - 1) as nat);
        match contribution(preds[n - 1], block, iteration_count, is_cleanup) {
            None => prev,
            Some((state, condition)) => match prev {
                None => Some((state, condition)),
                Some((bindings, entry)) => Some(
                    (
                        conditionally_joined(state, bindings, condition),
                        Expression::spec_or(entry, condition),
                    ),
                ),
            },
        }
    }
}

/// The state `block` is entered with, with no exit conditions yet: the contributions of its
/// predecessors (see `contribution`), joined under their conditions and
/// entered where any of them holds. A block that no predecessor contributes
/// to starts from `first_environment` with a false entry condition, which
/// marks it unreachable.
pub fn get_initial_state_from_predecessors(
    first_environment: &Environment,
    predecessors: &Vec<PredecessorState>,
    block: u64,
    iteration_count: u64,
    is_cleanup: bool,
) -> (r: Environment)
    ensures
        r.exits() == Map::<u64, Expression>::empty(),
        match merged_state(predecessors@, block, iteration_count, is_cleanup, predecessors@.len()) {
            None => r@ == first_environment@ && r.entry_condition == Expression::CompileTimeConstant(
                ConstantDomain::Bool(false),
            ),
            Some((bindings, entry)) => r@ == bindings && r.entry_condition == entry,
        },
{
    let mut merged: Option<Environment> = None;
    let n = predecessors.len();
    let mut i: usize = 0;
    while i < n
        invariant
            n == predecessors@.len(),
            i <= n,
            match merged_state(predecessors@, block, iteration_count, is_cleanup, i as nat) {
                None => merged is None,
                Some((bindings, entry)) => merged matches Some(e) && e@ == bindings
                    && e.entry_condition == entry,
            },
        decreases n - i,
    {
        let pred = &predecessors[i];
        let skipped = (iteration_count == 1 && pred.is_loop_back) || (iteration_count > 1 && !pred.is_loop_back);
        let contributed: Option<(&Environment, Expression)> = if skipped {
            None
        } else {
            match pred.exit_state.exit_condition(block) {
                Some(c) => if c.as_bool_if_known() == Some(false) {
                    None
                } else {
                    Some((&pred.exit_state, c.duplicate()))
                },
                None => if is_cleanup {
                    Some((&pred.terminator_state, Expression::CompileTimeConstant(ConstantDomain::Bool(true))))
                } else {
                    None
                },
            }
        };
        if let Some((state, condition)) = contributed {
            merged = match merged {
                None => {
                    let mut e = state.duplicate();
                    e.entry_condition = condition;
                    Some(e)
                },
                Some(accumulated) => {
                    let mut e = state.conditional_join(&accumulated, &condition, &condition);
                    e.entry_condition = Expression::or(accumulated.entry_condition, condition);
                    Some(e)
                },
            };
        }
        i += 1;
    }
    let mut r = match merged {
        Some(e) => e,
        None => {
            let mut e = first_environment.duplicate();
            e.entry_condition = Expression::CompileTimeConstant(ConstantDomain::Bool(false));
            e
        },
    };
    r.clear_exit_conditions();
    r
}

} // verus!
