//! The loop fixed point over an interval domain: the loop body is iterated,
//! joining the back-edge state into the loop head on the second iteration and
//! widening it from the third on, until the body's out-state stops growing.

use vstd::prelude::*;

verus! {

/// The most iterations spent on one loop.
pub const MAX_FIXPOINT_ITERATIONS: u64 = 50;

/// A range of integers; a missing bound is unbounded on that side.
#[derive(PartialEq, Eq, Structural, Debug, Copy, Clone)]
pub struct Interval {
    pub lower: Option<i64>,
    pub upper: Option<i64>,
}

/// The smaller lower bound (missing is smallest).
pub open spec fn min_lower(a: Option<i64>, b: Option<i64>) -> Option<i64> {
    match (a, b) {
        (Some(x), Some(y)) => Some(if x <= y { x } else { y }),
        _ => None,
    }
}

/// The larger upper bound (missing is largest).
pub open spec fn max_upper(a: Option<i64>, b: Option<i64>) -> Option<i64> {
    match (a, b) {
        (Some(x), Some(y)) => Some(if x >= y { x } else { y }),
        _ => None,
    }
}

/// The least interval that holds both.
pub open spec fn join(a: Interval, b: Interval) -> Interval {
    Interval { lower: min_lower(a.lower, b.lower), upper: max_upper(a.upper, b.upper) }
}

/// `previous` widened by `next`: a bound that moves outwards is dropped.
pub open spec fn widen(previous: Interval, next: Interval) -> Interval {
    Interval {
        lower: match (previous.lower, next.lower) {
            (Some(p), Some(n)) => if n < p { None } else { Some(p) },
            _ => None,
        },
        upper: match (previous.upper, next.upper) {
            (Some(p), Some(n)) => if n > p { None } else { Some(p) },
            _ => None,
        },
    }
}

/// Whether every bound of `a` lies within those of `b`.
pub open spec fn subset(a: Interval, b: Interval) -> bool {
    &&& match (a.lower, b.lower) {
        (_, None) => true,
        (Some(x), Some(y)) => y <= x,
        (None, Some(_)) => false,
    }
    &&& match (a.upper, b.upper) {
        (_, None) => true,
        (Some(x), Some(y)) => x <= y,
        (None, Some(_)) => false,
    }
}

/// `x + step`, or unbounded where that leaves the `i64` range.
pub open spec fn shifted(x: Option<i64>, step: i64) -> Option<i64> {
    match x {
        Some(v) => if i64::MIN <= v + step <= i64::MAX {
            Some((v + step) as i64)
        } else {
            None
        },
        None => None,
    }
}

/// The interval of `x + step` for `x` in `a`.
pub open spec fn add_step(a: Interval, step: i64) -> Interval {
    Interval { lower: shifted(a.lower, step), upper: shifted(a.upper, step) }
}

/// `a` narrowed by the guard `x < bound`.
pub open spec fn below(a: Interval, bound: i64) -> Interval {
    let limit: i64 = if bound == i64::MIN { i64::MIN } else { (bound - 1) as i64 };
    Interval {
        lower: a.lower,
        upper: match a.upper {
            Some(u) => Some(if u <= limit { u } else { limit }),
            None => Some(limit),
        },
    }
}

/// `a` narrowed by the guard `x >= bound`.
pub open spec fn at_least(a: Interval, bound: i64) -> Interval {
    Interval {
        lower: match a.lower {
            Some(l) => Some(if l >= bound { l } else { bound }),
            None => Some(bound),
        },
        upper: a.upper,
    }
}

pub fn join_lower(a: Option<i64>, b: Option<i64>) -> (r: Option<i64>)
    ensures
        r == min_lower(a, b),
{
    match (a, b) {
        (Some(x), Some(y)) => Some(if x <= y { x } else { y }),
        _ => None,
    }
}

pub fn join_upper(a: Option<i64>, b: Option<i64>) -> (r: Option<i64>)
    ensures
        r == max_upper(a, b),
{
    match (a, b) {
        (Some(x), Some(y)) => Some(if x >= y { x } else { y }),
        _ => None,
    }
}

impl Interval {
    /// The least interval that holds both.
    pub fn join(&self, other: &Interval) -> (r: Interval)
        ensures
            r == join(*self, *other),
    {
        Interval {
            lower: join_lower(self.lower, other.lower),
            upper: join_upper(self.upper, other.upper),
        }
    }

    /// This interval widened by `next`.
    pub fn widen(&self, next: &Interval) -> (r: Interval)
        ensures
            r == widen(*self, *next),
    {
        Interval {
            lower: match (self.lower, next.lower) {
                (Some(p), Some(n)) => if n < p {
                    None
                } else {
                    Some(p)
                },
                _ => None,
            },
            upper: match (self.upper, next.upper) {
                (Some(p), Some(n)) => if n > p {
                    None
                } else {
                    Some(p)
                },
                _ => None,
            },
        }
    }

    /// Returns true if this interval lies within `other`.
    pub fn subset(&self, other: &Interval) -> (r: bool)
        ensures
            r == subset(*self, *other),
    {
        let lower_ok = match (self.lower, other.lower) {
            (_, None) => true,
            (Some(x), Some(y)) => y <= x,
            (None, Some(_)) => false,
        };
        let upper_ok = match (self.upper, other.upper) {
            (_, None) => true,
            (Some(x), Some(y)) => x <= y,
            (None, Some(_)) => false,
        };
        lower_ok && upper_ok
    }
}

fn shift(x: Option<i64>, step: i64) -> (r: Option<i64>)
    ensures
        r == shifted(x, step),
{
    match x {
        Some(v) => if (step > 0 && v > i64::MAX - step) || (step < 0 && v < i64::MIN - step) {
            None
        } else {
            Some(v + step)
        },
        None => None,
    }
}

/// The loop body: the guard `x[guard] < bound` narrows the guarded
/// variable, then each variable `x[i]` steps by `steps[i]`.
pub open spec fn body(state: Seq<Interval>, guard: int, bound: i64, steps: Seq<i64>) -> Seq<Interval> {
    Seq::new(
        state.len(),
        |i: int|
            add_step(
                if i == guard {
                    below(state[i], bound)
                } else {
                    state[i]
                },
                steps[i],
            ),
    )
}

/// Pointwise join.
pub open spec fn joined(a: Seq<Interval>, b: Seq<Interval>) -> Seq<Interval> {
    Seq::new(a.len(), |i: int| join(a[i], b[i]))
}

/// Pointwise widening.
pub open spec fn widened(a: Seq<Interval>, b: Seq<Interval>) -> Seq<Interval> {
    Seq::new(a.len(), |i: int| widen(a[i], b[i]))
}

/// Pointwise containment.
pub open spec fn contained(a: Seq<Interval>, b: Seq<Interval>) -> bool {
    a.len() == b.len() && forall|i: int| 0 <= i < a.len() ==> #[trigger] subset(a[i], b[i])
}

/// The loop-head state and the body's out-state at iteration `k` (from 1):
/// the first iteration starts from `init`, the second joins the previous
/// out-state into the head, and later ones widen the head with it.
pub open spec fn iteration(init: Seq<Interval>, guard: int, bound: i64, steps: Seq<i64>, k: nat) -> (
    Seq<Interval>,
    Seq<Interval>,
)
    decreases k,
{
    if k <= 1 {
        (init, body(init, guard, bound, steps))
    } else {
        let (previous_head, previous_out) = iteration(init, guard, bound, steps, (k - 1) as nat);
        let head = if k == 2 {
            joined(previous_head, previous_out)
        } else {
            widened(previous_head, previous_out)
        };
        (head, body(head, guard, bound, steps))
    }
}

/// Whether iteration `k` still changed the out-state; only asked from the
/// fourth iteration on, once two iterations ran on widened state.
pub open spec fn changed_at(init: Seq<Interval>, guard: int, bound: i64, steps: Seq<i64>, k: nat) -> bool {
    k < 4 || !contained(
        iteration(init, guard, bound, steps, k).1,
        iteration(init, guard, bound, steps, (k - 1) as nat).1,
    )
}

/// The state at the loop's exit: the head state under `!(x[guard] < bound)`.
pub open spec fn exit_of(head: Seq<Interval>, guard: int, bound: i64) -> Seq<Interval> {
    head.update(guard, at_least(head[guard], bound))
}

/// The conjuncts of `entry` (each bounds one variable) that do not depend on
/// a loop variant: a variable whose loop-head state differs from the state
/// the back edge brings in.
pub open spec fn invariant_conjuncts(entry: Seq<(usize, Interval)>, head: Seq<Interval>, back: Seq<Interval>) -> Seq<
    (usize, Interval),
>
    decreases entry.len(),
{
    if entry.len() == 0 {
        Seq::empty()
    } else {
        let prev = invariant_conjuncts(entry.drop_last(), head, back);
        let c = entry.last();
        if (c.0 as int) < head.len() && (c.0 as int) < back.len() && head[c.0 as int] == back[c.0 as int] {
            prev.push(c)
        } else {
            prev
        }
    }
}

/// The entry condition of the loop head at iteration `k` (from 1): the
/// initial one first; at the second and third iterations the previous one
/// without its conjuncts on loop variants; from the fourth on it stays
/// frozen at the one of the third.
pub open spec fn entry_at(
    init: Seq<Interval>,
    guard: int,
    bound: i64,
    steps: Seq<i64>,
    entry: Seq<(usize, Interval)>,
    k: nat,
) -> Seq<(usize, Interval)>
    decreases k,
{
    if k <= 1 {
        entry
    } else {
        let previous = entry_at(init, guard, bound, steps, entry, (k - 1) as nat);
        if k <= 3 {
            let (head, out) = iteration(init, guard, bound, steps, (k - 1) as nat);
            invariant_conjuncts(previous, head, out)
        } else {
            previous
        }
    }
}

fn keep_invariant_conjuncts(entry: &Vec<(usize, Interval)>, head: &Vec<Interval>, back: &Vec<Interval>) -> (r: Vec<
    (usize, Interval),
>)
    ensures
        r@ == invariant_conjuncts(entry@, head@, back@),
{
    let mut r: Vec<(usize, Interval)> = Vec::new();
    let n = entry.len();
    let mut i: usize = 0;
    while i < n
        invariant
            n == entry@.len(),
            i <= n,
            r@ == invariant_conjuncts(entry@.take(i as int), head@, back@),
        decreases n - i,
    {
        proof {
            assert(entry@.take(i as int + 1).drop_last() =~= entry@.take(i as int));
        }
        let c = entry[i];
        if c.0 < head.len() && c.0 < back.len() && head[c.0] == back[c.0] {
            r.push(c);
        }
        i += 1;
    }
    proof {
        assert(entry@.take(n as int) =~= entry@);
    }
    r
}

/// What the fixed-point computation of a loop found.
pub struct LoopAnalysis {
    /// The state at the loop head in the last iteration.
    pub head_state: Vec<Interval>,
    /// The out-state of the loop body in the last iteration.
    pub out_state: Vec<Interval>,
    /// The out-state of the loop body in the iteration before.
    pub previous_out_state: Vec<Interval>,
    /// The state when the loop is left.
    pub exit_state: Vec<Interval>,
    /// The entry condition of the loop head in the last iteration.
    pub entry_condition: Vec<(usize, Interval)>,
    /// The number of iterations run.
    pub iterations: u64,
    /// Set when the iteration limit was hit before the out-state settled.
    pub analysis_is_incomplete: bool,
}

fn apply_body(state: &Vec<Interval>, guard: usize, bound: i64, steps: &Vec<i64>) -> (r: Vec<Interval>)
    requires
        steps@.len() == state@.len(),
    ensures
        r@ == body(state@, guard as int, bound, steps@),
{
    let mut r: Vec<Interval> = Vec::new();
    let n = state.len();
    let mut i: usize = 0;
    let limit: i64 = if bound == i64::MIN {
        i64::MIN
    } else {
        bound - 1
    };
    while i < n
        invariant
            n == state@.len(),
            steps@.len() == n,
            i <= n,
            limit == (if bound == i64::MIN { i64::MIN } else { (bound - 1) as i64 }),
            r@ =~= body(state@, guard as int, bound, steps@).take(i as int),
        decreases n - i,
    {
        let x = state[i];
        let narrowed = if i == guard {
            Interval {
                lower: x.lower,
                upper: match x.upper {
                    Some(u) => Some(if u <= limit { u } else { limit }),
                    None => Some(limit),
                },
            }
        } else {
            x
        };
        r.push(Interval { lower: shift(narrowed.lower, steps[i]), upper: shift(narrowed.upper, steps[i]) });
        i += 1;
    }
    r
}

fn join_states(a: &Vec<Interval>, b: &Vec<Interval>) -> (r: Vec<Interval>)
    requires
        a@.len() == b@.len(),
    ensures
        r@ == joined(a@, b@),
{
    let mut r: Vec<Interval> = Vec::new();
    let n = a.len();
    let mut i: usize = 0;
    while i < n
        invariant
            n == a@.len(),
            b@.len() == n,
            i <= n,
            r@ =~= joined(a@, b@).take(i as int),
        decreases n - i,
    {
        r.push(a[i].join(&b[i]));
        i += 1;
    }
    r
}

fn widen_states(a: &Vec<Interval>, b: &Vec<Interval>) -> (r: Vec<Interval>)
    requires
        a@.len() == b@.len(),
    ensures
        r@ == widened(a@, b@),
{
    let mut r: Vec<Interval> = Vec::new();
    let n = a.len();
    let mut i: usize = 0;
    while i < n
        invariant
            n == a@.len(),
            b@.len() == n,
            i <= n,
            r@ =~= widened(a@, b@).take(i as int),
        decreases n - i,
    {
        r.push(a[i].widen(&b[i]));
        i += 1;
    }
    r
}

fn states_contained(a: &Vec<Interval>, b: &Vec<Interval>) -> (r: bool)
    ensures
        r == contained(a@, b@),
{
    if a.len() != b.len() {
        return false;
    }
    let n = a.len();
    let mut i: usize = 0;
    while i < n
        invariant
            n == a@.len(),
            b@.len() == n,
            i <= n,
            forall|j: int| 0 <= j < i ==> #[trigger] subset(a@[j], b@[j]),
        decreases n - i,
    {
        if !a[i].subset(&b[i]) {
            return false;
        }
        i += 1;
    }
    true
}

fn copy_conjuncts(a: &Vec<(usize, Interval)>) -> (r: Vec<(usize, Interval)>)
    ensures
        r@ == a@,
{
    let mut r: Vec<(usize, Interval)> = Vec::new();
    let n = a.len();
    let mut i: usize = 0;
    while i < n
        invariant
            n == a@.len(),
            i <= n,
            r@ =~= a@.take(i as int),
        decreases n - i,
    {
        r.push(a[i]);
        i += 1;
    }
    proof {
        assert(a@.take(n as int) =~= a@);
    }
    r
}

fn copy_state(a: &Vec<Interval>) -> (r: Vec<Interval>)
    ensures
        r@ == a@,
{
    let mut r: Vec<Interval> = Vec::new();
    let n = a.len();
    let mut i: usize = 0;
    while i < n
        invariant
            n == a@.len(),
            i <= n,
            r@ =~= a@.take(i as int),
        decreases n - i,
    {
        r.push(a[i]);
        i += 1;
    }
    proof {
        assert(a@.take(n as int) =~= a@);
    }
    r
}

pub proof fn lemma_iteration_len(init: Seq<Interval>, guard: int, bound: i64, steps: Seq<i64>, k: nat)
    ensures
        iteration(init, guard, bound, steps, k).0.len() == init.len(),
        iteration(init, guard, bound, steps, k).1.len() == init.len(),
    decreases k,
{
    if k > 1 {
        lemma_iteration_len(init, guard, bound, steps, (k - 1) as nat);
    }
}

/// Iterates the body of the loop `while x[guard] < bound { x[i] += steps[i] ... }`
/// entered under the condition `entry` (bounds on single variables)
/// from the state `init` until the out-state settles: the second iteration
/// joins the previous out-state into the loop head, later ones widen it, and
/// from the fourth on the loop stops as soon as the out-state lies within the
/// previous one. Hitting `MAX_FIXPOINT_ITERATIONS` first marks the analysis
/// incomplete. The entry condition loses, at the second and third
/// iterations, its conjuncts on loop variants, and then stays frozen.
pub fn compute_fixed_point(
    init: &Vec<Interval>,
    entry: &Vec<(usize, Interval)>,
    guard: usize,
    bound: i64,
    steps: &Vec<i64>,
) -> (r: LoopAnalysis)
    requires
        guard < init@.len(),
        steps@.len() == init@.len(),
    ensures
        4 <= r.iterations <= MAX_FIXPOINT_ITERATIONS,
        (r.head_state@, r.out_state@) == iteration(
            init@,
            guard as int,
            bound,
            steps@,
            r.iterations as nat,
        ),
        r.previous_out_state@ == iteration(
            init@,
            guard as int,
            bound,
            steps@,
            (r.iterations - 1) as nat,
        ).1,
        r.exit_state@ == exit_of(r.head_state@, guard as int, bound),
        r.entry_condition@ == entry_at(init@, guard as int, bound, steps@, entry@, r.iterations as nat),
        forall|k: nat| 4 <= k < r.iterations ==> #[trigger] changed_at(init@, guard as int, bound, steps@, k),
        r.analysis_is_incomplete == changed_at(init@, guard as int, bound, steps@, r.iterations as nat),
        !r.analysis_is_incomplete ==> contained(r.out_state@, r.previous_out_state@),
        r.analysis_is_incomplete ==> r.iterations == MAX_FIXPOINT_ITERATIONS,
{
    let ghost g = guard as int;
    let mut head = copy_state(init);
    let mut out = apply_body(&head, guard, bound, steps);
    let mut previous_out = copy_state(&out);
    let mut k: u64 = 1;
    let mut changed = true;
    let mut entry_condition = copy_conjuncts(entry);
    proof {
        lemma_iteration_len(init@, g, bound, steps@, 1);
    }
    while k < 4 || (changed && k < MAX_FIXPOINT_ITERATIONS)
        invariant
            1 <= k <= MAX_FIXPOINT_ITERATIONS,
            steps@.len() == init@.len(),
            g == guard as int,
            (head@, out@) == iteration(init@, g, bound, steps@, k as nat),
            k >= 2 ==> previous_out@ == iteration(init@, g, bound, steps@, (k - 1) as nat).1,
            head@.len() == init@.len(),
            out@.len() == init@.len(),
            changed == changed_at(init@, g, bound, steps@, k as nat),
            forall|j: nat| 4 <= j < k ==> #[trigger] changed_at(init@, g, bound, steps@, j),
            entry_condition@ == entry_at(init@, g, bound, steps@, entry@, k as nat),
        decreases MAX_FIXPOINT_ITERATIONS - k,
    {
        if k < 3 {
            entry_condition = keep_invariant_conjuncts(&entry_condition, &head, &out);
        }
        let new_head = if k == 1 {
            join_states(&head, &out)
        } else {
            widen_states(&head, &out)
        };
        let new_out = apply_body(&new_head, guard, bound, steps);
        previous_out = out;
        out = new_out;
        head = new_head;
        k = k + 1;
        proof {
            lemma_iteration_len(init@, g, bound, steps@, k as nat);
        }
        changed = k < 4 || !states_contained(&out, &previous_out);
    }
    let mut exit_state = copy_state(&head);
    let x = head[guard];
    let narrowed = Interval {
        lower: match x.lower {
            Some(l) => Some(if l >= bound { l } else { bound }),
            None => Some(bound),
        },
        upper: x.upper,
    };
    exit_state.set(guard, narrowed);
    LoopAnalysis {
        head_state: head,
        out_state: out,
        previous_out_state: previous_out,
        exit_state,
        entry_condition,
        iterations: k,
        analysis_is_incomplete: changed,
    }
}

/// Join is commutative.
pub proof fn lemma_join_commutative(a: Interval, b: Interval)
    ensures
        join(a, b) == join(b, a),
{
}

/// Join is idempotent.
pub proof fn lemma_join_idempotent(a: Interval)
    ensures
        join(a, a) == a,
{
}

/// Widening never gives less than joining: what the join of the loop-head
/// states holds, the widened state holds too.
pub proof fn lemma_widen_covers_join(previous: Interval, next: Interval)
    ensures
        subset(join(previous, next), widen(previous, next)),
{
}

/// Joining states is commutative.
pub proof fn lemma_joined_commutative(a: Seq<Interval>, b: Seq<Interval>)
    requires
        a.len() == b.len(),
    ensures
        joined(a, b) == joined(b, a),
{
    assert(joined(a, b) =~= joined(b, a));
}

/// Joining a state with itself gives the state.
pub proof fn lemma_joined_idempotent(a: Seq<Interval>)
    ensures
        joined(a, a) == a,
{
    assert(joined(a, a) =~= a);
}

/// At every iteration past the cutoff, the widened loop-head state holds all
/// that the join of the same two states holds.
pub proof fn lemma_widened_covers_joined(previous: Seq<Interval>, next: Seq<Interval>)
    requires
        previous.len() == next.len(),
    ensures
        contained(joined(previous, next), widened(previous, next)),
{
    assert forall|i: int| 0 <= i < previous.len() implies #[trigger] subset(
        joined(previous, next)[i],
        widened(previous, next)[i],
    ) by {
        lemma_widen_covers_join(previous[i], next[i]);
    }
}

} // verus!
