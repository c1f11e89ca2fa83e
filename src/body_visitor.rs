//! The per-body transfer state: the current environment, the heap blocks
//! handed out per allocation site, and the diagnostics found so far.

use vstd::prelude::*;
use crate::condition::{condition_verdict, resolve_condition, SmtResult, SmtSolver};
use crate::environment::{
    has_key, keys_unique, lemma_map_of_index, lemma_map_of_push, map_of, without_within,
    zeroed_flag_cleared, Environment,
};
use crate::expression::{ConstantDomain, Expression, LayoutSource};
use crate::path::{lemma_replaced_root_within, Path, PathSelector};
use crate::tags::sum_of;

verus! {

/// A program point: a basic block and a statement within it.
#[derive(PartialEq, Eq, Structural, Debug, Copy, Clone)]
pub struct Location {
    pub block: u64,
    pub statement_index: u64,
}

/// A problem found in the analyzed code.
#[derive(PartialEq, Eq, Structural, Debug, Copy, Clone)]
pub enum Warning {
    /// An offset leaves the block it was computed from.
    OffsetOutOfRange,
    /// Memory is released a second time.
    AlreadyDeallocated,
    /// Memory is released or resized with a layout other than the one it was
    /// allocated with; `possibly` when that could not be decided.
    InconsistentLayout { possibly: bool, reallocates: bool },
    /// A union assignment supplies fewer bits than a field needs.
    UnionNotFullyInitialized,
}

/// The text reported for a warning.
pub open spec fn warning_text(w: Warning) -> &'static str {
    match w {
        Warning::OffsetOutOfRange => "effective offset is outside allocated range",
        Warning::AlreadyDeallocated => "the pointer points to memory that has already been deallocated",
        Warning::InconsistentLayout { possibly: false, reallocates: false } =>
            "deallocates the pointer with layout information inconsistent with the allocation",
        Warning::InconsistentLayout { possibly: false, reallocates: true } =>
            "reallocates the pointer with layout information inconsistent with the allocation",
        Warning::InconsistentLayout { possibly: true, reallocates: false } =>
            "possibly deallocates the pointer with layout information inconsistent with the allocation",
        Warning::InconsistentLayout { possibly: true, reallocates: true } =>
            "possibly reallocates the pointer with layout information inconsistent with the allocation",
        Warning::UnionNotFullyInitialized => "The union is not fully initialized by this assignment",
    }
}

impl Warning {
    /// The text reported for this warning.
    pub fn message(&self) -> (r: &'static str)
        ensures
            r@ == warning_text(*self)@,
    {
        match self {
            Warning::OffsetOutOfRange => "effective offset is outside allocated range",
            Warning::AlreadyDeallocated => "the pointer points to memory that has already been deallocated",
            Warning::InconsistentLayout { possibly: false, reallocates: false } =>
                "deallocates the pointer with layout information inconsistent with the allocation",
            Warning::InconsistentLayout { possibly: false, reallocates: true } =>
                "reallocates the pointer with layout information inconsistent with the allocation",
            Warning::InconsistentLayout { possibly: true, reallocates: false } =>
                "possibly deallocates the pointer with layout information inconsistent with the allocation",
            Warning::InconsistentLayout { possibly: true, reallocates: true } =>
                "possibly reallocates the pointer with layout information inconsistent with the allocation",
            Warning::UnionNotFullyInitialized => "The union is not fully initialized by this assignment",
        }
    }
}

/// One block per allocation site, each with an address below `next`.
pub open spec fn heap_wf(heap: Seq<(Location, (u64, bool))>, next: u64) -> bool {
    &&& keys_unique(heap)
    &&& forall|l: Location|
        #![trigger map_of(heap)[l]]
        map_of(heap).contains_key(l) ==> map_of(heap)[l].0 < next
}

/// The state of the transfer engine while it analyzes one function body.
pub struct BodyVisitor<S: SmtSolver> {
    pub current_environment: Environment,
    pub current_location: Location,
    pub buffered_diagnostics: Vec<Warning>,
    pub smt_solver: S,
    /// The block handed out at each allocation site: its address and whether it is zeroed.
    pub heap_addresses: Vec<(Location, (u64, bool))>,
    /// Every address handed out so far is below this one.
    pub next_heap_address: u64,
}

impl<S: SmtSolver> BodyVisitor<S> {
    /// The blocks handed out so far, by allocation site.
    pub open spec fn heap_blocks(&self) -> Map<Location, (u64, bool)> {
        map_of(self.heap_addresses@)
    }

    /// One block per allocation site, each below the next fresh address.
    pub open spec fn wf(&self) -> bool {
        heap_wf(self.heap_addresses@, self.next_heap_address)
    }

    /// A visitor with an empty environment, at the start of block 0.
    pub fn new(smt_solver: S) -> (r: Self)
        ensures
            r.wf(),
            r.current_environment@ == Map::<Path, Expression>::empty(),
            r.current_environment.entry_condition == Expression::CompileTimeConstant(
                ConstantDomain::Bool(true),
            ),
            r.buffered_diagnostics@ == Seq::<Warning>::empty(),
            r.heap_blocks() == Map::<Location, (u64, bool)>::empty(),
            r.smt_solver == smt_solver,
    {
        let r = BodyVisitor {
            current_environment: Environment::new(),
            current_location: Location { block: 0, statement_index: 0 },
            buffered_diagnostics: Vec::new(),
            smt_solver,
            heap_addresses: Vec::new(),
            next_heap_address: 0,
        };
        assert(r.heap_blocks() =~= Map::<Location, (u64, bool)>::empty());
        r
    }
}

impl<S: SmtSolver> BodyVisitor<S> {
    /// The block that an allocation at `location` yields: the one handed out
    /// there before, or else a fresh one.
    pub open spec fn allocated_block(&self, location: Location, is_zeroed: bool) -> (u64, bool) {
        if self.heap_blocks().contains_key(location) {
            self.heap_blocks()[location]
        } else {
            (self.next_heap_address, is_zeroed)
        }
    }

    fn heap_index_of(&self, location: Location) -> (r: Option<usize>)
        ensures
            match r {
                Some(i) => i < self.heap_addresses@.len() && self.heap_addresses@[i as int].0
                    == location,
                None => !has_key(self.heap_addresses@, location),
            },
    {
        let n = self.heap_addresses.len();
        let mut i: usize = 0;
        while i < n
            invariant
                n == self.heap_addresses@.len(),
                i <= n,
                forall|j: int| 0 <= j < i ==> self.heap_addresses@[j].0 != location,
            decreases n - i,
        {
            if self.heap_addresses[i].0 == location {
                return Some(i);
            }
            i += 1;
        }
        None
    }

    /// Returns the heap block for an allocation at the current location, and
    /// its path, and binds its layout. Revisiting a location yields the block
    /// handed out there before.
    pub fn get_new_heap_block(&mut self, length: u128, alignment: u128, is_zeroed: bool) -> (r: (
        Expression,
        Path,
    ))
        requires
            old(self).wf(),
            old(self).heap_blocks().contains_key(old(self).current_location)
                || old(self).next_heap_address < u64::MAX,
        ensures
            final(self).wf(),
            ({
                let b = old(self).allocated_block(old(self).current_location, is_zeroed);
                &&& r.0 == (Expression::HeapBlock { abstract_address: b.0, is_zeroed: b.1 })
                &&& r.1 == (Path::HeapBlock { abstract_address: b.0, is_zeroed: b.1 })
                &&& final(self).heap_blocks() == old(self).heap_blocks().insert(
                    old(self).current_location,
                    b,
                )
                &&& final(self).next_heap_address == if old(self).heap_blocks().contains_key(
                    old(self).current_location,
                ) {
                    old(self).next_heap_address
                } else {
                    (old(self).next_heap_address + 1) as u64
                }
            }),
            final(self).current_environment@ == without_within(
                old(self).current_environment@,
                Path::Qualified { qualifier: Box::new(r.1), selector: PathSelector::Layout },
            ).insert(
                Path::Qualified { qualifier: Box::new(r.1), selector: PathSelector::Layout },
                Expression::HeapBlockLayout { length, alignment, source: LayoutSource::Alloc },
            ),
            final(self).current_environment.entry_condition
                == old(self).current_environment.entry_condition,
            final(self).buffered_diagnostics == old(self).buffered_diagnostics,
            final(self).current_location == old(self).current_location,
            final(self).smt_solver == old(self).smt_solver,
    {
        let location = self.current_location;
        let block = match self.heap_index_of(location) {
            Some(i) => {
                proof {
                    lemma_map_of_index(self.heap_addresses@, i as int);
                    assert(self.heap_blocks().insert(location, self.heap_blocks()[location])
                        =~= self.heap_blocks());
                }
                self.heap_addresses[i].1
            },
            None => {
                let b = (self.next_heap_address, is_zeroed);
                proof {
                    lemma_map_of_push(self.heap_addresses@, location, b);
                }
                self.heap_addresses.push((location, b));
                self.next_heap_address = self.next_heap_address + 1;
                proof {
                    assert forall|l: Location|
                        #![trigger self.heap_blocks()[l]]
                        self.heap_blocks().contains_key(l) implies self.heap_blocks()[l].0
                        < self.next_heap_address by {
                        if l != location {
                            assert(old(self).heap_blocks().contains_key(l));
                            assert(old(self).heap_blocks()[l].0 < old(self).next_heap_address);
                        }
                    }
                }
                b
            },
        };
        let block_path = Path::HeapBlock { abstract_address: block.0, is_zeroed: block.1 };
        let layout_path = Path::new_layout(block_path.duplicate());
        let layout = Expression::HeapBlockLayout {
            length,
            alignment,
            source: LayoutSource::Alloc,
        };
        self.current_environment.strong_update_value_at(layout_path, layout);
        (Expression::HeapBlock { abstract_address: block.0, is_zeroed: block.1 }, block_path)
    }
}

/// The integer `e` is known to be, where it fits in an `i128`.
pub open spec fn known_int(e: Expression) -> Option<int>
    decreases e,
{
    match e {
        Expression::CompileTimeConstant(ConstantDomain::I128(i)) => Some(i as int),
        Expression::CompileTimeConstant(ConstantDomain::U128(u)) => if u <= i128::MAX {
            Some(u as int)
        } else {
            None
        },
        Expression::Tagged { operand, .. } => known_int(*operand),
        _ => None,
    }
}

/// The integer `e` is known to be, where it fits in an `i128`.
pub fn as_int_if_known(e: &Expression) -> (r: Option<i128>)
    ensures
        match r {
            Some(i) => known_int(*e) == Some(i as int),
            None => known_int(*e) is None,
        },
    decreases e,
{
    match e {
        Expression::CompileTimeConstant(ConstantDomain::I128(i)) => Some(*i),
        Expression::CompileTimeConstant(ConstantDomain::U128(u)) => if *u <= i128::MAX as u128 {
            Some(*u as i128)
        } else {
            None
        },
        Expression::Tagged { operand, .. } => as_int_if_known(&**operand),
        _ => None,
    }
}

/// The warnings owed when memory allocated with `old_layout` is released or
/// resized with `new_layout`, given what is known of the entry condition.
pub open spec fn layout_warnings(old_layout: Expression, new_layout: Expression, entry: Option<bool>) -> Seq<Warning> {
    match (old_layout, new_layout) {
        (
            Expression::HeapBlockLayout { length: l1, alignment: a1, source: s1 },
            Expression::HeapBlockLayout { length: l2, alignment: a2, source: s2 },
        ) => {
            let freed = if s1 == LayoutSource::DeAlloc {
                seq![Warning::AlreadyDeallocated]
            } else {
                Seq::empty()
            };
            let matched = l1 == l2 && a1 == a2;
            if entry != Some(false) && !matched {
                freed.push(
                    Warning::InconsistentLayout {
                        possibly: entry is None,
                        reallocates: s2 == LayoutSource::ReAlloc,
                    },
                )
            } else {
                freed
            }
        },
        _ => Seq::empty(),
    }
}

impl<S: SmtSolver> BodyVisitor<S> {
    /// Decides `cond` at the current point, and whether the point can be
    /// reached: first with the abstract domains, then with the solver. The
    /// solver's assertions are restored afterwards.
    pub fn check_condition_value_and_reachability(&mut self, cond: &Expression) -> (r: (
        Option<bool>,
        Option<bool>,
    ))
        requires
            old(self).wf(),
        ensures
            final(self).wf(),
            exists|entry_result: SmtResult, cond_result: SmtResult, inverted_result: SmtResult|
                r == condition_verdict(
                    *cond,
                    old(self).current_environment.entry_condition,
                    entry_result,
                    cond_result,
                    inverted_result,
                ),
            final(self).current_environment == old(self).current_environment,
            final(self).buffered_diagnostics == old(self).buffered_diagnostics,
            final(self).heap_addresses == old(self).heap_addresses,
            final(self).next_heap_address == old(self).next_heap_address,
            final(self).current_location == old(self).current_location,
    {
        let cond_as_bool = cond.as_bool_if_known();
        let entry_as_bool = self.current_environment.entry_condition.as_bool_if_known();
        let mut entry_result = SmtResult::Undefined;
        let mut cond_result = SmtResult::Undefined;
        let mut inverted_result = SmtResult::Undefined;
        let mut entry_asserted = false;
        let ask_for_cond = match entry_as_bool {
            Some(e) => e && cond_as_bool.is_none(),
            None => {
                let entry = &self.current_environment.entry_condition;
                if cond_as_bool.is_some() || entry.implies(cond) || entry.implies_not(cond) {
                    false
                } else {
                    self.smt_solver.set_backtrack_position();
                    self.smt_solver.assert_predicate(&self.current_environment.entry_condition);
                    entry_result = self.smt_solver.solve();
                    entry_asserted = true;
                    entry_result != SmtResult::Unsatisfiable
                }
            },
        };
        if ask_for_cond {
            self.smt_solver.set_backtrack_position();
            cond_result = self.smt_solver.solve_expression(cond);
            if cond_result == SmtResult::Satisfiable {
                let inverted = Expression::logical_not(cond.duplicate());
                inverted_result = self.smt_solver.solve_expression(&inverted);
            }
            self.smt_solver.backtrack();
        }
        if entry_asserted {
            self.smt_solver.backtrack();
        }
        resolve_condition(
            cond,
            &self.current_environment.entry_condition,
            entry_result,
            cond_result,
            inverted_result,
        )
    }

    /// Warns when the offset `offset` may leave the block it was computed
    /// from: when its range condition `0 <= right <= length + 1` (see
    /// `range_condition`) is found false while the point may be reached.
    pub fn check_offset(&mut self, offset: &Expression)
        requires
            old(self).wf(),
        ensures
            final(self).wf(),
            match *offset {
                Expression::Offset { left, right } => exists|
                    entry_result: SmtResult,
                    cond_result: SmtResult,
                    inverted_result: SmtResult,
                |
                    final(self).buffered_diagnostics@ == #[trigger] offset_diagnostics(
                        old(self).buffered_diagnostics@,
                        condition_verdict(
                            range_condition(old(self).current_environment@, *left, *right),
                            old(self).current_environment.entry_condition,
                            entry_result,
                            cond_result,
                            inverted_result,
                        ),
                    ),
                _ => final(self).buffered_diagnostics == old(self).buffered_diagnostics,
            },
            final(self).current_environment == old(self).current_environment,
            final(self).heap_addresses == old(self).heap_addresses,
            final(self).next_heap_address == old(self).next_heap_address,
            final(self).current_location == old(self).current_location,
    {
        if let Expression::Offset { left, right } = offset {
            let length = match &**left {
                Expression::Reference(p) => match p {
                    Path::HeapBlock { .. } => {
                        let layout_path = Path::new_layout(p.duplicate());
                        match self.current_environment.value_at(&layout_path) {
                            Some(Expression::HeapBlockLayout { length, .. }) => Expression::CompileTimeConstant(
                                ConstantDomain::U128(*length),
                            ),
                            _ => (&**left).duplicate(),
                        }
                    },
                    _ => (&**left).duplicate(),
                },
                _ => (&**left).duplicate(),
            };
            let at_least_zero = less_or_equal(
                Expression::CompileTimeConstant(ConstantDomain::I128(0)),
                (&**right).duplicate(),
            );
            let one_past = length.addition(Expression::CompileTimeConstant(ConstantDomain::U128(1)));
            let at_most_one_past = less_or_equal((&**right).duplicate(), one_past);
            let in_range = conjunction(at_least_zero, at_most_one_past);
            assert(length == offset_length(self.current_environment@, **left));
            assert(in_range == range_condition(self.current_environment@, **left, **right));
            let ghost before = self.buffered_diagnostics@;
            let verdict = self.check_condition_value_and_reachability(&in_range);
            let (in_range_as_bool, entry_as_bool) = verdict;
            if entry_as_bool != Some(false) && in_range_as_bool == Some(false) {
                self.buffered_diagnostics.push(Warning::OffsetOutOfRange);
            }
            proof {
                let (a, b, c) = choose|a: SmtResult, b: SmtResult, c: SmtResult|
                    verdict == condition_verdict(
                        in_range,
                        old(self).current_environment.entry_condition,
                        a,
                        b,
                        c,
                    );
                assert(self.buffered_diagnostics@ == offset_diagnostics(
                    old(self).buffered_diagnostics@,
                    condition_verdict(
                        range_condition(old(self).current_environment@, **left, **right),
                        old(self).current_environment.entry_condition,
                        a,
                        b,
                        c,
                    ),
                ));
            }
        }
    }
}

/// The diagnostics after an offset check whose range condition came out as
/// `verdict` (value, reachability): a warning where the condition is false
/// and the point may be reached.
pub open spec fn offset_diagnostics(warnings: Seq<Warning>, verdict: (Option<bool>, Option<bool>)) -> Seq<Warning> {
    if verdict.1 != Some(false) && verdict.0 == Some(false) {
        warnings.push(Warning::OffsetOutOfRange)
    } else {
        warnings
    }
}

/// The length of the block an offset from `left` is computed in: the
/// length recorded in the layout of the heap block `left` refers to, or else
/// `left` itself.
pub open spec fn offset_length(m: Map<Path, Expression>, left: Expression) -> Expression {
    match left {
        Expression::Reference(p) => {
            let layout_path = Path::Qualified { qualifier: Box::new(p), selector: PathSelector::Layout };
            if p is HeapBlock && m.contains_key(layout_path) && m[layout_path] is HeapBlockLayout {
                Expression::CompileTimeConstant(ConstantDomain::U128(m[layout_path]->HeapBlockLayout_length))
            } else {
                left
            }
        },
        _ => left,
    }
}

/// `left <= right`, folded where both are known integers.
pub open spec fn spec_less_or_equal(left: Expression, right: Expression) -> Expression {
    match (known_int(left), known_int(right)) {
        (Some(x), Some(y)) => Expression::CompileTimeConstant(ConstantDomain::Bool(x <= y)),
        _ => Expression::LessOrEqual { left: Box::new(left), right: Box::new(right) },
    }
}

/// `left && right`, folded where either side is known.
pub open spec fn spec_and(left: Expression, right: Expression) -> Expression {
    if left.known_bool() == Some(false) || right.known_bool() == Some(false) {
        Expression::CompileTimeConstant(ConstantDomain::Bool(false))
    } else if left.known_bool() == Some(true) {
        right
    } else if right.known_bool() == Some(true) {
        left
    } else {
        Expression::And { left: Box::new(left), right: Box::new(right) }
    }
}

/// The condition under which an offset `right` from `left` stays within
/// its block or one past its end: `0 <= right && right <= length + 1`.
pub open spec fn range_condition(m: Map<Path, Expression>, left: Expression, right: Expression) -> Expression {
    spec_and(
        spec_less_or_equal(Expression::CompileTimeConstant(ConstantDomain::I128(0)), right),
        spec_less_or_equal(
            right,
            sum_of(offset_length(m, left), Expression::CompileTimeConstant(ConstantDomain::U128(1))),
        ),
    )
}

/// `left <= right`.
pub fn less_or_equal(left: Expression, right: Expression) -> (r: Expression)
    ensures
        r == spec_less_or_equal(left, right),
{
    match (as_int_if_known(&left), as_int_if_known(&right)) {
        (Some(x), Some(y)) => Expression::CompileTimeConstant(ConstantDomain::Bool(x <= y)),
        _ => Expression::LessOrEqual { left: Box::new(left), right: Box::new(right) },
    }
}

/// `left && right`.
pub fn conjunction(left: Expression, right: Expression) -> (r: Expression)
    ensures
        r == spec_and(left, right),
{
    let lb = left.as_bool_if_known();
    let rb = right.as_bool_if_known();
    if lb == Some(false) || rb == Some(false) {
        Expression::CompileTimeConstant(ConstantDomain::Bool(false))
    } else if lb == Some(true) {
        right
    } else if rb == Some(true) {
        left
    } else {
        Expression::And { left: Box::new(left), right: Box::new(right) }
    }
}

/// The value bound to `path` in `m`, or `Top` where there is none.
pub open spec fn bound_or_top(m: Map<Path, Expression>, path: Path) -> Expression {
    if m.contains_key(path) {
        m[path]
    } else {
        Expression::Top
    }
}

/// Whether `layout_path` is the layout of a block whose current layout is known.
pub open spec fn has_known_layout(m: Map<Path, Expression>, layout_path: Path) -> bool {
    &&& layout_path matches Path::Qualified { selector: PathSelector::Layout, .. }
    &&& m.contains_key(layout_path)
    &&& m[layout_path] is HeapBlockLayout
}

/// The block whose layout `layout_path` selects.
pub open spec fn layout_owner(layout_path: Path) -> Path {
    match layout_path {
        Path::Qualified { qualifier, .. } => *qualifier,
        _ => layout_path,
    }
}

/// `m` with every value that refers into the zeroed block at `address`
/// moved to the same block with the zeroed flag cleared.
pub open spec fn cleared_map(m: Map<Path, Expression>, address: u64) -> Map<Path, Expression> {
    Map::new(|k: Path| m.contains_key(k), |k: Path| zeroed_flag_cleared(m[k], address))
}

/// The warnings owed and the bindings that result when `layout_path` is set
/// to `layout` by a release or resize (with the layout argument
/// `layout_argument`) or an allocation, from the bindings `m`.
pub open spec fn layout_effect(
    m: Map<Path, Expression>,
    entry: Option<bool>,
    layout_path: Path,
    layout: Expression,
    layout_argument: Expression,
) -> (Seq<Warning>, Map<Path, Expression>) {
    let source = layout->HeapBlockLayout_source;
    let (warnings, m1) = if source == LayoutSource::DeAlloc {
        if has_known_layout(m, layout_path) {
            (
                layout_warnings(m[layout_path], layout, entry),
                without_within(m, layout_owner(layout_path)),
            )
        } else {
            (Seq::empty(), m)
        }
    } else if source == LayoutSource::ReAlloc && layout_path is Qualified {
        (
            layout_warnings(bound_or_top(m, layout_path), layout_argument, entry),
            match layout_owner(layout_path) {
                Path::HeapBlock { abstract_address, is_zeroed: true } => cleared_map(
                    m,
                    abstract_address,
                ),
                _ => m,
            },
        )
    } else {
        (Seq::empty(), m)
    };
    (warnings, without_within(m1, layout_path).insert(layout_path, layout))
}

impl<S: SmtSolver> BodyVisitor<S> {
    /// Checks that memory released or resized with `new_layout` was allocated
    /// with an equal layout, and that it is not released twice.
    pub fn check_for_layout_consistency(&mut self, old_layout: &Expression, new_layout: &Expression)
        requires
            old(self).wf(),
        ensures
            final(self).wf(),
            final(self).buffered_diagnostics@ == old(self).buffered_diagnostics@ + layout_warnings(
                *old_layout,
                *new_layout,
                old(self).current_environment.entry_condition.known_bool(),
            ),
            final(self).current_environment == old(self).current_environment,
            final(self).heap_addresses == old(self).heap_addresses,
            final(self).next_heap_address == old(self).next_heap_address,
            final(self).current_location == old(self).current_location,
            final(self).smt_solver == old(self).smt_solver,
    {
        if let (
            Expression::HeapBlockLayout { length: l1, alignment: a1, source: s1 },
            Expression::HeapBlockLayout { length: l2, alignment: a2, source: s2 },
        ) = (old_layout, new_layout) {
            if *s1 == LayoutSource::DeAlloc {
                self.buffered_diagnostics.push(Warning::AlreadyDeallocated);
            }
            let matched = *l1 == *l2 && *a1 == *a2;
            let entry = self.current_environment.entry_condition.as_bool_if_known();
            if entry != Some(false) && !matched {
                self.buffered_diagnostics.push(
                    Warning::InconsistentLayout {
                        possibly: entry.is_none(),
                        reallocates: *s2 == LayoutSource::ReAlloc,
                    },
                );
            }
        }
        proof {
            assert(self.buffered_diagnostics@ =~= old(self).buffered_diagnostics@ + layout_warnings(
                *old_layout,
                *new_layout,
                old(self).current_environment.entry_condition.known_bool(),
            ));
        }
    }

    /// The block whose layout is `layout_path` has been released: checks the
    /// release against the recorded layout and drops every binding in the block.
    fn purge_abstract_heap_address_from_environment(
        &mut self,
        layout_path: &Path,
        new_layout: &Expression,
    )
        requires
            old(self).wf(),
        ensures
            final(self).wf(),
            has_known_layout(old(self).current_environment@, *layout_path) ==> {
                &&& final(self).buffered_diagnostics@ == old(self).buffered_diagnostics@
                    + layout_warnings(
                    old(self).current_environment@[*layout_path],
                    *new_layout,
                    old(self).current_environment.entry_condition.known_bool(),
                )
                &&& final(self).current_environment@ == without_within(
                    old(self).current_environment@,
                    layout_owner(*layout_path),
                )
            },
            !has_known_layout(old(self).current_environment@, *layout_path) ==> {
                &&& final(self).buffered_diagnostics == old(self).buffered_diagnostics
                &&& final(self).current_environment@ == old(self).current_environment@
            },
            final(self).current_environment.entry_condition
                == old(self).current_environment.entry_condition,
            final(self).heap_addresses == old(self).heap_addresses,
            final(self).next_heap_address == old(self).next_heap_address,
            final(self).current_location == old(self).current_location,
            final(self).smt_solver == old(self).smt_solver,
    {
        if let Path::Qualified { qualifier, selector: PathSelector::Layout } = layout_path {
            let old_layout = match self.current_environment.value_at(layout_path) {
                Some(v) => v.duplicate(),
                None => Expression::Top,
            };
            if let Expression::HeapBlockLayout { .. } = old_layout {
                self.check_for_layout_consistency(&old_layout, new_layout);
                self.current_environment.remove_within(&**qualifier);
            }
        }
    }

    /// The block whose layout is `layout_path` has been resized with the
    /// layout argument `layout_argument`: checks it against the recorded
    /// layout, and, since the new memory need not be zeroed, moves every value
    /// that refers into a zeroed block to the same block with the flag cleared.
    fn update_zeroed_flag_for_heap_block_from_environment(
        &mut self,
        layout_path: &Path,
        layout_argument: &Expression,
    )
        requires
            old(self).wf(),
        ensures
            final(self).wf(),
            final(self).buffered_diagnostics@ == old(self).buffered_diagnostics@ + if layout_path
                is Qualified {
                layout_warnings(
                    bound_or_top(old(self).current_environment@, *layout_path),
                    *layout_argument,
                    old(self).current_environment.entry_condition.known_bool(),
                )
            } else {
                Seq::empty()
            },
            final(self).current_environment@ == match layout_owner(*layout_path) {
                Path::HeapBlock { abstract_address, is_zeroed: true } => if layout_path
                    is Qualified {
                    cleared_map(old(self).current_environment@, abstract_address)
                } else {
                    old(self).current_environment@
                },
                _ => old(self).current_environment@,
            },
            final(self).current_environment.entry_condition
                == old(self).current_environment.entry_condition,
            final(self).heap_addresses == old(self).heap_addresses,
            final(self).next_heap_address == old(self).next_heap_address,
            final(self).current_location == old(self).current_location,
            final(self).smt_solver == old(self).smt_solver,
    {
        if let Path::Qualified { qualifier, .. } = layout_path {
            let old_layout = match self.current_environment.value_at(layout_path) {
                Some(v) => v.duplicate(),
                None => Expression::Top,
            };
            self.check_for_layout_consistency(&old_layout, layout_argument);
            if let Path::HeapBlock { abstract_address, is_zeroed: true } = &**qualifier {
                self.current_environment.clear_zeroed_flag(*abstract_address);
            }
        } else {
            assert(self.buffered_diagnostics@ =~= old(self).buffered_diagnostics@ + Seq::<
                Warning,
            >::empty());
        }
    }

    /// Applies a side effect that sets the layout of a heap block: a release
    /// drops the block's bindings, a resize clears its zeroed flag (checking
    /// `layout_argument`, the layout the resize was asked with); then
    /// `layout_path` is bound to `layout`.
    pub fn transfer_layout_effect(
        &mut self,
        layout_path: Path,
        layout: Expression,
        layout_argument: &Expression,
    )
        requires
            old(self).wf(),
            layout is HeapBlockLayout,
        ensures
            final(self).wf(),
            ({
                let (warnings, m) = layout_effect(
                    old(self).current_environment@,
                    old(self).current_environment.entry_condition.known_bool(),
                    layout_path,
                    layout,
                    *layout_argument,
                );
                &&& final(self).buffered_diagnostics@ == old(self).buffered_diagnostics@ + warnings
                &&& final(self).current_environment@ == m
            }),
            final(self).current_environment.entry_condition
                == old(self).current_environment.entry_condition,
            final(self).heap_addresses == old(self).heap_addresses,
            final(self).next_heap_address == old(self).next_heap_address,
            final(self).current_location == old(self).current_location,
            final(self).smt_solver == old(self).smt_solver,
    {
        match &layout {
            Expression::HeapBlockLayout { source: LayoutSource::DeAlloc, .. } => {
                self.purge_abstract_heap_address_from_environment(&layout_path, &layout);
            },
            Expression::HeapBlockLayout { source: LayoutSource::ReAlloc, .. } => {
                self.update_zeroed_flag_for_heap_block_from_environment(
                    &layout_path,
                    layout_argument,
                );
            },
            _ => {},
        }
        proof {
            if layout->HeapBlockLayout_source == LayoutSource::ReAlloc && !(layout_path is Qualified) {
                assert(self.buffered_diagnostics@ =~= old(self).buffered_diagnostics@);
            }
            if layout->HeapBlockLayout_source == LayoutSource::DeAlloc && !has_known_layout(old(self).current_environment@, layout_path) {
                assert(self.buffered_diagnostics@ =~= old(self).buffered_diagnostics@ + Seq::<Warning>::empty());
            }
            if layout->HeapBlockLayout_source == LayoutSource::Alloc {
                assert(self.buffered_diagnostics@ =~= old(self).buffered_diagnostics@ + Seq::<Warning>::empty());
            }
        }
        self.current_environment.strong_update_value_at(layout_path, layout);
    }
}

/// After a resize, a binding that referred into the zeroed block at `address`
/// refers into the same block with the zeroed flag cleared.
pub proof fn lemma_realloc_clears_zeroed_flag(m: Map<Path, Expression>, address: u64, k: Path)
    requires
        m.contains_key(k),
        m[k] is Reference,
        m[k]->Reference_0.within(Path::HeapBlock { abstract_address: address, is_zeroed: true }),
    ensures
        cleared_map(m, address).contains_key(k),
        cleared_map(m, address)[k] is Reference,
        cleared_map(m, address)[k]->Reference_0.within(
            Path::HeapBlock { abstract_address: address, is_zeroed: false },
        ),
{
    lemma_replaced_root_within(
        m[k]->Reference_0,
        Path::HeapBlock { abstract_address: address, is_zeroed: true },
        Path::HeapBlock { abstract_address: address, is_zeroed: false },
    );
}

/// Two visits of one allocation site yield the same heap block: `first` is the
/// state right after an allocation at `location`, and `later` any state whose
/// blocks extend those of `first`; an allocation at `location` in `later`,
/// whatever it asks for, yields the block handed out in `first`.
pub proof fn lemma_heap_block_determinism<S: SmtSolver>(
    before: BodyVisitor<S>,
    first: BodyVisitor<S>,
    later: BodyVisitor<S>,
    location: Location,
    is_zeroed_first: bool,
    is_zeroed_later: bool,
)
    requires
        first.heap_blocks() == before.heap_blocks().insert(
            location,
            before.allocated_block(location, is_zeroed_first),
        ),
        first.heap_blocks() <= later.heap_blocks(),
    ensures
        later.allocated_block(location, is_zeroed_later) == before.allocated_block(
            location,
            is_zeroed_first,
        ),
{
    assert(first.heap_blocks().contains_key(location));
}

} // verus!
