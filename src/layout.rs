//! The scalar leaves of a value's layout, in memory order, and copying a
//! value into a location of another type bit for bit.

use vstd::prelude::*;
use crate::body_visitor::{BodyVisitor, Warning};
use crate::join::value_or_unknown;
use crate::symbolic_bits::symbolically_transmuted;
use crate::condition::SmtSolver;
use crate::environment::without_within;
use crate::expression::{ConstantDomain, Expression};
use crate::path::{Path, PathSelector};
use crate::transmute::{source_valid, transmute_spec, widths_of, widths_valid, written, paths_of};
use crate::types::{is_unsized_sequence, IrType, TypeList};

verus! {

/// The width in bits of a scalar of type `t`.
pub open spec fn scalar_width(t: IrType) -> Option<u32> {
    match t {
        IrType::Bool => Some(8),
        IrType::Char => Some(32),
        IrType::Int { bits, .. } => if 1 <= bits <= 128 {
            Some(bits)
        } else {
            None
        },
        IrType::Ref(e) => if is_unsized_sequence(*e) {
            None
        } else {
            Some(64)
        },
        IrType::RawPtr(e) => if is_unsized_sequence(*e) {
            None
        } else {
            Some(64)
        },
        IrType::Boxed(e) => if is_unsized_sequence(*e) {
            None
        } else {
            Some(64)
        },
        _ => None,
    }
}

/// The scalar leaves of a value of type `t` stored at `path`, with their
/// widths, in memory order: the fields of structs and tuples in turn, the
/// elements of arrays, the discriminant of an enum, the two halves of a
/// pointer to a slice. `None` where some part has no scalar layout.
pub open spec fn field_leaves(path: Path, t: IrType) -> Option<Seq<(Path, u32)>>
    decreases t,
{
    match t {
        IrType::Struct { fields, .. } => list_leaves(path, *fields, 0),
        IrType::Tuple(ts) => list_leaves(path, *ts, 0),
        IrType::Enum { discriminant_bits, .. } => if 1 <= discriminant_bits <= 128 {
            Some(
                seq![(Path::Qualified { qualifier: Box::new(path), selector: PathSelector::Discriminant }, discriminant_bits)],
            )
        } else {
            None
        },
        IrType::Array(e, n) => match scalar_width(*e) {
            Some(w) => Some(
                Seq::new(
                    n as nat,
                    |i: int|
                        (
                            Path::Qualified {
                                qualifier: Box::new(path),
                                selector: PathSelector::Index(i as u64),
                            },
                            w,
                        ),
                ),
            ),
            None => None,
        },
        _ => if t is Ref || t is RawPtr || t is Boxed {
            match t {
                IrType::Ref(e) | IrType::RawPtr(e) | IrType::Boxed(e) => if is_unsized_sequence(*e) {
                    Some(
                        seq![
                            (Path::Qualified { qualifier: Box::new(path), selector: PathSelector::Field(0) }, 64u32),
                            (Path::Qualified { qualifier: Box::new(path), selector: PathSelector::Field(1) }, 64u32),
                        ],
                    )
                } else {
                    Some(seq![(path, 64u32)])
                },
                _ => None,
            }
        } else {
            match scalar_width(t) {
                Some(w) => Some(seq![(path, w)]),
                None => None,
            }
        },
    }
}

/// The leaves of the fields `ts` of the value at `path`, numbered from `first`.
pub open spec fn list_leaves(path: Path, ts: TypeList, first: u64) -> Option<Seq<(Path, u32)>>
    decreases ts,
{
    match ts {
        TypeList::Nil => Some(Seq::empty()),
        TypeList::Cons(t, rest) => if first == u64::MAX {
            None
        } else {
            match (
                field_leaves(
                    Path::Qualified { qualifier: Box::new(path), selector: PathSelector::Field(first) },
                    *t,
                ),
                list_leaves(path, *rest, (first + 1) as u64),
            ) {
                (Some(a), Some(b)) => Some(a + b),
                _ => None,
            }
        },
    }
}

/// Appends to `out` the scalar leaves of a value of type `t` at `path`;
/// returns false, and leaves `out` in some state, where there are none.
fn push_field_leaves(path: &Path, t: &IrType, out: &mut Vec<(Path, u32)>) -> (r: bool)
    ensures
        r == field_leaves(*path, *t) is Some,
        r ==> final(out)@ == old(out)@ + field_leaves(*path, *t).unwrap(),
    decreases t,
{
    match t {
        IrType::Struct { fields, .. } => push_list_leaves(path, &**fields, 0, out),
        IrType::Tuple(ts) => push_list_leaves(path, &**ts, 0, out),
        IrType::Enum { discriminant_bits, .. } => if 1 <= *discriminant_bits && *discriminant_bits <= 128 {
            let ghost before = out@;
            out.push((Path::new_qualified(path.duplicate(), PathSelector::Discriminant), *discriminant_bits));
            proof {
                assert(out@ =~= before + field_leaves(*path, *t).unwrap());
            }
            true
        } else {
            false
        },
        IrType::Array(e, n) => match scalar_width_of(&**e) {
            Some(w) => {
                let ghost before = out@;
                let ghost leaves = field_leaves(*path, *t).unwrap();
                let mut i: u64 = 0;
                while i < *n
                    invariant
                        i <= *n,
                        leaves == Seq::new(
                            *n as nat,
                            |k: int|
                                (
                                    Path::Qualified {
                                        qualifier: Box::new(*path),
                                        selector: PathSelector::Index(k as u64),
                                    },
                                    w,
                                ),
                        ),
                        out@ == before + leaves.take(i as int),
                    decreases *n - i,
                {
                    out.push((Path::new_qualified(path.duplicate(), PathSelector::Index(i)), w));
                    proof {
                        assert(out@ =~= before + leaves.take(i as int + 1));
                    }
                    i += 1;
                }
                proof {
                    assert(leaves.take(*n as int) =~= leaves);
                }
                true
            },
            None => false,
        },
        IrType::Ref(e) | IrType::RawPtr(e) | IrType::Boxed(e) => {
            let ghost before = out@;
            match &**e {
                IrType::Slice(_) | IrType::Str => {
                    out.push((Path::new_field(path.duplicate(), 0), 64));
                    out.push((Path::new_field(path.duplicate(), 1), 64));
                },
                _ => {
                    out.push((path.duplicate(), 64));
                },
            }
            proof {
                assert(out@ =~= before + field_leaves(*path, *t).unwrap());
            }
            true
        },
        _ => match scalar_width_of(t) {
            Some(w) => {
                let ghost before = out@;
                out.push((path.duplicate(), w));
                proof {
                    assert(out@ =~= before + field_leaves(*path, *t).unwrap());
                }
                true
            },
            None => false,
        },
    }
}

fn push_list_leaves(path: &Path, ts: &TypeList, first: u64, out: &mut Vec<(Path, u32)>) -> (r: bool)
    ensures
        r == list_leaves(*path, *ts, first) is Some,
        r ==> final(out)@ == old(out)@ + list_leaves(*path, *ts, first).unwrap(),
    decreases ts,
{
    match ts {
        TypeList::Nil => {
            assert(out@ =~= out@ + Seq::<(Path, u32)>::empty());
            true
        },
        TypeList::Cons(t, rest) => {
            if first == u64::MAX {
                return false;
            }
            let ghost before = out@;
            let field_path = Path::new_field(path.duplicate(), first);
            if !push_field_leaves(&field_path, &**t, out) {
                return false;
            }
            let ghost middle = out@;
            if !push_list_leaves(path, &**rest, first + 1, out) {
                return false;
            }
            proof {
                assert(out@ =~= before + list_leaves(*path, *ts, first).unwrap());
            }
            true
        },
    }
}

fn scalar_width_of(t: &IrType) -> (r: Option<u32>)
    ensures
        r == scalar_width(*t),
{
    match t {
        IrType::Bool => Some(8),
        IrType::Char => Some(32),
        IrType::Int { bits, .. } => if 1 <= *bits && *bits <= 128 {
            Some(*bits)
        } else {
            None
        },
        IrType::Ref(e) | IrType::RawPtr(e) | IrType::Boxed(e) => match &**e {
            IrType::Slice(_) | IrType::Str => None,
            _ => Some(64),
        },
        _ => None,
    }
}

/// The scalar leaves of a value of type `t` stored at `path`, in memory order.
pub fn get_field_leaves(path: &Path, t: &IrType) -> (r: Option<Vec<(Path, u32)>>)
    ensures
        match r {
            Some(v) => field_leaves(*path, *t) == Some(v@),
            None => field_leaves(*path, *t) is None,
        },
{
    let mut out: Vec<(Path, u32)> = Vec::new();
    if push_field_leaves(path, t, &mut out) {
        assert(out@ =~= Seq::<(Path, u32)>::empty() + field_leaves(*path, *t).unwrap());
        Some(out)
    } else {
        None
    }
}

pub proof fn lemma_field_leaves_widths(path: Path, t: IrType)
    ensures
        field_leaves(path, t) matches Some(leaves) ==> widths_valid(widths_of(leaves)),
    decreases t,
{
    match t {
        IrType::Struct { fields, .. } => lemma_list_leaves_widths(path, *fields, 0),
        IrType::Tuple(ts) => lemma_list_leaves_widths(path, *ts, 0),
        _ => {},
    }
}

pub proof fn lemma_list_leaves_widths(path: Path, ts: TypeList, first: u64)
    ensures
        list_leaves(path, ts, first) matches Some(leaves) ==> widths_valid(widths_of(leaves)),
    decreases ts,
{
    match ts {
        TypeList::Nil => {},
        TypeList::Cons(t, rest) => {
            if first < u64::MAX {
                let fp = Path::Qualified { qualifier: Box::new(path), selector: PathSelector::Field(first) };
                lemma_field_leaves_widths(fp, *t);
                lemma_list_leaves_widths(path, *rest, (first + 1) as u64);
                if let (Some(a), Some(b)) = (field_leaves(fp, *t), list_leaves(path, *rest, (first + 1) as u64)) {
                    assert(widths_of(a + b) =~= widths_of(a) + widths_of(b));
                }
            }
        },
    }
}

/// The bits of a scalar value, where they are known.
pub open spec fn known_bits(e: Expression) -> Option<u128> {
    match e {
        Expression::CompileTimeConstant(ConstantDomain::U128(v)) => Some(v),
        Expression::CompileTimeConstant(ConstantDomain::I128(v)) => if v >= 0 {
            Some(v as u128)
        } else {
            None
        },
        Expression::CompileTimeConstant(ConstantDomain::Bool(b)) => Some(if b { 1u128 } else { 0u128 }),
        _ => None,
    }
}

/// The widths and bits of the leaves `leaves` as bound in `m`, where all are known.
pub open spec fn leaf_bits(m: Map<Path, Expression>, leaves: Seq<(Path, u32)>) -> Option<Seq<(u32, u128)>>
    decreases leaves.len(),
{
    if leaves.len() == 0 {
        Some(Seq::empty())
    } else {
        let last = leaves.last();
        match (leaf_bits(m, leaves.drop_last()), if m.contains_key(last.0) {
            known_bits(m[last.0])
        } else {
            None
        }) {
            (Some(bits), Some(v)) => Some(bits.push((last.1, v))),
            _ => None,
        }
    }
}

/// `m` with each of the first `count` leaves bound to the unknown named by its path.
pub open spec fn havocked(m: Map<Path, Expression>, leaves: Seq<(Path, u32)>, count: nat) -> Map<
    Path,
    Expression,
>
    decreases count,
{
    if count == 0 {
        m
    } else {
        let p = leaves[count - 1].0;
        without_within(havocked(m, leaves, (count - 1) as nat), p).insert(p, Expression::Variable(p))
    }
}

fn bits_if_known(e: &Expression) -> (r: Option<u128>)
    ensures
        r == known_bits(*e),
{
    match e {
        Expression::CompileTimeConstant(ConstantDomain::U128(v)) => Some(*v),
        Expression::CompileTimeConstant(ConstantDomain::I128(v)) => if *v >= 0 {
            Some(*v as u128)
        } else {
            None
        },
        Expression::CompileTimeConstant(ConstantDomain::Bool(b)) => Some(if *b { 1 } else { 0 }),
        _ => None,
    }
}

/// The widths and current values of the leaves `leaves` as bound in `m`
/// (an unbound leaf is the unknown named by its path).
pub open spec fn leaf_exprs(m: Map<Path, Expression>, leaves: Seq<(Path, u32)>) -> Seq<(u32, Expression)> {
    Seq::new(leaves.len(), |i: int| (leaves[i].1, value_or_unknown(m, leaves[i].0)))
}

/// The bindings and warnings after the value of type `source_type` at
/// `source_path` is copied bit for bit into the location of type
/// `target_type` at `target_path`: the target's scalar leaves take the packed
/// bits of the source's leaves (warning when the source has too few bits):
/// as constants where every source leaf is a known constant, else as the
/// shifts, truncations and sums of the source values that put those bits
/// there. Where the source has no scalar layout the target's leaves become
/// unknown; where the target has none, the whole target does.
pub open spec fn transmuted(
    m: Map<Path, Expression>,
    warnings: Seq<Warning>,
    source_path: Path,
    source_type: IrType,
    target_path: Path,
    target_type: IrType,
) -> (Map<Path, Expression>, Seq<Warning>) {
    match field_leaves(target_path, target_type) {
        None => (
            without_within(m, target_path).insert(target_path, Expression::Variable(target_path)),
            warnings,
        ),
        Some(targets) => match field_leaves(source_path, source_type) {
            Some(sources) => if leaf_bits(m, sources) is Some {
                let (values, full) = transmute_spec(leaf_bits(m, sources).unwrap(), widths_of(targets));
                (
                    written(m, paths_of(targets), values, values.len()),
                    if full {
                        warnings
                    } else {
                        warnings.push(Warning::UnionNotFullyInitialized)
                    },
                )
            } else {
                symbolically_transmuted(m, warnings, leaf_exprs(m, sources), targets)
            },
            None => (havocked(m, targets, targets.len()), warnings),
        },
    }
}

impl<S: SmtSolver> BodyVisitor<S> {
    fn leaf_values(&self, leaves: &Vec<(Path, u32)>) -> (r: Option<Vec<(u32, u128)>>)
        requires
            self.wf(),
        ensures
            match r {
                Some(v) => leaf_bits(self.current_environment@, leaves@) == Some(v@),
                None => leaf_bits(self.current_environment@, leaves@) is None,
            },
    {
        let mut bits: Vec<(u32, u128)> = Vec::new();
        let n = leaves.len();
        let mut i: usize = 0;
        while i < n
            invariant
                self.wf(),
                n == leaves@.len(),
                i <= n,
                leaf_bits(self.current_environment@, leaves@.take(i as int)) == Some(bits@),
            decreases n - i,
        {
            proof {
                assert(leaves@.take(i as int + 1).drop_last() =~= leaves@.take(i as int));
            }
            let v = match self.current_environment.value_at(&leaves[i].0) {
                Some(e) => bits_if_known(e),
                None => None,
            };
            match v {
                Some(v) => bits.push((leaves[i].1, v)),
                None => {
                    proof {
                        lemma_leaf_bits_none_extends(self.current_environment@, leaves@, i as int + 1);
                        assert(leaves@.take(n as int) =~= leaves@);
                    }
                    return None;
                },
            }
            i += 1;
        }
        proof {
            assert(leaves@.take(n as int) =~= leaves@);
        }
        Some(bits)
    }

    fn havoc_leaves(&mut self, leaves: &Vec<(Path, u32)>)
        requires
            old(self).wf(),
        ensures
            final(self).wf(),
            final(self).current_environment@ == havocked(
                old(self).current_environment@,
                leaves@,
                leaves@.len(),
            ),
            final(self).current_environment.entry_condition
                == old(self).current_environment.entry_condition,
            final(self).buffered_diagnostics == old(self).buffered_diagnostics,
            final(self).heap_addresses == old(self).heap_addresses,
            final(self).next_heap_address == old(self).next_heap_address,
            final(self).current_location == old(self).current_location,
            final(self).smt_solver == old(self).smt_solver,
    {
        let n = leaves.len();
        let mut i: usize = 0;
        while i < n
            invariant
                n == leaves@.len(),
                i <= n,
                old(self).wf(),
                self.wf(),
                self.current_environment@ == havocked(old(self).current_environment@, leaves@, i as nat),
                self.current_environment.entry_condition
                    == old(self).current_environment.entry_condition,
                self.buffered_diagnostics == old(self).buffered_diagnostics,
                self.heap_addresses == old(self).heap_addresses,
                self.next_heap_address == old(self).next_heap_address,
                self.current_location == old(self).current_location,
                self.smt_solver == old(self).smt_solver,
            decreases n - i,
        {
            let p = leaves[i].0.duplicate();
            let unknown = Expression::Variable(p.duplicate());
            self.current_environment.strong_update_value_at(p, unknown);
            i += 1;
        }
    }

    /// Copies the value of type `source_type` at `source_path` into the
    /// location of type `target_type` at `target_path`, bit for bit: the
    /// scalar leaves of the target take the packed bits of the source's
    /// leaves. Where some source leaf is not a known constant, the target's
    /// leaves become unknown; where the target has no scalar layout, so does
    /// the whole target.
    pub fn copy_and_transmute(
        &mut self,
        source_path: &Path,
        source_type: &IrType,
        target_path: &Path,
        target_type: &IrType,
    )
        requires
            old(self).wf(),
        ensures
            final(self).wf(),
            (final(self).current_environment@, final(self).buffered_diagnostics@) == transmuted(
                old(self).current_environment@,
                old(self).buffered_diagnostics@,
                *source_path,
                *source_type,
                *target_path,
                *target_type,
            ),
            final(self).current_environment.entry_condition
                == old(self).current_environment.entry_condition,
            final(self).heap_addresses == old(self).heap_addresses,
            final(self).next_heap_address == old(self).next_heap_address,
            final(self).current_location == old(self).current_location,
            final(self).smt_solver == old(self).smt_solver,
    {
        let targets = match get_field_leaves(target_path, target_type) {
            Some(t) => t,
            None => {
                self.current_environment.strong_update_value_at(
                    target_path.duplicate(),
                    Expression::Variable(target_path.duplicate()),
                );
                return;
            },
        };
        proof {
            lemma_field_leaves_widths(*target_path, *target_type);
            lemma_field_leaves_widths(*source_path, *source_type);
        }
        let sources = match get_field_leaves(source_path, source_type) {
            Some(sources) => sources,
            None => {
                self.havoc_leaves(&targets);
                return;
            },
        };
        let source_bits = self.leaf_values(&sources);
        match source_bits {
            Some(bits) => {
                proof {
                    let sources = field_leaves(*source_path, *source_type).unwrap();
                    lemma_leaf_bits_widths(self.current_environment@, sources);
                }
                self.copy_field_bits(&bits, &targets);
            },
            None => {
                let values = self.leaf_expressions(&sources);
                proof {
                    assert forall|i: int| 0 <= i < values@.len() implies (#[trigger] values@[i]).0 <= 128 by {
                        assert(widths_of(sources@)[i] == sources@[i].1);
                    }
                }
                self.copy_field_bits_symbolically(&values, &targets);
            },
        }
    }

    fn leaf_expressions(&self, leaves: &Vec<(Path, u32)>) -> (r: Vec<(u32, Expression)>)
        ensures
            r@ == leaf_exprs(self.current_environment@, leaves@),
    {
        let mut r: Vec<(u32, Expression)> = Vec::new();
        let n = leaves.len();
        let mut i: usize = 0;
        while i < n
            invariant
                n == leaves@.len(),
                i <= n,
                r@ == leaf_exprs(self.current_environment@, leaves@).take(i as int),
            decreases n - i,
        {
            let v = match self.current_environment.value_at(&leaves[i].0) {
                Some(e) => e.duplicate(),
                None => Expression::Variable(leaves[i].0.duplicate()),
            };
            r.push((leaves[i].1, v));
            proof {
                assert(r@ =~= leaf_exprs(self.current_environment@, leaves@).take(i as int + 1));
            }
            i += 1;
        }
        proof {
            assert(leaf_exprs(self.current_environment@, leaves@).take(n as int) =~= leaf_exprs(self.current_environment@, leaves@));
        }
        r
    }
}

pub proof fn lemma_leaf_bits_none_extends(m: Map<Path, Expression>, leaves: Seq<(Path, u32)>, i: int)
    requires
        0 <= i <= leaves.len(),
        leaf_bits(m, leaves.take(i)) is None,
    ensures
        leaf_bits(m, leaves) is None,
    decreases leaves.len() - i,
{
    if i < leaves.len() {
        assert(leaves.take(i + 1).drop_last() =~= leaves.take(i));
        lemma_leaf_bits_none_extends(m, leaves, i + 1);
    } else {
        assert(leaves.take(i) =~= leaves);
    }
}

pub proof fn lemma_leaf_bits_widths(m: Map<Path, Expression>, leaves: Seq<(Path, u32)>)
    requires
        widths_valid(widths_of(leaves)),
    ensures
        leaf_bits(m, leaves) matches Some(bits) ==> source_valid(bits),
    decreases leaves.len(),
{
    if leaves.len() > 0 {
        assert(widths_valid(widths_of(leaves.drop_last()))) by {
            assert forall|i: int| 0 <= i < widths_of(leaves.drop_last()).len() implies 1 <= #[trigger] widths_of(leaves.drop_last())[i] <= 128 by {
                assert(widths_of(leaves)[i] == leaves[i].1);
            }
        }
        lemma_leaf_bits_widths(m, leaves.drop_last());
        assert(widths_of(leaves)[leaves.len() - 1] == leaves.last().1);
    }
}

} // verus!
