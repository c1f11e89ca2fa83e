//! Byte-exact transmutation of values that are not all known: each target
//! field is built from the source values by shifting, truncating and adding
//! the parts of them that fall on it.

use vstd::prelude::*;
use crate::body_visitor::{BodyVisitor, Warning};
use crate::condition::SmtSolver;
use crate::environment::without_within;
use crate::expression::Expression;
use crate::path::Path;
use crate::transmute::{offset_of, widths_of, widths_valid};

verus! {

/// The position at which source field `k` starts.
pub open spec fn start_of(src: Seq<(u32, Expression)>, k: int) -> int
    decreases k,
{
    if k <= 0 {
        0
    } else {
        start_of(src, k - 1) + src[k - 1].0 as int
    }
}

/// The part of the source value `v`, which occupies `width` bits from
/// position `start`, that falls on the target field of `field_width` bits at
/// `field_start`, moved to its place within that field.
pub open spec fn leaf_term(v: Expression, start: int, width: int, field_start: int, field_width: int) -> Option<
    Expression,
> {
    let lo = if field_start >= start { field_start } else { start };
    let hi = if field_start + field_width <= start + width { field_start + field_width } else { start + width };
    if lo < hi {
        Some(
            Expression::ShiftLeft {
                operand: Box::new(
                    Expression::UnsignedModulo {
                        operand: Box::new(Expression::UnsignedShiftRight { operand: Box::new(v), amount: (lo - start) as u32 }),
                        bits: (hi - lo) as u32,
                    },
                ),
                amount: (lo - field_start) as u32,
            },
        )
    } else {
        None
    }
}

/// The sum of the parts of the first `k` source values that fall on the
/// target field of `field_width` bits at `field_start`.
pub open spec fn field_expr(src: Seq<(u32, Expression)>, field_start: int, field_width: int, k: nat) -> Option<
    Expression,
>
    decreases k,
{
    if k == 0 {
        None
    } else {
        let prev = field_expr(src, field_start, field_width, (k - 1) as nat);
        match leaf_term(src[k - 1].1, start_of(src, k - 1), src[k - 1].0 as int, field_start, field_width) {
            None => prev,
            Some(t) => match prev {
                None => Some(t),
                Some(p) => Some(Expression::Add { left: Box::new(p), right: Box::new(t) }),
            },
        }
    }
}

/// The value of the target field of `field_width` bits at `field_start`.
pub open spec fn field_value(src: Seq<(u32, Expression)>, field_start: int, field_width: int) -> Expression {
    match field_expr(src, field_start, field_width, src.len()) {
        Some(e) => e,
        None => Expression::Top,
    }
}

/// The number of leading target fields among the first `n` that lie within
/// the `total` bits of the source.
pub open spec fn fields_covered(total: int, widths: Seq<u32>, n: nat) -> nat
    decreases n,
{
    if n == 0 {
        0
    } else {
        let prev = fields_covered(total, widths, (n - 1) as nat);
        if prev == n - 1 && offset_of(widths, n as int) <= total {
            n
        } else {
            prev
        }
    }
}

/// `m` with the first `count` target fields bound to their values.
pub open spec fn fields_written(
    m: Map<Path, Expression>,
    targets: Seq<(Path, u32)>,
    src: Seq<(u32, Expression)>,
    count: nat,
) -> Map<Path, Expression>
    decreases count,
{
    if count == 0 {
        m
    } else {
        let prev = fields_written(m, targets, src, (count - 1) as nat);
        let p = targets[count - 1].0;
        let v = field_value(src, offset_of(widths_of(targets), count - 1), targets[count - 1].1 as int);
        without_within(prev, p).insert(p, v)
    }
}

/// The bindings and warnings after the source values `src` are copied bit
/// for bit into the target fields.
pub open spec fn symbolically_transmuted(
    m: Map<Path, Expression>,
    warnings: Seq<Warning>,
    src: Seq<(u32, Expression)>,
    targets: Seq<(Path, u32)>,
) -> (Map<Path, Expression>, Seq<Warning>) {
    let covered = fields_covered(start_of(src, src.len() as int), widths_of(targets), targets.len());
    (
        fields_written(m, targets, src, covered),
        if covered == targets.len() {
            warnings
        } else {
            warnings.push(Warning::UnionNotFullyInitialized)
        },
    )
}

pub proof fn lemma_start_bounds(src: Seq<(u32, Expression)>, k: int)
    requires
        0 <= k <= src.len(),
        forall|i: int| 0 <= i < src.len() ==> (#[trigger] src[i]).0 <= 128,
    ensures
        0 <= start_of(src, k) <= 128 * k,
    decreases k,
{
    if k > 0 {
        lemma_start_bounds(src, k - 1);
    }
}

pub proof fn lemma_offset_bounds(widths: Seq<u32>, k: int)
    requires
        0 <= k <= widths.len(),
        widths_valid(widths),
    ensures
        0 <= offset_of(widths, k) <= 128 * k,
    decreases k,
{
    if k > 0 {
        lemma_offset_bounds(widths, k - 1);
    }
}

fn leaf_term_of(v: &Expression, start: u128, width: u32, field_start: u128, field_width: u32) -> (r: Option<Expression>)
    requires
        width <= 128,
        field_width <= 128,
        start + width <= u128::MAX,
        field_start + field_width <= u128::MAX,
    ensures
        r == leaf_term(*v, start as int, width as int, field_start as int, field_width as int),
{
    let lo = if field_start >= start { field_start } else { start };
    let hi = if field_start + field_width as u128 <= start + width as u128 {
        field_start + field_width as u128
    } else {
        start + width as u128
    };
    if lo < hi {
        Some(
            Expression::ShiftLeft {
                operand: Box::new(
                    Expression::UnsignedModulo {
                        operand: Box::new(
                            Expression::UnsignedShiftRight { operand: Box::new(v.duplicate()), amount: (lo - start) as u32 },
                        ),
                        bits: (hi - lo) as u32,
                    },
                ),
                amount: (lo - field_start) as u32,
            },
        )
    } else {
        None
    }
}

/// The value of the target field of `field_width` bits at `field_start`.
fn build_field(src: &Vec<(u32, Expression)>, field_start: u128, field_width: u32) -> (r: Expression)
    requires
        forall|i: int| 0 <= i < src@.len() ==> (#[trigger] src@[i]).0 <= 128,
        field_width <= 128,
        field_start <= 128 * usize::MAX,
    ensures
        r == field_value(src@, field_start as int, field_width as int),
{
    let mut acc: Option<Expression> = None;
    let mut start: u128 = 0;
    let n = src.len();
    let mut k: usize = 0;
    while k < n
        invariant
            n == src@.len(),
            k <= n,
            forall|i: int| 0 <= i < src@.len() ==> (#[trigger] src@[i]).0 <= 128,
            field_width <= 128,
            field_start <= 128 * usize::MAX,
            start as int == start_of(src@, k as int),
            acc == field_expr(src@, field_start as int, field_width as int, k as nat),
        decreases n - k,
    {
        proof {
            lemma_start_bounds(src@, k as int);
        }
        let (width, ref v) = src[k];
        let term = leaf_term_of(v, start, width, field_start, field_width);
        acc = match term {
            None => acc,
            Some(t) => match acc {
                None => Some(t),
                Some(p) => Some(Expression::Add { left: Box::new(p), right: Box::new(t) }),
            },
        };
        start = start + width as u128;
        k += 1;
    }
    match acc {
        Some(e) => e,
        None => Expression::Top,
    }
}

impl<S: SmtSolver> BodyVisitor<S> {
    /// Binds the target fields to the bits that the source values `src`
    /// (each with its width, packed least significant first) put on them;
    /// warns when the source runs out of bits first, leaving the fields it
    /// does not cover alone.
    pub fn copy_field_bits_symbolically(&mut self, src: &Vec<(u32, Expression)>, targets: &Vec<(Path, u32)>)
        requires
            old(self).wf(),
            forall|i: int| 0 <= i < src@.len() ==> (#[trigger] src@[i]).0 <= 128,
            widths_valid(widths_of(targets@)),
        ensures
            final(self).wf(),
            (final(self).current_environment@, final(self).buffered_diagnostics@) == symbolically_transmuted(
                old(self).current_environment@,
                old(self).buffered_diagnostics@,
                src@,
                targets@,
            ),
            final(self).current_environment.entry_condition
                == old(self).current_environment.entry_condition,
            final(self).heap_addresses == old(self).heap_addresses,
            final(self).next_heap_address == old(self).next_heap_address,
            final(self).current_location == old(self).current_location,
            final(self).smt_solver == old(self).smt_solver,
    {
        let mut total: u128 = 0;
        let n = src.len();
        let mut k: usize = 0;
        while k < n
            invariant
                n == src@.len(),
                k <= n,
                forall|i: int| 0 <= i < src@.len() ==> (#[trigger] src@[i]).0 <= 128,
                total as int == start_of(src@, k as int),
            decreases n - k,
        {
            proof {
                lemma_start_bounds(src@, k as int);
            }
            total = total + src[k].0 as u128;
            k += 1;
        }
        let ghost widths = widths_of(targets@);
        let count = targets.len();
        let mut offset: u128 = 0;
        let mut i: usize = 0;
        while i < count
            invariant
                count == targets@.len(),
                i <= count,
                widths == widths_of(targets@),
                widths_valid(widths),
                forall|j: int| 0 <= j < src@.len() ==> (#[trigger] src@[j]).0 <= 128,
                total as int == start_of(src@, src@.len() as int),
                offset as int == offset_of(widths, i as int),
                fields_covered(total as int, widths, i as nat) == i,
                old(self).wf(),
                self.wf(),
                self.current_environment@ == fields_written(old(self).current_environment@, targets@, src@, i as nat),
                self.current_environment.entry_condition
                    == old(self).current_environment.entry_condition,
                self.buffered_diagnostics == old(self).buffered_diagnostics,
                self.heap_addresses == old(self).heap_addresses,
                self.next_heap_address == old(self).next_heap_address,
                self.current_location == old(self).current_location,
                self.smt_solver == old(self).smt_solver,
            decreases count - i,
        {
            proof {
                lemma_offset_bounds(widths, i as int);
                assert(widths[i as int] == targets@[i as int].1);
            }
            let width = targets[i].1;
            if offset + width as u128 > total {
                proof {
                    lemma_fields_covered_stops(total as int, widths, i as nat, count as nat);
                }
                self.buffered_diagnostics.push(Warning::UnionNotFullyInitialized);
                return;
            }
            let value = build_field(src, offset, width);
            self.current_environment.strong_update_value_at(targets[i].0.duplicate(), value);
            offset = offset + width as u128;
            i += 1;
        }
    }
}

/// Once a field lies beyond the source's bits, no later field is counted as covered.
pub proof fn lemma_fields_covered_stops(total: int, widths: Seq<u32>, i: nat, n: nat)
    requires
        i < n,
        fields_covered(total, widths, i) == i,
        offset_of(widths, i as int + 1) > total,
    ensures
        fields_covered(total, widths, n) == i,
    decreases n,
{
    if n > i + 1 {
        lemma_fields_covered_stops(total, widths, i, (n - 1) as nat);
    }
}

} // verus!
