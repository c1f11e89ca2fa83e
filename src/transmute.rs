//! Byte-exact transmutation: the bits of a sequence of source fields, packed
//! least significant first, are dealt out to a sequence of target fields.

use vstd::prelude::*;
use crate::body_visitor::{BodyVisitor, Warning};
use crate::condition::SmtSolver;
use crate::environment::without_within;
use crate::expression::{ConstantDomain, Expression};
use crate::path::Path;

verus! {

/// 2 to the power `n`.
pub open spec fn pow2(n: nat) -> int
    decreases n,
{
    if n == 0 {
        1
    } else {
        2 * pow2((n - 1) as nat)
    }
}

/// The low `width` bits of `v`, least significant first.
pub open spec fn bits_of(v: int, width: nat) -> Seq<bool>
    decreases width,
{
    if width == 0 {
        Seq::empty()
    } else {
        seq![v % 2 == 1] + bits_of(v / 2, (width - 1) as nat)
    }
}

/// The number whose bits, least significant first, are `s`.
pub open spec fn from_bits(s: Seq<bool>) -> int
    decreases s.len(),
{
    if s.len() == 0 {
        0
    } else {
        (if s[0] {
            1int
        } else {
            0int
        }) + 2 * from_bits(s.drop_first())
    }
}

/// The bits of the source fields `(width, value)`, in order.
pub open spec fn stream_of(fields: Seq<(u32, u128)>) -> Seq<bool>
    decreases fields.len(),
{
    if fields.len() == 0 {
        Seq::empty()
    } else {
        stream_of(fields.drop_last()) + bits_of(
            fields.last().1 as int,
            fields.last().0 as nat,
        )
    }
}

/// The position at which target field `i` starts.
pub open spec fn offset_of(widths: Seq<u32>, i: int) -> int
    decreases i,
{
    if i <= 0 {
        0
    } else {
        offset_of(widths, i - 1) + widths[i - 1] as int
    }
}

/// Every width is between 1 and 128.
pub open spec fn widths_valid(widths: Seq<u32>) -> bool {
    forall|i: int| 0 <= i < widths.len() ==> 1 <= #[trigger] widths[i] <= 128
}

/// Every source field has a width between 1 and 128.
pub open spec fn source_valid(fields: Seq<(u32, u128)>) -> bool {
    forall|i: int| 0 <= i < fields.len() ==> 1 <= (#[trigger] fields[i]).0 <= 128
}

pub proof fn lemma_from_bits_bounds(s: Seq<bool>)
    ensures
        0 <= from_bits(s) < pow2(s.len()),
    decreases s.len(),
{
    if s.len() > 0 {
        lemma_from_bits_bounds(s.drop_first());
    }
}

pub proof fn lemma_pow2_positive(n: nat)
    ensures
        pow2(n) > 0,
    decreases n,
{
    if n > 0 {
        lemma_pow2_positive((n - 1) as nat);
    }
}

pub proof fn lemma_pow2_monotone(a: nat, b: nat)
    requires
        a <= b,
    ensures
        pow2(a) <= pow2(b),
    decreases b,
{
    if a < b {
        lemma_pow2_monotone(a, (b - 1) as nat);
        lemma_pow2_positive((b - 1) as nat);
    }
}

pub proof fn lemma_pow2_add(a: nat, b: nat)
    ensures
        pow2(a + b) == pow2(a) * pow2(b),
    decreases a,
{
    if a > 0 {
        lemma_pow2_add((a - 1) as nat, b);
        assert(pow2(a + b) == 2 * pow2((a - 1 + b) as nat));
        assert(2 * (pow2((a - 1) as nat) * pow2(b)) == (2 * pow2((a - 1) as nat)) * pow2(b))
            by (nonlinear_arith);
    }
}

pub proof fn lemma_pow2_128()
    ensures
        pow2(127) == 0x8000_0000_0000_0000_0000_0000_0000_0000int,
        pow2(128) == u128::MAX + 1,
{
    reveal_with_fuel(pow2, 9);
    assert(pow2(8) == 256);
    assert(pow2(7) == 128);
    lemma_pow2_add(8, 8);
    lemma_pow2_add(8, 7);
    assert(pow2(16) == 0x1_0000);
    assert(pow2(15) == 0x8000);
    lemma_pow2_add(16, 16);
    lemma_pow2_add(16, 15);
    assert(pow2(32) == 0x1_0000_0000) by (nonlinear_arith)
        requires
            pow2(32) == pow2(16) * pow2(16),
            pow2(16) == 0x1_0000,
    ;
    assert(pow2(31) == 0x8000_0000) by (nonlinear_arith)
        requires
            pow2(31) == pow2(16) * pow2(15),
            pow2(16) == 0x1_0000,
            pow2(15) == 0x8000,
    ;
    lemma_pow2_add(32, 32);
    lemma_pow2_add(32, 31);
    assert(pow2(64) == 0x1_0000_0000_0000_0000) by (nonlinear_arith)
        requires
            pow2(64) == pow2(32) * pow2(32),
            pow2(32) == 0x1_0000_0000,
    ;
    assert(pow2(63) == 0x8000_0000_0000_0000) by (nonlinear_arith)
        requires
            pow2(63) == pow2(32) * pow2(31),
            pow2(32) == 0x1_0000_0000,
            pow2(31) == 0x8000_0000,
    ;
    lemma_pow2_add(64, 64);
    lemma_pow2_add(64, 63);
    assert(pow2(128) == 0x1_0000_0000_0000_0000_0000_0000_0000_0000int) by (nonlinear_arith)
        requires
            pow2(128) == pow2(64) * pow2(64),
            pow2(64) == 0x1_0000_0000_0000_0000,
    ;
    assert(pow2(127) == 0x8000_0000_0000_0000_0000_0000_0000_0000int) by (nonlinear_arith)
        requires
            pow2(127) == pow2(64) * pow2(63),
            pow2(64) == 0x1_0000_0000_0000_0000,
            pow2(63) == 0x8000_0000_0000_0000,
    ;
}

/// The value read back from a field's bits has exactly those bits.
pub proof fn lemma_bits_of_from_bits(s: Seq<bool>)
    ensures
        bits_of(from_bits(s), s.len()) == s,
    decreases s.len(),
{
    if s.len() > 0 {
        let rest = s.drop_first();
        lemma_bits_of_from_bits(rest);
        lemma_from_bits_bounds(rest);
        let b: int = if s[0] {
            1
        } else {
            0
        };
        let v = b + 2 * from_bits(rest);
        assert(v % 2 == b);
        assert(v / 2 == from_bits(rest));
        assert(bits_of(v, s.len()) =~= s);
    }
}

/// The bits of the source fields, in order.
pub fn source_bit_stream(fields: &Vec<(u32, u128)>) -> (r: Vec<bool>)
    requires
        source_valid(fields@),
    ensures
        r@ == stream_of(fields@),
{
    let mut r: Vec<bool> = Vec::new();
    let n = fields.len();
    let mut i: usize = 0;
    while i < n
        invariant
            n == fields@.len(),
            i <= n,
            r@ == stream_of(fields@.take(i as int)),
        decreases n - i,
    {
        let (width, value) = fields[i];
        let ghost before = r@;
        let mut x: u128 = value;
        let mut j: u32 = 0;
        while j < width
            invariant
                j <= width,
                r@ + bits_of(x as int, (width - j) as nat) == before + bits_of(
                    value as int,
                    width as nat,
                ),
            decreases width - j,
        {
            let ghost rest = bits_of(x as int / 2, (width - j - 1) as nat);
            assert(bits_of(x as int, (width - j) as nat) == seq![x % 2 == 1] + rest);
            assert(r@.push(x % 2 == 1) + rest =~= r@ + (seq![x % 2 == 1] + rest));
            r.push(x % 2 == 1);
            x = x / 2;
            j += 1;
        }
        proof {
            assert(r@ + bits_of(x as int, 0) =~= r@);
            assert(fields@.take(i as int + 1).drop_last() =~= fields@.take(i as int));
        }
        i += 1;
    }
    proof {
        assert(fields@.take(n as int) =~= fields@);
    }
    r
}

/// Target field `i` lies within the source's bits, and `v` is the number they form.
pub open spec fn field_read(source: Seq<(u32, u128)>, widths: Seq<u32>, i: int, v: u128) -> bool {
    &&& offset_of(widths, i + 1) <= stream_of(source).len()
    &&& v as int == from_bits(
        stream_of(source).subrange(offset_of(widths, i), offset_of(widths, i + 1)),
    )
}

/// The number formed by the `width` bits of `stream` from position `offset`.
pub fn read_field(stream: &Vec<bool>, offset: usize, width: u32) -> (r: u128)
    requires
        1 <= width <= 128,
        offset + width <= stream@.len(),
    ensures
        r as int == from_bits(stream@.subrange(offset as int, offset + width)),
{
    let mut value: u128 = 0;
    let mut j: u32 = width;
    let len = stream.len();
    proof {
        assert(stream@.subrange(offset + width, offset + width) =~= Seq::<bool>::empty());
    }
    while j > 0
        invariant
            j <= width <= 128,
            offset + width <= stream@.len(),
            len == stream@.len(),
            value as int == from_bits(stream@.subrange(offset + j, offset + width)),
        decreases j,
    {
        let ghost tail = stream@.subrange(offset + j, offset + width);
        proof {
            lemma_from_bits_bounds(tail);
            lemma_pow2_monotone(tail.len(), 127);
            lemma_pow2_128();
        }
        let index: usize = offset + (j as usize) - 1;
        let bit = stream[index];
        value = value * 2 + if bit {
            1
        } else {
            0
        };
        j -= 1;
        proof {
            let s = stream@.subrange(offset + j, offset + width);
            assert(s.drop_first() =~= tail);
            assert(s[0] == bit);
        }
    }
    value
}

/// The values the target fields of widths `target_widths` take when the bits
/// of `source` are dealt out to them in order; only the fields that the
/// source covers completely get a value. The flag tells whether all of them did.
pub fn transmute_fields(source: &Vec<(u32, u128)>, target_widths: &Vec<u32>) -> (r: (Vec<u128>, bool))
    requires
        source_valid(source@),
        widths_valid(target_widths@),
    ensures
        r.0@.len() <= target_widths@.len(),
        forall|i: int|
            0 <= i < r.0@.len() ==> #[trigger] field_read(source@, target_widths@, i, r.0@[i]),
        r.1 == (r.0@.len() == target_widths@.len()),
        !r.1 ==> offset_of(target_widths@, r.0@.len() as int + 1) > stream_of(source@).len(),
{
    let stream = source_bit_stream(source);
    let mut values: Vec<u128> = Vec::new();
    let n = target_widths.len();
    let mut offset: usize = 0;
    let mut i: usize = 0;
    while i < n
        invariant
            n == target_widths@.len(),
            widths_valid(target_widths@),
            stream@ == stream_of(source@),
            i <= n,
            values@.len() == i,
            offset as int == offset_of(target_widths@, i as int),
            offset <= stream@.len(),
            forall|k: int|
                0 <= k < i ==> #[trigger] field_read(source@, target_widths@, k, values@[k]),
        decreases n - i,
    {
        let width = target_widths[i];
        if width as usize > stream.len() - offset {
            return (values, false);
        }
        let v = read_field(&stream, offset, width);
        let ghost old_values = values@;
        values.push(v);
        proof {
            assert(offset_of(target_widths@, i as int + 1) == offset + width);
            assert forall|k: int|
                0 <= k < i + 1 implies #[trigger] field_read(source@, target_widths@, k, values@[k]) by {
                if k < i {
                    assert(values@[k] == old_values[k]);
                    assert(field_read(source@, target_widths@, k, old_values[k]));
                }
            }
        }
        offset = offset + width as usize;
        i += 1;
    }
    (values, true)
}

/// `m` after binding each of the first `count` paths to the matching value,
/// invalidating what lies within it.
pub open spec fn written(m: Map<Path, Expression>, paths: Seq<Path>, values: Seq<u128>, count: nat) -> Map<
    Path,
    Expression,
>
    decreases count,
{
    if count == 0 {
        m
    } else {
        let prev = written(m, paths, values, (count - 1) as nat);
        let p = paths[count - 1];
        without_within(prev, p).insert(
            p,
            Expression::CompileTimeConstant(ConstantDomain::U128(values[count - 1])),
        )
    }
}

/// The paths of a list of target fields.
pub open spec fn paths_of(fields: Seq<(Path, u32)>) -> Seq<Path> {
    fields.map_values(|f: (Path, u32)| f.0)
}

/// The widths of a list of target fields.
pub open spec fn widths_of(fields: Seq<(Path, u32)>) -> Seq<u32> {
    fields.map_values(|f: (Path, u32)| f.1)
}

impl<S: SmtSolver> BodyVisitor<S> {
    /// Binds the target fields to the values they hold when the packed bits
    /// of the source fields are copied over them on a little-endian machine.
    /// Warns when the source runs out of bits before the last target field
    /// is filled; the fields it does not fill are left alone.
    pub fn copy_field_bits(&mut self, source_fields: &Vec<(u32, u128)>, target_fields: &Vec<(Path, u32)>)
        requires
            old(self).wf(),
            source_valid(source_fields@),
            widths_valid(widths_of(target_fields@)),
        ensures
            final(self).wf(),
            ({
                let (values, full) = transmute_spec(source_fields@, widths_of(target_fields@));
                &&& final(self).current_environment@ == written(
                    old(self).current_environment@,
                    paths_of(target_fields@),
                    values,
                    values.len(),
                )
                &&& final(self).buffered_diagnostics@ == if full {
                    old(self).buffered_diagnostics@
                } else {
                    old(self).buffered_diagnostics@.push(Warning::UnionNotFullyInitialized)
                }
            }),
            final(self).current_environment.entry_condition
                == old(self).current_environment.entry_condition,
            final(self).heap_addresses == old(self).heap_addresses,
            final(self).next_heap_address == old(self).next_heap_address,
            final(self).current_location == old(self).current_location,
            final(self).smt_solver == old(self).smt_solver,
    {
        let mut widths: Vec<u32> = Vec::new();
        let n = target_fields.len();
        let mut i: usize = 0;
        while i < n
            invariant
                n == target_fields@.len(),
                i <= n,
                widths@ == widths_of(target_fields@).take(i as int),
            decreases n - i,
        {
            widths.push(target_fields[i].1);
            i += 1;
            proof {
                assert(widths@ =~= widths_of(target_fields@).take(i as int));
            }
        }
        proof {
            assert(widths@ =~= widths_of(target_fields@));
        }
        let (values, full) = transmute_fields(source_fields, &widths);
        proof {
            lemma_transmute_spec(source_fields@, widths@, values@, full);
        }
        let m = values.len();
        let mut j: usize = 0;
        while j < m
            invariant
                m == values@.len(),
                m <= n,
                n == target_fields@.len(),
                j <= m,
                old(self).wf(),
                self.wf(),
                self.current_environment@ == written(
                    old(self).current_environment@,
                    paths_of(target_fields@),
                    values@,
                    j as nat,
                ),
                self.current_environment.entry_condition
                    == old(self).current_environment.entry_condition,
                self.buffered_diagnostics == old(self).buffered_diagnostics,
                self.heap_addresses == old(self).heap_addresses,
                self.next_heap_address == old(self).next_heap_address,
                self.current_location == old(self).current_location,
                self.smt_solver == old(self).smt_solver,
            decreases m - j,
        {
            let path = target_fields[j].0.duplicate();
            let value = Expression::CompileTimeConstant(ConstantDomain::U128(values[j]));
            self.current_environment.strong_update_value_at(path, value);
            j += 1;
        }
        if !full {
            self.buffered_diagnostics.push(Warning::UnionNotFullyInitialized);
        }
    }
}

/// What `transmute_fields` returns: the values of the target fields that the
/// source covers, in order, and whether it covers them all.
pub open spec fn transmute_spec(source: Seq<(u32, u128)>, widths: Seq<u32>) -> (Seq<u128>, bool) {
    let covered = covered_count(source, widths, widths.len() as nat);
    (
        Seq::new(covered, |i: int| from_bits(
            stream_of(source).subrange(offset_of(widths, i), offset_of(widths, i + 1)),
        ) as u128),
        covered == widths.len(),
    )
}

/// The number of leading target fields, among the first `n`, that lie within the source's bits.
pub open spec fn covered_count(source: Seq<(u32, u128)>, widths: Seq<u32>, n: nat) -> nat
    decreases n,
{
    if n == 0 {
        0
    } else {
        let prev = covered_count(source, widths, (n - 1) as nat);
        if prev == n - 1 && offset_of(widths, n as int) <= stream_of(source).len() {
            n
        } else {
            prev
        }
    }
}

pub proof fn lemma_offset_monotone(widths: Seq<u32>, a: int, b: int)
    requires
        0 <= a <= b,
    ensures
        offset_of(widths, a) <= offset_of(widths, b),
        offset_of(widths, a) >= 0,
    decreases b,
{
    if a < b {
        lemma_offset_monotone(widths, a, b - 1);
    } else if a > 0 {
        lemma_offset_monotone(widths, a - 1, a - 1);
    }
}

pub proof fn lemma_covered_count(source: Seq<(u32, u128)>, widths: Seq<u32>, n: nat, c: nat)
    requires
        c <= n,
        forall|i: int| 1 <= i <= c ==> #[trigger] offset_of(widths, i) <= stream_of(source).len(),
        c < n ==> offset_of(widths, c as int + 1) > stream_of(source).len(),
    ensures
        covered_count(source, widths, n) == c,
    decreases n,
{
    if n > 0 {
        if c == n {
            lemma_covered_count(source, widths, (n - 1) as nat, (n - 1) as nat);
            assert(offset_of(widths, n as int) <= stream_of(source).len());
        } else {
            lemma_covered_count(source, widths, (n - 1) as nat, c);
        }
    }
}

/// The result of `transmute_fields` is `transmute_spec`.
pub proof fn lemma_transmute_spec(
    source: Seq<(u32, u128)>,
    widths: Seq<u32>,
    values: Seq<u128>,
    full: bool,
)
    requires
        values.len() <= widths.len(),
        forall|i: int| 0 <= i < values.len() ==> #[trigger] field_read(source, widths, i, values[i]),
        full == (values.len() == widths.len()),
        !full ==> offset_of(widths, values.len() as int + 1) > stream_of(source).len(),
    ensures
        transmute_spec(source, widths) == (values, full),
{
    assert forall|i: int| 1 <= i <= values.len() implies #[trigger] offset_of(widths, i) <= stream_of(
        source,
    ).len() by {
        assert(field_read(source, widths, i - 1, values[i - 1]));
    }
    lemma_covered_count(source, widths, widths.len() as nat, values.len() as nat);
    let (vs, f) = transmute_spec(source, widths);
    assert forall|i: int| 0 <= i < values.len() implies vs[i] == values[i] by {
        assert(field_read(source, widths, i, values[i]));
    }
    assert(vs =~= values);
}

pub proof fn lemma_covered_count_bound(source: Seq<(u32, u128)>, widths: Seq<u32>, n: nat)
    ensures
        covered_count(source, widths, n) <= n,
    decreases n,
{
    if n > 0 {
        lemma_covered_count_bound(source, widths, (n - 1) as nat);
    }
}

pub proof fn lemma_covered_fields_within(source: Seq<(u32, u128)>, widths: Seq<u32>, n: nat, i: int)
    requires
        0 <= i < covered_count(source, widths, n),
    ensures
        offset_of(widths, i + 1) <= stream_of(source).len(),
    decreases n,
{
    if n > 0 {
        let prev = covered_count(source, widths, (n - 1) as nat);
        if i < prev {
            lemma_covered_fields_within(source, widths, (n - 1) as nat, i);
        }
    }
}

/// Union aliasing: after the bits of a value are copied over a case of a
/// union, each field the case fills holds exactly the bits of the value that
/// fall on it, so reading the field back bit for bit gives the value's bits.
pub proof fn lemma_union_case_bits(source: Seq<(u32, u128)>, widths: Seq<u32>, i: int)
    requires
        source_valid(source),
        widths_valid(widths),
        0 <= i < transmute_spec(source, widths).0.len(),
    ensures
        bits_of(transmute_spec(source, widths).0[i] as int, widths[i] as nat) == stream_of(
            source,
        ).subrange(offset_of(widths, i), offset_of(widths, i + 1)),
{
    lemma_covered_fields_within(source, widths, widths.len() as nat, i);
    lemma_covered_count_bound(source, widths, widths.len() as nat);
    assert(1 <= widths[i] <= 128);
    lemma_offset_monotone(widths, i, i + 1);
    let s = stream_of(source).subrange(offset_of(widths, i), offset_of(widths, i + 1));
    assert(s.len() == widths[i]);
    lemma_from_bits_bounds(s);
    lemma_pow2_monotone(s.len(), 128);
    lemma_pow2_128();
    lemma_bits_of_from_bits(s);
}

} // verus!
