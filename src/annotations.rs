//! Annotations understood by the analyzer, and the tag propagation masks that
//! control how a tag flows through operations.

use vstd::prelude::*;

verus! {

/// A bit vector: bit `k` enables propagation of a tag over the operation
/// whose `TagPropagation::index` is `k`.
pub type TagPropagationSet = u128;

/// The operations over which the flow of a tag can be controlled.
#[derive(Ord, PartialOrd, Eq, PartialEq, Structural, Debug, Copy, Clone)]
pub enum TagPropagation {
    Add,
    AddOverflows,
    And,
    BitAnd,
    BitNot,
    BitOr,
    BitXor,
    Cast,
    Div,
    Equals,
    GreaterOrEqual,
    GreaterThan,
    IntrinsicBinary,
    IntrinsicBitVectorUnary,
    IntrinsicFloatingPointUnary,
    LessOrEqual,
    LessThan,
    LogicalNot,
    Memcmp,
    Mul,
    MulOverflows,
    Ne,
    Neg,
    Or,
    Offset,
    Rem,
    Shl,
    ShlOverflows,
    Shr,
    ShrOverflows,
    Sub,
    /// Tagging a structured value also tags all of the component values.
    SubComponent,
    SubOverflows,
    /// Tagging a value also tags any structured value that includes it.
    SuperComponent,
    Transmute,
    UninterpretedCall,
}

/// The number of propagation kinds; each owns one bit below this position.
pub const NUM_TAG_PROPAGATIONS: u32 = 36;

/// A mask in which every kind of propagation is enabled.
pub const TAG_PROPAGATION_ALL: TagPropagationSet = 0xf_ffff_ffff;

impl TagPropagation {
    /// The position of this kind's bit, in declaration order.
    pub open spec fn index(self) -> u32 {
        match self {
            TagPropagation::Add => 0,
            TagPropagation::AddOverflows => 1,
            TagPropagation::And => 2,
            TagPropagation::BitAnd => 3,
            TagPropagation::BitNot => 4,
            TagPropagation::BitOr => 5,
            TagPropagation::BitXor => 6,
            TagPropagation::Cast => 7,
            TagPropagation::Div => 8,
            TagPropagation::Equals => 9,
            TagPropagation::GreaterOrEqual => 10,
            TagPropagation::GreaterThan => 11,
            TagPropagation::IntrinsicBinary => 12,
            TagPropagation::IntrinsicBitVectorUnary => 13,
            TagPropagation::IntrinsicFloatingPointUnary => 14,
            TagPropagation::LessOrEqual => 15,
            TagPropagation::LessThan => 16,
            TagPropagation::LogicalNot => 17,
            TagPropagation::Memcmp => 18,
            TagPropagation::Mul => 19,
            TagPropagation::MulOverflows => 20,
            TagPropagation::Ne => 21,
            TagPropagation::Neg => 22,
            TagPropagation::Or => 23,
            TagPropagation::Offset => 24,
            TagPropagation::Rem => 25,
            TagPropagation::Shl => 26,
            TagPropagation::ShlOverflows => 27,
            TagPropagation::Shr => 28,
            TagPropagation::ShrOverflows => 29,
            TagPropagation::Sub => 30,
            TagPropagation::SubComponent => 31,
            TagPropagation::SubOverflows => 32,
            TagPropagation::SuperComponent => 33,
            TagPropagation::Transmute => 34,
            TagPropagation::UninterpretedCall => 35,
        }
    }

    /// The singleton set that enables only this kind.
    pub open spec fn bit(self) -> TagPropagationSet {
        1u128 << self.index()
    }

    fn bit_index(self) -> (r: u32)
        ensures
            r == self.index(),
            r < NUM_TAG_PROPAGATIONS,
    {
        match self {
            TagPropagation::Add => 0,
            TagPropagation::AddOverflows => 1,
            TagPropagation::And => 2,
            TagPropagation::BitAnd => 3,
            TagPropagation::BitNot => 4,
            TagPropagation::BitOr => 5,
            TagPropagation::BitXor => 6,
            TagPropagation::Cast => 7,
            TagPropagation::Div => 8,
            TagPropagation::Equals => 9,
            TagPropagation::GreaterOrEqual => 10,
            TagPropagation::GreaterThan => 11,
            TagPropagation::IntrinsicBinary => 12,
            TagPropagation::IntrinsicBitVectorUnary => 13,
            TagPropagation::IntrinsicFloatingPointUnary => 14,
            TagPropagation::LessOrEqual => 15,
            TagPropagation::LessThan => 16,
            TagPropagation::LogicalNot => 17,
            TagPropagation::Memcmp => 18,
            TagPropagation::Mul => 19,
            TagPropagation::MulOverflows => 20,
            TagPropagation::Ne => 21,
            TagPropagation::Neg => 22,
            TagPropagation::Or => 23,
            TagPropagation::Offset => 24,
            TagPropagation::Rem => 25,
            TagPropagation::Shl => 26,
            TagPropagation::ShlOverflows => 27,
            TagPropagation::Shr => 28,
            TagPropagation::ShrOverflows => 29,
            TagPropagation::Sub => 30,
            TagPropagation::SubComponent => 31,
            TagPropagation::SubOverflows => 32,
            TagPropagation::SuperComponent => 33,
            TagPropagation::Transmute => 34,
            TagPropagation::UninterpretedCall => 35,
        }
    }

    /// Constructs the singleton `TagPropagationSet` that enables only this kind.
    pub fn into_set(self) -> (r: TagPropagationSet)
        ensures
            r == self.bit(),
    {
        let k = self.bit_index();
        1u128 << k
    }
}

/// Whether `set` enables the propagation kind `p`.
pub open spec fn enables(set: TagPropagationSet, p: TagPropagation) -> bool {
    set & p.bit() != 0
}

/// Enables `propagation` in `set`; a no-op if it is already enabled.
pub fn add_propagation(set: TagPropagationSet, propagation: TagPropagation) -> (r: TagPropagationSet)
    ensures
        r == set | propagation.bit(),
{
    set | propagation.into_set()
}

/// Disables `propagation` in `set`; a no-op if it is already disabled.
pub fn remove_propagation(set: TagPropagationSet, propagation: TagPropagation) -> (r:
    TagPropagationSet)
    ensures
        r == set & !propagation.bit(),
{
    set & !propagation.into_set()
}

/// Marks a value that the analyzer should treat abstractly; at run time it is
/// the value itself.
pub fn hepha_abstract_value<T>(x: T) -> (r: T)
    ensures
        r == x,
{
    x
}

/// Associates the tag type `T` with a value; no effect at run time.
pub fn hepha_add_tag<V: ?Sized, T>(_v: &V) {
}

/// Asks whether a value carries the tag type `T`; at run time the answer is `false`.
pub fn hepha_has_tag<V: ?Sized, T>(_v: &V) -> (r: bool)
    ensures
        !r,
{
    false
}

/// Asks whether a value lacks the tag type `T`; at run time the answer is `false`.
pub fn hepha_does_not_have_tag<V: ?Sized, T>(_v: &V) -> (r: bool)
    ensures
        !r,
{
    false
}

/// Lets the analyzer assume a condition; no effect at run time.
pub fn hepha_assume(_condition: bool) {
}

/// Lets the analyzer assume the preconditions of the current function; no effect at run time.
pub fn hepha_assume_preconditions() {
}

/// States a postcondition for the analyzer; no effect at run time.
pub fn hepha_postcondition(_condition: bool, _assumed: bool, _message: &str) {
}

/// Opens a group of preconditions for the analyzer; no effect at run time.
pub fn hepha_precondition_start() {
}

/// States a precondition for the analyzer; no effect at run time.
pub fn hepha_precondition(_condition: bool, _message: &str) {
}

/// States a condition the analyzer must verify; no effect at run time.
pub fn hepha_verify(_condition: bool, _message: &str) {
}

/// Reads a model field of `_target`; at run time it is the default value.
pub fn hepha_get_model_field<T, V>(_target: T, _field_name: &str, default_value: V) -> (r: V)
    ensures
        r == default_value,
{
    default_value
}

/// Writes a model field of `_target`; no effect at run time.
pub fn hepha_set_model_field<T, V>(_target: T, _field_name: &str, _value: V) {
}

/// Distinct kinds own distinct bits.
pub proof fn lemma_bits_distinct(p: TagPropagation, q: TagPropagation)
    ensures
        p.bit() != 0,
        p != q ==> p.bit() & q.bit() == 0,
{
    let i = p.index();
    let j = q.index();
    assert(i < 128);
    assert(j < 128);
    assert(i < 128 ==> (1u128 << i) != 0) by (bit_vector);
    assert(i != j && i < 128 && j < 128 ==> (1u128 << i) & (1u128 << j) == 0) by (bit_vector);
}

/// After `add_propagation(s, t)` exactly the kinds enabled in `s`, and `t`, are enabled.
pub proof fn lemma_add_propagation_enables(s: TagPropagationSet, t: TagPropagation, u: TagPropagation)
    ensures
        enables(s | t.bit(), u) <==> (enables(s, u) || u == t),
{
    lemma_bits_distinct(t, u);
    let a = t.bit();
    let b = u.bit();
    assert((s | a) & b == (s & b) | (a & b)) by (bit_vector);
    assert(a & a == a) by (bit_vector);
    assert(b != 0 ==> ((s & b) | b) != 0) by (bit_vector);
    assert(a & b == 0 ==> (s & b) | (a & b) == s & b) by (bit_vector);
}

/// After `remove_propagation(s, t)` exactly the kinds enabled in `s`, but `t`, are enabled.
pub proof fn lemma_remove_propagation_enables(s: TagPropagationSet, t: TagPropagation, u: TagPropagation)
    ensures
        enables(s & !t.bit(), u) <==> (enables(s, u) && u != t),
{
    lemma_bits_distinct(t, u);
    let a = t.bit();
    let b = u.bit();
    assert((s & !a) & a == 0) by (bit_vector);
    assert(a & b == 0 ==> (s & !a) & b == s & b) by (bit_vector);
}

/// Re-enabling a kind after disabling it gives the set with that kind added:
/// `add_propagation(remove_propagation(s, t), t) == s ∪ {t}`.
pub proof fn lemma_add_after_remove(s: TagPropagationSet, t: TagPropagation)
    ensures
        (s & !t.bit()) | t.bit() == s | t.bit(),
{
    let a = t.bit();
    assert((s & !a) | a == s | a) by (bit_vector);
}

/// Disabling a kind after enabling it gives the set with that kind removed:
/// `remove_propagation(add_propagation(s, t), t) == s ∖ {t}`.
pub proof fn lemma_remove_after_add(s: TagPropagationSet, t: TagPropagation)
    ensures
        (s | t.bit()) & !t.bit() == s & !t.bit(),
{
    let a = t.bit();
    assert((s | a) & !a == s & !a) by (bit_vector);
}

/// `TAG_PROPAGATION_ALL` enables every kind.
pub proof fn lemma_all_enables(p: TagPropagation)
    ensures
        enables(TAG_PROPAGATION_ALL, p),
{
    let i = p.index();
    assert(i < 36);
    assert(i < 36 ==> (0xf_ffff_ffffu128 & (1u128 << i)) != 0) by (bit_vector);
}

} // verus!
