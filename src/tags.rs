//! Tags: monotonic markers attached to values, each with a mask that chooses
//! the operations it flows through.

use vstd::prelude::*;
use crate::annotations::{enables, TagPropagation, TagPropagationSet};
use crate::expression::{ConstantDomain, Expression};

verus! {

/// A tag: the identity of the tag type and its propagation mask.
#[derive(PartialEq, Eq, Structural, Hash, Debug, Copy, Clone)]
pub struct Tag {
    pub def_id: u64,
    pub prop_set: TagPropagationSet,
}

impl Tag {
    /// Whether this tag flows through the operation `p`.
    pub open spec fn propagates(self, p: TagPropagation) -> bool {
        enables(self.prop_set, p)
    }

    /// Returns true if this tag is propagated by the operation `p`.
    pub fn is_propagated_by(&self, p: TagPropagation) -> (r: bool)
        ensures
            r == self.propagates(p),
    {
        self.prop_set & p.into_set() != 0
    }
}

/// Whether `e` carries `t`: attached to it, or flowing into it from an
/// operand through an operation that `t` propagates over.
pub open spec fn has_tag(e: Expression, t: Tag) -> bool
    decreases e,
{
    match e {
        Expression::Tagged { tag, operand } => tag == t || has_tag(*operand, t),
        Expression::Add { left, right } => t.propagates(TagPropagation::Add) && (has_tag(*left, t)
            || has_tag(*right, t)),
        Expression::Offset { left, right } => t.propagates(TagPropagation::Offset) && (has_tag(
            *left,
            t,
        ) || has_tag(*right, t)),
        Expression::LogicalNot { operand } => t.propagates(TagPropagation::LogicalNot) && has_tag(
            *operand,
            t,
        ),
        _ => false,
    }
}

/// The sum of `left` and `right`: folded where both are unsigned constants
/// whose sum fits, else a symbolic sum.
pub open spec fn sum_of(left: Expression, right: Expression) -> Expression {
    match (left, right) {
        (
            Expression::CompileTimeConstant(ConstantDomain::U128(a)),
            Expression::CompileTimeConstant(ConstantDomain::U128(b)),
        ) => if a + b <= u128::MAX {
            Expression::CompileTimeConstant(ConstantDomain::U128((a + b) as u128))
        } else {
            Expression::Add { left: Box::new(left), right: Box::new(right) }
        },
        _ => Expression::Add { left: Box::new(left), right: Box::new(right) },
    }
}

impl Expression {
    /// Returns true if this value carries `tag`.
    pub fn has_tag(&self, tag: &Tag) -> (r: bool)
        ensures
            r == has_tag(*self, *tag),
        decreases self,
    {
        match self {
            Expression::Tagged { tag: t, operand } => *t == *tag || (&**operand).has_tag(tag),
            Expression::Add { left, right } => tag.is_propagated_by(TagPropagation::Add) && (
            (&**left).has_tag(tag) || (&**right).has_tag(tag)),
            Expression::Offset { left, right } => tag.is_propagated_by(TagPropagation::Offset) && (
            (&**left).has_tag(tag) || (&**right).has_tag(tag)),
            Expression::LogicalNot { operand } => tag.is_propagated_by(TagPropagation::LogicalNot)
                && (&**operand).has_tag(tag),
            _ => false,
        }
    }

    /// This value with `tag` attached.
    pub fn add_tag(self, tag: Tag) -> (r: Expression)
        ensures
            r == (Expression::Tagged { tag, operand: Box::new(self) }),
            forall|t: Tag| has_tag(r, t) <==> (has_tag(self, t) || t == tag),
    {
        Expression::Tagged { tag, operand: Box::new(self) }
    }

    /// The sum of this value and `other`.
    pub fn addition(self, other: Expression) -> (r: Expression)
        ensures
            r == sum_of(self, other),
            forall|t: Tag|
                has_tag(r, t) <==> (t.propagates(TagPropagation::Add) && (has_tag(self, t)
                    || has_tag(other, t))),
    {
        match (&self, &other) {
            (
                Expression::CompileTimeConstant(ConstantDomain::U128(a)),
                Expression::CompileTimeConstant(ConstantDomain::U128(b)),
            ) => {
                if *a <= u128::MAX - *b {
                    return Expression::CompileTimeConstant(ConstantDomain::U128(*a + *b));
                }
            },
            _ => {},
        }
        Expression::Add { left: Box::new(self), right: Box::new(other) }
    }
}

} // verus!
