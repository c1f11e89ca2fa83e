//! Abstract values: constants, symbolic unknowns, references, heap blocks and
//! their layouts, offsets, sums and tagged values.

use vstd::prelude::*;
use crate::path::Path;
use crate::tags::Tag;

verus! {

/// A value known at compile time.
#[derive(PartialEq, Eq, Structural, Hash, Debug, Copy, Clone)]
pub enum ConstantDomain {
    Bool(bool),
    I128(i128),
    U128(u128),
}

/// Which allocator operation produced a heap-block layout.
#[derive(PartialEq, Eq, Structural, Hash, Debug, Copy, Clone)]
pub enum LayoutSource {
    Alloc,
    ReAlloc,
    DeAlloc,
}

/// An abstract value.
#[derive(PartialEq, Eq, Hash, Debug)]
pub enum Expression {
    Top,
    Bottom,
    CompileTimeConstant(ConstantDomain),
    InitialParameterValue(Path),
    Variable(Path),
    Reference(Path),
    HeapBlock { abstract_address: u64, is_zeroed: bool },
    HeapBlockLayout { length: u128, alignment: u128, source: LayoutSource },
    Offset { left: Box<Expression>, right: Box<Expression> },
    Add { left: Box<Expression>, right: Box<Expression> },
    LogicalNot { operand: Box<Expression> },
    Or { left: Box<Expression>, right: Box<Expression> },
    And { left: Box<Expression>, right: Box<Expression> },
    LessOrEqual { left: Box<Expression>, right: Box<Expression> },
    /// The bits of `operand` from position `amount` on, moved down to position 0.
    UnsignedShiftRight { operand: Box<Expression>, amount: u32 },
    /// The low `bits` bits of `operand`.
    UnsignedModulo { operand: Box<Expression>, bits: u32 },
    /// `operand` moved up by `amount` bit positions.
    ShiftLeft { operand: Box<Expression>, amount: u32 },
    ConditionalExpression {
        condition: Box<Expression>,
        consequent: Box<Expression>,
        alternate: Box<Expression>,
    },
    Tagged { tag: Tag, operand: Box<Expression> },
    UnknownTagField(Path),
}

impl Expression {
    /// The boolean this expression is known to have, if any.
    pub open spec fn known_bool(self) -> Option<bool>
        decreases self,
    {
        match self {
            Expression::CompileTimeConstant(ConstantDomain::Bool(b)) => Some(b),
            Expression::LogicalNot { operand } => match operand.known_bool() {
                Some(b) => Some(!b),
                None => None,
            },
            Expression::Tagged { operand, .. } => operand.known_bool(),
            _ => None,
        }
    }

    /// Whether the abstract domains can tell that `self` implies `cond`.
    pub open spec fn spec_implies(self, cond: Expression) -> bool {
        self.known_bool() == Some(false) || cond.known_bool() == Some(true) || self == cond
    }

    /// Whether the abstract domains can tell that `self` implies `!cond`.
    pub open spec fn spec_implies_not(self, cond: Expression) -> bool {
        self.known_bool() == Some(false) || cond.known_bool() == Some(false)
            || self == (Expression::LogicalNot { operand: Box::new(cond) })
            || cond == (Expression::LogicalNot { operand: Box::new(self) })
    }

    /// The boolean this expression is known to have, if any.
    pub fn as_bool_if_known(&self) -> (r: Option<bool>)
        ensures
            r == self.known_bool(),
        decreases self,
    {
        match self {
            Expression::CompileTimeConstant(ConstantDomain::Bool(b)) => Some(*b),
            Expression::LogicalNot { operand } => match (&**operand).as_bool_if_known() {
                Some(b) => Some(!b),
                None => None,
            },
            Expression::Tagged { operand, .. } => (&**operand).as_bool_if_known(),
            _ => None,
        }
    }

    /// Returns true if `self` is known to imply `cond`.
    pub fn implies(&self, cond: &Expression) -> (r: bool)
        ensures
            r == self.spec_implies(*cond),
    {
        self.as_bool_if_known() == Some(false) || cond.as_bool_if_known() == Some(true)
            || self.same_as(cond)
    }

    /// Returns true if `self` is known to imply the negation of `cond`.
    pub fn implies_not(&self, cond: &Expression) -> (r: bool)
        ensures
            r == self.spec_implies_not(*cond),
    {
        if self.as_bool_if_known() == Some(false) || cond.as_bool_if_known() == Some(false) {
            return true;
        }
        match (self, cond) {
            (Expression::LogicalNot { operand }, _) => {
                if (&**operand).same_as(cond) {
                    return true;
                }
            },
            _ => {},
        }
        match cond {
            Expression::LogicalNot { operand } => (&**operand).same_as(self),
            _ => false,
        }
    }

    /// `left || right`, folded where either side is known or both are the same.
    pub open spec fn spec_or(left: Expression, right: Expression) -> Expression {
        if left.known_bool() == Some(true) || right.known_bool() == Some(false) || left == right {
            left
        } else if left.known_bool() == Some(false) || right.known_bool() == Some(true) {
            right
        } else {
            Expression::Or { left: Box::new(left), right: Box::new(right) }
        }
    }

    /// `if condition { consequent } else { alternate }`, folded where the
    /// condition is known or both branches are the same.
    pub open spec fn spec_conditional(
        condition: Expression,
        consequent: Expression,
        alternate: Expression,
    ) -> Expression {
        if condition.known_bool() == Some(true) || consequent == alternate {
            consequent
        } else if condition.known_bool() == Some(false) {
            alternate
        } else {
            Expression::ConditionalExpression {
                condition: Box::new(condition),
                consequent: Box::new(consequent),
                alternate: Box::new(alternate),
            }
        }
    }

    /// `left || right`.
    pub fn or(left: Expression, right: Expression) -> (r: Expression)
        ensures
            r == Expression::spec_or(left, right),
    {
        let lb = left.as_bool_if_known();
        let rb = right.as_bool_if_known();
        if lb == Some(true) || rb == Some(false) || left.same_as(&right) {
            left
        } else if lb == Some(false) || rb == Some(true) {
            right
        } else {
            Expression::Or { left: Box::new(left), right: Box::new(right) }
        }
    }

    /// `if condition { consequent } else { alternate }`.
    pub fn conditional_expression(
        condition: Expression,
        consequent: Expression,
        alternate: Expression,
    ) -> (r: Expression)
        ensures
            r == Expression::spec_conditional(condition, consequent, alternate),
    {
        let cb = condition.as_bool_if_known();
        if cb == Some(true) || consequent.same_as(&alternate) {
            consequent
        } else if cb == Some(false) {
            alternate
        } else {
            Expression::ConditionalExpression {
                condition: Box::new(condition),
                consequent: Box::new(consequent),
                alternate: Box::new(alternate),
            }
        }
    }

    /// The negation of `operand`.
    pub fn logical_not(operand: Expression) -> (r: Expression)
        ensures
            r == (Expression::LogicalNot { operand: Box::new(operand) }),
    {
        Expression::LogicalNot { operand: Box::new(operand) }
    }

    /// Structural equality.
    pub fn same_as(&self, other: &Expression) -> (r: bool)
        ensures
            r == (*self == *other),
        decreases self,
    {
        match (self, other) {
            (Expression::Top, Expression::Top) => true,
            (Expression::Bottom, Expression::Bottom) => true,
            (Expression::CompileTimeConstant(a), Expression::CompileTimeConstant(b)) => *a == *b,
            (Expression::InitialParameterValue(a), Expression::InitialParameterValue(b)) => a.same_as(b),
            (Expression::Variable(a), Expression::Variable(b)) => a.same_as(b),
            (Expression::Reference(a), Expression::Reference(b)) => a.same_as(b),
            (
                Expression::HeapBlock { abstract_address: a1, is_zeroed: z1 },
                Expression::HeapBlock { abstract_address: a2, is_zeroed: z2 },
            ) => *a1 == *a2 && *z1 == *z2,
            (
                Expression::HeapBlockLayout { length: l1, alignment: a1, source: s1 },
                Expression::HeapBlockLayout { length: l2, alignment: a2, source: s2 },
            ) => *l1 == *l2 && *a1 == *a2 && *s1 == *s2,
            (
                Expression::Offset { left: l1, right: r1 },
                Expression::Offset { left: l2, right: r2 },
            ) => (&**l1).same_as(&**l2) && (&**r1).same_as(&**r2),
            (Expression::Add { left: l1, right: r1 }, Expression::Add { left: l2, right: r2 }) => {
                (&**l1).same_as(&**l2) && (&**r1).same_as(&**r2)
            },
            (Expression::LogicalNot { operand: o1 }, Expression::LogicalNot { operand: o2 }) => {
                (&**o1).same_as(&**o2)
            },
            (Expression::Or { left: l1, right: r1 }, Expression::Or { left: l2, right: r2 }) => {
                (&**l1).same_as(&**l2) && (&**r1).same_as(&**r2)
            },
            (Expression::And { left: l1, right: r1 }, Expression::And { left: l2, right: r2 }) => {
                (&**l1).same_as(&**l2) && (&**r1).same_as(&**r2)
            },
            (
                Expression::LessOrEqual { left: l1, right: r1 },
                Expression::LessOrEqual { left: l2, right: r2 },
            ) => (&**l1).same_as(&**l2) && (&**r1).same_as(&**r2),
            (
                Expression::UnsignedShiftRight { operand: o1, amount: a1 },
                Expression::UnsignedShiftRight { operand: o2, amount: a2 },
            ) => *a1 == *a2 && (&**o1).same_as(&**o2),
            (
                Expression::UnsignedModulo { operand: o1, bits: a1 },
                Expression::UnsignedModulo { operand: o2, bits: a2 },
            ) => *a1 == *a2 && (&**o1).same_as(&**o2),
            (
                Expression::ShiftLeft { operand: o1, amount: a1 },
                Expression::ShiftLeft { operand: o2, amount: a2 },
            ) => *a1 == *a2 && (&**o1).same_as(&**o2),
            (
                Expression::ConditionalExpression { condition: c1, consequent: t1, alternate: e1 },
                Expression::ConditionalExpression { condition: c2, consequent: t2, alternate: e2 },
            ) => (&**c1).same_as(&**c2) && (&**t1).same_as(&**t2) && (&**e1).same_as(&**e2),
            (
                Expression::Tagged { tag: t1, operand: o1 },
                Expression::Tagged { tag: t2, operand: o2 },
            ) => *t1 == *t2 && (&**o1).same_as(&**o2),
            (Expression::UnknownTagField(a), Expression::UnknownTagField(b)) => a.same_as(b),
            _ => false,
        }
    }

    /// A copy of this expression.
    pub fn duplicate(&self) -> (r: Expression)
        ensures
            r == *self,
        decreases self,
    {
        match self {
            Expression::Top => Expression::Top,
            Expression::Bottom => Expression::Bottom,
            Expression::CompileTimeConstant(c) => Expression::CompileTimeConstant(*c),
            Expression::InitialParameterValue(p) => Expression::InitialParameterValue(p.duplicate()),
            Expression::Variable(p) => Expression::Variable(p.duplicate()),
            Expression::Reference(p) => Expression::Reference(p.duplicate()),
            Expression::HeapBlock { abstract_address, is_zeroed } => Expression::HeapBlock {
                abstract_address: *abstract_address,
                is_zeroed: *is_zeroed,
            },
            Expression::HeapBlockLayout { length, alignment, source } => Expression::HeapBlockLayout {
                length: *length,
                alignment: *alignment,
                source: *source,
            },
            Expression::Offset { left, right } => Expression::Offset {
                left: Box::new((&**left).duplicate()),
                right: Box::new((&**right).duplicate()),
            },
            Expression::Add { left, right } => Expression::Add {
                left: Box::new((&**left).duplicate()),
                right: Box::new((&**right).duplicate()),
            },
            Expression::LogicalNot { operand } => Expression::LogicalNot {
                operand: Box::new((&**operand).duplicate()),
            },
            Expression::Or { left, right } => Expression::Or {
                left: Box::new((&**left).duplicate()),
                right: Box::new((&**right).duplicate()),
            },
            Expression::And { left, right } => Expression::And {
                left: Box::new((&**left).duplicate()),
                right: Box::new((&**right).duplicate()),
            },
            Expression::LessOrEqual { left, right } => Expression::LessOrEqual {
                left: Box::new((&**left).duplicate()),
                right: Box::new((&**right).duplicate()),
            },
            Expression::UnsignedShiftRight { operand, amount } => Expression::UnsignedShiftRight {
                operand: Box::new((&**operand).duplicate()),
                amount: *amount,
            },
            Expression::UnsignedModulo { operand, bits } => Expression::UnsignedModulo {
                operand: Box::new((&**operand).duplicate()),
                bits: *bits,
            },
            Expression::ShiftLeft { operand, amount } => Expression::ShiftLeft {
                operand: Box::new((&**operand).duplicate()),
                amount: *amount,
            },
            Expression::ConditionalExpression { condition, consequent, alternate } =>
                Expression::ConditionalExpression {
                condition: Box::new((&**condition).duplicate()),
                consequent: Box::new((&**consequent).duplicate()),
                alternate: Box::new((&**alternate).duplicate()),
            },
            Expression::Tagged { tag, operand } => Expression::Tagged {
                tag: *tag,
                operand: Box::new((&**operand).duplicate()),
            },
            Expression::UnknownTagField(p) => Expression::UnknownTagField(p.duplicate()),
        }
    }
}

} // verus!
