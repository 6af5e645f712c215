//! The input language: an immutable arithmetic/conditional expression tree.
//!
//! A `Number` leaf stores the raw 32-bit pattern of the scalar float it
//! denotes; what that pattern means is delegated to the value domain
//! ([`crate::math::number::Number`]).

use vstd::prelude::*;

use crate::math::number::Number;

verus! {

/// A binary arithmetic operator.
#[derive(Clone, Copy, PartialEq, Eq, Structural, Debug)]
pub enum Operator {
    Add,
    Subtract,
    Multiply,
    Divide,
}

impl Operator {
    /// Addition and multiplication may have their operands exchanged by the
    /// lowering stage; subtraction and division may not.
    pub open spec fn spec_is_associative(self) -> bool {
        self == Operator::Add || self == Operator::Multiply
    }

    pub fn is_associative(&self) -> (r: bool)
        ensures
            r == self.spec_is_associative(),
    {
        match self {
            Operator::Add => true,
            Operator::Multiply => true,
            Operator::Subtract => false,
            Operator::Divide => false,
        }
    }
}

/// A conditional node: `consequent` if `predicate` is at least zero, else
/// `alternative`.
#[derive(PartialEq, Debug)]
pub struct IfPositive {
    pub predicate: Expr,
    pub consequent: Expr,
    pub alternative: Expr,
}

/// An expression tree.
#[derive(PartialEq, Debug)]
pub enum Expr {
    Operation { operator: Operator, lhs: Box<Expr>, rhs: Box<Expr> },
    Variable(usize),
    /// A constant, stored as the raw 32-bit pattern of the float it denotes.
    Number(u32),
    IfPositive(Box<IfPositive>),
}

impl Expr {
    pub fn if_positive_node(self, consequent: Expr, alternative: Expr) -> (r: Expr)
        ensures
            (r matches Expr::IfPositive(b) && b.predicate == self && b.consequent == consequent
                && b.alternative == alternative),
    {
        Expr::IfPositive(
            Box::new(IfPositive { predicate: self, consequent, alternative }),
        )
    }

    pub fn operation(self, operator: Operator, rhs: Expr) -> (r: Expr)
        ensures
            (r matches Expr::Operation { operator: o, lhs, rhs: right } && o == operator && *lhs
                == self && *right == rhs),
    {
        Expr::Operation { operator, lhs: Box::new(self), rhs: Box::new(rhs) }
    }

    pub fn add(self, rhs: Expr) -> (r: Expr)
        ensures
            (r matches Expr::Operation { operator, lhs, rhs: right } && operator == Operator::Add
                && *lhs == self && *right == rhs),
    {
        self.operation(Operator::Add, rhs)
    }

    pub fn sub(self, rhs: Expr) -> (r: Expr)
        ensures
            (r matches Expr::Operation { operator, lhs, rhs: right } && operator
                == Operator::Subtract && *lhs == self && *right == rhs),
    {
        self.operation(Operator::Subtract, rhs)
    }

    pub fn mul(self, rhs: Expr) -> (r: Expr)
        ensures
            (r matches Expr::Operation { operator, lhs, rhs: right } && operator
                == Operator::Multiply && *lhs == self && *right == rhs),
    {
        self.operation(Operator::Multiply, rhs)
    }

    pub fn div(self, rhs: Expr) -> (r: Expr)
        ensures
            (r matches Expr::Operation { operator, lhs, rhs: right } && operator
                == Operator::Divide && *lhs == self && *right == rhs),
    {
        self.operation(Operator::Divide, rhs)
    }
}

/// Expressions themselves form a value domain: arithmetic builds operation
/// nodes, so that a symbolic run of the pipeline yields expression trees.
impl Number for Expr {
    open spec fn spec_add(self, other: Self) -> Self {
        Expr::Operation { operator: Operator::Add, lhs: Box::new(self), rhs: Box::new(other) }
    }

    open spec fn spec_sub(self, other: Self) -> Self {
        Expr::Operation { operator: Operator::Subtract, lhs: Box::new(self), rhs: Box::new(other) }
    }

    open spec fn spec_mul(self, other: Self) -> Self {
        Expr::Operation { operator: Operator::Multiply, lhs: Box::new(self), rhs: Box::new(other) }
    }

    open spec fn spec_div(self, other: Self) -> Self {
        Expr::Operation { operator: Operator::Divide, lhs: Box::new(self), rhs: Box::new(other) }
    }

    open spec fn spec_if_positive(self, consequent: Self, alternative: Self) -> Self {
        Expr::IfPositive(
            Box::new(IfPositive { predicate: self, consequent, alternative }),
        )
    }

    open spec fn spec_from_bits(bits: u32) -> Self {
        Expr::Number(bits)
    }

    fn add(&self, other: &Self) -> Self {
        self.dup().operation(Operator::Add, other.dup())
    }

    fn sub(&self, other: &Self) -> Self {
        self.dup().operation(Operator::Subtract, other.dup())
    }

    fn mul(&self, other: &Self) -> Self {
        self.dup().operation(Operator::Multiply, other.dup())
    }

    fn div(&self, other: &Self) -> Self {
        self.dup().operation(Operator::Divide, other.dup())
    }

    fn if_positive(&self, consequent: &Self, alternative: &Self) -> Self {
        self.dup().if_positive_node(consequent.dup(), alternative.dup())
    }

    fn from_bits(bits: u32) -> Self {
        Expr::Number(bits)
    }

    fn dup(&self) -> (r: Self)
        decreases *self,
    {
        match self {
            Expr::Operation { operator, lhs, rhs } => Expr::Operation {
                operator: *operator,
                lhs: Box::new(lhs.dup()),
                rhs: Box::new(rhs.dup()),
            },
            Expr::Variable(i) => Expr::Variable(*i),
            Expr::Number(bits) => Expr::Number(*bits),
            Expr::IfPositive(node) => Expr::IfPositive(
                Box::new(
                    IfPositive {
                        predicate: node.predicate.dup(),
                        consequent: node.consequent.dup(),
                        alternative: node.alternative.dup(),
                    },
                ),
            ),
        }
    }
}

} // verus!
