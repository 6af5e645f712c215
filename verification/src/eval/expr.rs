//! Direct evaluation of expression trees over an arbitrary value domain.
//!
//! This is the semantic reference for the compiler: the lowering stage is
//! proved to preserve exactly the value computed here.

use std::collections::HashMap;

use vstd::prelude::*;

use crate::ir::expr::{Expr, IfPositive, Operator};
use crate::math::number::Number;

verus! {

broadcast use vstd::std_specs::hash::group_hash_axioms;

/// The value of `operator` applied to `a` and `b`, in the value domain `T`.
pub open spec fn spec_apply<T: Number>(operator: Operator, a: T, b: T) -> T {
    match operator {
        Operator::Add => a.spec_add(b),
        Operator::Subtract => a.spec_sub(b),
        Operator::Multiply => a.spec_mul(b),
        Operator::Divide => a.spec_div(b),
    }
}

/// The value of expression `e` under the variable binding `env`.
pub open spec fn spec_evaluate<T: Number>(e: Expr, env: Map<usize, T>) -> T
    decreases e,
{
    match e {
        Expr::Operation { operator, lhs, rhs } => spec_apply(
            operator,
            spec_evaluate(*lhs, env),
            spec_evaluate(*rhs, env),
        ),
        Expr::Variable(index) => env[index],
        Expr::Number(bits) => T::spec_from_bits(bits),
        Expr::IfPositive(node) => spec_evaluate(node.predicate, env).spec_if_positive(
            spec_evaluate(node.consequent, env),
            spec_evaluate(node.alternative, env),
        ),
    }
}

/// Every variable of `e` lies in `dom`.
pub open spec fn vars_bound(e: Expr, dom: Set<usize>) -> bool
    decreases e,
{
    match e {
        Expr::Operation { operator, lhs, rhs } => vars_bound(*lhs, dom) && vars_bound(*rhs, dom),
        Expr::Variable(index) => dom.contains(index),
        Expr::Number(_) => true,
        Expr::IfPositive(node) => vars_bound(node.predicate, dom) && vars_bound(
            node.consequent,
            dom,
        ) && vars_bound(node.alternative, dom),
    }
}

/// Recursive tree-walking evaluator.
pub fn evaluate_rec<T: Number>(e: &Expr, env: &HashMap<usize, T>) -> (r: T)
    requires
        vars_bound(*e, env@.dom()),
    ensures
        r == spec_evaluate(*e, env@),
    decreases *e,
{
    match e {
        Expr::Operation { operator, lhs, rhs } => {
            let first = evaluate_rec(lhs, env);
            let second = evaluate_rec(rhs, env);
            match operator {
                Operator::Add => first.add(&second),
                Operator::Subtract => first.sub(&second),
                Operator::Multiply => first.mul(&second),
                Operator::Divide => first.div(&second),
            }
        },
        Expr::Variable(index) => {
            let value = env.get(index);
            match value {
                Some(v) => v.dup(),
                None => {
                    proof {
                        assert(env@.dom().contains(*index));
                    }
                    unreached()
                },
            }
        },
        Expr::Number(bits) => T::from_bits(*bits),
        Expr::IfPositive(node) => {
            let predicate = evaluate_rec(&node.predicate, env);
            let consequent = evaluate_rec(&node.consequent, env);
            let alternative = evaluate_rec(&node.alternative, env);
            predicate.if_positive(&consequent, &alternative)
        },
    }
}

/// Evaluate expression `e` under the variable binding `env`.
pub fn evaluate<T: Number>(e: &Expr, env: &HashMap<usize, T>) -> (r: T)
    requires
        vars_bound(*e, env@.dom()),
    ensures
        r == spec_evaluate(*e, env@),
{
    evaluate_rec(e, env)
}

} // verus!
