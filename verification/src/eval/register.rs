//! Evaluation of register-IR programs over an arbitrary value domain.
//!
//! Statements execute strictly in order against a register file modelled as
//! a map from register index to value. Reading a register that holds no
//! value would be a compiler defect; such programs are excluded by the
//! well-formedness precondition.

use std::collections::HashMap;

use vstd::prelude::*;

use crate::eval::expr::spec_apply;
use crate::ir::register::{
    defined_after,
    program_wf,
    stmt_reads,
    stmt_wf,
    stmts_wf,
    Expr,
    Program,
    Statement,
    Value,
};
use crate::math::number::Number;

verus! {

broadcast use vstd::std_specs::hash::group_hash_axioms;

/// The value an operand denotes under register file `env`.
pub open spec fn spec_value<T: Number>(v: Value, env: Map<usize, T>) -> T {
    match v {
        Value::Register(r) => env[r.index],
        Value::Number(bits) => T::spec_from_bits(bits),
    }
}

/// The register file after executing one statement.
pub open spec fn spec_step<T: Number>(s: Statement, env: Map<usize, T>) -> Map<usize, T> {
    match s.expr {
        Expr::Move(v) => env.insert(s.destination.index, spec_value(v, env)),
        Expr::Operation { operator, operand } => env.insert(
            s.destination.index,
            spec_apply(operator, env[s.destination.index], spec_value(operand, env)),
        ),
        Expr::IfPositive { predicate, consequent, alternative } => env.insert(
            s.destination.index,
            spec_value(predicate, env).spec_if_positive(
                spec_value(consequent, env),
                spec_value(alternative, env),
            ),
        ),
    }
}

/// The register file after executing `stmts` in order.
pub open spec fn spec_run<T: Number>(stmts: Seq<Statement>, env: Map<usize, T>) -> Map<usize, T>
    decreases stmts.len(),
{
    if stmts.len() == 0 {
        env
    } else {
        spec_run(stmts.drop_first(), spec_step(stmts[0], env))
    }
}

/// The value a program computes from the initial register file `env`.
pub open spec fn spec_program_value<T: Number>(p: &Program, env: Map<usize, T>) -> T {
    spec_value(p.output, spec_run(p.statements@, env))
}

/// Running statements only grows the register file's domain.
pub proof fn lemma_run_dom<T: Number>(stmts: Seq<Statement>, env: Map<usize, T>)
    ensures
        spec_run(stmts, env).dom() == defined_after(stmts, env.dom()),
    decreases stmts.len(),
{
    if stmts.len() != 0 {
        lemma_run_dom(stmts.drop_first(), spec_step(stmts[0], env));
        assert(spec_step(stmts[0], env).dom() == env.dom().insert(stmts[0].destination.index));
    }
}

/// Appending statement lists runs them in sequence.
pub proof fn lemma_run_append<T: Number>(
    s1: Seq<Statement>,
    s2: Seq<Statement>,
    env: Map<usize, T>,
)
    ensures
        spec_run(s1 + s2, env) == spec_run(s2, spec_run(s1, env)),
    decreases s1.len(),
{
    if s1.len() == 0 {
        assert(s1 + s2 == s2);
    } else {
        assert((s1 + s2).drop_first() == s1.drop_first() + s2);
        lemma_run_append(s1.drop_first(), s2, spec_step(s1[0], env));
    }
}

/// Read one operand from the register file.
fn evaluate_value<T: Number>(value: &Value, env: &HashMap<usize, T>) -> (r: T)
    requires
        value matches Value::Register(reg) ==> env@.dom().contains(reg.index),
    ensures
        r == spec_value(*value, env@),
{
    match value {
        Value::Register(reg) => {
            let entry = env.get(&reg.index);
            match entry {
                Some(v) => v.dup(),
                None => {
                    proof {
                        assert(env@.dom().contains(reg.index));
                    }
                    unreached()
                },
            }
        },
        Value::Number(bits) => T::from_bits(*bits),
    }
}

/// Execute a program: run every statement in order against the register
/// file `env`, then read the output value.
pub fn evaluate<T: Number>(program: &Program, env: HashMap<usize, T>) -> (r: T)
    requires
        program_wf(program, env@.dom()),
    ensures
        r == spec_program_value(program, env@),
{
    let ghost env0 = env@;
    let mut env = env;
    let n = program.statements.len();
    let mut i: usize = 0;
    proof {
        assert(program.statements@.skip(0) == program.statements@);
        assert(program.statements@.take(0) =~= Seq::<Statement>::empty());
    }
    while i < n
        invariant
            n == program.statements@.len(),
            0 <= i <= n,
            env@ == spec_run(program.statements@.take(i as int), env0),
            stmts_wf(program.statements@.skip(i as int), env@.dom()),
            program_wf(program, env0.dom()),
        decreases n - i,
    {
        let ghost pre = env@;
        let statement = &program.statements[i];
        proof {
            assert(program.statements@.skip(i as int)[0] == program.statements@[i as int]);
            assert(stmt_wf(program.statements@[i as int], env@.dom()));
            let s = program.statements@[i as int];
            match s.expr {
                Expr::Move(v) => {
                    if let Value::Register(r) = v {
                        assert(stmt_reads(s, r));
                    }
                },
                Expr::Operation { operand, .. } => {
                    assert(stmt_reads(s, s.destination));
                    if let Value::Register(r) = operand {
                        assert(stmt_reads(s, r));
                    }
                },
                Expr::IfPositive { predicate, consequent, alternative } => {
                    if let Value::Register(r) = predicate {
                        assert(stmt_reads(s, r));
                    }
                    if let Value::Register(r) = consequent {
                        assert(stmt_reads(s, r));
                    }
                    if let Value::Register(r) = alternative {
                        assert(stmt_reads(s, r));
                    }
                },
            }
        }
        match &statement.expr {
            Expr::Move(value) => {
                let v = evaluate_value(value, &env);
                env.insert(statement.destination.index, v);
            },
            Expr::Operation { operator, operand } => {
                let first = evaluate_value(operand, &env);
                let dest = env.get(&statement.destination.index);
                let current = match dest {
                    Some(v) => v.dup(),
                    None => {
                        proof {
                            assert(env@.dom().contains(statement.destination.index));
                        }
                        unreached()
                    },
                };
                let combined = match operator {
                    crate::ir::expr::Operator::Add => current.add(&first),
                    crate::ir::expr::Operator::Subtract => current.sub(&first),
                    crate::ir::expr::Operator::Multiply => current.mul(&first),
                    crate::ir::expr::Operator::Divide => current.div(&first),
                };
                env.insert(statement.destination.index, combined);
            },
            Expr::IfPositive { predicate, consequent, alternative } => {
                let p = evaluate_value(predicate, &env);
                let c = evaluate_value(consequent, &env);
                let a = evaluate_value(alternative, &env);
                let result = p.if_positive(&c, &a);
                env.insert(statement.destination.index, result);
            },
        }
        proof {
            assert(env@ == spec_step(program.statements@[i as int], pre));
            lemma_take_step(program.statements@, i as int, env0);
            assert(program.statements@.skip(i as int).drop_first() == program.statements@.skip(
                i as int + 1,
            ));
            assert(env@.dom() == pre.dom().insert(
                program.statements@[i as int].destination.index,
            ));
        }
        i = i + 1;
    }
    proof {
        assert(program.statements@.take(n as int) == program.statements@);
        lemma_run_dom(program.statements@, env0);
    }
    evaluate_value(&program.output, &env)
}

/// Running one more statement extends a prefix run by one step.
proof fn lemma_take_step<T: Number>(stmts: Seq<Statement>, i: int, env: Map<usize, T>)
    requires
        0 <= i < stmts.len(),
    ensures
        spec_run(stmts.take(i + 1), env) == spec_step(stmts[i], spec_run(stmts.take(i), env)),
{
    assert(stmts.take(i + 1) == stmts.take(i) + seq![stmts[i]]);
    lemma_run_append(stmts.take(i), seq![stmts[i]], env);
    let single = seq![stmts[i]];
    assert(single.len() == 1 && single[0] == stmts[i]);
    assert(single.drop_first().len() == 0);
    let mid = spec_run(stmts.take(i), env);
    assert(spec_run(single, mid) == spec_run(single.drop_first(), spec_step(single[0], mid)));
    assert(spec_run(single.drop_first(), spec_step(single[0], mid)) == spec_step(stmts[i], mid));
    assert(spec_run(single, spec_run(stmts.take(i), env)) == spec_step(
        stmts[i],
        spec_run(stmts.take(i), env),
    ));
}

} // verus!
