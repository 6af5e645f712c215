use std::collections::HashMap;

use exprc::compile::flatten::to_program;
use exprc::eval;
use exprc::ir::expr::{Expr, Operator};
use exprc::ir::register;
use exprc::math::number::Number;

fn reg(index: usize) -> register::Register {
    register::Register { index }
}

/// Lowering `Variable(0) + Number(2.0)` with input `[r0]` must not mutate
/// the caller-owned r0: it copies into a fresh register and accumulates
/// there.
#[test]
fn in_place_reuse() {
    let two = 2.0f32.to_bits();
    let expr = Expr::Variable(0).add(Expr::Number(two));
    let program = to_program(&expr, vec![reg(0)]);

    assert_eq!(program.input, vec![reg(0)]);
    assert_eq!(
        program.statements,
        vec![
            register::Statement {
                destination: reg(1),
                expr: register::Expr::Move(register::Value::Register(reg(0))),
            },
            register::Statement {
                destination: reg(1),
                expr: register::Expr::Operation {
                    operator: Operator::Add,
                    operand: register::Value::Number(two),
                },
            },
        ]
    );
    assert_eq!(program.output, register::Value::Register(reg(1)));
}

/// A dead intermediate is accumulated into in place: no fresh register for
/// the outer subtraction and division.
#[test]
fn dead_intermediate_reused() {
    let c = 3.5f32.to_bits();
    // (x0 * x1 - 3.5) / x0
    let expr = Expr::Variable(0)
        .mul(Expr::Variable(1))
        .sub(Expr::Number(c))
        .div(Expr::Variable(0));
    let program = to_program(&expr, vec![reg(0), reg(1)]);

    // one fresh register does all the work
    assert_eq!(program.statements.len(), 4);
    for statement in &program.statements {
        assert_eq!(statement.destination, reg(2));
    }
    assert_eq!(program.output, register::Value::Register(reg(2)));
}

/// The lowering round trip, run in the symbolic domain: evaluating the
/// tree directly and running the lowered program against the same binding
/// yield the same expression value.
#[test]
fn round_trip_symbolic() {
    let c = 3.5f32.to_bits();
    let expr = Expr::Variable(0)
        .mul(Expr::Variable(1))
        .sub(Expr::Number(c))
        .div(Expr::Variable(0));

    let mut env: HashMap<usize, Expr> = HashMap::new();
    env.insert(0, Expr::Variable(0));
    env.insert(1, Expr::Variable(1));

    let direct = eval::expr::evaluate(&expr, &env);

    let program = to_program(&expr, vec![reg(0), reg(1)]);
    let via_program = eval::register::evaluate(&program, env);

    assert_eq!(direct, via_program);
}

/// A conditional lowers to a single `IfPositive` statement into a fresh
/// register, and round-trips symbolically.
#[test]
fn conditional_round_trip() {
    let half = 0.5f32.to_bits();
    let expr = Expr::Variable(0).if_positive_node(
        Expr::Variable(0),
        Expr::Variable(0).mul(Expr::Number(half)),
    );

    let program = to_program(&expr, vec![reg(0)]);
    assert_eq!(program.statements.len(), 3);

    let mut env: HashMap<usize, Expr> = HashMap::new();
    env.insert(0, Expr::Number(2.0f32.to_bits()));
    let direct = eval::expr::evaluate(&expr, &env);
    let via_program = eval::register::evaluate(&program, env);
    assert_eq!(direct, via_program);

    // the conditional value is built from the predicate and both arms
    let expected = Expr::Number(2.0f32.to_bits()).if_positive_node(
        Expr::Number(2.0f32.to_bits()),
        Expr::Number(2.0f32.to_bits()).mul(Expr::Number(half)),
    );
    assert_eq!(direct, expected);
}

/// `from_bits` and the operation constructors build exactly the expected
/// nodes.
#[test]
fn expression_constructors() {
    let one = 1.0f32.to_bits();
    let built = <Expr as Number>::from_bits(one);
    assert_eq!(built, Expr::Number(one));

    let sum = Expr::Variable(3).add(Expr::Number(one));
    match sum {
        Expr::Operation { operator, lhs, rhs } => {
            assert_eq!(operator, Operator::Add);
            assert_eq!(*lhs, Expr::Variable(3));
            assert_eq!(*rhs, Expr::Number(one));
        }
        _ => panic!("expected an operation node"),
    }
}
