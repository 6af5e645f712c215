//! The pipeline run over real 32-bit floats: a caller-side implementation
//! of the value domain, exactly as an embedding application would supply.

use std::collections::HashMap;

use exprc::compile::flatten::to_program;
use exprc::compile::register_alloc::realloc;
use exprc::eval;
use exprc::ir::expr::Expr;
use exprc::ir::register;
use exprc::math::number::Number;
use exprc::math::vector::squared_mag;

#[derive(Clone, Copy, PartialEq, Debug)]
struct Real(f32);

impl Number for Real {
    fn spec_add(self, other: Self) -> Self {
        Real(self.0 + other.0)
    }

    fn spec_sub(self, other: Self) -> Self {
        Real(self.0 - other.0)
    }

    fn spec_mul(self, other: Self) -> Self {
        Real(self.0 * other.0)
    }

    fn spec_div(self, other: Self) -> Self {
        Real(self.0 / other.0)
    }

    fn spec_if_positive(self, consequent: Self, alternative: Self) -> Self {
        if self.0 >= 0.0 {
            consequent
        } else {
            alternative
        }
    }

    fn spec_from_bits(bits: u32) -> Self {
        Real(f32::from_bits(bits))
    }

    fn add(&self, other: &Self) -> Self {
        Real(self.0 + other.0)
    }

    fn sub(&self, other: &Self) -> Self {
        Real(self.0 - other.0)
    }

    fn mul(&self, other: &Self) -> Self {
        Real(self.0 * other.0)
    }

    fn div(&self, other: &Self) -> Self {
        Real(self.0 / other.0)
    }

    fn if_positive(&self, consequent: &Self, alternative: &Self) -> Self {
        if self.0 >= 0.0 {
            *consequent
        } else {
            *alternative
        }
    }

    fn from_bits(bits: u32) -> Self {
        Real(f32::from_bits(bits))
    }

    fn dup(&self) -> Self {
        *self
    }
}

fn reg(index: usize) -> register::Register {
    register::Register { index }
}

fn binding(values: &[f32]) -> HashMap<usize, Real> {
    let mut env: HashMap<usize, Real> = HashMap::new();
    for (index, value) in values.iter().enumerate() {
        env.insert(index, Real(*value));
    }
    env
}

/// The lowering round trip, bit for bit over floats: direct tree
/// evaluation and the lowered register program agree, before and after
/// register allocation.
#[test]
fn float_round_trip() {
    // if (x0 * x1 - 3.5) >= 0 then x0 + x1 else x1 / x0
    let c = 3.5f32.to_bits();
    let predicate = Expr::Variable(0).mul(Expr::Variable(1)).sub(Expr::Number(c));
    let expr = predicate.if_positive_node(
        Expr::Variable(0).add(Expr::Variable(1)),
        Expr::Variable(1).div(Expr::Variable(0)),
    );

    for values in [[2.0f32, 3.0], [0.5, 1.25], [-7.0, 0.125]] {
        let direct: Real = eval::expr::evaluate(&expr, &binding(&values));

        let mut program = to_program(&expr, vec![reg(0), reg(1)]);
        let lowered: Real = eval::register::evaluate(&program, binding(&values));
        assert_eq!(direct.0.to_bits(), lowered.0.to_bits());

        let old_input = program.input.clone();
        let count = realloc(&mut program);
        assert!(count <= 5);
        let env = binding(&values);
        let mut remapped: HashMap<usize, Real> = HashMap::new();
        for (new, old) in program.input.iter().zip(old_input.iter()) {
            remapped.insert(new.index, env[&old.index]);
        }
        let packed: Real = eval::register::evaluate(&program, remapped);
        assert_eq!(direct.0.to_bits(), packed.0.to_bits());
    }
}

/// The exchanged-operand rule: `2.0 + x0 * x1` accumulates into the
/// product's register, computing the product first; float addition agrees
/// either way.
#[test]
fn exchanged_addition_agrees() {
    let two = 2.0f32.to_bits();
    let expr = Expr::Number(two).add(Expr::Variable(0).mul(Expr::Variable(1)));
    let program = to_program(&expr, vec![reg(0), reg(1)]);

    let direct: Real = eval::expr::evaluate(&expr, &binding(&[1.5, 4.0]));
    let lowered: Real = eval::register::evaluate(&program, binding(&[1.5, 4.0]));
    assert_eq!(direct.0.to_bits(), lowered.0.to_bits());
    assert_eq!(direct.0, 8.0);
}

/// The vector helpers over floats.
#[test]
fn vector_arithmetic() {
    let a = [Real(3.0), Real(4.0)];
    let b = [Real(1.0), Real(1.5)];

    let magnitude = squared_mag(&a);
    assert_eq!(magnitude.0, 25.0);

    let difference = exprc::math::vector::sub(&a, &b);
    assert_eq!(difference, vec![Real(2.0), Real(2.5)]);

    let scaled = exprc::math::vector::mul(&b, Real(2.0));
    assert_eq!(scaled, vec![Real(2.0), Real(3.0)]);

    let empty: [Real; 0] = [];
    assert_eq!(squared_mag(&empty).0, 0.0);
}
