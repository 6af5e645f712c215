//! The end-to-end identity check on a real workload: a small feed-forward
//! network is built symbolically, lowered, and reallocated, with the
//! interpreter oracle run after every stage. The network builders here are
//! test scaffolding around the library's value domain.

use std::collections::HashMap;

use exprc::compile::flatten::to_program;
use exprc::compile::register_alloc::realloc;
use exprc::eval;
use exprc::ir::expr::Expr;
use exprc::ir::register::Register;
use exprc::math::number::Number;

use rand::RngExt;

#[derive(Clone, Copy, PartialEq, Debug)]
struct Real(f32);

impl Number for Real {
    fn spec_add(self, other: Self) -> Self {
        Real(self.0 + other.0)
    }

    fn spec_sub(self, other: Self) -> Self {
        Real(self.0 - other.0)
    }

    fn spec_mul(self, other: Self) -> Self {
        Real(self.0 * other.0)
    }

    fn spec_div(self, other: Self) -> Self {
        Real(self.0 / other.0)
    }

    fn spec_if_positive(self, consequent: Self, alternative: Self) -> Self {
        if self.0 >= 0.0 {
            consequent
        } else {
            alternative
        }
    }

    fn spec_from_bits(bits: u32) -> Self {
        Real(f32::from_bits(bits))
    }

    fn add(&self, other: &Self) -> Self {
        Real(self.0 + other.0)
    }

    fn sub(&self, other: &Self) -> Self {
        Real(self.0 - other.0)
    }

    fn mul(&self, other: &Self) -> Self {
        Real(self.0 * other.0)
    }

    fn div(&self, other: &Self) -> Self {
        Real(self.0 / other.0)
    }

    fn if_positive(&self, consequent: &Self, alternative: &Self) -> Self {
        if self.0 >= 0.0 {
            *consequent
        } else {
            *alternative
        }
    }

    fn from_bits(bits: u32) -> Self {
        Real(f32::from_bits(bits))
    }

    fn dup(&self) -> Self {
        *self
    }
}

struct Dimensions {
    data: usize,
    input: usize,
    output: usize,
}

trait Neuron {
    fn evaluate<T: Number>(&self, input: &[T], data: &[T]) -> Vec<T>;
    fn size(&self) -> Dimensions;

    fn compose<N: Neuron>(self, next: N) -> Compose<Self, N>
    where
        Self: Sized,
    {
        assert_eq!(self.size().output, next.size().input);
        Compose { first: self, second: next }
    }
}

struct Compose<A, B> {
    first: A,
    second: B,
}

impl<A: Neuron, B: Neuron> Neuron for Compose<A, B> {
    fn evaluate<T: Number>(&self, input: &[T], data: &[T]) -> Vec<T> {
        let first_data = &data[..self.first.size().data];
        let second_data = &data[self.first.size().data..];
        let second_input = self.first.evaluate(input, first_data);
        self.second.evaluate(&second_input, second_data)
    }

    fn size(&self) -> Dimensions {
        Dimensions {
            data: self.first.size().data + self.second.size().data,
            input: self.first.size().input,
            output: self.second.size().output,
        }
    }
}

struct Repeat<A> {
    neuron: A,
    repetitions: usize,
}

impl<A: Neuron> Neuron for Repeat<A> {
    fn evaluate<T: Number>(&self, input: &[T], data: &[T]) -> Vec<T> {
        let mut output = Vec::new();
        let data_size = self.neuron.size().data;
        for i in 0..self.repetitions {
            let local_data = &data[i * data_size..(i + 1) * data_size];
            output.extend(self.neuron.evaluate(input, local_data));
        }
        output
    }

    fn size(&self) -> Dimensions {
        Dimensions {
            data: self.neuron.size().data * self.repetitions,
            input: self.neuron.size().input,
            output: self.neuron.size().output * self.repetitions,
        }
    }
}

struct WeightedBiasedSum {
    input: usize,
}

impl Neuron for WeightedBiasedSum {
    fn evaluate<T: Number>(&self, input: &[T], data: &[T]) -> Vec<T> {
        let mut total = data[self.input].dup();
        for (a, b) in input.iter().take(self.input).zip(data.iter().take(self.input)) {
            let product = a.mul(b);
            total = total.add(&product);
        }
        vec![total]
    }

    fn size(&self) -> Dimensions {
        Dimensions { data: self.input + 1, input: self.input, output: 1 }
    }
}

struct RectifiedLinear;

impl Neuron for RectifiedLinear {
    fn evaluate<T: Number>(&self, input: &[T], _data: &[T]) -> Vec<T> {
        let two = T::from_bits(2.0f32.to_bits());
        let leaked = input[0].div(&two);
        vec![input[0].if_positive(&input[0], &leaked)]
    }

    fn size(&self) -> Dimensions {
        Dimensions { data: 0, input: 1, output: 1 }
    }
}

fn node(input: usize) -> impl Neuron {
    WeightedBiasedSum { input }.compose(RectifiedLinear)
}

fn layer(input: usize, output: usize) -> Repeat<impl Neuron> {
    Repeat { neuron: node(input), repetitions: output }
}

#[test]
fn reg_alloc_identity() {
    let mut rng = rand::rng();
    let neuron = layer(1, 4).compose(layer(4, 4)).compose(layer(4, 1));
    let size = neuron.size();

    let data: Vec<Expr> = (0..size.data).map(Expr::Variable).collect();
    let input: Vec<Expr> = (0..size.input).map(|i| Expr::Variable(i + size.data)).collect();

    let count = size.data + size.input;
    let values: Vec<f32> = (0..count).map(|_| rng.random_range(-1.0..1.0)).collect();
    let index_env: HashMap<usize, Real> =
        (0..count).map(|index| (index, Real(values[index]))).collect();

    let expr = neuron.evaluate(&input, &data).pop().unwrap();
    let original_value = eval::expr::evaluate(&expr, &index_env);

    let registers: Vec<Register> = (0..count).map(|index| Register { index }).collect();
    let mut program = to_program(&expr, registers);
    let old_value = eval::register::evaluate(&program, index_env.clone());

    assert_eq!(
        old_value.0.to_bits(),
        original_value.0.to_bits(),
        "transformation from expression tree to register instructions failed"
    );

    let old_input = program.input.clone();
    let registers = realloc(&mut program);

    let new_register_env: HashMap<usize, Real> = program
        .input
        .iter()
        .zip(&old_input)
        .map(|(new, old)| (new.index, index_env[&old.index]))
        .collect();

    let new_value = eval::register::evaluate(&program, new_register_env);

    assert!(registers < 50);
    assert_eq!(old_value.0.to_bits(), new_value.0.to_bits(), "register allocation failed");
}
