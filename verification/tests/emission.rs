use exprc::bounded::Bounded;
use exprc::compile::emit::emit_program;
use exprc::compile::flatten::to_program;
use exprc::ir::expr::{Expr, Operator};
use exprc::ir::machine;
use exprc::ir::register;

fn reg(index: usize) -> register::Register {
    register::Register { index }
}

fn xmm(index: i64) -> machine::Xmm {
    Bounded::try_construct(index).unwrap()
}

fn slot(index: usize) -> machine::Memory {
    machine::Memory {
        displacement: (index * 4) as i32,
        base: machine::R::Rsp,
        index: None,
    }
}

/// The two-statement program from lowering `Variable(0) + Number(2.0)`
/// compiles to the exact instruction stream of the specification: a
/// prologue claiming two slots, a slot-to-slot copy through a float
/// scratch register, a read-modify-write addition with the constant
/// materialized through an integer register, and the epilogue.
#[test]
fn emit_whole_program() {
    let two = 2.0f32.to_bits();
    let expr = Expr::Variable(0).add(Expr::Number(two));
    let program = to_program(&expr, vec![reg(0)]);
    let machine_program = emit_program(&program, 2);

    let expected = vec![
        // prologue: sub rsp, 8
        machine::Instruction::ArithmeticOperation(machine::Arithmetic::IntegerSubAssign(
            machine::IntegerAssign { dest: machine::R::Rsp, value: 8 },
        )),
        // r1 = Move(r0): load slot 0, store slot 1
        machine::Instruction::Move(machine::Move::FloatFromMemory {
            dest: xmm(0),
            src: slot(0),
        }),
        machine::Instruction::Move(machine::Move::FloatToMemory {
            dest: slot(1),
            src: xmm(0),
        }),
        // r1 += 2.0: load slot 1, materialize the constant, add, store
        machine::Instruction::Move(machine::Move::FloatFromMemory {
            dest: xmm(0),
            src: slot(1),
        }),
        machine::Instruction::Move(machine::Move::IntegerFromConstant {
            dest: machine::R::Rbx,
            src: two as i32,
        }),
        machine::Instruction::Move(machine::Move::FloatFromInteger {
            dest: xmm(1),
            src: machine::R::Rbx,
        }),
        machine::Instruction::ArithmeticOperation(machine::Arithmetic::FloatAssign(
            machine::FloatAssign { operator: Operator::Add, dest: xmm(0), value: xmm(1) },
        )),
        machine::Instruction::Move(machine::Move::FloatToMemory {
            dest: slot(1),
            src: xmm(0),
        }),
        // epilogue: add rsp, 8
        machine::Instruction::ArithmeticOperation(machine::Arithmetic::IntegerAddAssign(
            machine::IntegerAssign { dest: machine::R::Rsp, value: 8 },
        )),
    ];
    assert_eq!(machine_program.instructions, expected);
}

/// A conditional statement emits the fixed compare-and-skip shape, with
/// the jump offset pinned to exactly one instruction.
#[test]
fn emit_conditional_shape() {
    let half = 0.5f32.to_bits();
    let expr = Expr::Variable(0).if_positive_node(
        Expr::Variable(0),
        Expr::Variable(0).mul(Expr::Number(half)),
    );
    let program = to_program(&expr, vec![reg(0)]);
    let machine_program = emit_program(&program, 3);

    let jumps: Vec<&machine::Instruction> = machine_program
        .instructions
        .iter()
        .filter(|i| matches!(i, machine::Instruction::Jump(_)))
        .collect();
    assert_eq!(jumps.len(), 1);
    assert_eq!(
        *jumps[0],
        machine::Instruction::Jump(machine::Jump::AboveEqual { offset: 1 })
    );

    // the instruction after the jump is the overwrite it skips
    let position = machine_program
        .instructions
        .iter()
        .position(|i| matches!(i, machine::Instruction::Jump(_)))
        .unwrap();
    assert_eq!(
        machine_program.instructions[position + 1],
        machine::Instruction::Move(machine::Move::FloatToFloat { dest: xmm(1), src: xmm(2) })
    );
}
