use exprc::bounded::Bounded;
use exprc::compile::assemble::Assemblable;
use exprc::ir::bytes::{Bytes, FieldOverflow, InstructionBuilder};
use exprc::ir::expr::Operator;
use exprc::ir::machine::{
    Arithmetic, Compare, FloatAssign, Index, Instruction, IntegerAssign, Jump, Memory, Move,
    Program, ScaleFactor, Xmm, R,
};

fn xmm(index: i64) -> Xmm {
    Bounded::try_construct(index).unwrap()
}

fn rsp_slot(displacement: i32) -> Memory {
    Memory { displacement, base: R::Rsp, index: None }
}

/// A mode value that exceeds its 2-bit field must fail before any byte is
/// appended to the output stream.
#[test]
fn encoder_field_validation() {
    let mut bytes = Bytes::new();
    let mut builder = InstructionBuilder::new(&[0x90]);
    let result = builder.mod_reg_rm(4, 0, 0);
    assert_eq!(result.unwrap_err(), FieldOverflow::Mode);
    assert_eq!(bytes.len(), 0);
    assert_eq!(bytes.as_slice(), &[] as &[u8]);

    // the other fields are validated the same way
    assert_eq!(builder.mod_reg_rm(0, 8, 0).unwrap_err(), FieldOverflow::Register);
    assert_eq!(
        builder.mod_reg_rm(0, 0, 8).unwrap_err(),
        FieldOverflow::RegisterOrMemory
    );
    assert_eq!(builder.sib(4, 0, 0).unwrap_err(), FieldOverflow::Scale);
    assert_eq!(builder.sib(0, 8, 0).unwrap_err(), FieldOverflow::Index);
    assert_eq!(builder.sib(0, 0, 8).unwrap_err(), FieldOverflow::Base);

    // a valid instruction still goes through afterwards
    assert!(builder.mod_reg_rm(3, 1, 2).is_ok());
    bytes.push(builder);
    assert_eq!(bytes.as_slice(), &[0x90, 0xCA]);
}

/// movss xmm0, [rsp+4]: prefix, two opcode bytes, mode byte with the SIB
/// escape, the SIB byte for an rsp base, and a 32-bit displacement.
#[test]
fn encode_float_load() {
    let mut bytes = Bytes::new();
    let mov = Move::FloatFromMemory { dest: xmm(0), src: rsp_slot(4) };
    mov.assemble(&mut bytes);
    assert_eq!(
        bytes.as_slice(),
        &[0xF3, 0x0F, 0x10, 0x84, 0x24, 0x04, 0x00, 0x00, 0x00]
    );
}

/// movss [rsp+8], xmm1.
#[test]
fn encode_float_store() {
    let mut bytes = Bytes::new();
    let mov = Move::FloatToMemory { dest: rsp_slot(8), src: xmm(1) };
    mov.assemble(&mut bytes);
    assert_eq!(
        bytes.as_slice(),
        &[0xF3, 0x0F, 0x11, 0x8C, 0x24, 0x08, 0x00, 0x00, 0x00]
    );
}

/// An extended float register carries the extension byte: movss xmm8, xmm2.
#[test]
fn encode_extended_register() {
    let mut bytes = Bytes::new();
    let mov = Move::FloatToFloat { dest: xmm(8), src: xmm(2) };
    mov.assemble(&mut bytes);
    assert_eq!(bytes.as_slice(), &[0xF3, 0x44, 0x0F, 0x10, 0xC2]);
}

/// mov ebx, imm32 with the raw bit pattern of 1.0.
#[test]
fn encode_constant_load() {
    let mut bytes = Bytes::new();
    let mov = Move::IntegerFromConstant { dest: R::Rbx, src: 1.0f32.to_bits() as i32 };
    mov.assemble(&mut bytes);
    assert_eq!(bytes.as_slice(), &[0xBB, 0x00, 0x00, 0x80, 0x3F]);
}

/// movd xmm3, ebx.
#[test]
fn encode_float_from_integer() {
    let mut bytes = Bytes::new();
    let mov = Move::FloatFromInteger { dest: xmm(3), src: R::Rbx };
    mov.assemble(&mut bytes);
    assert_eq!(bytes.as_slice(), &[0x66, 0x0F, 0x6E, 0xDB]);
}

/// addss xmm0, xmm1 and divss xmm0, xmm1.
#[test]
fn encode_float_arithmetic() {
    let mut bytes = Bytes::new();
    Arithmetic::FloatAssign(FloatAssign { operator: Operator::Add, dest: xmm(0), value: xmm(1) })
        .assemble(&mut bytes);
    Arithmetic::FloatAssign(FloatAssign {
        operator: Operator::Divide,
        dest: xmm(0),
        value: xmm(1),
    })
    .assemble(&mut bytes);
    assert_eq!(
        bytes.as_slice(),
        &[0xF3, 0x0F, 0x58, 0xC1, 0xF3, 0x0F, 0x5E, 0xC1]
    );
}

/// sub rsp, 16 — the prologue shape: a 64-bit wide subtract with a 32-bit
/// immediate.
#[test]
fn encode_stack_adjustment() {
    let mut bytes = Bytes::new();
    Arithmetic::IntegerSubAssign(IntegerAssign { dest: R::Rsp, value: 16 }).assemble(&mut bytes);
    assert_eq!(
        bytes.as_slice(),
        &[0x48, 0x81, 0xEC, 0x10, 0x00, 0x00, 0x00]
    );
}

/// comiss xmm0, xmm3.
#[test]
fn encode_compare() {
    let mut bytes = Bytes::new();
    Compare::CompareFloats { first: xmm(0), second: xmm(3) }.assemble(&mut bytes);
    assert_eq!(bytes.as_slice(), &[0x0F, 0x2F, 0xC3]);
}

/// mov [rsp+4], ebx — the raw bit-pattern store of a constant.
#[test]
fn encode_integer_store() {
    let mut bytes = Bytes::new();
    let mov = Move::IntegerToMemory { dest: rsp_slot(4), src: R::Rbx };
    mov.assemble(&mut bytes);
    assert_eq!(
        bytes.as_slice(),
        &[0x89, 0x9C, 0x24, 0x04, 0x00, 0x00, 0x00]
    );
}

/// An indexed memory operand gets a scale-index-base byte:
/// movss xmm0, [rsp + rcx*4 + 8].
#[test]
fn encode_indexed_memory() {
    let mut bytes = Bytes::new();
    let operand = Memory {
        displacement: 8,
        base: R::Rsp,
        index: Some(Index { index: R::Rcx, scale: ScaleFactor::S4 }),
    };
    assert_eq!(ScaleFactor::S4.as_u8(), 4);
    let mov = Move::FloatFromMemory { dest: xmm(0), src: operand };
    mov.assemble(&mut bytes);
    assert_eq!(
        bytes.as_slice(),
        &[0xF3, 0x0F, 0x10, 0x84, 0x8C, 0x08, 0x00, 0x00, 0x00]
    );
}

/// An unconditional jump resolves through a program the same way.
#[test]
fn encode_unconditional_jump() {
    let program = Program {
        instructions: vec![
            Instruction::Jump(Jump::Unconditional { offset: 1 }),
            Instruction::Compare(Compare::CompareFloats { first: xmm(0), second: xmm(1) }),
            Instruction::Compare(Compare::CompareFloats { first: xmm(1), second: xmm(0) }),
        ],
    };
    let mut bytes = Bytes::new();
    program.assemble(&mut bytes);
    assert_eq!(
        bytes.as_slice(),
        &[0xEB, 0x03, 0x0F, 0x2F, 0xC1, 0x0F, 0x2F, 0xC8]
    );
}

/// Assembling a whole program resolves a jump's instruction-counted
/// offset into the byte length of the instructions it skips: here, one
/// 4-byte register-to-register move.
#[test]
fn program_resolves_jump_offsets() {
    let program = Program {
        instructions: vec![
            Instruction::Compare(Compare::CompareFloats { first: xmm(0), second: xmm(3) }),
            Instruction::Jump(Jump::AboveEqual { offset: 1 }),
            Instruction::Move(Move::FloatToFloat { dest: xmm(1), src: xmm(2) }),
            Instruction::Move(Move::FloatToMemory { dest: rsp_slot(0), src: xmm(1) }),
        ],
    };
    let mut bytes = Bytes::new();
    program.assemble(&mut bytes);
    assert_eq!(
        bytes.as_slice(),
        &[
            // comiss xmm0, xmm3
            0x0F, 0x2F, 0xC3, //
            // jae +4 bytes (over the 4-byte movss below)
            0x73, 0x04, //
            // movss xmm1, xmm2
            0xF3, 0x0F, 0x10, 0xCA, //
            // movss [rsp], xmm1
            0xF3, 0x0F, 0x11, 0x8C, 0x24, 0x00, 0x00, 0x00, 0x00,
        ]
    );
}
