//! Encoding machine instructions as raw bytes, for the 64-bit x86
//! instruction set.
//!
//! Each instruction's `encoding` is pinned down byte for byte: optional
//! legacy prefix, an optional extension (REX) byte folded into the opcode
//! field, one to four opcode bytes, then mode, scale-index-base,
//! displacement and immediate fields as the addressing form demands.
//! Memory operands always use a 32-bit displacement. Jump offsets at the
//! single-instruction level are byte displacements; assembling a whole
//! program resolves the instruction-counted offsets of its jumps into
//! bytes first.

use vstd::prelude::*;

use crate::ir::bytes::{Bytes, InstructionBuilder};
use crate::ir::expr::Operator;
use crate::ir::machine::{
    Arithmetic,
    Compare,
    Instruction,
    Jump,
    Memory,
    Move,
    Program,
    ScaleFactor,
    Xmm,
    R,
};

verus! {

/// The low three encoding bits of a general-purpose register.
pub open spec fn r_low3(r: R) -> u8 {
    match r {
        R::Rax => 0,
        R::Rcx => 1,
        R::Rdx => 2,
        R::Rbx => 3,
        R::Rsp => 4,
        R::Rbp => 5,
        R::Rsi => 6,
        R::Rdi => 7,
        R::RLow(b) => (b.spec_raw() - 8) as u8,
        R::RHigh(b) => (b.spec_raw() - 8) as u8,
    }
}

/// Does the register need the extension bit?
pub open spec fn r_ext(r: R) -> bool {
    match r {
        R::RLow(_) => true,
        R::RHigh(_) => true,
        _ => false,
    }
}

/// The low three encoding bits of a float register.
pub open spec fn xmm_low3(x: Xmm) -> u8 {
    (x.spec_raw() % 8) as u8
}

/// Does the float register need the extension bit?
pub open spec fn xmm_ext(x: Xmm) -> bool {
    x.spec_raw() >= 8
}

/// A 2+3+3-bit byte (the shared shape of the mode and SIB bytes).
pub open spec fn packed_233(hi: u8, mid: u8, low: u8) -> u8 {
    (hi * 64 + mid * 8 + low) as u8
}

/// The extension byte, if any of its four bits is set.
pub open spec fn rex_opt(w: bool, r: bool, x: bool, b: bool) -> Seq<u8> {
    if w || r || x || b {
        seq![
            (64 + (if w { 8int } else { 0 }) + (if r { 4int } else { 0 }) + (if x {
                2int
            } else {
                0
            }) + (if b { 1int } else { 0 })) as u8,
        ]
    } else {
        Seq::<u8>::empty()
    }
}

/// The four little-endian bytes of a 32-bit value.
pub open spec fn le32(v: u32) -> Seq<u8> {
    seq![
        (v % 256) as u8,
        ((v / 256) % 256) as u8,
        ((v / 65536) % 256) as u8,
        ((v / 16777216) % 256) as u8,
    ]
}

/// The SIB scale field: the logarithm of the multiplier.
pub open spec fn scale_bits(s: ScaleFactor) -> u8 {
    match s {
        ScaleFactor::S1 => 0,
        ScaleFactor::S2 => 1,
        ScaleFactor::S4 => 2,
        ScaleFactor::S8 => 3,
    }
}

/// A memory operand needs a SIB byte when it has an index, or when its
/// base's low bits collide with the SIB escape code.
pub open spec fn mem_has_sib(m: Memory) -> bool {
    m.index is Some || r_low3(m.base) == 4
}

/// The mode byte of a memory operand (always the 32-bit-displacement mode).
pub open spec fn mem_modrm(reg: u8, m: Memory) -> u8 {
    packed_233(
        2,
        reg,
        if mem_has_sib(m) {
            4
        } else {
            r_low3(m.base)
        },
    )
}

/// The SIB byte of a memory operand, if it needs one.
pub open spec fn mem_sib(m: Memory) -> Seq<u8> {
    match m.index {
        Some(ix) => seq![packed_233(scale_bits(ix.scale), r_low3(ix.index), r_low3(m.base))],
        None => if r_low3(m.base) == 4 {
            seq![packed_233(0, 4, r_low3(m.base))]
        } else {
            Seq::<u8>::empty()
        },
    }
}

pub open spec fn mem_rex_x(m: Memory) -> bool {
    match m.index {
        Some(ix) => r_ext(ix.index),
        None => false,
    }
}

pub open spec fn mem_rex_b(m: Memory) -> bool {
    r_ext(m.base)
}

/// The stack pointer cannot serve as an index register.
pub open spec fn mem_encodable(m: Memory) -> bool {
    match m.index {
        Some(ix) => !(r_low3(ix.index) == 4 && !r_ext(ix.index)),
        None => true,
    }
}

/// A register-to-register or memory instruction body: mode byte, then SIB
/// and displacement for the memory form.
pub open spec fn mem_tail(reg: u8, m: Memory) -> Seq<u8> {
    seq![mem_modrm(reg, m)] + mem_sib(m) + le32(m.displacement as u32)
}

/// What can be encoded, and to which bytes. `encodable` is the precise
/// domain of `assemble`; a whole `Program` additionally resolves its
/// jumps' instruction-counted offsets to byte displacements.
pub trait Assemblable {
    spec fn encodable(&self) -> bool;

    spec fn encoding(&self) -> Seq<u8>;

    fn assemble(&self, bytes: &mut Bytes)
        requires
            self.encodable(),
        ensures
            final(bytes).spec_bytes() == old(bytes).spec_bytes() + self.encoding(),
    ;
}

/// The low bits and extension flag of a general-purpose register.
fn r_bits(r: &R) -> (out: (u8, bool))
    ensures
        out.0 == r_low3(*r),
        out.1 == r_ext(*r),
        out.0 <= 7,
{
    match r {
        R::Rax => (0, false),
        R::Rcx => (1, false),
        R::Rdx => (2, false),
        R::Rbx => (3, false),
        R::Rsp => (4, false),
        R::Rbp => (5, false),
        R::Rsi => (6, false),
        R::Rdi => (7, false),
        R::RLow(b) => {
            proof {
                use_type_invariant(*b);
            }
            (((b.to_raw() - 8) as u8), true)
        },
        R::RHigh(b) => {
            proof {
                use_type_invariant(*b);
            }
            (((b.to_raw() - 8) as u8), true)
        },
    }
}

/// The low bits and extension flag of a float register.
fn xmm_bits(x: &Xmm) -> (out: (u8, bool))
    ensures
        out.0 == xmm_low3(*x),
        out.1 == xmm_ext(*x),
        out.0 <= 7,
{
    proof {
        use_type_invariant(*x);
    }
    let raw = x.to_raw();
    (((raw % 8) as u8), raw >= 8)
}

/// The optional extension byte, as bytes for the opcode field.
fn rex_bytes(w: bool, r: bool, x: bool, b: bool) -> (out: Vec<u8>)
    ensures
        out@ == rex_opt(w, r, x, b),
{
    let mut out: Vec<u8> = Vec::new();
    if w || r || x || b {
        let mut byte: u8 = 64;
        if w {
            byte = byte + 8;
        }
        if r {
            byte = byte + 4;
        }
        if x {
            byte = byte + 2;
        }
        if b {
            byte = byte + 1;
        }
        out.push(byte);
    }
    proof {
        assert(out@ =~= rex_opt(w, r, x, b));
    }
    out
}

/// The four little-endian bytes of a 32-bit value.
fn le32_bytes(v: u32) -> (out: Vec<u8>)
    ensures
        out@ == le32(v),
{
    let mut out: Vec<u8> = Vec::new();
    out.push((v % 256) as u8);
    out.push(((v / 256) % 256) as u8);
    out.push(((v / 65536) % 256) as u8);
    out.push(((v / 16777216) % 256) as u8);
    proof {
        assert(out@ =~= le32(v));
    }
    out
}

/// Fill in the mode byte, SIB byte and displacement for a memory operand.
fn set_memory_operand(builder: &mut InstructionBuilder, reg: u8, m: &Memory)
    requires
        reg <= 7,
        mem_encodable(*m),
        old(builder).spec_sib().len() == 0,
    ensures
        final(builder).spec_mod_reg_rm() == seq![mem_modrm(reg, *m)],
        final(builder).spec_sib() == mem_sib(*m),
        final(builder).spec_displacement() == le32(m.displacement as u32),
        final(builder).spec_legacy_prefix() == old(builder).spec_legacy_prefix(),
        final(builder).spec_opcode() == old(builder).spec_opcode(),
        final(builder).spec_immediate() == old(builder).spec_immediate(),
{
    let base_bits = r_bits(&m.base);
    match &m.index {
        Some(ix) => {
            let index_bits = r_bits(&ix.index);
            let scale: u8 = match ix.scale {
                ScaleFactor::S1 => 0,
                ScaleFactor::S2 => 1,
                ScaleFactor::S4 => 2,
                ScaleFactor::S8 => 3,
            };
            let set = builder.mod_reg_rm(2, reg, 4);
            match set {
                Ok(_) => (),
                Err(_) => unreached(),
            }
            let set = builder.sib(scale, index_bits.0, base_bits.0);
            match set {
                Ok(_) => (),
                Err(_) => unreached(),
            }
        },
        None => {
            if base_bits.0 == 4 {
                let set = builder.mod_reg_rm(2, reg, 4);
                match set {
                    Ok(_) => (),
                    Err(_) => unreached(),
                }
                let set = builder.sib(0, 4, base_bits.0);
                match set {
                    Ok(_) => (),
                    Err(_) => unreached(),
                }
            } else {
                let set = builder.mod_reg_rm(2, reg, base_bits.0);
                match set {
                    Ok(_) => (),
                    Err(_) => unreached(),
                }
            }
        },
    }
    let displacement = le32_bytes(m.displacement as u32);
    builder.displacement(displacement.as_slice());
}

/// A register-to-register mode byte.
fn set_register_operands(builder: &mut InstructionBuilder, reg: u8, rm: u8)
    requires
        reg <= 7,
        rm <= 7,
    ensures
        final(builder).spec_mod_reg_rm() == seq![packed_233(3, reg, rm)],
        final(builder).spec_sib() == old(builder).spec_sib(),
        final(builder).spec_legacy_prefix() == old(builder).spec_legacy_prefix(),
        final(builder).spec_opcode() == old(builder).spec_opcode(),
        final(builder).spec_displacement() == old(builder).spec_displacement(),
        final(builder).spec_immediate() == old(builder).spec_immediate(),
{
    let set = builder.mod_reg_rm(3, reg, rm);
    match set {
        Ok(_) => (),
        Err(_) => unreached(),
    }
}

impl Assemblable for Move {
    open spec fn encodable(&self) -> bool {
        match *self {
            Move::FloatFromMemory { dest, src } => mem_encodable(src),
            Move::FloatToMemory { dest, src } => mem_encodable(dest),
            Move::FloatToFloat { .. } => true,
            Move::IntegerFromConstant { .. } => true,
            Move::FloatFromInteger { .. } => true,
            Move::IntegerToMemory { dest, src } => mem_encodable(dest),
        }
    }

    open spec fn encoding(&self) -> Seq<u8> {
        match *self {
            // movss xmm, m32
            Move::FloatFromMemory { dest, src } => seq![0xF3u8] + rex_opt(
                false,
                xmm_ext(dest),
                mem_rex_x(src),
                mem_rex_b(src),
            ) + seq![0x0Fu8, 0x10u8] + mem_tail(xmm_low3(dest), src),
            // movss m32, xmm
            Move::FloatToMemory { dest, src } => seq![0xF3u8] + rex_opt(
                false,
                xmm_ext(src),
                mem_rex_x(dest),
                mem_rex_b(dest),
            ) + seq![0x0Fu8, 0x11u8] + mem_tail(xmm_low3(src), dest),
            // movss xmm, xmm
            Move::FloatToFloat { dest, src } => seq![0xF3u8] + rex_opt(
                false,
                xmm_ext(dest),
                false,
                xmm_ext(src),
            ) + seq![0x0Fu8, 0x10u8, packed_233(3, xmm_low3(dest), xmm_low3(src))],
            // mov r32, imm32
            Move::IntegerFromConstant { dest, src } => rex_opt(false, false, false, r_ext(dest))
                + seq![(0xB8 + r_low3(dest)) as u8] + le32(src as u32),
            // movd xmm, r32
            Move::FloatFromInteger { dest, src } => seq![0x66u8] + rex_opt(
                false,
                xmm_ext(dest),
                false,
                r_ext(src),
            ) + seq![0x0Fu8, 0x6Eu8, packed_233(3, xmm_low3(dest), r_low3(src))],
            // mov m32, r32
            Move::IntegerToMemory { dest, src } => rex_opt(
                false,
                r_ext(src),
                mem_rex_x(dest),
                mem_rex_b(dest),
            ) + seq![0x89u8] + mem_tail(r_low3(src), dest),
        }
    }

    #[verifier::rlimit(80)]
    fn assemble(&self, bytes: &mut Bytes) {
        match self {
            Move::FloatFromMemory { dest, src } => {
                let d = xmm_bits(dest);
                let mut opcode = rex_bytes(false, d.1, mem_rex_x_exec(src), mem_rex_b_exec(src));
                opcode.push(0x0F);
                opcode.push(0x10);
                let mut builder = InstructionBuilder::new(opcode.as_slice());
                builder.legacy_prefix(&[0xF3]);
                set_memory_operand(&mut builder, d.0, src);
                bytes.push(builder);
                proof {
                    assert(bytes.spec_bytes() =~= old(bytes).spec_bytes() + self.encoding());
                }
            },
            Move::FloatToMemory { dest, src } => {
                let s = xmm_bits(src);
                let mut opcode = rex_bytes(false, s.1, mem_rex_x_exec(dest), mem_rex_b_exec(dest));
                opcode.push(0x0F);
                opcode.push(0x11);
                let mut builder = InstructionBuilder::new(opcode.as_slice());
                builder.legacy_prefix(&[0xF3]);
                set_memory_operand(&mut builder, s.0, dest);
                bytes.push(builder);
                proof {
                    assert(bytes.spec_bytes() =~= old(bytes).spec_bytes() + self.encoding());
                }
            },
            Move::FloatToFloat { dest, src } => {
                let d = xmm_bits(dest);
                let s = xmm_bits(src);
                let mut opcode = rex_bytes(false, d.1, false, s.1);
                opcode.push(0x0F);
                opcode.push(0x10);
                let mut builder = InstructionBuilder::new(opcode.as_slice());
                builder.legacy_prefix(&[0xF3]);
                set_register_operands(&mut builder, d.0, s.0);
                bytes.push(builder);
                proof {
                    assert(bytes.spec_bytes() =~= old(bytes).spec_bytes() + self.encoding());
                }
            },
            Move::IntegerFromConstant { dest, src } => {
                let d = r_bits(dest);
                let mut opcode = rex_bytes(false, false, false, d.1);
                opcode.push(0xB8 + d.0);
                let mut builder = InstructionBuilder::new(opcode.as_slice());
                let immediate = le32_bytes(*src as u32);
                builder.immediate(immediate.as_slice());
                bytes.push(builder);
                proof {
                    assert(bytes.spec_bytes() =~= old(bytes).spec_bytes() + self.encoding());
                }
            },
            Move::FloatFromInteger { dest, src } => {
                let d = xmm_bits(dest);
                let s = r_bits(src);
                let mut opcode = rex_bytes(false, d.1, false, s.1);
                opcode.push(0x0F);
                opcode.push(0x6E);
                let mut builder = InstructionBuilder::new(opcode.as_slice());
                builder.legacy_prefix(&[0x66]);
                set_register_operands(&mut builder, d.0, s.0);
                bytes.push(builder);
                proof {
                    assert(bytes.spec_bytes() =~= old(bytes).spec_bytes() + self.encoding());
                }
            },
            Move::IntegerToMemory { dest, src } => {
                let s = r_bits(src);
                let mut opcode = rex_bytes(false, s.1, mem_rex_x_exec(dest), mem_rex_b_exec(dest));
                opcode.push(0x89);
                let mut builder = InstructionBuilder::new(opcode.as_slice());
                set_memory_operand(&mut builder, s.0, dest);
                bytes.push(builder);
                proof {
                    assert(bytes.spec_bytes() =~= old(bytes).spec_bytes() + self.encoding());
                }
            },
        }
    }
}

/// Does the operand's index register need the extension bit?
fn mem_rex_x_exec(m: &Memory) -> (r: bool)
    ensures
        r == mem_rex_x(*m),
{
    match &m.index {
        Some(ix) => r_bits(&ix.index).1,
        None => false,
    }
}

/// Does the operand's base register need the extension bit?
fn mem_rex_b_exec(m: &Memory) -> (r: bool)
    ensures
        r == mem_rex_b(*m),
{
    r_bits(&m.base).1
}

/// The opcode byte of a scalar-float arithmetic instruction.
pub open spec fn float_op_byte(op: Operator) -> u8 {
    match op {
        Operator::Add => 0x58,
        Operator::Subtract => 0x5C,
        Operator::Multiply => 0x59,
        Operator::Divide => 0x5E,
    }
}

impl Assemblable for Arithmetic {
    open spec fn encodable(&self) -> bool {
        true
    }

    open spec fn encoding(&self) -> Seq<u8> {
        match *self {
            // addss / subss / mulss / divss xmm, xmm
            Arithmetic::FloatAssign(op) => seq![0xF3u8] + rex_opt(
                false,
                xmm_ext(op.dest),
                false,
                xmm_ext(op.value),
            ) + seq![
                0x0Fu8,
                float_op_byte(op.operator),
                packed_233(3, xmm_low3(op.dest), xmm_low3(op.value)),
            ],
            // add r/m64, imm32
            Arithmetic::IntegerAddAssign(op) => rex_opt(true, false, false, r_ext(op.dest)) + seq![
                0x81u8,
                packed_233(3, 0, r_low3(op.dest)),
            ] + le32(op.value),
            // sub r/m64, imm32
            Arithmetic::IntegerSubAssign(op) => rex_opt(true, false, false, r_ext(op.dest)) + seq![
                0x81u8,
                packed_233(3, 5, r_low3(op.dest)),
            ] + le32(op.value),
        }
    }

    #[verifier::rlimit(80)]
    fn assemble(&self, bytes: &mut Bytes) {
        match self {
            Arithmetic::FloatAssign(op) => {
                let d = xmm_bits(&op.dest);
                let v = xmm_bits(&op.value);
                let mut opcode = rex_bytes(false, d.1, false, v.1);
                opcode.push(0x0F);
                let byte: u8 = match op.operator {
                    Operator::Add => 0x58,
                    Operator::Subtract => 0x5C,
                    Operator::Multiply => 0x59,
                    Operator::Divide => 0x5E,
                };
                opcode.push(byte);
                let mut builder = InstructionBuilder::new(opcode.as_slice());
                builder.legacy_prefix(&[0xF3]);
                set_register_operands(&mut builder, d.0, v.0);
                bytes.push(builder);
                proof {
                    assert(bytes.spec_bytes() =~= old(bytes).spec_bytes() + self.encoding());
                }
            },
            Arithmetic::IntegerAddAssign(op) => {
                let d = r_bits(&op.dest);
                let mut opcode = rex_bytes(true, false, false, d.1);
                opcode.push(0x81);
                let mut builder = InstructionBuilder::new(opcode.as_slice());
                set_register_operands(&mut builder, 0, d.0);
                let immediate = le32_bytes(op.value);
                builder.immediate(immediate.as_slice());
                bytes.push(builder);
                proof {
                    assert(bytes.spec_bytes() =~= old(bytes).spec_bytes() + self.encoding());
                }
            },
            Arithmetic::IntegerSubAssign(op) => {
                let d = r_bits(&op.dest);
                let mut opcode = rex_bytes(true, false, false, d.1);
                opcode.push(0x81);
                let mut builder = InstructionBuilder::new(opcode.as_slice());
                set_register_operands(&mut builder, 5, d.0);
                let immediate = le32_bytes(op.value);
                builder.immediate(immediate.as_slice());
                bytes.push(builder);
                proof {
                    assert(bytes.spec_bytes() =~= old(bytes).spec_bytes() + self.encoding());
                }
            },
        }
    }
}

impl Assemblable for Compare {
    open spec fn encodable(&self) -> bool {
        true
    }

    open spec fn encoding(&self) -> Seq<u8> {
        match *self {
            // comiss xmm, xmm
            Compare::CompareFloats { first, second } => rex_opt(
                false,
                xmm_ext(first),
                false,
                xmm_ext(second),
            ) + seq![0x0Fu8, 0x2Fu8, packed_233(3, xmm_low3(first), xmm_low3(second))],
        }
    }

    fn assemble(&self, bytes: &mut Bytes) {
        match self {
            Compare::CompareFloats { first, second } => {
                let f = xmm_bits(first);
                let s = xmm_bits(second);
                let mut opcode = rex_bytes(false, f.1, false, s.1);
                opcode.push(0x0F);
                opcode.push(0x2F);
                let mut builder = InstructionBuilder::new(opcode.as_slice());
                set_register_operands(&mut builder, f.0, s.0);
                bytes.push(builder);
                proof {
                    assert(bytes.spec_bytes() =~= old(bytes).spec_bytes() + self.encoding());
                }
            },
        }
    }
}

impl Assemblable for Jump {
    /// At the single-instruction level the offset must already be a byte
    /// displacement fitting a forward 8-bit jump; `Program::assemble`
    /// resolves instruction counts to bytes before coming here.
    open spec fn encodable(&self) -> bool {
        match *self {
            Jump::Unconditional { offset } => 0 <= offset <= 127,
            Jump::AboveEqual { offset } => 0 <= offset <= 127,
        }
    }

    open spec fn encoding(&self) -> Seq<u8> {
        match *self {
            // jmp rel8
            Jump::Unconditional { offset } => seq![0xEBu8, offset as u8],
            // jae rel8
            Jump::AboveEqual { offset } => seq![0x73u8, offset as u8],
        }
    }

    fn assemble(&self, bytes: &mut Bytes) {
        match self {
            Jump::Unconditional { offset } => {
                let mut builder = InstructionBuilder::new(&[0xEB]);
                let rel: Vec<u8> = vec![*offset as u8];
                builder.immediate(rel.as_slice());
                bytes.push(builder);
                proof {
                    assert(bytes.spec_bytes() =~= old(bytes).spec_bytes() + self.encoding());
                }
            },
            Jump::AboveEqual { offset } => {
                let mut builder = InstructionBuilder::new(&[0x73]);
                let rel: Vec<u8> = vec![*offset as u8];
                builder.immediate(rel.as_slice());
                bytes.push(builder);
                proof {
                    assert(bytes.spec_bytes() =~= old(bytes).spec_bytes() + self.encoding());
                }
            },
        }
    }
}

impl Assemblable for Instruction {
    open spec fn encodable(&self) -> bool {
        match *self {
            Instruction::Move(m) => m.encodable(),
            Instruction::ArithmeticOperation(a) => a.encodable(),
            Instruction::Compare(c) => c.encodable(),
            Instruction::Jump(j) => j.encodable(),
        }
    }

    open spec fn encoding(&self) -> Seq<u8> {
        match *self {
            Instruction::Move(m) => m.encoding(),
            Instruction::ArithmeticOperation(a) => a.encoding(),
            Instruction::Compare(c) => c.encoding(),
            Instruction::Jump(j) => j.encoding(),
        }
    }

    fn assemble(&self, bytes: &mut Bytes) {
        match self {
            Instruction::Move(m) => m.assemble(bytes),
            Instruction::ArithmeticOperation(a) => a.assemble(bytes),
            Instruction::Compare(c) => c.assemble(bytes),
            Instruction::Jump(j) => j.assemble(bytes),
        }
    }
}

/// How many instructions a jump skips.
pub open spec fn jump_offset(j: Jump) -> int {
    match j {
        Jump::Unconditional { offset } => offset as int,
        Jump::AboveEqual { offset } => offset as int,
    }
}

/// The same jump with its offset replaced by a byte displacement.
pub open spec fn resolved_jump(j: Jump, displacement: int) -> Jump {
    match j {
        Jump::Unconditional { .. } => Jump::Unconditional { offset: displacement as i32 },
        Jump::AboveEqual { .. } => Jump::AboveEqual { offset: displacement as i32 },
    }
}

/// The encoded length of `cnt` instructions starting at `from`.
pub open spec fn window_len(instrs: Seq<Instruction>, from: int, cnt: int) -> int
    decreases cnt,
{
    if cnt <= 0 {
        0
    } else {
        instrs[from].encoding().len() + window_len(instrs, from + 1, cnt - 1)
    }
}

proof fn lemma_window_len_snoc(instrs: Seq<Instruction>, from: int, c: int)
    requires
        c >= 0,
    ensures
        window_len(instrs, from, c + 1) == window_len(instrs, from, c) + instrs[from
            + c].encoding().len(),
    decreases c,
{
    if c == 0 {
        assert(window_len(instrs, from, 1) == instrs[from].encoding().len() + window_len(
            instrs,
            from + 1,
            0,
        ));
        assert(window_len(instrs, from + 1, 0) == 0);
    } else {
        lemma_window_len_snoc(instrs, from + 1, c - 1);
        assert(window_len(instrs, from, c + 1) == instrs[from].encoding().len() + window_len(
            instrs,
            from + 1,
            c,
        ));
        assert(window_len(instrs, from, c) == instrs[from].encoding().len() + window_len(
            instrs,
            from + 1,
            c - 1,
        ));
    }
}

/// The bytes of one position of the stream: a jump is encoded with its
/// offset resolved to the byte length of the instructions it skips.
pub open spec fn step_encoding(instrs: Seq<Instruction>, i: int) -> Seq<u8> {
    match instrs[i] {
        Instruction::Jump(j) => resolved_jump(
            j,
            window_len(instrs, i + 1, jump_offset(j)),
        ).encoding(),
        _ => instrs[i].encoding(),
    }
}

/// The bytes of the first `i` instructions.
pub open spec fn program_encoding_upto(instrs: Seq<Instruction>, i: int) -> Seq<u8>
    decreases i,
{
    if i <= 0 {
        Seq::<u8>::empty()
    } else {
        program_encoding_upto(instrs, i - 1) + step_encoding(instrs, i - 1)
    }
}

/// Every instruction is encodable; every jump skips a well-formed window:
/// forward, within the stream, over jump-free instructions, and short
/// enough for an 8-bit displacement.
pub open spec fn program_encodable(instrs: Seq<Instruction>) -> bool {
    forall|i: int| 0 <= i < instrs.len() ==> match #[trigger] instrs[i] {
        Instruction::Jump(j) => {
            &&& 0 <= jump_offset(j)
            &&& i + jump_offset(j) < instrs.len()
            &&& (forall|w: int|
                i < w <= i + jump_offset(j) ==> !(#[trigger] instrs[w] is Jump)
                    && instrs[w].encodable())
            &&& window_len(instrs, i + 1, jump_offset(j)) <= 127
        },
        _ => instrs[i].encodable(),
    }
}

impl Assemblable for Program {
    open spec fn encodable(&self) -> bool {
        program_encodable(self.instructions@)
    }

    open spec fn encoding(&self) -> Seq<u8> {
        program_encoding_upto(self.instructions@, self.instructions@.len() as int)
    }

    fn assemble(&self, bytes: &mut Bytes) {
        let n = self.instructions.len();
        let mut i: usize = 0;
        while i < n
            invariant
                0 <= i <= n,
                n == self.instructions@.len(),
                program_encodable(self.instructions@),
                bytes.spec_bytes() == old(bytes).spec_bytes() + program_encoding_upto(
                    self.instructions@,
                    i as int,
                ),
            decreases n - i,
        {
            let instruction = &self.instructions[i];
            match instruction {
                Instruction::Jump(j) => {
                    let count_i32: i32 = match j {
                        Jump::Unconditional { offset } => *offset,
                        Jump::AboveEqual { offset } => *offset,
                    };
                    proof {
                        assert(self.instructions@[i as int] matches Instruction::Jump(j2) && j2
                            == *j);
                    }
                    let count = count_i32 as usize;
                    // measure the skipped window by encoding it aside
                    let mut tmp = Bytes::new();
                    let mut w = i + 1;
                    while w < i + 1 + count
                        invariant
                            i + 1 <= w <= i + 1 + count,
                            n == self.instructions@.len(),
                            i + count < n,
                            count == jump_offset(
                                self.instructions@[i as int]->Jump_0,
                            ),
                            self.instructions@[i as int] is Jump,
                            program_encodable(self.instructions@),
                            tmp.spec_bytes().len() == window_len(
                                self.instructions@,
                                i + 1,
                                w - (i + 1),
                            ),
                        decreases i + 1 + count - w,
                    {
                        proof {
                            assert(match self.instructions@[i as int] {
                                Instruction::Jump(j3) => i < w <= i + jump_offset(j3)
                                    ==> !(self.instructions@[w as int] is Jump)
                                    && self.instructions@[w as int].encodable(),
                                _ => true,
                            });
                        }
                        let skipped = &self.instructions[w];
                        skipped.assemble(&mut tmp);
                        proof {
                            lemma_window_len_snoc(self.instructions@, i as int + 1, w - (i + 1));
                        }
                        w = w + 1;
                    }
                    let displacement = tmp.len();
                    proof {
                        assert(window_len(self.instructions@, i as int + 1, count as int) <= 127);
                    }
                    let resolved = match j {
                        Jump::Unconditional { .. } => Jump::Unconditional {
                            offset: displacement as i32,
                        },
                        Jump::AboveEqual { .. } => Jump::AboveEqual {
                            offset: displacement as i32,
                        },
                    };
                    resolved.assemble(bytes);
                    proof {
                        assert(resolved == resolved_jump(
                            self.instructions@[i as int]->Jump_0,
                            window_len(self.instructions@, i as int + 1, count as int),
                        ));
                        assert(resolved.encoding() == step_encoding(self.instructions@, i as int));
                    }
                },
                _ => {
                    proof {
                        assert(match self.instructions@[i as int] {
                            Instruction::Jump(_) => true,
                            _ => self.instructions@[i as int].encodable(),
                        });
                    }
                    instruction.assemble(bytes);
                    proof {
                        assert(instruction.encoding() == step_encoding(
                            self.instructions@,
                            i as int,
                        ));
                    }
                },
            }
            i = i + 1;
        }
    }
}

} // verus!
