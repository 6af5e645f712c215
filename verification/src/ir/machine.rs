//! The target-machine vocabulary: registers, addressing, and instructions.
//!
//! Passive data, consumed by the emission stage and by the encoder. The
//! calling-convention notes on each general-purpose register are
//! informational only.

use vstd::prelude::*;

use crate::bounded::Bounded;
use crate::ir::expr::Operator;

verus! {

/// One of the sixteen scalar-float registers.
pub type Xmm = Bounded<0, 15>;

/// Most of the 64-bit general-purpose registers under the System V calling
/// convention. The numbered registers are split into two exclusive groups,
/// 8 through 10 and 11 through 15.
#[derive(Clone, Copy, PartialEq, Debug)]
pub enum R {
    /// Does not need to be saved. Holds the return value of the routine.
    Rax,
    /// Needs to be saved.
    Rbx,
    /// Does not need to be saved. Holds the 4th argument to the routine.
    Rcx,
    /// Does not need to be saved. Holds the 3rd argument to the routine.
    Rdx,
    /// Does not need to be saved. Holds the 2nd argument to the routine.
    Rsi,
    /// Does not need to be saved. Holds the 1st argument to the routine.
    Rdi,
    /// Needs to be saved.
    Rbp,
    /// Needs to be saved. Points to the top of the stack.
    Rsp,
    /// Does not need to be saved.
    RLow(Bounded<8, 10>),
    /// Needs to be saved.
    RHigh(Bounded<11, 15>),
}

/// Any machine register.
#[derive(Clone, Copy, PartialEq, Debug)]
pub enum Register {
    /// Does not need to be saved.
    Xmm(Xmm),
    /// Sometimes needs to be saved.
    R(R),
}

/// The multiplier of an index register in an address.
#[derive(Clone, Copy, PartialEq, Eq, Structural, Debug)]
pub enum ScaleFactor {
    S1,
    S2,
    S4,
    S8,
}

impl ScaleFactor {
    pub open spec fn spec_as_u8(self) -> u8 {
        match self {
            ScaleFactor::S1 => 1,
            ScaleFactor::S2 => 2,
            ScaleFactor::S4 => 4,
            ScaleFactor::S8 => 8,
        }
    }

    /// The multiplier as a number.
    pub fn as_u8(&self) -> (r: u8)
        ensures
            r == self.spec_as_u8(),
    {
        match self {
            ScaleFactor::S1 => 1,
            ScaleFactor::S2 => 2,
            ScaleFactor::S4 => 4,
            ScaleFactor::S8 => 8,
        }
    }
}

/// A scaled index register.
#[derive(Clone, Copy, PartialEq, Debug)]
pub struct Index {
    pub index: R,
    pub scale: ScaleFactor,
}

/// A memory operand: `displacement + base + index * scale`.
#[derive(Clone, Copy, PartialEq, Debug)]
pub struct Memory {
    pub displacement: i32,
    pub base: R,
    pub index: Option<Index>,
}

/// Data movement.
#[derive(Clone, Copy, PartialEq, Debug)]
pub enum Move {
    /// movss
    FloatFromMemory { dest: Xmm, src: Memory },
    /// movss
    FloatToMemory { dest: Memory, src: Xmm },
    /// movss
    FloatToFloat { dest: Xmm, src: Xmm },
    /// mov (32-bit immediate)
    IntegerFromConstant { dest: R, src: i32 },
    /// movd
    FloatFromInteger { dest: Xmm, src: R },
    /// mov (32-bit store)
    IntegerToMemory { dest: Memory, src: R },
}

/// addss, subss, mulss, divss
#[derive(Clone, Copy, PartialEq, Debug)]
pub struct FloatAssign {
    pub operator: Operator,
    pub dest: Xmm,
    pub value: Xmm,
}

/// add or sub with a 32-bit immediate, on a 64-bit register.
#[derive(Clone, Copy, PartialEq, Debug)]
pub struct IntegerAssign {
    pub dest: R,
    pub value: u32,
}

/// In-place arithmetic.
#[derive(Clone, Copy, PartialEq, Debug)]
pub enum Arithmetic {
    FloatAssign(FloatAssign),
    IntegerAddAssign(IntegerAssign),
    IntegerSubAssign(IntegerAssign),
}

/// Comparison, setting the machine flags.
#[derive(Clone, Copy, PartialEq, Debug)]
pub enum Compare {
    /// comiss
    CompareFloats { first: Xmm, second: Xmm },
}

/// Control transfer. Offsets count *instructions*, not bytes; the encoder
/// resolves them to byte displacements when a whole program is assembled.
#[derive(Clone, Copy, PartialEq, Debug)]
pub enum Jump {
    /// jmp
    Unconditional { offset: i32 },
    /// jae
    AboveEqual { offset: i32 },
}

/// Any machine instruction.
#[derive(Clone, Copy, PartialEq, Debug)]
pub enum Instruction {
    Move(Move),
    ArithmeticOperation(Arithmetic),
    Compare(Compare),
    Jump(Jump),
}

/// An ordered instruction stream.
#[derive(PartialEq, Debug)]
pub struct Program {
    pub instructions: Vec<Instruction>,
}

} // verus!
