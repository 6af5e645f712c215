//! The linear register-based intermediate representation.
//!
//! A program is an ordered list of statements over an unbounded set of
//! registers, together with the registers that carry its inputs and a final
//! output value. Statement order is the only execution order; a register may
//! be redefined by a later statement (that is how accumulation works).

use vstd::prelude::*;

verus! {

/// A register: an opaque non-negative index, scoped to a single program.
#[derive(Clone, Copy, PartialEq, Eq, Structural, Debug)]
pub struct Register {
    pub index: usize,
}

/// An operand: either a register or a constant (raw 32-bit float pattern).
#[derive(Clone, Copy, PartialEq, Eq, Structural, Debug)]
pub enum Value {
    Register(Register),
    Number(u32),
}

/// The right-hand side of a statement.
#[derive(Clone, Copy, PartialEq, Eq, Structural, Debug)]
pub enum Expr {
    /// The destination takes the value unconditionally.
    Move(Value),
    /// The destination is combined in place with `operand`: it must already
    /// hold a value before this statement executes (read-modify-write).
    Operation { operator: crate::ir::expr::Operator, operand: Value },
    /// The destination takes `consequent` if `predicate` is at least zero,
    /// else `alternative`.
    IfPositive { predicate: Value, consequent: Value, alternative: Value },
}

/// One statement: `destination` takes (or is combined with) `expr`.
#[derive(Clone, Copy, PartialEq, Eq, Structural, Debug)]
pub struct Statement {
    pub destination: Register,
    pub expr: Expr,
}

/// A register-IR program.
#[derive(Debug)]
pub struct Program {
    pub input: Vec<Register>,
    pub statements: Vec<Statement>,
    pub output: Value,
}

/// The registers a value reads (none for a constant).
pub open spec fn value_reads(v: Value, r: Register) -> bool {
    v == Value::Register(r)
}

/// The registers statement `s` reads: every operand position, and the
/// destination itself for a read-modify-write operation.
pub open spec fn stmt_reads(s: Statement, r: Register) -> bool {
    match s.expr {
        Expr::Move(v) => value_reads(v, r),
        Expr::Operation { operand, .. } => s.destination == r || value_reads(operand, r),
        Expr::IfPositive { predicate, consequent, alternative } => value_reads(predicate, r)
            || value_reads(consequent, r) || value_reads(alternative, r),
    }
}

/// The registers statement `s` mentions at all.
pub open spec fn stmt_mentions(s: Statement, r: Register) -> bool {
    s.destination == r || stmt_reads(s, r)
}

/// Every register that statement `s` reads is in `defined`.
pub open spec fn stmt_wf(s: Statement, defined: Set<usize>) -> bool {
    forall|r: Register| stmt_reads(s, r) ==> defined.contains(r.index)
}

/// Every statement reads only registers that are inputs (`defined` at entry)
/// or destinations of earlier statements.
pub open spec fn stmts_wf(stmts: Seq<Statement>, defined: Set<usize>) -> bool
    decreases stmts.len(),
{
    stmts.len() == 0 || {
        &&& stmt_wf(stmts[0], defined)
        &&& stmts_wf(stmts.drop_first(), defined.insert(stmts[0].destination.index))
    }
}

/// The defined set after running `stmts` from `defined`.
pub open spec fn defined_after(stmts: Seq<Statement>, defined: Set<usize>) -> Set<usize>
    decreases stmts.len(),
{
    if stmts.len() == 0 {
        defined
    } else {
        defined_after(stmts.drop_first(), defined.insert(stmts[0].destination.index))
    }
}

/// A whole program is well formed with respect to an initial defined set
/// (normally the domain of the input binding): all reads are defined when
/// they happen, and so is the output.
pub open spec fn program_wf(p: &Program, defined: Set<usize>) -> bool {
    &&& (forall|i: int| 0 <= i < p.input@.len() ==> defined.contains(p.input@[i].index))
    &&& stmts_wf(p.statements@, defined)
    &&& match p.output {
        Value::Register(r) => defined_after(p.statements@, defined).contains(r.index),
        Value::Number(_) => true,
    }
}

} // verus!
