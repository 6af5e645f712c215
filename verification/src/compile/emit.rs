//! Emission: register-IR program to machine instructions.
//!
//! Every register-IR register `i` is a fixed 4-byte stack slot at
//! displacement `i*4` from the stack pointer. The prologue claims the whole
//! frame, the epilogue releases it, and each statement is compiled into a
//! fixed shape over scratch registers chosen by convention — valid because
//! only stack slots, never scratch registers, carry state across
//! statements.

use vstd::prelude::*;

use crate::bounded::Bounded;
use crate::compile::assemble::Assemblable;
use crate::ir::machine;
use crate::ir::register;
use crate::ir::register::{stmt_mentions, Statement, Value};

verus! {

/// The frame slot that holds register-IR register `r`.
pub open spec fn spec_register_access(r: register::Register) -> machine::Memory {
    machine::Memory {
        displacement: (r.index * 4) as i32,
        base: machine::R::Rsp,
        index: None,
    }
}

/// Load a raw 32-bit pattern into an integer register.
pub open spec fn spec_load_constant(bits: u32, register: machine::R) -> machine::Instruction {
    machine::Instruction::Move(
        machine::Move::IntegerFromConstant { dest: register, src: bits as i32 },
    )
}

/// Materialize an operand into the float register `dest`, using
/// `intermediate` on the way for a constant's bit pattern.
pub open spec fn spec_load_value(
    value: Value,
    dest: machine::Xmm,
    intermediate: machine::R,
) -> Seq<machine::Instruction> {
    match value {
        Value::Register(r) => seq![
            machine::Instruction::Move(
                machine::Move::FloatFromMemory { dest, src: spec_register_access(r) },
            ),
        ],
        Value::Number(bits) => seq![
            spec_load_constant(bits, intermediate),
            machine::Instruction::Move(machine::Move::FloatFromInteger { dest, src: intermediate }),
        ],
    }
}

/// The instructions one statement compiles to.
pub open spec fn spec_emit_statement(s: Statement) -> Seq<machine::Instruction> {
    let xmm0 = machine::Xmm::spec_make(0);
    let xmm1 = machine::Xmm::spec_make(1);
    let xmm2 = machine::Xmm::spec_make(2);
    let xmm3 = machine::Xmm::spec_make(3);
    let intermediate = machine::R::Rbx;
    match s.expr {
        register::Expr::Move(Value::Register(r)) => seq![
            machine::Instruction::Move(
                machine::Move::FloatFromMemory { dest: xmm0, src: spec_register_access(r) },
            ),
            machine::Instruction::Move(
                machine::Move::FloatToMemory {
                    dest: spec_register_access(s.destination),
                    src: xmm0,
                },
            ),
        ],
        register::Expr::Move(Value::Number(bits)) => seq![
            spec_load_constant(bits, intermediate),
            machine::Instruction::Move(
                machine::Move::IntegerToMemory {
                    dest: spec_register_access(s.destination),
                    src: intermediate,
                },
            ),
        ],
        register::Expr::Operation { operator, operand } => seq![
            machine::Instruction::Move(
                machine::Move::FloatFromMemory {
                    dest: xmm0,
                    src: spec_register_access(s.destination),
                },
            ),
        ] + spec_load_value(operand, xmm1, intermediate) + seq![
            machine::Instruction::ArithmeticOperation(
                machine::Arithmetic::FloatAssign(
                    machine::FloatAssign { operator, dest: xmm0, value: xmm1 },
                ),
            ),
            machine::Instruction::Move(
                machine::Move::FloatToMemory {
                    dest: spec_register_access(s.destination),
                    src: xmm0,
                },
            ),
        ],
        register::Expr::IfPositive { predicate, consequent, alternative } => spec_load_value(
            predicate,
            xmm0,
            intermediate,
        ) + spec_load_value(consequent, xmm1, intermediate) + spec_load_value(
            alternative,
            xmm2,
            intermediate,
        ) + seq![
            spec_load_constant(0, intermediate),
            machine::Instruction::Move(
                machine::Move::FloatFromInteger { dest: xmm3, src: intermediate },
            ),
            machine::Instruction::Compare(
                machine::Compare::CompareFloats { first: xmm0, second: xmm3 },
            ),
            machine::Instruction::Jump(machine::Jump::AboveEqual { offset: 1 }),
            machine::Instruction::Move(machine::Move::FloatToFloat { dest: xmm1, src: xmm2 }),
            machine::Instruction::Move(
                machine::Move::FloatToMemory {
                    dest: spec_register_access(s.destination),
                    src: xmm1,
                },
            ),
        ],
    }
}

/// The instructions a statement list compiles to, in order.
pub open spec fn spec_emit_statements(stmts: Seq<Statement>) -> Seq<machine::Instruction>
    decreases stmts.len(),
{
    if stmts.len() == 0 {
        Seq::<machine::Instruction>::empty()
    } else {
        spec_emit_statement(stmts[0]) + spec_emit_statements(stmts.drop_first())
    }
}

/// The whole compiled routine: prologue claiming the frame, the statements
/// in order, epilogue releasing the frame.
pub open spec fn spec_emit_program(
    stmts: Seq<Statement>,
    registers: u32,
) -> Seq<machine::Instruction> {
    let stack_allocation = (registers * 4) as u32;
    seq![
        machine::Instruction::ArithmeticOperation(
            machine::Arithmetic::IntegerSubAssign(
                machine::IntegerAssign { dest: machine::R::Rsp, value: stack_allocation },
            ),
        ),
    ] + spec_emit_statements(stmts) + seq![
        machine::Instruction::ArithmeticOperation(
            machine::Arithmetic::IntegerAddAssign(
                machine::IntegerAssign { dest: machine::R::Rsp, value: stack_allocation },
            ),
        ),
    ]
}

/// Every register a statement list touches has a frame slot whose
/// displacement fits a 32-bit signed integer.
pub open spec fn frame_fits(stmts: Seq<Statement>) -> bool {
    forall|k: int, r: register::Register|
        0 <= k < stmts.len() && #[trigger] stmt_mentions(stmts[k], r) ==> r.index * 4
            <= i32::MAX
}

/// The float register numbered `index`.
fn xmm_register(index: i64) -> (r: machine::Xmm)
    requires
        0 <= index <= 15,
    ensures
        r == machine::Xmm::spec_make(index as int),
{
    let made = Bounded::try_construct(index);
    match made {
        Ok(x) => x,
        Err(_) => unreached(),
    }
}

/// The frame slot of register-IR register `register`.
fn register_access(register: register::Register) -> (r: machine::Memory)
    requires
        register.index * 4 <= i32::MAX,
    ensures
        r == spec_register_access(register),
{
    let displacement: i32 = (register.index * 4) as i32;
    machine::Memory { displacement, base: machine::R::Rsp, index: None }
}

/// Load the raw pattern `bits` into `register` (a raw bit-pattern move,
/// not a numeric conversion).
fn load_constant(bits: u32, register: machine::R) -> (r: machine::Instruction)
    ensures
        r == spec_load_constant(bits, register),
{
    machine::Instruction::Move(
        machine::Move::IntegerFromConstant { dest: register, src: bits as i32 },
    )
}

/// Append the instructions that materialize `value` into `dest`.
fn load_value(
    instructions: &mut Vec<machine::Instruction>,
    value: Value,
    dest: machine::Xmm,
    intermediate: machine::R,
)
    requires
        value matches Value::Register(r) ==> r.index * 4 <= i32::MAX,
    ensures
        final(instructions)@ == old(instructions)@ + spec_load_value(value, dest, intermediate),
{
    match value {
        Value::Register(r) => {
            instructions.push(
                machine::Instruction::Move(
                    machine::Move::FloatFromMemory { dest, src: register_access(r) },
                ),
            );
            proof {
                assert(instructions@ =~= old(instructions)@ + spec_load_value(
                    value,
                    dest,
                    intermediate,
                ));
            }
        },
        Value::Number(bits) => {
            instructions.push(load_constant(bits, intermediate));
            instructions.push(
                machine::Instruction::Move(machine::Move::FloatFromInteger { dest, src: intermediate }),
            );
            proof {
                assert(instructions@ =~= old(instructions)@ + spec_load_value(
                    value,
                    dest,
                    intermediate,
                ));
            }
        },
    }
}

/// Compile a register-IR program into machine instructions, with a frame
/// of `registers` four-byte slots standing for the registers.
pub fn emit_program(program: &register::Program, registers: u32) -> (r: machine::Program)
    requires
        frame_fits(program.statements@),
        registers * 4 <= u32::MAX,
    ensures
        r.instructions@ == spec_emit_program(program.statements@, registers),
{
    let mut instructions: Vec<machine::Instruction> = Vec::new();

    let stack_allocation: u32 = registers * 4;

    instructions.push(
        machine::Instruction::ArithmeticOperation(
            machine::Arithmetic::IntegerSubAssign(
                machine::IntegerAssign { dest: machine::R::Rsp, value: stack_allocation },
            ),
        ),
    );
    let ghost prologue = instructions@;

    let n = program.statements.len();
    let mut k: usize = 0;
    while k < n
        invariant
            0 <= k <= n,
            n == program.statements@.len(),
            frame_fits(program.statements@),
            instructions@ == prologue + spec_emit_statements(program.statements@.take(k as int)),
            prologue.len() == 1,
        decreases n - k,
    {
        let ghost pre = instructions@;
        let statement = &program.statements[k];
        proof {
            assert(stmt_mentions(program.statements@[k as int], statement.destination));
            match statement.expr {
                register::Expr::Move(v) => {
                    if let Value::Register(r) = v {
                        assert(stmt_mentions(program.statements@[k as int], r));
                    }
                },
                register::Expr::Operation { operand, .. } => {
                    if let Value::Register(r) = operand {
                        assert(stmt_mentions(program.statements@[k as int], r));
                    }
                },
                register::Expr::IfPositive { predicate, consequent, alternative } => {
                    if let Value::Register(r) = predicate {
                        assert(stmt_mentions(program.statements@[k as int], r));
                    }
                    if let Value::Register(r) = consequent {
                        assert(stmt_mentions(program.statements@[k as int], r));
                    }
                    if let Value::Register(r) = alternative {
                        assert(stmt_mentions(program.statements@[k as int], r));
                    }
                },
            }
        }
        match &statement.expr {
            register::Expr::Move(Value::Register(reg)) => {
                // load the source slot into a float scratch register, then
                // store that register into the destination slot: never
                // memory to memory
                let intermediate = xmm_register(0);
                instructions.push(
                    machine::Instruction::Move(
                        machine::Move::FloatFromMemory {
                            dest: intermediate,
                            src: register_access(*reg),
                        },
                    ),
                );
                instructions.push(
                    machine::Instruction::Move(
                        machine::Move::FloatToMemory {
                            dest: register_access(statement.destination),
                            src: intermediate,
                        },
                    ),
                );
            },
            register::Expr::Move(Value::Number(bits)) => {
                // a raw bit-pattern store through an integer register
                let intermediate_int = machine::R::Rbx;
                instructions.push(load_constant(*bits, intermediate_int));
                instructions.push(
                    machine::Instruction::Move(
                        machine::Move::IntegerToMemory {
                            dest: register_access(statement.destination),
                            src: intermediate_int,
                        },
                    ),
                );
            },
            register::Expr::Operation { operator, operand } => {
                let first = xmm_register(0);
                let second = xmm_register(1);
                let intermediate = machine::R::Rbx;

                instructions.push(
                    machine::Instruction::Move(
                        machine::Move::FloatFromMemory {
                            dest: first,
                            src: register_access(statement.destination),
                        },
                    ),
                );
                load_value(&mut instructions, *operand, second, intermediate);
                instructions.push(
                    machine::Instruction::ArithmeticOperation(
                        machine::Arithmetic::FloatAssign(
                            machine::FloatAssign { operator: *operator, dest: first, value: second },
                        ),
                    ),
                );
                instructions.push(
                    machine::Instruction::Move(
                        machine::Move::FloatToMemory {
                            dest: register_access(statement.destination),
                            src: first,
                        },
                    ),
                );
            },
            register::Expr::IfPositive { predicate, consequent, alternative } => {
                // materialize all three operands and a zero, compare, and
                // conditionally skip the single instruction that overwrites
                // the consequent with the alternative
                let predicate_xmm = xmm_register(0);
                let consequent_xmm = xmm_register(1);
                let alternative_xmm = xmm_register(2);
                let zero_xmm = xmm_register(3);
                let intermediate = machine::R::Rbx;

                load_value(&mut instructions, *predicate, predicate_xmm, intermediate);
                load_value(&mut instructions, *consequent, consequent_xmm, intermediate);
                load_value(&mut instructions, *alternative, alternative_xmm, intermediate);
                instructions.push(load_constant(0, intermediate));
                instructions.push(
                    machine::Instruction::Move(
                        machine::Move::FloatFromInteger { dest: zero_xmm, src: intermediate },
                    ),
                );
                instructions.push(
                    machine::Instruction::Compare(
                        machine::Compare::CompareFloats {
                            first: predicate_xmm,
                            second: zero_xmm,
                        },
                    ),
                );
                // the offset is pinned to the single overwriting move below
                instructions.push(
                    machine::Instruction::Jump(machine::Jump::AboveEqual { offset: 1 }),
                );
                instructions.push(
                    machine::Instruction::Move(
                        machine::Move::FloatToFloat {
                            dest: consequent_xmm,
                            src: alternative_xmm,
                        },
                    ),
                );
                instructions.push(
                    machine::Instruction::Move(
                        machine::Move::FloatToMemory {
                            dest: register_access(statement.destination),
                            src: consequent_xmm,
                        },
                    ),
                );
            },
        }
        proof {
            assert(instructions@ =~= pre + spec_emit_statement(program.statements@[k as int]));
            lemma_emit_take_step(program.statements@, k as int);
            assert(instructions@ =~= prologue + spec_emit_statements(program.statements@.take(
                k as int + 1,
            )));
        }
        k = k + 1;
    }

    instructions.push(
        machine::Instruction::ArithmeticOperation(
            machine::Arithmetic::IntegerAddAssign(
                machine::IntegerAssign { dest: machine::R::Rsp, value: stack_allocation },
            ),
        ),
    );
    proof {
        assert(program.statements@.take(n as int) == program.statements@);
        assert(instructions@ =~= spec_emit_program(program.statements@, registers));
    }
    machine::Program { instructions }
}

/// An emitted stream contains only encodable instructions, and its only
/// jumps are the fixed skip-one conditionals, each followed inside its own
/// statement's chunk by the move it skips.
spec fn emitted_stream_ok(instrs: Seq<machine::Instruction>) -> bool {
    forall|i: int| 0 <= i < instrs.len() ==> match #[trigger] instrs[i] {
        machine::Instruction::Jump(j) => j == (machine::Jump::AboveEqual { offset: 1 }) && i + 1
            < instrs.len() && (instrs[i + 1] matches machine::Instruction::Move(
            machine::Move::FloatToFloat { .. },
        )),
        _ => instrs[i].encodable(),
    }
}

/// No emitted chunk ends with a jump.
spec fn emitted_chunk_ok(instrs: Seq<machine::Instruction>) -> bool {
    emitted_stream_ok(instrs) && (instrs.len() > 0 ==> !(instrs.last() is Jump))
}

proof fn lemma_chunk_concat(x: Seq<machine::Instruction>, y: Seq<machine::Instruction>)
    requires
        emitted_chunk_ok(x),
        emitted_chunk_ok(y),
    ensures
        emitted_chunk_ok(x + y),
{
    let z = x + y;
    assert forall|i: int| 0 <= i < z.len() implies match #[trigger] z[i] {
        machine::Instruction::Jump(j) => j == (machine::Jump::AboveEqual { offset: 1 }) && i + 1
            < z.len() && (z[i + 1] matches machine::Instruction::Move(
            machine::Move::FloatToFloat { .. },
        )),
        _ => z[i].encodable(),
    } by {
        if i < x.len() {
            assert(z[i] == x[i]);
            if z[i] is Jump {
                assert(i + 1 < x.len());
                assert(z[i + 1] == x[i + 1]);
            }
        } else {
            assert(z[i] == y[i - x.len()]);
            if z[i] is Jump {
                assert(z[i + 1] == y[i - x.len() + 1]);
            }
        }
    }
    if z.len() > 0 {
        if y.len() > 0 {
            assert(z.last() == y.last());
        } else {
            assert(z =~= x);
        }
    }
}

/// Materializing a value emits only encodable, jump-free moves.
proof fn lemma_load_value_ok(value: Value, dest: machine::Xmm, intermediate: machine::R)
    ensures
        emitted_chunk_ok(spec_load_value(value, dest, intermediate)),
{
    match value {
        Value::Register(r) => {
            assert(crate::compile::assemble::mem_encodable(spec_register_access(r)));
        },
        Value::Number(_) => {},
    }
}

/// Every statement's chunk is well shaped.
proof fn lemma_emit_statement_ok(s: Statement)
    ensures
        emitted_chunk_ok(spec_emit_statement(s)),
{
    let xmm0 = machine::Xmm::spec_make(0);
    let xmm1 = machine::Xmm::spec_make(1);
    let xmm2 = machine::Xmm::spec_make(2);
    let xmm3 = machine::Xmm::spec_make(3);
    let intermediate = machine::R::Rbx;
    match s.expr {
        register::Expr::Move(v) => {
            match v {
                Value::Register(r) => {
                    assert(crate::compile::assemble::mem_encodable(spec_register_access(r)));
                    assert(crate::compile::assemble::mem_encodable(
                        spec_register_access(s.destination),
                    ));
                },
                Value::Number(_) => {
                    assert(crate::compile::assemble::mem_encodable(
                        spec_register_access(s.destination),
                    ));
                },
            }
        },
        register::Expr::Operation { operator, operand } => {
            lemma_load_value_ok(operand, xmm1, intermediate);
            let chunk = spec_emit_statement(s);
            let loads = spec_load_value(operand, xmm1, intermediate);
            assert(crate::compile::assemble::mem_encodable(
                spec_register_access(s.destination),
            ));
            assert forall|i: int| 0 <= i < chunk.len() implies match #[trigger] chunk[i] {
                machine::Instruction::Jump(j) => j == (machine::Jump::AboveEqual { offset: 1 })
                    && i + 1 < chunk.len() && (chunk[i + 1] matches machine::Instruction::Move(
                    machine::Move::FloatToFloat { .. },
                )),
                _ => chunk[i].encodable(),
            } by {
                if 1 <= i < 1 + loads.len() {
                    assert(chunk[i] == loads[i - 1]);
                    assert(!(loads[i - 1] is Jump));
                }
            }
            assert(!(chunk.last() is Jump));
        },
        register::Expr::IfPositive { predicate, consequent, alternative } => {
            lemma_load_value_ok(predicate, xmm0, intermediate);
            lemma_load_value_ok(consequent, xmm1, intermediate);
            lemma_load_value_ok(alternative, xmm2, intermediate);
            let p = spec_load_value(predicate, xmm0, intermediate);
            let c = spec_load_value(consequent, xmm1, intermediate);
            let a = spec_load_value(alternative, xmm2, intermediate);
            let chunk = spec_emit_statement(s);
            let base = p.len() + c.len() + a.len() as int;
            assert(crate::compile::assemble::mem_encodable(
                spec_register_access(s.destination),
            ));
            assert forall|i: int| 0 <= i < chunk.len() implies match #[trigger] chunk[i] {
                machine::Instruction::Jump(j) => j == (machine::Jump::AboveEqual { offset: 1 })
                    && i + 1 < chunk.len() && (chunk[i + 1] matches machine::Instruction::Move(
                    machine::Move::FloatToFloat { .. },
                )),
                _ => chunk[i].encodable(),
            } by {
                if i < p.len() {
                    assert(chunk[i] == p[i]);
                    assert(!(p[i] is Jump));
                } else if i < p.len() + c.len() {
                    assert(chunk[i] == c[i - p.len()]);
                    assert(!(c[i - p.len()] is Jump));
                } else if i < base {
                    assert(chunk[i] == a[i - p.len() - c.len()]);
                    assert(!(a[i - p.len() - c.len()] is Jump));
                } else {
                    assert(chunk[base] == spec_load_constant(0, intermediate));
                    assert(chunk[base + 1] == machine::Instruction::Move(
                        machine::Move::FloatFromInteger { dest: xmm3, src: intermediate },
                    ));
                    assert(chunk[base + 2] == machine::Instruction::Compare(
                        machine::Compare::CompareFloats { first: xmm0, second: xmm3 },
                    ));
                    assert(chunk[base + 3] == machine::Instruction::Jump(
                        machine::Jump::AboveEqual { offset: 1 },
                    ));
                    assert(chunk[base + 4] == machine::Instruction::Move(
                        machine::Move::FloatToFloat { dest: xmm1, src: xmm2 },
                    ));
                    assert(chunk[base + 5] == machine::Instruction::Move(
                        machine::Move::FloatToMemory {
                            dest: spec_register_access(s.destination),
                            src: xmm1,
                        },
                    ));
                }
            }
            assert(chunk.last() == chunk[base + 5]);
            assert(!(chunk.last() is Jump));
        },
    }
}

proof fn lemma_emit_statements_ok(stmts: Seq<Statement>)
    ensures
        emitted_chunk_ok(spec_emit_statements(stmts)),
    decreases stmts.len(),
{
    if stmts.len() == 0 {
        assert(emitted_chunk_ok(Seq::<machine::Instruction>::empty()));
    } else {
        lemma_emit_statement_ok(stmts[0]);
        lemma_emit_statements_ok(stmts.drop_first());
        lemma_chunk_concat(spec_emit_statement(stmts[0]), spec_emit_statements(stmts.drop_first()));
    }
}

/// Every program the emitter produces can be assembled: all its
/// instructions are encodable, and every jump skips exactly the following
/// short move.
pub proof fn lemma_emitted_program_encodable(stmts: Seq<Statement>, registers: u32)
    ensures
        crate::compile::assemble::program_encodable(spec_emit_program(stmts, registers)),
{
    let whole = spec_emit_program(stmts, registers);
    lemma_emit_statements_ok(stmts);
    let stack_allocation = (registers * 4) as u32;
    let prologue = seq![
        machine::Instruction::ArithmeticOperation(
            machine::Arithmetic::IntegerSubAssign(
                machine::IntegerAssign { dest: machine::R::Rsp, value: stack_allocation },
            ),
        ),
    ];
    let epilogue = seq![
        machine::Instruction::ArithmeticOperation(
            machine::Arithmetic::IntegerAddAssign(
                machine::IntegerAssign { dest: machine::R::Rsp, value: stack_allocation },
            ),
        ),
    ];
    assert(emitted_chunk_ok(prologue)) by {
        assert(prologue[0].encodable());
        assert(!(prologue.last() is Jump));
    }
    assert(emitted_chunk_ok(epilogue)) by {
        assert(epilogue[0].encodable());
        assert(!(epilogue.last() is Jump));
    }
    lemma_chunk_concat(prologue, spec_emit_statements(stmts));
    lemma_chunk_concat(prologue + spec_emit_statements(stmts), epilogue);
    assert(whole =~= (prologue + spec_emit_statements(stmts)) + epilogue);
    assert(emitted_chunk_ok(whole));

    assert forall|i: int| 0 <= i < whole.len() implies match #[trigger] whole[i] {
        machine::Instruction::Jump(j) => {
            &&& 0 <= crate::compile::assemble::jump_offset(j)
            &&& i + crate::compile::assemble::jump_offset(j) < whole.len()
            &&& (forall|w: int|
                i < w <= i + crate::compile::assemble::jump_offset(j) ==> !(#[trigger] whole[
                    w
                ] is Jump) && whole[w].encodable())
            &&& crate::compile::assemble::window_len(
                whole,
                i + 1,
                crate::compile::assemble::jump_offset(j),
            ) <= 127
        },
        _ => whole[i].encodable(),
    } by {
        match whole[i] {
            machine::Instruction::Jump(j) => {
                assert(j == (machine::Jump::AboveEqual { offset: 1 }));
                assert(crate::compile::assemble::jump_offset(j) == 1);
                assert(whole[i + 1] matches machine::Instruction::Move(
                    machine::Move::FloatToFloat { .. },
                ));
                assert forall|w: int| i < w <= i + 1 implies !(#[trigger] whole[w] is Jump)
                    && whole[w].encodable() by {
                    assert(w == i + 1);
                }
                assert(crate::compile::assemble::window_len(whole, i + 1, 1) == whole[
                    i + 1
                ].encoding().len() + crate::compile::assemble::window_len(whole, i + 2, 0));
                assert(whole[i + 1].encoding().len() <= 5) by {
                    match whole[i + 1] {
                        machine::Instruction::Move(m) => {
                            match m {
                                machine::Move::FloatToFloat { dest, src } => {
                                    assert(crate::compile::assemble::rex_opt(
                                        false,
                                        crate::compile::assemble::xmm_ext(dest),
                                        false,
                                        crate::compile::assemble::xmm_ext(src),
                                    ).len() <= 1);
                                },
                                _ => {
                                    assert(false);
                                },
                            }
                        },
                        _ => {
                            assert(false);
                        },
                    }
                }
            },
            _ => {},
        }
    }
}

/// Compiling one more statement appends its instructions.
proof fn lemma_emit_take_step(stmts: Seq<Statement>, k: int)
    requires
        0 <= k < stmts.len(),
    ensures
        spec_emit_statements(stmts.take(k + 1)) == spec_emit_statements(stmts.take(k))
            + spec_emit_statement(stmts[k]),
    decreases k,
{
    if k == 0 {
        assert(stmts.take(1).drop_first() =~= Seq::<Statement>::empty());
        assert(stmts.take(1)[0] == stmts[0]);
        assert(stmts.take(0) =~= Seq::<Statement>::empty());
        assert(spec_emit_statements(stmts.take(0)) == Seq::<machine::Instruction>::empty());
        assert(spec_emit_statements(stmts.take(1)) =~= spec_emit_statement(stmts[0]));
    } else {
        lemma_emit_take_step(stmts.drop_first(), k - 1);
        assert(stmts.take(k + 1).drop_first() =~= stmts.drop_first().take(k));
        assert(stmts.take(k).drop_first() =~= stmts.drop_first().take(k - 1));
        assert(stmts.take(k + 1)[0] == stmts[0]);
        assert(stmts.take(k)[0] == stmts[0]);
        assert(stmts.drop_first()[k - 1] == stmts[k]);
        assert(spec_emit_statements(stmts.take(k + 1)) == spec_emit_statement(stmts[0])
            + spec_emit_statements(stmts.drop_first().take(k)));
        assert(spec_emit_statements(stmts.take(k)) == spec_emit_statement(stmts[0])
            + spec_emit_statements(stmts.drop_first().take(k - 1)));
        assert(spec_emit_statement(stmts[0]) + (spec_emit_statements(stmts.drop_first().take(
            k - 1,
        )) + spec_emit_statement(stmts[k])) =~= (spec_emit_statement(stmts[0])
            + spec_emit_statements(stmts.drop_first().take(k - 1))) + spec_emit_statement(
            stmts[k],
        ));
    }
}

} // verus!
