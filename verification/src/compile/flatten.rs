//! Lowering: expression tree to register-IR program.
//!
//! The translation is a recursive descent that reuses dead intermediate
//! registers in place: the result of a subtree is accumulated into, rather
//! than copied, whenever that result lives in a register the caller does not
//! own. Registers named by the caller (the "aliased" set, the program's
//! inputs) are never mutated. Fresh registers are numbered from one past the
//! highest input index, strictly increasing; packing them densely is the
//! allocation stage's job, not ours.

use vstd::prelude::*;

use crate::eval::expr::{spec_apply, spec_evaluate, vars_bound};
use crate::eval::register::{lemma_run_append, lemma_run_dom, spec_run, spec_step, spec_value};
use crate::ir::expr::Expr;
use crate::ir::register;
use crate::ir::register::{stmt_reads, stmt_wf, stmts_wf, Register, Statement, Value};
use crate::math::number::Number;

verus! {

/// Number of nodes of an expression tree: an upper bound on how many fresh
/// registers lowering it can consume.
pub open spec fn expr_size(e: Expr) -> nat
    decreases e,
{
    match e {
        Expr::Operation { operator, lhs, rhs } => 1 + expr_size(*lhs) + expr_size(*rhs),
        Expr::Variable(_) => 1,
        Expr::Number(_) => 1,
        Expr::IfPositive(node) => 1 + expr_size(node.predicate) + expr_size(node.consequent)
            + expr_size(node.alternative),
    }
}

/// Does `v` name a register the caller does not own — a dead intermediate
/// that lowering may overwrite in place?
pub open spec fn value_scratch(v: Value, aliased: Set<usize>) -> bool {
    match v {
        Value::Register(r) => !aliased.contains(r.index),
        Value::Number(_) => false,
    }
}

/// The register a value names (meaningful only for register values).
pub open spec fn value_register(v: Value) -> Register {
    match v {
        Value::Register(r) => r,
        Value::Number(_) => Register { index: 0 },
    }
}

/// The lowering of one subtree: the statements it emits, the value denoting
/// its result, and the fresh-register counter after it. `aliased` holds the
/// register indices owned by the caller; `next` is the first unused fresh
/// index.
pub open spec fn spec_flatten(e: Expr, aliased: Set<usize>, next: int) -> (Seq<Statement>, Value, int)
    decreases e,
{
    match e {
        Expr::Variable(index) => (
            Seq::<Statement>::empty(),
            Value::Register(Register { index }),
            next,
        ),
        Expr::Number(bits) => (Seq::<Statement>::empty(), Value::Number(bits), next),
        Expr::Operation { operator, lhs, rhs } => {
            let (s1, a, n1) = spec_flatten(*lhs, aliased, next);
            let (s2, b, n2) = spec_flatten(*rhs, aliased, n1);
            if value_scratch(a, aliased) {
                let ra = value_register(a);
                (
                    s1 + s2 + seq![
                        Statement {
                            destination: ra,
                            expr: register::Expr::Operation { operator, operand: b },
                        },
                    ],
                    Value::Register(ra),
                    n2,
                )
            } else if operator.spec_is_associative() && value_scratch(b, aliased) {
                let rb = value_register(b);
                (
                    s1 + s2 + seq![
                        Statement {
                            destination: rb,
                            expr: register::Expr::Operation { operator, operand: a },
                        },
                    ],
                    Value::Register(rb),
                    n2,
                )
            } else {
                let f = Register { index: n2 as usize };
                (
                    s1 + s2 + seq![
                        Statement { destination: f, expr: register::Expr::Move(a) },
                        Statement {
                            destination: f,
                            expr: register::Expr::Operation { operator, operand: b },
                        },
                    ],
                    Value::Register(f),
                    n2 + 1,
                )
            }
        },
        Expr::IfPositive(node) => {
            let (s1, predicate, n1) = spec_flatten(node.predicate, aliased, next);
            let (s2, consequent, n2) = spec_flatten(node.consequent, aliased, n1);
            let (s3, alternative, n3) = spec_flatten(node.alternative, aliased, n2);
            let f = Register { index: n3 as usize };
            (
                s1 + s2 + s3 + seq![
                    Statement {
                        destination: f,
                        expr: register::Expr::IfPositive { predicate, consequent, alternative },
                    },
                ],
                Value::Register(f),
                n3 + 1,
            )
        },
    }
}

/// The set of register indices in `s`.
pub open spec fn register_set(s: Seq<Register>) -> Set<usize> {
    Set::new(|i: usize| exists|k: int| 0 <= k < s.len() && s[k].index == i)
}

/// A strictly increasing source of fresh register numbers.
struct RegisterSource {
    unused: usize,
}

impl RegisterSource {
    fn new(unused: usize) -> (r: Self)
        ensures
            r.unused == unused,
    {
        Self { unused }
    }

    fn fresh(&mut self) -> (r: Register)
        requires
            old(self).unused < usize::MAX,
        ensures
            r.index == old(self).unused,
            final(self).unused == old(self).unused + 1,
    {
        let index = self.unused;
        self.unused = self.unused + 1;
        Register { index }
    }
}

/// Accumulates the statements of the program under construction.
struct ProgramBuilder {
    statements: Vec<Statement>,
}

impl ProgramBuilder {
    fn with_statement(&mut self, statement: Statement)
        ensures
            final(self).statements@ == old(self).statements@.push(statement),
    {
        self.statements.push(statement);
    }
}

/// Is `r` one of the caller-owned registers?
fn is_aliased(aliased: &Vec<Register>, r: Register) -> (b: bool)
    ensures
        b == register_set(aliased@).contains(r.index),
{
    let n = aliased.len();
    let mut i: usize = 0;
    while i < n
        invariant
            0 <= i <= n,
            n == aliased@.len(),
            forall|k: int| 0 <= k < i ==> aliased@[k].index != r.index,
        decreases n - i,
    {
        if aliased[i].index == r.index {
            return true;
        }
        i = i + 1;
    }
    false
}

/// Lower one subtree, appending its statements to `program`.
fn flatten(
    expr: &Expr,
    registers: &mut RegisterSource,
    program: &mut ProgramBuilder,
    aliased: &Vec<Register>,
) -> (r: Value)
    requires
        old(registers).unused + expr_size(*expr) <= usize::MAX,
    ensures
        ({
            let (s, v, n) = spec_flatten(
                *expr,
                register_set(aliased@),
                old(registers).unused as int,
            );
            &&& final(program).statements@ == old(program).statements@ + s
            &&& r == v
            &&& final(registers).unused == n
            &&& old(registers).unused <= final(registers).unused <= old(registers).unused
                + expr_size(*expr)
        }),
    decreases *expr,
{
    let ghost als = register_set(aliased@);
    let ghost n0 = old(registers).unused as int;
    let ghost base = old(program).statements@;
    match expr {
        Expr::Operation { operator, lhs, rhs } => {
            let a = flatten(lhs, registers, program, aliased);
            let ghost (s1, va, n1) = spec_flatten(**lhs, als, n0);
            let b = flatten(rhs, registers, program, aliased);
            let ghost (s2, vb, n2) = spec_flatten(**rhs, als, n1);

            if let Value::Register(result) = a {
                if !is_aliased(aliased, result) {
                    let statement = Statement {
                        destination: result,
                        expr: register::Expr::Operation { operator: *operator, operand: b },
                    };
                    program.with_statement(statement);
                    proof {
                        assert(program.statements@ =~= base + (s1 + s2 + seq![statement]));
                    }
                    return Value::Register(result);
                }
            }
            if operator.is_associative() {
                if let Value::Register(result) = b {
                    if !is_aliased(aliased, result) {
                        let statement = Statement {
                            destination: result,
                            expr: register::Expr::Operation { operator: *operator, operand: a },
                        };
                        program.with_statement(statement);
                        proof {
                            assert(program.statements@ =~= base + (s1 + s2 + seq![statement]));
                        }
                        return Value::Register(result);
                    }
                }
            }
            let result = registers.fresh();
            let move_statement = Statement { destination: result, expr: register::Expr::Move(a) };
            let op_statement = Statement {
                destination: result,
                expr: register::Expr::Operation { operator: *operator, operand: b },
            };
            program.with_statement(move_statement);
            program.with_statement(op_statement);
            proof {
                assert(program.statements@ =~= base + (s1 + s2 + seq![
                    move_statement,
                    op_statement,
                ]));
            }
            Value::Register(result)
        },
        Expr::Variable(index) => {
            proof {
                assert(program.statements@ =~= base + Seq::<Statement>::empty());
            }
            Value::Register(Register { index: *index })
        },
        Expr::Number(bits) => {
            proof {
                assert(program.statements@ =~= base + Seq::<Statement>::empty());
            }
            Value::Number(*bits)
        },
        Expr::IfPositive(node) => {
            let predicate = flatten(&node.predicate, registers, program, aliased);
            let ghost (s1, vp, n1) = spec_flatten(node.predicate, als, n0);
            let consequent = flatten(&node.consequent, registers, program, aliased);
            let ghost (s2, vc, n2) = spec_flatten(node.consequent, als, n1);
            let alternative = flatten(&node.alternative, registers, program, aliased);
            let ghost (s3, vl, n3) = spec_flatten(node.alternative, als, n2);
            let result = registers.fresh();
            let statement = Statement {
                destination: result,
                expr: register::Expr::IfPositive { predicate, consequent, alternative },
            };
            program.with_statement(statement);
            proof {
                assert(program.statements@ =~= base + (s1 + s2 + s3 + seq![statement]));
            }
            Value::Register(result)
        },
    }
}

/// One past the highest register index in `s` (0 when `s` is empty): the
/// first index lowering may use for fresh registers.
pub open spec fn fresh_base(s: Seq<Register>) -> int
    decreases s.len(),
{
    if s.len() == 0 {
        0
    } else {
        let rest = fresh_base(s.drop_last());
        let candidate = s.last().index + 1;
        if candidate > rest {
            candidate
        } else {
            rest
        }
    }
}

/// Every index in `s` lies below `fresh_base(s)`, which itself is at most
/// one past the largest index.
pub proof fn lemma_fresh_base(s: Seq<Register>)
    ensures
        forall|k: int| 0 <= k < s.len() ==> #[trigger] s[k].index < fresh_base(s),
        0 <= fresh_base(s),
        s.len() > 0 ==> exists|k: int| 0 <= k < s.len() && #[trigger] s[k].index + 1 == fresh_base(
            s,
        ),
    decreases s.len(),
{
    if s.len() > 0 {
        lemma_fresh_base(s.drop_last());
        assert(forall|k: int| 0 <= k < s.len() - 1 ==> s[k] == s.drop_last()[k]);
        assert(s[s.len() - 1] == s.last());
    }
}

/// Lower a whole expression tree: fresh registers start one past the
/// highest input index, and the result is the program whose statements and
/// output `spec_flatten` describes, over exactly the given inputs.
///
/// A `Variable` index outside `input` is a caller contract violation. It
/// is deliberately not rejected here: the fault surfaces as an unassigned
/// register when the program is evaluated, and the round-trip law below
/// holds only for trees whose variables all lie among the inputs.
pub fn to_program(expr: &Expr, input: Vec<Register>) -> (r: register::Program)
    requires
        fresh_base(input@) + expr_size(*expr) <= usize::MAX,
    ensures
        r.input@ == input@,
        r.statements@ == spec_flatten(*expr, register_set(input@), fresh_base(input@)).0,
        r.output == spec_flatten(*expr, register_set(input@), fresh_base(input@)).1,
{
    proof {
        lemma_fresh_base(input@);
    }
    let n = input.len();
    let mut base: usize = 0;
    let mut i: usize = 0;
    while i < n
        invariant
            0 <= i <= n,
            n == input@.len(),
            base as int == fresh_base(input@.take(i as int)),
            fresh_base(input@.take(i as int)) <= fresh_base(input@),
            fresh_base(input@) + expr_size(*expr) <= usize::MAX,
            forall|k: int| 0 <= k < input@.len() ==> #[trigger] input@[k].index < fresh_base(
                input@,
            ),
        decreases n - i,
    {
        let index = input[i].index;
        proof {
            assert(input@.take(i as int + 1).drop_last() == input@.take(i as int));
            assert(input@.take(i as int + 1).last() == input@[i as int]);
            lemma_fresh_base(input@.take(i as int + 1));
            assert(forall|k: int| 0 <= k < i + 1 ==> input@.take(i as int + 1)[k] == input@[k]);
        }
        if index >= base {
            base = index + 1;
        }
        i = i + 1;
    }
    proof {
        assert(input@.take(n as int) == input@);
    }
    let mut registers = RegisterSource::new(base);
    let mut program = ProgramBuilder { statements: Vec::new() };
    let output = flatten(expr, &mut registers, &mut program, &input);
    proof {
        assert(Seq::<Statement>::empty() + spec_flatten(
            *expr,
            register_set(input@),
            base as int,
        ).0 =~= spec_flatten(*expr, register_set(input@), base as int).0);
    }
    register::Program { input, statements: program.statements, output }
}

/// Every destination in `stmts` lies in `[lo, hi)`.
pub open spec fn stmts_write_in(stmts: Seq<Statement>, lo: int, hi: int) -> bool {
    forall|k: int| 0 <= k < stmts.len() ==> lo <= #[trigger] stmts[k].destination.index < hi
}

proof fn lemma_write_in_widen(stmts: Seq<Statement>, lo: int, hi: int, lo2: int, hi2: int)
    requires
        stmts_write_in(stmts, lo, hi),
        lo2 <= lo,
        hi <= hi2,
    ensures
        stmts_write_in(stmts, lo2, hi2),
{
    assert forall|k: int| 0 <= k < stmts.len() implies lo2 <= #[trigger] stmts[
        k
    ].destination.index < hi2 by {
        assert(lo <= stmts[k].destination.index < hi);
    }
}

proof fn lemma_write_in_concat(x: Seq<Statement>, y: Seq<Statement>, lo: int, hi: int)
    requires
        stmts_write_in(x, lo, hi),
        stmts_write_in(y, lo, hi),
    ensures
        stmts_write_in(x + y, lo, hi),
{
    assert forall|k: int| 0 <= k < (x + y).len() implies lo <= #[trigger] (x + y)[
        k
    ].destination.index < hi by {
        if k < x.len() {
            assert((x + y)[k] == x[k]);
        } else {
            assert((x + y)[k] == y[k - x.len()]);
        }
    }
}

/// Statements that write only inside `[lo, hi)` leave every other register
/// untouched.
proof fn lemma_run_frame<T: Number>(stmts: Seq<Statement>, lo: int, hi: int, env: Map<usize, T>)
    requires
        stmts_write_in(stmts, lo, hi),
    ensures
        forall|j: usize|
            !(lo <= j < hi) ==> #[trigger] spec_run(stmts, env).dom().contains(j)
                == env.dom().contains(j),
        forall|j: usize|
            !(lo <= j < hi) && env.dom().contains(j) ==> #[trigger] spec_run(stmts, env)[j]
                == env[j],
    decreases stmts.len(),
{
    if stmts.len() != 0 {
        let env2 = spec_step(stmts[0], env);
        assert(lo <= stmts[0].destination.index < hi);
        assert forall|k: int| 0 <= k < stmts.drop_first().len() implies lo
            <= #[trigger] stmts.drop_first()[k].destination.index < hi by {
            assert(stmts.drop_first()[k] == stmts[k + 1]);
        }
        lemma_run_frame(stmts.drop_first(), lo, hi, env2);
        assert(env2.dom() == env.dom().insert(stmts[0].destination.index));
        assert(spec_run(stmts, env) == spec_run(stmts.drop_first(), env2));
        assert forall|j: usize| !(lo <= j < hi) implies #[trigger] spec_run(
            stmts,
            env,
        ).dom().contains(j) == env.dom().contains(j) by {
            assert(spec_run(stmts.drop_first(), env2).dom().contains(j) == env2.dom().contains(j));
            assert(j != stmts[0].destination.index);
        }
        assert forall|j: usize| !(lo <= j < hi) && env.dom().contains(j) implies #[trigger]
            spec_run(stmts, env)[j] == env[j] by {
            assert(j != stmts[0].destination.index);
            assert(env2.dom().contains(j) && env2[j] == env[j]);
            assert(spec_run(stmts.drop_first(), env2)[j] == env2[j]);
        }
    }
}

/// A single statement runs as one step.
proof fn lemma_run_one<T: Number>(s: Statement, env: Map<usize, T>)
    ensures
        spec_run(seq![s], env) == spec_step(s, env),
{
    assert(seq![s].drop_first().len() == 0);
    assert(spec_run(seq![s].drop_first(), spec_step(seq![s][0], env)) == spec_step(s, env));
}

/// A single well-formed statement is a well-formed statement list.
proof fn lemma_wf_one(s: Statement, defined: Set<usize>)
    requires
        stmt_wf(s, defined),
    ensures
        stmts_wf(seq![s], defined),
{
    assert(seq![s][0] == s);
    assert(seq![s].drop_first().len() == 0);
    assert(stmts_wf(seq![s].drop_first(), defined.insert(s.destination.index)));
}

/// Well-formed statement lists compose.
proof fn lemma_stmts_wf_append(s1: Seq<Statement>, s2: Seq<Statement>, defined: Set<usize>)
    requires
        stmts_wf(s1, defined),
        stmts_wf(s2, register::defined_after(s1, defined)),
    ensures
        stmts_wf(s1 + s2, defined),
    decreases s1.len(),
{
    if s1.len() == 0 {
        assert(s1 + s2 == s2);
        assert(register::defined_after(s1, defined) == defined);
    } else {
        assert((s1 + s2).drop_first() == s1.drop_first() + s2);
        assert((s1 + s2)[0] == s1[0]);
        lemma_stmts_wf_append(
            s1.drop_first(),
            s2,
            defined.insert(s1[0].destination.index),
        );
    }
}

/// Does lowering leave this subtree's result in a scratch register? True
/// exactly for the node kinds that emit statements of their own.
pub open spec fn scratch_shape(e: Expr) -> bool {
    e matches Expr::Operation { .. } || e matches Expr::IfPositive(_)
}

/// Where the lowering accumulates into the right operand of an associative
/// operator, it computes `right op left` in place of `left op right`. This
/// predicate says that, under `binding`, the two agree at every node where
/// that exchange happens. A value domain whose addition and multiplication
/// are commutative satisfies it for every tree; a float domain satisfies it
/// whenever no exchanged node combines two differently-padded NaNs.
pub open spec fn swap_clean<T: Number>(e: Expr, binding: Map<usize, T>) -> bool
    decreases e,
{
    match e {
        Expr::Operation { operator, lhs, rhs } => {
            &&& swap_clean(*lhs, binding)
            &&& swap_clean(*rhs, binding)
            &&& (!scratch_shape(*lhs) && operator.spec_is_associative() && scratch_shape(*rhs))
                ==> spec_apply(
                operator,
                spec_evaluate(*lhs, binding),
                spec_evaluate(*rhs, binding),
            ) == spec_apply(
                operator,
                spec_evaluate(*rhs, binding),
                spec_evaluate(*lhs, binding),
            )
        },
        Expr::Variable(_) => true,
        Expr::Number(_) => true,
        Expr::IfPositive(node) => swap_clean(node.predicate, binding) && swap_clean(
            node.consequent,
            binding,
        ) && swap_clean(node.alternative, binding),
    }
}

/// The lowering round trip: evaluating an expression tree directly and
/// running its lowered register program against the same binding (each
/// input register holding its variable's value) yield the same value, in
/// every value domain and under every binding where the exchanged
/// associative applications agree (`swap_clean`). The program's statements
/// read only registers they define or that carry inputs, so the run never
/// touches an unassigned register.
pub proof fn lemma_lowering_round_trip<T: Number>(
    e: Expr,
    input: Seq<Register>,
    binding: Map<usize, T>,
)
    requires
        vars_bound(e, register_set(input)),
        swap_clean(e, binding),
        forall|i: usize| #[trigger] register_set(input).contains(i) ==> binding.dom().contains(i),
        fresh_base(input) + expr_size(e) <= usize::MAX,
    ensures
        ({
            let (stmts, v, n) = spec_flatten(e, register_set(input), fresh_base(input));
            &&& spec_value(v, spec_run(stmts, binding)) == spec_evaluate(e, binding)
            &&& stmts_wf(stmts, binding.dom())
            &&& (v matches Value::Register(r) ==> spec_run(stmts, binding).dom().contains(
                r.index,
            ))
        }),
{
    lemma_fresh_base(input);
    assert forall|i: usize| register_set(input).contains(i) implies (i as int) < fresh_base(
        input,
    ) by {
        let k = choose|k: int| 0 <= k < input.len() && input[k].index == i;
        assert(input[k].index < fresh_base(input));
    }
    lemma_flatten_preserves(e, register_set(input), fresh_base(input), binding, binding);
}

/// The lowering invariant: running the statements emitted for `e` against
/// any register file that agrees with `binding` on the caller-owned
/// registers leaves the subtree's value in the result, touches only fresh
/// registers, and reads only defined ones.
pub proof fn lemma_flatten_preserves<T: Number>(
    e: Expr,
    aliased: Set<usize>,
    next: int,
    binding: Map<usize, T>,
    file: Map<usize, T>,
)
    requires
        vars_bound(e, aliased),
        swap_clean(e, binding),
        forall|i: usize| aliased.contains(i) ==> (i as int) < next,
        forall|i: usize| #[trigger] aliased.contains(i) ==> file.dom().contains(i) && file[i]
            == binding[i],
        next + expr_size(e) <= usize::MAX,
        0 <= next,
    ensures
        ({
            let (stmts, v, n2) = spec_flatten(e, aliased, next);
            let out = spec_run(stmts, file);
            &&& next <= n2 <= next + expr_size(e)
            &&& stmts_write_in(stmts, next, n2)
            &&& stmts_wf(stmts, file.dom())
            &&& spec_value(v, out) == spec_evaluate(e, binding)
            &&& value_scratch(v, aliased) == scratch_shape(e)
            &&& (v matches Value::Register(r) ==> (aliased.contains(r.index) || next <= r.index
                < n2) && out.dom().contains(r.index))
        }),
    decreases e,
{
    match e {
        Expr::Variable(index) => {
            assert(spec_run(Seq::<Statement>::empty(), file) == file);
        },
        Expr::Number(bits) => {
            assert(spec_run(Seq::<Statement>::empty(), file) == file);
        },
        Expr::Operation { operator, lhs, rhs } => {
            let (s1, a, n1) = spec_flatten(*lhs, aliased, next);
            let (s2, b, n2) = spec_flatten(*rhs, aliased, n1);
            let file1 = spec_run(s1, file);
            let file12 = spec_run(s2, file1);

            lemma_flatten_preserves(*lhs, aliased, next, binding, file);
            lemma_run_frame(s1, next, n1, file);
            lemma_run_dom(s1, file);
            lemma_flatten_preserves(*rhs, aliased, n1, binding, file1);
            lemma_run_frame(s2, n1, n2, file1);
            lemma_run_dom(s2, file1);
            lemma_run_append(s1, s2, file);
            assert(spec_run(s1 + s2, file) == file12);

            lemma_write_in_widen(s1, next, n1, next, n2);
            lemma_write_in_widen(s2, n1, n2, next, n2);
            lemma_write_in_concat(s1, s2, next, n2);

            // the operand of the accumulating statement keeps its value
            // across the sibling's statements
            if value_scratch(a, aliased) {
                let ra = value_register(a);
                let statement = Statement {
                    destination: ra,
                    expr: register::Expr::Operation { operator, operand: b },
                };
                let stmts = s1 + s2 + seq![statement];
                assert(next <= ra.index < n1);
                assert(file12.dom().contains(ra.index) && file12[ra.index] == file1[ra.index]);
                lemma_run_append(s1 + s2, seq![statement], file);
                lemma_run_one(statement, file12);
                assert(spec_run(stmts, file) == spec_step(statement, file12));
                let out = file12.insert(
                    ra.index,
                    spec_apply(operator, file12[ra.index], spec_value(b, file12)),
                );
                assert(spec_step(statement, file12) == out);
                assert(out[ra.index] == spec_apply(
                    operator,
                    spec_evaluate(*lhs, binding),
                    spec_evaluate(*rhs, binding),
                ));

                assert(stmts_write_in(seq![statement], next, n2));
                lemma_write_in_concat(s1 + s2, seq![statement], next, n2);

                assert(stmt_wf(statement, file12.dom())) by {
                    assert forall|r: Register| stmt_reads(statement, r) implies
                        file12.dom().contains(r.index) by {
                        if r != ra {
                            assert(b == Value::Register(r));
                        }
                    }
                }
                lemma_wf_one(statement, file12.dom());
                lemma_stmts_wf_append(s2, seq![statement], file1.dom());
                lemma_stmts_wf_append(s1, s2 + seq![statement], file.dom());
                assert(s1 + (s2 + seq![statement]) =~= stmts);
            } else if operator.spec_is_associative() && value_scratch(b, aliased) {
                let rb = value_register(b);
                let statement = Statement {
                    destination: rb,
                    expr: register::Expr::Operation { operator, operand: a },
                };
                let stmts = s1 + s2 + seq![statement];
                lemma_run_append(s1 + s2, seq![statement], file);
                lemma_run_one(statement, file12);
                assert(spec_run(stmts, file) == spec_step(statement, file12));
                assert(file12[rb.index] == spec_evaluate(*rhs, binding));
                assert(spec_value(a, file12) == spec_evaluate(*lhs, binding)) by {
                    match a {
                        Value::Register(r) => {
                            assert(aliased.contains(r.index));
                            assert((r.index as int) < next <= n1);
                            assert(file12[r.index] == file1[r.index]);
                        },
                        Value::Number(_) => {},
                    }
                }
                let out = file12.insert(
                    rb.index,
                    spec_apply(operator, file12[rb.index], spec_value(a, file12)),
                );
                assert(spec_step(statement, file12) == out);
                // the exchanged application agrees under `swap_clean`
                assert(!scratch_shape(*lhs) && scratch_shape(*rhs));
                assert(out[rb.index] == spec_apply(
                    operator,
                    spec_evaluate(*lhs, binding),
                    spec_evaluate(*rhs, binding),
                ));

                assert(stmts_write_in(seq![statement], next, n2));
                lemma_write_in_concat(s1 + s2, seq![statement], next, n2);

                assert(stmt_wf(statement, file12.dom())) by {
                    assert forall|r: Register| stmt_reads(statement, r) implies
                        file12.dom().contains(r.index) by {
                        if r != rb {
                            assert(a == Value::Register(r));
                            assert(aliased.contains(r.index));
                        }
                    }
                }
                lemma_wf_one(statement, file12.dom());
                lemma_stmts_wf_append(s2, seq![statement], file1.dom());
                lemma_stmts_wf_append(s1, s2 + seq![statement], file.dom());
                assert(s1 + (s2 + seq![statement]) =~= stmts);
            } else {
                let f = Register { index: n2 as usize };
                assert(f.index as int == n2);
                let move_statement = Statement {
                    destination: f,
                    expr: register::Expr::Move(a),
                };
                let op_statement = Statement {
                    destination: f,
                    expr: register::Expr::Operation { operator, operand: b },
                };
                let tail = seq![move_statement, op_statement];
                let stmts = s1 + s2 + tail;
                lemma_run_append(s1 + s2, tail, file);
                assert(tail.drop_first() =~= seq![op_statement]);
                lemma_run_one(op_statement, spec_step(move_statement, file12));
                assert(spec_run(tail, file12) == spec_step(
                    op_statement,
                    spec_step(move_statement, file12),
                ));

                assert(spec_value(a, file12) == spec_evaluate(*lhs, binding)) by {
                    match a {
                        Value::Register(r) => {
                            assert(aliased.contains(r.index));
                            assert((r.index as int) < next <= n1);
                            assert(file12[r.index] == file1[r.index]);
                        },
                        Value::Number(_) => {},
                    }
                }
                let file13 = file12.insert(f.index, spec_value(a, file12));
                assert(spec_step(move_statement, file12) == file13);
                assert(spec_value(b, file13) == spec_evaluate(*rhs, binding)) by {
                    match b {
                        Value::Register(r) => {
                            assert(aliased.contains(r.index) || n1 <= r.index < n2);
                            assert(r.index != f.index);
                        },
                        Value::Number(_) => {},
                    }
                }
                let out = file13.insert(
                    f.index,
                    spec_apply(operator, file13[f.index], spec_value(b, file13)),
                );
                assert(spec_step(op_statement, file13) == out);
                assert(out[f.index] == spec_apply(
                    operator,
                    spec_evaluate(*lhs, binding),
                    spec_evaluate(*rhs, binding),
                ));

                assert(stmts_write_in(tail, next, n2 + 1));
                lemma_write_in_widen(s1 + s2, next, n2, next, n2 + 1);
                lemma_write_in_concat(s1 + s2, tail, next, n2 + 1);

                assert(stmt_wf(move_statement, file12.dom())) by {
                    assert forall|r: Register| stmt_reads(move_statement, r) implies
                        file12.dom().contains(r.index) by {
                        assert(a == Value::Register(r));
                        assert(aliased.contains(r.index));
                    }
                }
                assert(stmt_wf(op_statement, file13.dom())) by {
                    assert forall|r: Register| stmt_reads(op_statement, r) implies
                        file13.dom().contains(r.index) by {
                        if r != f {
                            assert(b == Value::Register(r));
                        }
                    }
                }
                lemma_wf_one(op_statement, file13.dom());
                assert(stmts_wf(tail, file12.dom())) by {
                    assert(tail[0] == move_statement);
                    assert(tail.drop_first() =~= seq![op_statement]);
                    assert(file12.dom().insert(f.index) == file13.dom());
                }
                lemma_stmts_wf_append(s2, tail, file1.dom());
                lemma_stmts_wf_append(s1, s2 + tail, file.dom());
                assert(s1 + (s2 + tail) =~= stmts);
            }
        },
        Expr::IfPositive(node) => {
            let (s1, p, n1) = spec_flatten(node.predicate, aliased, next);
            let (s2, c, n2) = spec_flatten(node.consequent, aliased, n1);
            let (s3, alt, n3) = spec_flatten(node.alternative, aliased, n2);
            let file1 = spec_run(s1, file);
            let file2 = spec_run(s2, file1);
            let file3 = spec_run(s3, file2);

            lemma_flatten_preserves(node.predicate, aliased, next, binding, file);
            lemma_run_frame(s1, next, n1, file);
            lemma_run_dom(s1, file);
            lemma_flatten_preserves(node.consequent, aliased, n1, binding, file1);
            lemma_run_frame(s2, n1, n2, file1);
            lemma_run_dom(s2, file1);
            lemma_flatten_preserves(node.alternative, aliased, n2, binding, file2);
            lemma_run_frame(s3, n2, n3, file2);
            lemma_run_dom(s3, file2);
            lemma_run_append(s1, s2, file);
            lemma_run_append(s1 + s2, s3, file);
            assert(spec_run((s1 + s2) + s3, file) == file3);

            let f = Register { index: n3 as usize };
            assert(f.index as int == n3);
            let statement = Statement {
                destination: f,
                expr: register::Expr::IfPositive { predicate: p, consequent: c, alternative: alt },
            };
            let stmts = s1 + s2 + s3 + seq![statement];
            lemma_run_append((s1 + s2) + s3, seq![statement], file);
            assert((s1 + s2 + s3) =~= ((s1 + s2) + s3));
            lemma_run_one(statement, file3);
            assert(spec_run(stmts, file) == spec_step(statement, file3));

            assert(spec_value(p, file3) == spec_evaluate(node.predicate, binding)) by {
                match p {
                    Value::Register(r) => {
                        assert(aliased.contains(r.index) || next <= r.index < n1);
                        assert(file2[r.index] == file1[r.index]);
                        assert(file3[r.index] == file2[r.index]);
                    },
                    Value::Number(_) => {},
                }
            }
            assert(spec_value(c, file3) == spec_evaluate(node.consequent, binding)) by {
                match c {
                    Value::Register(r) => {
                        assert(aliased.contains(r.index) || n1 <= r.index < n2);
                        assert(file3[r.index] == file2[r.index]);
                    },
                    Value::Number(_) => {},
                }
            }
            let out = file3.insert(
                f.index,
                spec_value(p, file3).spec_if_positive(
                    spec_value(c, file3),
                    spec_value(alt, file3),
                ),
            );
            assert(spec_step(statement, file3) == out);

            lemma_write_in_widen(s1, next, n1, next, n3 + 1);
            lemma_write_in_widen(s2, n1, n2, next, n3 + 1);
            lemma_write_in_widen(s3, n2, n3, next, n3 + 1);
            assert(stmts_write_in(seq![statement], next, n3 + 1));
            lemma_write_in_concat(s1, s2, next, n3 + 1);
            lemma_write_in_concat(s1 + s2, s3, next, n3 + 1);
            lemma_write_in_concat((s1 + s2) + s3, seq![statement], next, n3 + 1);
            assert(stmts =~= ((s1 + s2) + s3) + seq![statement]);

            assert(stmt_wf(statement, file3.dom())) by {
                assert forall|r: Register| stmt_reads(statement, r) implies
                    file3.dom().contains(r.index) by {
                    if p == Value::Register(r) {
                        assert(file3.dom().contains(r.index));
                    } else if c == Value::Register(r) {
                        assert(file3.dom().contains(r.index));
                    } else {
                        assert(alt == Value::Register(r));
                    }
                }
            }
            lemma_wf_one(statement, file3.dom());
            lemma_stmts_wf_append(s3, seq![statement], file2.dom());
            lemma_stmts_wf_append(s2, s3 + seq![statement], file1.dom());
            lemma_stmts_wf_append(s1, s2 + (s3 + seq![statement]), file.dom());
            assert(s1 + (s2 + (s3 + seq![statement])) =~= stmts);
        },
    }
}

} // verus!
