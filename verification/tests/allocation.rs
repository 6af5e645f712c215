use std::collections::HashMap;

use exprc::compile::flatten::to_program;
use exprc::compile::register_alloc::{assign_slots, live_ranges, realloc, LiveRange};
use exprc::eval;
use exprc::ir::expr::Expr;
use exprc::ir::register;
use exprc::math::number::Number;

fn symbolic_env() -> HashMap<usize, Expr> {
    let mut env: HashMap<usize, Expr> = HashMap::new();
    env.insert(0, Expr::Variable(0));
    env.insert(1, Expr::Variable(1));
    env
}

fn reg(index: usize) -> register::Register {
    register::Register { index }
}

fn range(start: usize, end: usize, index: usize) -> LiveRange {
    LiveRange { start, end, register: reg(index) }
}

/// The worked allocation example: ranges r0:[0,2], r1:[0,1], r2:[1,2].
/// Nothing is retired before r2 (neither end 2 nor end 1 is strictly below
/// r2's start 1), so all three ranges get distinct slots: three in all.
#[test]
fn allocation_example() {
    let ranges = vec![range(0, 2, 0), range(0, 1, 1), range(1, 2, 2)];
    let (slots, count) = assign_slots(&ranges);

    assert_eq!(slots.len(), 3);
    assert_eq!(count, 3);
    assert_ne!(slots[0].index, slots[1].index);
    assert_ne!(slots[0].index, slots[2].index);
    assert_ne!(slots[1].index, slots[2].index);
    // discovery order is kept on the tie: r0 takes the first slot
    assert_eq!(slots[0].index, 0);
    assert_eq!(slots[1].index, 1);
    assert_eq!(slots[2].index, 2);
}

/// A retired range's slot is reused, most recently freed first.
#[test]
fn slot_reuse_after_retirement() {
    let ranges = vec![range(0, 0, 0), range(2, 3, 1), range(2, 3, 2)];
    let (slots, count) = assign_slots(&ranges);

    // r0 dies before r1 starts, so its slot 0 is reused for r1; r2 still
    // overlaps r1 and needs a second slot
    assert_eq!(slots[0].index, 0);
    assert_eq!(slots[1].index, 0);
    assert_eq!(slots[2].index, 1);
    assert_eq!(count, 2);
}

/// Live-range analysis: inputs start at the virtual index 0; everything
/// else spans first to last occurrence.
#[test]
fn live_range_analysis() {
    let two = 2.0f32.to_bits();
    let expr = Expr::Variable(0).add(Expr::Number(two));
    let program = to_program(&expr, vec![reg(0)]);
    // statements: r1 = Move(r0); r1 += 2.0
    let ranges = live_ranges(&program);

    assert_eq!(ranges.len(), 2);
    let r0 = ranges.iter().find(|r| r.register == reg(0)).unwrap();
    let r1 = ranges.iter().find(|r| r.register == reg(1)).unwrap();
    assert_eq!((r0.start, r0.end), (0, 0));
    assert_eq!((r1.start, r1.end), (0, 1));
}

/// Allocation packs the lowered program's registers and reports the slot
/// count actually used; the rewritten program still computes the same
/// value (checked in the symbolic domain).
#[test]
fn realloc_preserves_value() {
    let c = 3.5f32.to_bits();
    let expr = Expr::Variable(0)
        .mul(Expr::Variable(1))
        .sub(Expr::Number(c))
        .div(Expr::Variable(0));
    let mut program = to_program(&expr, vec![reg(0), reg(1)]);

    let before = eval::register::evaluate(&program, symbolic_env());

    let old_input = program.input.clone();
    let count = realloc(&mut program);
    assert_eq!(count, 3);

    // rebind the inputs through the substitution the rewrite applied
    let env = symbolic_env();
    let mut new_env: HashMap<usize, Expr> = HashMap::new();
    for (new, old) in program.input.iter().zip(old_input.iter()) {
        new_env.insert(new.index, env[&old.index].dup());
    }
    let after = eval::register::evaluate(&program, new_env);
    assert_eq!(before, after);
}
