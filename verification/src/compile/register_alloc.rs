//! Live-range analysis and linear-scan register allocation.
//!
//! Analysis gives every register that appears in a program one inclusive
//! span of statement indices, `[first occurrence, last occurrence]` (inputs
//! start at the virtual index 0). Allocation walks the ranges in ascending
//! start order and packs them into slots, reusing a slot as soon as the
//! range holding it has ended strictly before the current range starts; the
//! slot pool grows on demand and never spills.

use vstd::prelude::*;

use crate::compile::flatten::register_set;
use crate::eval::register::{spec_run, spec_step, spec_value};
use crate::ir::register::{
    defined_after,
    stmt_mentions,
    stmt_reads,
    stmt_wf,
    stmts_wf,
    Expr,
    Program,
    Register,
    Statement,
    Value,
};
use crate::math::number::Number;

verus! {

/// The inclusive span of statement indices over which `register`'s value
/// must be preserved.
#[derive(Clone, Copy, PartialEq, Eq, Structural, Debug)]
pub struct LiveRange {
    pub start: usize,
    pub end: usize,
    pub register: Register,
}

/// `r` occurs in statement `k` (as destination or operand).
pub open spec fn mentioned_at(stmts: Seq<Statement>, r: Register, k: int) -> bool {
    0 <= k < stmts.len() && stmt_mentions(stmts[k], r)
}

/// `r` is one of the program's input registers.
pub open spec fn input_register(input: Seq<Register>, r: Register) -> bool {
    exists|k: int| 0 <= k < input.len() && input[k] == r
}

/// All ranges name pairwise distinct registers.
pub open spec fn ranges_distinct(ranges: Seq<LiveRange>) -> bool {
    forall|i: int, j: int| 0 <= i < j < ranges.len() ==> #[trigger] ranges[i].register
        != #[trigger] ranges[j].register
}

/// The exact contract of the analysis, relative to a program's inputs and
/// statements: one range per distinct occurring register, spanning exactly
/// its first to its last occurrence (index 0 for inputs).
pub open spec fn ranges_exact(
    input: Seq<Register>,
    stmts: Seq<Statement>,
    ranges: Seq<LiveRange>,
) -> bool {
    &&& ranges_distinct(ranges)
    // every occurring register has a range
    &&& (forall|r: Register| input_register(input, r) ==> exists|i: int|
        0 <= i < ranges.len() && #[trigger] ranges[i].register == r)
    &&& (forall|r: Register, k: int| mentioned_at(stmts, r, k) ==> exists|i: int|
        0 <= i < ranges.len() && #[trigger] ranges[i].register == r)
    // and every range belongs to an occurring register
    &&& (forall|i: int| 0 <= i < ranges.len() ==> input_register(
        input,
        #[trigger] ranges[i].register,
    ) || exists|k: int| mentioned_at(stmts, ranges[i].register, k))
    // the span covers every occurrence
    &&& (forall|i: int, k: int|
        0 <= i < ranges.len() && #[trigger] mentioned_at(stmts, ranges[i].register, k)
            ==> ranges[i].start <= k <= ranges[i].end)
    // and its endpoints are real occurrences (or the virtual input index 0)
    &&& (forall|i: int| 0 <= i < ranges.len() ==> #[trigger] ranges[i].start <= ranges[i].end)
    &&& (forall|i: int| 0 <= i < ranges.len() ==> if input_register(
        input,
        #[trigger] ranges[i].register,
    ) {
        ranges[i].start == 0
    } else {
        mentioned_at(stmts, ranges[i].register, ranges[i].start as int)
    })
    &&& (forall|i: int| 0 <= i < ranges.len() ==> mentioned_at(
        stmts,
        #[trigger] ranges[i].register,
        ranges[i].end as int,
    ) || ranges[i].end == ranges[i].start)
}

/// The position of `r`'s range, if it already has one.
fn find_range(ranges: &Vec<LiveRange>, r: Register) -> (o: Option<usize>)
    ensures
        match o {
            Some(i) => i < ranges@.len() && ranges@[i as int].register == r,
            None => forall|i: int| 0 <= i < ranges@.len() ==> #[trigger] ranges@[i].register != r,
        },
{
    let n = ranges.len();
    let mut i: usize = 0;
    while i < n
        invariant
            0 <= i <= n,
            n == ranges@.len(),
            forall|k: int| 0 <= k < i ==> #[trigger] ranges@[k].register != r,
        decreases n - i,
    {
        if ranges[i].register.index == r.index {
            return Some(i);
        }
        i = i + 1;
    }
    None
}

/// Record an occurrence of `r` at statement `k`: extend its range's end, or
/// open a fresh `[k, k]` range.
fn note_mention(ranges: &mut Vec<LiveRange>, r: Register, k: usize)
    requires
        ranges_distinct(old(ranges)@),
    ensures
        ranges_distinct(final(ranges)@),
        old(ranges)@.len() <= final(ranges)@.len(),
        forall|i: int| 0 <= i < old(ranges)@.len() ==> #[trigger] final(ranges)@[i].register
            == old(ranges)@[i].register && final(ranges)@[i].start == old(ranges)@[i].start,
        forall|i: int| 0 <= i < old(ranges)@.len() && old(ranges)@[i].register != r
            ==> #[trigger] final(ranges)@[i] == old(ranges)@[i],
        forall|i: int| 0 <= i < old(ranges)@.len() && old(ranges)@[i].register == r
            ==> #[trigger] final(ranges)@[i].end == k,
        (exists|i: int| 0 <= i < old(ranges)@.len() && #[trigger] old(ranges)@[i].register == r)
            ==> final(ranges)@.len() == old(ranges)@.len(),
        !(exists|i: int| 0 <= i < old(ranges)@.len() && #[trigger] old(ranges)@[i].register == r)
            ==> final(ranges)@ == old(ranges)@.push(LiveRange { start: k, end: k, register: r }),
        exists|i: int| 0 <= i < final(ranges)@.len() && #[trigger] final(ranges)@[i].register == r
            && final(ranges)@[i].end == k,
{
    match find_range(ranges, r) {
        Some(i) => {
            let entry = ranges[i];
            let updated = LiveRange { start: entry.start, end: k, register: entry.register };
            ranges.remove(i);
            ranges.insert(i, updated);
            proof {
                assert(ranges@ =~= old(ranges)@.update(i as int, updated));
                assert(ranges@[i as int].register == r && ranges@[i as int].end == k);
            }
        },
        None => {
            ranges.push(LiveRange { start: k, end: k, register: r });
            proof {
                assert(ranges@[old(ranges)@.len() as int].register == r);
                assert(ranges@[old(ranges)@.len() as int].end == k);
            }
        },
    }
}

/// Record every occurrence of a register in statement `k`: the destination
/// and each register operand.
fn note_statement(ranges: &mut Vec<LiveRange>, s: &Statement, k: usize)
    requires
        ranges_distinct(old(ranges)@),
    ensures
        ranges_distinct(final(ranges)@),
        old(ranges)@.len() <= final(ranges)@.len(),
        forall|i: int| 0 <= i < old(ranges)@.len() ==> #[trigger] final(ranges)@[i].register
            == old(ranges)@[i].register && final(ranges)@[i].start == old(ranges)@[i].start,
        forall|i: int| 0 <= i < old(ranges)@.len() && !stmt_mentions(*s, old(ranges)@[i].register)
            ==> #[trigger] final(ranges)@[i] == old(ranges)@[i],
        forall|i: int| 0 <= i < old(ranges)@.len() && stmt_mentions(*s, old(ranges)@[i].register)
            ==> #[trigger] final(ranges)@[i].end == k,
        forall|i: int| old(ranges)@.len() <= i < final(ranges)@.len() ==> stmt_mentions(
            *s,
            #[trigger] final(ranges)@[i].register,
        ) && final(ranges)@[i].start == k && final(ranges)@[i].end == k,
        forall|r: Register| stmt_mentions(*s, r) ==> exists|i: int|
            0 <= i < final(ranges)@.len() && #[trigger] final(ranges)@[i].register == r,
{
    note_mention(ranges, s.destination, k);
    let ghost m1 = ranges@;
    match &s.expr {
        Expr::Move(value) => {
            if let Value::Register(r) = value {
                note_mention(ranges, *r, k);
            }
        },
        Expr::Operation { operand, .. } => {
            if let Value::Register(r) = operand {
                note_mention(ranges, *r, k);
            }
        },
        Expr::IfPositive { predicate, consequent, alternative } => {
            if let Value::Register(r) = predicate {
                note_mention(ranges, *r, k);
            }
            let ghost m2 = ranges@;
            if let Value::Register(r) = consequent {
                note_mention(ranges, *r, k);
            }
            let ghost m3 = ranges@;
            if let Value::Register(r) = alternative {
                note_mention(ranges, *r, k);
            }
            proof {
                assert forall|i: int| 0 <= i < m2.len() implies #[trigger] ranges@[i].register
                    == m2[i].register && ranges@[i].start == m2[i].start by {
                    assert(m3[i].register == m2[i].register && m3[i].start == m2[i].start);
                }
                if let Value::Register(r) = predicate {
                    lemma_register_carried(m2, ranges@, *r);
                }
                if let Value::Register(r) = consequent {
                    lemma_register_carried(m3, ranges@, *r);
                }
            }
        },
    }
    proof {
        assert forall|i: int| 0 <= i < m1.len() implies #[trigger] ranges@[i].register
            == m1[i].register && ranges@[i].start == m1[i].start by {}
        assert forall|r: Register| stmt_mentions(*s, r) implies exists|i: int|
            0 <= i < ranges@.len() && #[trigger] ranges@[i].register == r by {
            if r == s.destination {
                lemma_register_carried(m1, ranges@, r);
            } else {
                assert(stmt_reads(*s, r));
            }
        }
    }
}

/// A register present among `before`'s entries is still present in `after`,
/// as long as positions keep their registers.
proof fn lemma_register_carried(before: Seq<LiveRange>, after: Seq<LiveRange>, r: Register)
    requires
        before.len() <= after.len(),
        forall|i: int| 0 <= i < before.len() ==> #[trigger] after[i].register
            == before[i].register,
        exists|i: int| 0 <= i < before.len() && #[trigger] before[i].register == r,
    ensures
        exists|i: int| 0 <= i < after.len() && #[trigger] after[i].register == r,
{
    let w = choose|w: int| 0 <= w < before.len() && #[trigger] before[w].register == r;
    assert(after[w].register == r);
}

/// Live-range analysis: every input register gets a range starting at the
/// virtual index 0; every register occurring in the statements gets a range
/// spanning exactly its first to its last occurrence.
pub fn live_ranges(program: &Program) -> (ranges: Vec<LiveRange>)
    ensures
        ranges_exact(program.input@, program.statements@, ranges@),
{
    let input = &program.input;
    let stmts = &program.statements;
    let mut ranges: Vec<LiveRange> = Vec::new();

    let n_in = input.len();
    let mut i: usize = 0;
    while i < n_in
        invariant
            0 <= i <= n_in,
            n_in == input@.len(),
            ranges_distinct(ranges@),
            forall|j: int| 0 <= j < i ==> exists|idx: int|
                0 <= idx < ranges@.len() && #[trigger] ranges@[idx].register == #[trigger] input@[
                    j
                ],
            forall|idx: int| 0 <= idx < ranges@.len() ==> #[trigger] ranges@[idx].start == 0,
            forall|idx: int| 0 <= idx < ranges@.len() ==> #[trigger] ranges@[idx].end == 0,
            forall|idx: int| 0 <= idx < ranges@.len() ==> input_register(
                input@,
                #[trigger] ranges@[idx].register,
            ),
        decreases n_in - i,
    {
        let ghost pre = ranges@;
        let r = input[i];
        match find_range(&ranges, r) {
            Some(found) => {
                proof {
                    assert(ranges@[found as int].register == input@[i as int]);
                }
            },
            None => {
                ranges.push(LiveRange { start: 0, end: 0, register: r });
                proof {
                    assert(input_register(input@, input@[i as int]));
                    assert(ranges@[pre.len() as int].register == input@[i as int]);
                }
            },
        }
        proof {
            assert forall|j: int| 0 <= j < i + 1 implies exists|idx: int|
                0 <= idx < ranges@.len() && #[trigger] ranges@[idx].register == #[trigger] input@[
                    j
                ] by {
                if j < i {
                    let w = choose|w: int|
                        0 <= w < pre.len() && #[trigger] pre[w].register == input@[j];
                    assert(ranges@[w].register == input@[j]);
                }
            }
        }
        i = i + 1;
    }

    let n = stmts.len();
    let mut k: usize = 0;
    while k < n
        invariant
            0 <= k <= n,
            n == stmts@.len(),
            ranges_distinct(ranges@),
            forall|r: Register| input_register(input@, r) ==> exists|idx: int|
                0 <= idx < ranges@.len() && #[trigger] ranges@[idx].register == r,
            forall|r: Register, k2: int| mentioned_at(stmts@, r, k2) && k2 < k ==> exists|idx: int|
                0 <= idx < ranges@.len() && #[trigger] ranges@[idx].register == r,
            forall|idx: int| 0 <= idx < ranges@.len() ==> input_register(
                input@,
                #[trigger] ranges@[idx].register,
            ) || exists|k2: int| k2 < k && mentioned_at(stmts@, ranges@[idx].register, k2),
            forall|idx: int| 0 <= idx < ranges@.len() ==> #[trigger] ranges@[idx].start
                <= ranges@[idx].end,
            forall|idx: int| 0 <= idx < ranges@.len() ==> (#[trigger] ranges@[idx].end) < k
                || ranges@[idx].end == 0,
            forall|idx: int| 0 <= idx < ranges@.len() ==> (#[trigger] ranges@[idx].start) < k
                || ranges@[idx].start == 0,
            forall|idx: int| 0 <= idx < ranges@.len() ==> if input_register(
                input@,
                #[trigger] ranges@[idx].register,
            ) {
                ranges@[idx].start == 0
            } else {
                mentioned_at(stmts@, ranges@[idx].register, ranges@[idx].start as int)
            },
            forall|idx: int| 0 <= idx < ranges@.len() ==> mentioned_at(
                stmts@,
                #[trigger] ranges@[idx].register,
                ranges@[idx].end as int,
            ) || ranges@[idx].end == ranges@[idx].start,
            forall|idx: int, k2: int|
                0 <= idx < ranges@.len() && #[trigger] mentioned_at(
                    stmts@,
                    ranges@[idx].register,
                    k2,
                ) && k2 < k ==> ranges@[idx].start <= k2 <= ranges@[idx].end,
        decreases n - k,
    {
        let ghost pre = ranges@;
        let statement = &stmts[k];
        note_statement(&mut ranges, statement, k);
        proof {
            assert(stmts@[k as int] == *statement);
            // presence of inputs and of everything mentioned before or now
            assert forall|r: Register| input_register(input@, r) implies exists|idx: int|
                0 <= idx < ranges@.len() && #[trigger] ranges@[idx].register == r by {
                let w = choose|w: int| 0 <= w < pre.len() && #[trigger] pre[w].register == r;
                assert(ranges@[w].register == r);
            }
            assert forall|r: Register, k2: int| mentioned_at(stmts@, r, k2) && k2 < k + 1 implies
                exists|idx: int| 0 <= idx < ranges@.len() && #[trigger] ranges@[idx].register
                    == r by {
                if k2 < k {
                    let w = choose|w: int| 0 <= w < pre.len() && #[trigger] pre[w].register == r;
                    assert(ranges@[w].register == r);
                } else {
                    assert(stmt_mentions(*statement, r));
                }
            }
            // every entry names an occurring register
            assert forall|idx: int| 0 <= idx < ranges@.len() implies input_register(
                input@,
                #[trigger] ranges@[idx].register,
            ) || exists|k2: int| k2 < k + 1 && mentioned_at(stmts@, ranges@[idx].register, k2) by {
                if idx < pre.len() {
                    assert(ranges@[idx].register == pre[idx].register);
                    if !input_register(input@, pre[idx].register) {
                        let w = choose|w: int|
                            w < k && mentioned_at(stmts@, pre[idx].register, w);
                        assert(mentioned_at(stmts@, ranges@[idx].register, w));
                    }
                } else {
                    assert(stmt_mentions(*statement, ranges@[idx].register));
                    assert(mentioned_at(stmts@, ranges@[idx].register, k as int));
                }
            }
            // simple endpoint bounds
            assert forall|idx: int| 0 <= idx < ranges@.len() implies #[trigger] ranges@[idx].start
                <= ranges@[idx].end && (ranges@[idx].start < k + 1 || ranges@[idx].start == 0) by {
                if idx < pre.len() {
                    assert(ranges@[idx].register == pre[idx].register);
                    assert(pre[idx].start <= pre[idx].end);
                    assert(pre[idx].end < k || pre[idx].end == 0);
                    assert(pre[idx].start < k || pre[idx].start == 0);
                    assert(ranges@[idx].start == pre[idx].start);
                    if stmt_mentions(*statement, pre[idx].register) {
                        assert(ranges@[idx].end == k);
                    } else {
                        assert(ranges@[idx] == pre[idx]);
                    }
                } else {
                    assert(stmt_mentions(*statement, ranges@[idx].register));
                    assert(ranges@[idx].start == k && ranges@[idx].end == k);
                }
            }
            assert forall|idx: int| 0 <= idx < ranges@.len() implies (#[trigger] ranges@[idx].end)
                < k + 1 || ranges@[idx].end == 0 by {
                if idx < pre.len() {
                    assert(ranges@[idx].register == pre[idx].register);
                    assert(pre[idx].end < k || pre[idx].end == 0);
                    if stmt_mentions(*statement, pre[idx].register) {
                        assert(ranges@[idx].end == k);
                    } else {
                        assert(ranges@[idx] == pre[idx]);
                    }
                } else {
                    assert(stmt_mentions(*statement, ranges@[idx].register));
                    assert(ranges@[idx].end == k);
                }
            }
            // endpoint shape
            assert forall|idx: int| 0 <= idx < ranges@.len() implies if input_register(
                input@,
                #[trigger] ranges@[idx].register,
            ) {
                ranges@[idx].start == 0
            } else {
                mentioned_at(stmts@, ranges@[idx].register, ranges@[idx].start as int)
            } by {
                if idx < pre.len() {
                    assert(ranges@[idx].register == pre[idx].register);
                    assert(ranges@[idx].start == pre[idx].start);
                    assert(if input_register(input@, pre[idx].register) {
                        pre[idx].start == 0
                    } else {
                        mentioned_at(stmts@, pre[idx].register, pre[idx].start as int)
                    });
                } else {
                    assert(stmt_mentions(*statement, ranges@[idx].register));
                    assert(ranges@[idx].start == k);
                    assert(mentioned_at(stmts@, ranges@[idx].register, k as int));
                    if input_register(input@, ranges@[idx].register) {
                        let w = choose|w: int|
                            0 <= w < pre.len() && #[trigger] pre[w].register
                                == ranges@[idx].register;
                        assert(ranges@[w].register == ranges@[idx].register);
                        assert(false);
                    }
                }
            }
            assert forall|idx: int| 0 <= idx < ranges@.len() implies mentioned_at(
                stmts@,
                #[trigger] ranges@[idx].register,
                ranges@[idx].end as int,
            ) || ranges@[idx].end == ranges@[idx].start by {
                if idx < pre.len() {
                    if stmt_mentions(*statement, pre[idx].register) {
                        assert(ranges@[idx].end == k);
                        assert(mentioned_at(stmts@, ranges@[idx].register, k as int));
                    } else {
                        assert(ranges@[idx] == pre[idx]);
                    }
                } else {
                    assert(mentioned_at(stmts@, ranges@[idx].register, k as int));
                }
            }
            // covering
            assert forall|idx: int, k2: int|
                0 <= idx < ranges@.len() && #[trigger] mentioned_at(
                    stmts@,
                    ranges@[idx].register,
                    k2,
                ) && k2 < k + 1 implies ranges@[idx].start <= k2 <= ranges@[idx].end by {
                if idx < pre.len() {
                    assert(ranges@[idx].register == pre[idx].register);
                    assert(ranges@[idx].start == pre[idx].start);
                    if k2 < k {
                        assert(pre[idx].start <= k2 <= pre[idx].end);
                        if stmt_mentions(*statement, pre[idx].register) {
                            assert(ranges@[idx].end == k);
                        } else {
                            assert(ranges@[idx] == pre[idx]);
                        }
                    } else {
                        assert(k2 == k);
                        assert(stmt_mentions(*statement, ranges@[idx].register));
                        assert(ranges@[idx].end == k);
                        assert(ranges@[idx].start <= ranges@[idx].end);
                    }
                } else {
                    assert(ranges@[idx].start == k && ranges@[idx].end == k);
                    if k2 < k {
                        let w = choose|w: int|
                            0 <= w < pre.len() && #[trigger] pre[w].register
                                == ranges@[idx].register;
                        assert(ranges@[w].register == ranges@[idx].register);
                        assert(false);
                    }
                }
            }
        }
        k = k + 1;
    }
    proof {
        assert forall|r: Register, k2: int| mentioned_at(stmts@, r, k2) implies exists|idx: int|
            0 <= idx < ranges@.len() && #[trigger] ranges@[idx].register == r by {
            assert(k2 < n);
        }
        assert forall|idx: int| 0 <= idx < ranges@.len() implies input_register(
            input@,
            #[trigger] ranges@[idx].register,
        ) || exists|k2: int| mentioned_at(stmts@, ranges@[idx].register, k2) by {
            if !input_register(input@, ranges@[idx].register) {
                let w = choose|w: int| w < n && mentioned_at(stmts@, ranges@[idx].register, w);
                assert(mentioned_at(stmts@, ranges@[idx].register, w));
            }
        }
        assert forall|idx: int, k2: int|
            0 <= idx < ranges@.len() && #[trigger] mentioned_at(stmts@, ranges@[idx].register, k2)
                implies ranges@[idx].start <= k2 <= ranges@[idx].end by {
            assert(k2 < n);
        }
    }
    ranges
}

/// Two inclusive spans share at least one statement index.
pub open spec fn ranges_overlap(a: LiveRange, b: LiveRange) -> bool {
    a.start <= b.end && b.start <= a.end
}

/// Nondecreasing start indices.
pub open spec fn sorted_by_start(s: Seq<LiveRange>) -> bool {
    forall|i: int, j: int| 0 <= i <= j < s.len() ==> #[trigger] s[i].start <= #[trigger] s[j].start
}

/// Stable selection sort by range start: repeatedly move the earliest range
/// with the smallest start, so that ties keep their discovery order.
fn sort_ranges(ranges: Vec<LiveRange>) -> (out: Vec<LiveRange>)
    ensures
        sorted_by_start(out@),
        out@.to_multiset() == ranges@.to_multiset(),
{
    broadcast use vstd::seq_lib::group_to_multiset_ensures;

    let ghost orig = ranges@;
    let mut rest = ranges;
    let mut out: Vec<LiveRange> = Vec::new();
    while rest.len() > 0
        invariant
            sorted_by_start(out@),
            out@.to_multiset().add(rest@.to_multiset()) == orig.to_multiset(),
            forall|i: int, j: int|
                0 <= i < out@.len() && 0 <= j < rest@.len() ==> #[trigger] out@[i].start
                    <= #[trigger] rest@[j].start,
        decreases rest@.len(),
    {
        let n = rest.len();
        let mut m: usize = 0;
        let mut t: usize = 1;
        while t < n
            invariant
                0 <= m < t <= n,
                n == rest@.len(),
                forall|q: int| 0 <= q < t ==> #[trigger] rest@[m as int].start <= rest@[q].start,
            decreases n - t,
        {
            if rest[t].start < rest[m].start {
                m = t;
            }
            t = t + 1;
        }
        let ghost pre_rest = rest@;
        let ghost pre_out = out@;
        let v = rest.remove(m);
        out.push(v);
        proof {
            broadcast use vstd::multiset::group_multiset_axioms;

            assert(pre_rest[m as int] == v);
            assert(rest@ == pre_rest.remove(m as int));
            assert(out@ == pre_out.push(v));
            assert(pre_rest.contains(v));
            vstd::seq_lib::to_multiset_build(pre_out, v);
            vstd::seq_lib::to_multiset_contains(pre_rest, v);
            vstd::seq_lib::to_multiset_remove(pre_rest, m as int);
            assert(pre_rest.remove(m as int).to_multiset() == pre_rest.to_multiset().remove(
                pre_rest[m as int],
            ));
            assert(pre_out.push(v).to_multiset() == pre_out.to_multiset().insert(v));
            assert(pre_rest.to_multiset().count(v) >= 1);
            assert(rest@.to_multiset() =~= pre_rest.to_multiset().remove(v));
            assert(out@.to_multiset() =~= pre_out.to_multiset().insert(v));
            assert(out@.to_multiset().add(rest@.to_multiset()) =~= orig.to_multiset());
            assert forall|i: int, j: int|
                0 <= i < out@.len() && 0 <= j < rest@.len() implies #[trigger] out@[i].start
                <= #[trigger] rest@[j].start by {
                if j < m {
                    assert(rest@[j] == pre_rest[j]);
                } else {
                    assert(rest@[j] == pre_rest[j + 1]);
                }
                if i < pre_out.len() {
                    assert(out@[i] == pre_out[i]);
                } else {
                    assert(out@[i] == v);
                }
            }
            assert forall|i: int, j: int| 0 <= i <= j < out@.len() implies #[trigger] out@[
                i
            ].start <= #[trigger] out@[j].start by {
                if j < pre_out.len() {
                    assert(pre_out[i].start <= pre_out[j].start);
                } else {
                    if i < pre_out.len() {
                        assert(pre_out[i].start <= pre_rest[m as int].start);
                    }
                }
            }
        }
    }
    out
}

/// A growing pool of slot numbers: a stack of freed slots (reused most
/// recently freed first) backed by a counter of never-used slots.
pub struct RegisterPool {
    unused: usize,
    freed: Vec<Register>,
}

impl RegisterPool {
    pub closed spec fn spec_unused(self) -> usize {
        self.unused
    }

    pub closed spec fn spec_freed(self) -> Seq<Register> {
        self.freed@
    }

    pub fn new() -> (r: Self)
        ensures
            r.spec_unused() == 0,
            r.spec_freed().len() == 0,
    {
        Self { unused: 0, freed: Vec::new() }
    }

    /// Return a slot to the pool.
    pub fn free(&mut self, register: Register)
        ensures
            final(self).spec_unused() == old(self).spec_unused(),
            final(self).spec_freed() == old(self).spec_freed().push(register),
    {
        self.freed.push(register);
    }

    /// Take a slot: the most recently freed one, or a brand-new number.
    pub fn get(&mut self) -> (r: Register)
        requires
            old(self).spec_unused() < usize::MAX,
        ensures
            old(self).spec_freed().len() > 0 ==> r == old(self).spec_freed().last()
                && final(self).spec_freed() == old(self).spec_freed().drop_last()
                && final(self).spec_unused() == old(self).spec_unused(),
            old(self).spec_freed().len() == 0 ==> r.index == old(self).spec_unused()
                && final(self).spec_freed() == old(self).spec_freed()
                && final(self).spec_unused() == old(self).spec_unused() + 1,
    {
        match self.freed.pop() {
            Some(register) => register,
            None => {
                let index = self.unused;
                self.unused = self.unused + 1;
                Register { index }
            },
        }
    }
}

/// Linear-scan slot assignment. Walking the ranges in ascending start
/// order, each range receives a slot that no overlapping range holds: a
/// range is retired, and its slot freed, only when it ends strictly before
/// the current range starts. The returned count is the number of distinct
/// slots handed out; the pool grows on demand and never refuses a request.
///
/// The law this function carries: no slot is assigned to two ranges whose
/// intervals overlap.
pub fn assign_slots(ranges: &Vec<LiveRange>) -> (r: (Vec<Register>, usize))
    requires
        sorted_by_start(ranges@),
        forall|i: int| 0 <= i < ranges@.len() ==> #[trigger] ranges@[i].start <= ranges@[i].end,
    ensures
        r.0@.len() == ranges@.len(),
        forall|i: int, j: int|
            0 <= i < j < ranges@.len() && ranges_overlap(#[trigger] ranges@[i], #[trigger] ranges@[
                j
            ]) ==> r.0@[i].index != r.0@[j].index,
        forall|i: int| 0 <= i < r.0@.len() ==> (#[trigger] r.0@[i].index) < r.1,
        r.1 <= ranges@.len(),
        r.1 > 0 ==> exists|i: int| 0 <= i < r.0@.len() && (#[trigger] r.0@[i].index) == r.1 - 1,
{
    let n = ranges.len();
    let mut slots: Vec<Register> = Vec::new();
    let mut active: Vec<usize> = Vec::new();
    let mut pool = RegisterPool::new();
    let mut i: usize = 0;
    while i < n
        invariant
            0 <= i <= n,
            n == ranges@.len(),
            sorted_by_start(ranges@),
            forall|q: int| 0 <= q < ranges@.len() ==> #[trigger] ranges@[q].start
                <= ranges@[q].end,
            slots@.len() == i,
            // the active list holds exactly the processed ranges still alive
            // at the previously processed start
            forall|t: int| 0 <= t < active@.len() ==> (#[trigger] active@[t]) < i,
            forall|t1: int, t2: int| 0 <= t1 < t2 < active@.len() ==> #[trigger] active@[t1]
                < #[trigger] active@[t2],
            i > 0 ==> forall|a: int|
                0 <= a < i ==> (active@.contains(a as usize) <==> ranges@[a].end
                    >= ranges@[i - 1].start),
            i == 0 ==> active@.len() == 0,
            // slots held by active ranges are pairwise distinct and disjoint
            // from the freed stack; everything lives below `unused`
            forall|t1: int, t2: int|
                0 <= t1 < t2 < active@.len() ==> #[trigger] slots@[active@[t1] as int].index
                    != #[trigger] slots@[active@[t2] as int].index,
            forall|t: int, f: int|
                0 <= t < active@.len() && 0 <= f < pool.spec_freed().len()
                    ==> #[trigger] slots@[active@[t] as int].index != #[trigger] pool.spec_freed()[
                    f
                ].index,
            forall|f1: int, f2: int|
                0 <= f1 < f2 < pool.spec_freed().len() ==> #[trigger] pool.spec_freed()[f1].index
                    != #[trigger] pool.spec_freed()[f2].index,
            forall|q: int| 0 <= q < slots@.len() ==> (#[trigger] slots@[q].index)
                < pool.spec_unused(),
            forall|f: int| 0 <= f < pool.spec_freed().len() ==> (#[trigger] pool.spec_freed()[
                f
            ].index) < pool.spec_unused(),
            pool.spec_unused() <= i,
            // the law, for everything processed so far
            forall|a: int, b: int|
                0 <= a < b < i && ranges_overlap(#[trigger] ranges@[a], #[trigger] ranges@[b])
                    ==> slots@[a].index != slots@[b].index,
            pool.spec_unused() > 0 ==> exists|q: int|
                0 <= q < slots@.len() && (#[trigger] slots@[q].index) == pool.spec_unused() - 1,
        decreases n - i,
    {
        let current_start = ranges[i].start;
        // retire every active range that ended strictly before the current
        // range starts, returning its slot to the pool
        let mut kept: Vec<usize> = Vec::new();
        let mut j: usize = 0;
        let ghost pre_active = active@;
        let ghost pre_unused = pool.spec_unused();
        while j < active.len()
            invariant
                0 <= j <= active@.len(),
                active@ == pre_active,
                n == ranges@.len(),
                slots@.len() == i,
                i < n,
                current_start == ranges@[i as int].start,
                forall|t: int| 0 <= t < active@.len() ==> (#[trigger] active@[t]) < i,
                forall|t1: int, t2: int| 0 <= t1 < t2 < active@.len() ==> #[trigger] active@[t1]
                    < #[trigger] active@[t2],
                // kept holds the survivors of the prefix walked so far
                forall|t: int| 0 <= t < kept@.len() ==> (#[trigger] kept@[t]) < i,
                forall|t1: int, t2: int| 0 <= t1 < t2 < kept@.len() ==> #[trigger] kept@[t1]
                    < #[trigger] kept@[t2],
                forall|t: int| 0 <= t < kept@.len() ==> exists|q: int|
                    0 <= q < j && #[trigger] kept@[t] == pre_active[q],
                forall|a: usize| kept@.contains(a) ==> pre_active.contains(a)
                    && ranges@[a as int].end >= current_start,
                forall|t: int| 0 <= t < j ==> (ranges@[pre_active[t] as int].end >= current_start
                    ==> kept@.contains(#[trigger] pre_active[t])),
                // pool bookkeeping
                forall|t1: int, t2: int|
                    0 <= t1 < t2 < kept@.len() ==> #[trigger] slots@[kept@[t1] as int].index
                        != #[trigger] slots@[kept@[t2] as int].index,
                forall|t: int, f: int|
                    0 <= t < kept@.len() && 0 <= f < pool.spec_freed().len()
                        ==> #[trigger] slots@[kept@[t] as int].index
                        != #[trigger] pool.spec_freed()[f].index,
                forall|t1: int, t2: int|
                    0 <= t1 < t2 < active@.len() ==> #[trigger] slots@[active@[t1] as int].index
                        != #[trigger] slots@[active@[t2] as int].index,
                forall|t: int, u: int|
                    0 <= t < kept@.len() && j <= u < active@.len()
                        ==> #[trigger] slots@[kept@[t] as int].index != #[trigger] slots@[active@[
                        u
                    ] as int].index,
                forall|f1: int, f2: int|
                    0 <= f1 < f2 < pool.spec_freed().len() ==> #[trigger] pool.spec_freed()[
                        f1
                    ].index != #[trigger] pool.spec_freed()[f2].index,
                forall|f: int, u: int|
                    0 <= f < pool.spec_freed().len() && j <= u < active@.len()
                        ==> #[trigger] pool.spec_freed()[f].index != #[trigger] slots@[active@[
                        u
                    ] as int].index,
                forall|q: int| 0 <= q < slots@.len() ==> (#[trigger] slots@[q].index)
                    < pool.spec_unused(),
                forall|f: int| 0 <= f < pool.spec_freed().len() ==> (#[trigger] pool.spec_freed()[
                    f
                ].index) < pool.spec_unused(),
                pool.spec_unused() <= i,
                pool.spec_unused() == pre_unused,
            decreases active@.len() - j,
        {
            let a = active[j];
            let ghost pre_kept = kept@;
            let ghost pre_freed = pool.spec_freed();
            if ranges[a].end < current_start {
                pool.free(slots[a]);
            } else {
                kept.push(a);
            }
            proof {
                if ranges@[a as int].end >= current_start {
                    assert(kept@ == pre_kept.push(a));
                    assert(kept@[pre_kept.len() as int] == a);
                    assert forall|t1: int, t2: int| 0 <= t1 < t2 < kept@.len() implies
                        #[trigger] kept@[t1] < #[trigger] kept@[t2] by {
                        if t2 == kept@.len() - 1 {
                            let q = choose|q: int|
                                0 <= q < j && #[trigger] pre_kept[t1] == pre_active[q];
                            assert(pre_active[q] < pre_active[j as int]);
                        } else {
                            assert(pre_kept[t1] < pre_kept[t2]);
                        }
                    }
                    assert forall|t: int| 0 <= t < kept@.len() implies exists|q: int|
                        0 <= q < j + 1 && #[trigger] kept@[t] == pre_active[q] by {
                        if t < pre_kept.len() {
                            let q = choose|q: int|
                                0 <= q < j && #[trigger] pre_kept[t] == pre_active[q];
                            assert(0 <= q < j + 1 && kept@[t] == pre_active[q]);
                        } else {
                            assert(kept@[t] == pre_active[j as int]);
                        }
                    }
                    assert forall|t: int| 0 <= t < j + 1 implies (ranges@[pre_active[
                        t
                    ] as int].end >= current_start ==> kept@.contains(#[trigger] pre_active[
                        t
                    ])) by {
                        if t < j {
                            if ranges@[pre_active[t] as int].end >= current_start {
                                let w = choose|w: int|
                                    0 <= w < pre_kept.len() && pre_kept[w] == pre_active[t];
                                assert(kept@[w] == pre_active[t]);
                            }
                        } else {
                            assert(kept@[pre_kept.len() as int] == pre_active[j as int]);
                        }
                    }
                    assert forall|a2: usize| kept@.contains(a2) implies pre_active.contains(a2)
                        && ranges@[a2 as int].end >= current_start by {
                        let t = choose|t: int| 0 <= t < kept@.len() && kept@[t] == a2;
                        if t < pre_kept.len() {
                            assert(pre_kept.contains(a2));
                        } else {
                            assert(a2 == a);
                            assert(pre_active[j as int] == a2);
                            assert(pre_active.contains(a2));
                        }
                    }
                    // slot facts for the grown kept list
                    assert forall|t: int, u: int|
                        0 <= t < kept@.len() && j + 1 <= u < active@.len() implies #[trigger]
                        slots@[kept@[t] as int].index != #[trigger] slots@[active@[
                        u
                    ] as int].index by {
                        if t == kept@.len() - 1 {
                            assert(kept@[t] == active@[j as int]);
                            assert(slots@[active@[j as int] as int].index != slots@[active@[
                                u
                            ] as int].index);
                        }
                    }
                    assert forall|t1: int, t2: int| 0 <= t1 < t2 < kept@.len() implies
                        #[trigger] slots@[kept@[t1] as int].index != #[trigger] slots@[kept@[
                        t2
                    ] as int].index by {
                        if t2 == kept@.len() - 1 {
                            let q = choose|q: int|
                                0 <= q < j && #[trigger] pre_kept[t1] == pre_active[q];
                            assert(slots@[pre_active[q] as int].index != slots@[pre_active[
                                j as int
                            ] as int].index);
                        }
                    }
                } else {
                    // a range retired: its slot joined the freed stack
                    assert(pool.spec_freed() == pre_freed.push(slots@[a as int]));
                    assert(pool.spec_freed()[pre_freed.len() as int] == slots@[a as int]);
                    assert forall|t: int, f: int|
                        0 <= t < kept@.len() && 0 <= f < pool.spec_freed().len() implies
                        #[trigger] slots@[kept@[t] as int].index != #[trigger] pool.spec_freed()[
                        f
                    ].index by {
                        if f == pool.spec_freed().len() - 1 {
                            let q = choose|q: int|
                                0 <= q < j && #[trigger] kept@[t] == pre_active[q];
                            assert(slots@[pre_active[q] as int].index != slots@[pre_active[
                                j as int
                            ] as int].index);
                        }
                    }
                    assert forall|f1: int, f2: int|
                        0 <= f1 < f2 < pool.spec_freed().len() implies #[trigger]
                        pool.spec_freed()[f1].index != #[trigger] pool.spec_freed()[f2].index by {
                        if f2 == pool.spec_freed().len() - 1 {
                            assert(pre_freed[f1].index != slots@[active@[j as int] as int].index);
                        }
                    }
                    assert forall|f: int, u: int|
                        0 <= f < pool.spec_freed().len() && j + 1 <= u < active@.len() implies
                        #[trigger] pool.spec_freed()[f].index != #[trigger] slots@[active@[
                        u
                    ] as int].index by {
                        if f == pool.spec_freed().len() - 1 {
                            assert(slots@[active@[j as int] as int].index != slots@[active@[
                                u
                            ] as int].index);
                        }
                    }
                }
            }
            j = j + 1;
        }
        active = kept;
        proof {
            // after retiring, the active list holds exactly the processed
            // ranges whose end reaches the current start
            assert forall|a: int| 0 <= a < i implies (active@.contains(a as usize)
                <==> ranges@[a].end >= current_start) by {
                if active@.contains(a as usize) {
                    assert(ranges@[a].end >= current_start);
                } else {
                    if ranges@[a].end >= current_start {
                        assert(i > 0);
                        assert(ranges@[i - 1].start <= ranges@[i as int].start);
                        assert(pre_active.contains(a as usize));
                        let t = choose|t: int|
                            0 <= t < pre_active.len() && pre_active[t] == a as usize;
                        assert(kept@.contains(pre_active[t]));
                        assert(false);
                    }
                }
            }
        }
        let ghost mid_freed = pool.spec_freed();
        let ghost mid_unused = pool.spec_unused();
        let ghost mid_active = active@;
        let ghost mid_slots = slots@;
        let slot = pool.get();
        slots.push(slot);
        active.push(i);
        proof {
            // the new slot is held by no surviving range
            assert forall|t: int| 0 <= t < mid_active.len() implies #[trigger] mid_slots[
                mid_active[t] as int
            ].index != slot.index by {
                if mid_freed.len() > 0 {
                    assert(slot == mid_freed.last());
                } else {
                    assert(slot.index == mid_unused);
                    assert(mid_slots[mid_active[t] as int].index < mid_unused);
                }
            }
            assert(slots@ == mid_slots.push(slot));
            assert(active@ == mid_active.push(i as usize));
            assert(slots@[i as int] == slot);
            // the law for the newly processed range
            assert forall|a: int, b: int|
                0 <= a < b < i + 1 && ranges_overlap(#[trigger] ranges@[a], #[trigger] ranges@[b])
                    implies slots@[a].index != slots@[b].index by {
                if b == i {
                    assert(ranges@[a].end >= ranges@[b].start);
                    assert(mid_active.contains(a as usize));
                    let t = choose|t: int| 0 <= t < mid_active.len() && mid_active[t]
                        == a as usize;
                    assert(mid_slots[mid_active[t] as int].index != slot.index);
                } else {
                    assert(slots@[a].index == mid_slots[a].index);
                    assert(slots@[b].index == mid_slots[b].index);
                }
            }
            // membership after pushing the current range
            assert forall|a: int| 0 <= a < i + 1 implies (active@.contains(a as usize)
                <==> ranges@[a].end >= ranges@[i as int].start) by {
                if a == i {
                    assert(active@[active@.len() - 1] == a as usize);
                    assert(active@.contains(a as usize));
                    assert(ranges@[a].end >= ranges@[a].start);
                } else {
                    if active@.contains(a as usize) {
                        let t = choose|t: int| 0 <= t < active@.len() && active@[t] == a as usize;
                        assert(t < mid_active.len());
                        assert(mid_active.contains(a as usize));
                    } else {
                        if mid_active.contains(a as usize) {
                            let t = choose|t: int|
                                0 <= t < mid_active.len() && mid_active[t] == a as usize;
                            assert(active@[t] == a as usize);
                            assert(false);
                        }
                    }
                }
            }
            // distinctness and freshness bookkeeping for the next round
            assert forall|t1: int, t2: int| 0 <= t1 < t2 < active@.len() implies #[trigger]
                active@[t1] != #[trigger] active@[t2] by {
                if t2 == active@.len() - 1 {
                    assert(active@[t1] == mid_active[t1]);
                    assert(mid_active[t1] < i);
                }
            }
            if mid_unused > 0 {
                let w = choose|q: int| 0 <= q < mid_slots.len() && (#[trigger] mid_slots[q].index)
                    == mid_unused - 1;
                assert(slots@[w].index == mid_unused - 1);
            }
        }
        i = i + 1;
    }
    let count = pool.unused;
    proof {
        if count > 0 {
            let q = choose|q: int|
                0 <= q < slots@.len() && (#[trigger] slots@[q].index) == pool.spec_unused() - 1;
            assert(slots@[q].index == count - 1);
            assert(exists|i: int| 0 <= i < slots@.len() && (#[trigger] slots@[i].index) == count
                - 1);
        }
    }
    let result: (Vec<Register>, usize) = (slots, count);
    proof {
        assert(result.0@ == slots@ && result.1 == count);
        assert(result.1 > 0 ==> exists|i: int|
            0 <= i < result.0@.len() && (#[trigger] result.0@[i].index) == result.1 - 1);
    }
    result
}

/// The slot standing for `r`: the slot of `r`'s range, or `r` itself when
/// no range names it.
pub open spec fn subst_spec(ranges: Seq<LiveRange>, slots: Seq<Register>, r: Register) -> Register
    decreases ranges.len(),
{
    if ranges.len() == 0 || slots.len() == 0 {
        r
    } else if ranges[0].register == r {
        slots[0]
    } else {
        subst_spec(ranges.drop_first(), slots.drop_first(), r)
    }
}

/// Substitution lifted to operands.
pub open spec fn subst_value(ranges: Seq<LiveRange>, slots: Seq<Register>, v: Value) -> Value {
    match v {
        Value::Register(r) => Value::Register(subst_spec(ranges, slots, r)),
        Value::Number(bits) => Value::Number(bits),
    }
}

/// Substitution lifted to statements.
pub open spec fn subst_stmt(ranges: Seq<LiveRange>, slots: Seq<Register>, s: Statement) -> Statement {
    Statement {
        destination: subst_spec(ranges, slots, s.destination),
        expr: match s.expr {
            Expr::Move(v) => Expr::Move(subst_value(ranges, slots, v)),
            Expr::Operation { operator, operand } => Expr::Operation {
                operator,
                operand: subst_value(ranges, slots, operand),
            },
            Expr::IfPositive { predicate, consequent, alternative } => Expr::IfPositive {
                predicate: subst_value(ranges, slots, predicate),
                consequent: subst_value(ranges, slots, consequent),
                alternative: subst_value(ranges, slots, alternative),
            },
        },
    }
}

fn subst_register(ranges: &Vec<LiveRange>, slots: &Vec<Register>, r: Register) -> (out: Register)
    requires
        slots@.len() == ranges@.len(),
    ensures
        out == subst_spec(ranges@, slots@, r),
{
    let n = ranges.len();
    let mut t: usize = 0;
    proof {
        assert(ranges@.skip(0) == ranges@);
        assert(slots@.skip(0) == slots@);
    }
    while t < n
        invariant
            0 <= t <= n,
            n == ranges@.len() == slots@.len(),
            subst_spec(ranges@, slots@, r) == subst_spec(ranges@.skip(t as int), slots@.skip(
                t as int,
            ), r),
        decreases n - t,
    {
        proof {
            assert(ranges@.skip(t as int)[0] == ranges@[t as int]);
            assert(slots@.skip(t as int)[0] == slots@[t as int]);
            assert(ranges@.skip(t as int).drop_first() == ranges@.skip(t as int + 1));
            assert(slots@.skip(t as int).drop_first() == slots@.skip(t as int + 1));
        }
        if ranges[t].register.index == r.index {
            return slots[t];
        }
        t = t + 1;
    }
    proof {
        assert(ranges@.skip(n as int).len() == 0);
    }
    r
}

fn subst_value_exec(ranges: &Vec<LiveRange>, slots: &Vec<Register>, v: Value) -> (out: Value)
    requires
        slots@.len() == ranges@.len(),
    ensures
        out == subst_value(ranges@, slots@, v),
{
    match v {
        Value::Register(r) => Value::Register(subst_register(ranges, slots, r)),
        Value::Number(bits) => Value::Number(bits),
    }
}

/// Rewrite every register occurrence of the program — inputs, statement
/// destinations and operands, and the output — through the substitution.
fn apply_allocation(program: &mut Program, ranges: &Vec<LiveRange>, slots: &Vec<Register>)
    requires
        slots@.len() == ranges@.len(),
    ensures
        final(program).input@.len() == old(program).input@.len(),
        forall|k: int| 0 <= k < old(program).input@.len() ==> #[trigger] final(program).input@[k]
            == subst_spec(ranges@, slots@, old(program).input@[k]),
        final(program).statements@.len() == old(program).statements@.len(),
        forall|k: int| 0 <= k < old(program).statements@.len()
            ==> #[trigger] final(program).statements@[k] == subst_stmt(
            ranges@,
            slots@,
            old(program).statements@[k],
        ),
        final(program).output == subst_value(ranges@, slots@, old(program).output),
{
    let n_in = program.input.len();
    let mut new_input: Vec<Register> = Vec::new();
    let mut k: usize = 0;
    while k < n_in
        invariant
            0 <= k <= n_in,
            n_in == program.input@.len(),
            slots@.len() == ranges@.len(),
            new_input@.len() == k,
            forall|q: int| 0 <= q < k ==> #[trigger] new_input@[q] == subst_spec(
                ranges@,
                slots@,
                program.input@[q],
            ),
            program == old(program),
        decreases n_in - k,
    {
        let r = subst_register(ranges, slots, program.input[k]);
        new_input.push(r);
        k = k + 1;
    }

    let n_st = program.statements.len();
    let mut new_statements: Vec<Statement> = Vec::new();
    let mut k: usize = 0;
    while k < n_st
        invariant
            0 <= k <= n_st,
            n_st == program.statements@.len(),
            slots@.len() == ranges@.len(),
            new_statements@.len() == k,
            forall|q: int| 0 <= q < k ==> #[trigger] new_statements@[q] == subst_stmt(
                ranges@,
                slots@,
                program.statements@[q],
            ),
            program == old(program),
            new_input@.len() == old(program).input@.len(),
            forall|q: int| 0 <= q < new_input@.len() ==> #[trigger] new_input@[q] == subst_spec(
                ranges@,
                slots@,
                old(program).input@[q],
            ),
        decreases n_st - k,
    {
        let statement = &program.statements[k];
        let destination = subst_register(ranges, slots, statement.destination);
        let expr = match &statement.expr {
            Expr::Move(v) => Expr::Move(subst_value_exec(ranges, slots, *v)),
            Expr::Operation { operator, operand } => Expr::Operation {
                operator: *operator,
                operand: subst_value_exec(ranges, slots, *operand),
            },
            Expr::IfPositive { predicate, consequent, alternative } => Expr::IfPositive {
                predicate: subst_value_exec(ranges, slots, *predicate),
                consequent: subst_value_exec(ranges, slots, *consequent),
                alternative: subst_value_exec(ranges, slots, *alternative),
            },
        };
        new_statements.push(Statement { destination, expr });
        k = k + 1;
    }

    let output = subst_value_exec(ranges, slots, program.output);
    program.input = new_input;
    program.statements = new_statements;
    program.output = output;
}

/// Everything `realloc` promises, with the analysed ranges and their
/// assigned slots as witnesses: the ranges are exactly the old program's
/// live ranges; no slot is shared by two overlapping ranges; the new
/// program is the old one with every register occurrence substituted by its
/// slot; and the returned count is one past the highest slot handed out.
pub open spec fn realloc_post(
    old_input: Seq<Register>,
    old_stmts: Seq<Statement>,
    old_output: Value,
    new_input: Seq<Register>,
    new_stmts: Seq<Statement>,
    new_output: Value,
    count: usize,
    ranges: Seq<LiveRange>,
    slots: Seq<Register>,
) -> bool {
    &&& ranges_exact(old_input, old_stmts, ranges)
    &&& slots.len() == ranges.len()
    &&& (forall|i: int, j: int|
        0 <= i < j < ranges.len() && ranges_overlap(#[trigger] ranges[i], #[trigger] ranges[j])
            ==> slots[i].index != slots[j].index)
    &&& new_input.len() == old_input.len()
    &&& (forall|k: int| 0 <= k < old_input.len() ==> #[trigger] new_input[k] == subst_spec(
        ranges,
        slots,
        old_input[k],
    ))
    &&& new_stmts.len() == old_stmts.len()
    &&& (forall|k: int| 0 <= k < old_stmts.len() ==> #[trigger] new_stmts[k] == subst_stmt(
        ranges,
        slots,
        old_stmts[k],
    ))
    &&& new_output == subst_value(ranges, slots, old_output)
    &&& (forall|t: int| 0 <= t < slots.len() ==> (#[trigger] slots[t].index) < count)
    &&& (count > 0 ==> exists|t: int| 0 <= t < slots.len() && (#[trigger] slots[t].index)
        == count - 1)
    &&& count <= ranges.len()
}

/// The exact analysis contract survives reordering the ranges.
proof fn lemma_ranges_exact_permuted(
    input: Seq<Register>,
    stmts: Seq<Statement>,
    a: Seq<LiveRange>,
    b: Seq<LiveRange>,
)
    requires
        ranges_exact(input, stmts, a),
        b.to_multiset() == a.to_multiset(),
    ensures
        ranges_exact(input, stmts, b),
{
    assert forall|x: LiveRange| a.contains(x) implies b.contains(x) by {
        vstd::seq_lib::to_multiset_contains(a, x);
        vstd::seq_lib::to_multiset_contains(b, x);
    }
    assert forall|x: LiveRange| b.contains(x) implies a.contains(x) by {
        vstd::seq_lib::to_multiset_contains(a, x);
        vstd::seq_lib::to_multiset_contains(b, x);
    }
    // `a` has pairwise distinct registers, so pairwise distinct elements
    assert(a.no_duplicates()) by {
        assert forall|i: int, j: int|
            0 <= i < a.len() && 0 <= j < a.len() && i != j implies a[i] != a[j] by {
            if i < j {
                assert(a[i].register != a[j].register);
            } else {
                assert(a[j].register != a[i].register);
            }
        }
    }
    a.lemma_multiset_has_no_duplicates();
    assert forall|x: LiveRange| b.to_multiset().contains(x) implies b.to_multiset().count(x)
        == 1 by {
        assert(a.to_multiset().count(x) == b.to_multiset().count(x));
    }
    b.lemma_multiset_has_no_duplicates_conv();
    assert forall|i: int, j: int| 0 <= i < j < b.len() implies #[trigger] b[i].register
        != #[trigger] b[j].register by {
        assert(b[i] != b[j]);
        assert(b.contains(b[i]) && b.contains(b[j]));
        let wi = choose|w: int| 0 <= w < a.len() && a[w] == b[i];
        let wj = choose|w: int| 0 <= w < a.len() && a[w] == b[j];
        assert(wi != wj);
        if wi < wj {
            assert(a[wi].register != a[wj].register);
        } else {
            assert(a[wj].register != a[wi].register);
        }
    }
    // presence transfers through containment
    assert forall|r: Register| input_register(input, r) implies exists|i: int|
        0 <= i < b.len() && #[trigger] b[i].register == r by {
        let w = choose|w: int| 0 <= w < a.len() && #[trigger] a[w].register == r;
        assert(a.contains(a[w]));
        let u = choose|u: int| 0 <= u < b.len() && b[u] == a[w];
        assert(b[u].register == r);
    }
    assert forall|r: Register, k: int| mentioned_at(stmts, r, k) implies exists|i: int|
        0 <= i < b.len() && #[trigger] b[i].register == r by {
        let w = choose|w: int| 0 <= w < a.len() && #[trigger] a[w].register == r;
        assert(a.contains(a[w]));
        let u = choose|u: int| 0 <= u < b.len() && b[u] == a[w];
        assert(b[u].register == r);
    }
    // per-element clauses transfer element by element
    assert forall|i: int| 0 <= i < b.len() implies input_register(
        input,
        #[trigger] b[i].register,
    ) || exists|k: int| mentioned_at(stmts, b[i].register, k) by {
        assert(b.contains(b[i]));
        let w = choose|w: int| 0 <= w < a.len() && a[w] == b[i];
        assert(input_register(input, a[w].register) || exists|k: int| mentioned_at(
            stmts,
            a[w].register,
            k,
        ));
    }
    assert forall|i: int| 0 <= i < b.len() implies #[trigger] b[i].start <= b[i].end by {
        assert(b.contains(b[i]));
        let w = choose|w: int| 0 <= w < a.len() && a[w] == b[i];
        assert(a[w].start <= a[w].end);
    }
    assert forall|i: int| 0 <= i < b.len() implies (if input_register(
        input,
        #[trigger] b[i].register,
    ) {
        b[i].start == 0
    } else {
        mentioned_at(stmts, b[i].register, b[i].start as int)
    }) by {
        assert(b.contains(b[i]));
        let w = choose|w: int| 0 <= w < a.len() && a[w] == b[i];
        assert(if input_register(input, a[w].register) {
            a[w].start == 0
        } else {
            mentioned_at(stmts, a[w].register, a[w].start as int)
        });
    }
    assert forall|i: int| 0 <= i < b.len() implies mentioned_at(
        stmts,
        #[trigger] b[i].register,
        b[i].end as int,
    ) || b[i].end == b[i].start by {
        assert(b.contains(b[i]));
        let w = choose|w: int| 0 <= w < a.len() && a[w] == b[i];
        assert(mentioned_at(stmts, a[w].register, a[w].end as int) || a[w].end == a[w].start);
    }
    assert forall|i: int, k: int|
        0 <= i < b.len() && #[trigger] mentioned_at(stmts, b[i].register, k) implies b[i].start
        <= k <= b[i].end by {
        assert(b.contains(b[i]));
        let w = choose|w: int| 0 <= w < a.len() && a[w] == b[i];
        assert(mentioned_at(stmts, a[w].register, k));
        assert(a[w].start <= k <= a[w].end);
    }
}

/// Linear-scan register allocation, in place: analyse the program's live
/// ranges, assign every range a slot no overlapping range shares, rewrite
/// the program through that substitution, and return how many slots the
/// rewritten program requires.
pub fn realloc(program: &mut Program) -> (count: usize)
    ensures
        exists|ranges: Seq<LiveRange>, slots: Seq<Register>| #[trigger] realloc_post(
            old(program).input@,
            old(program).statements@,
            old(program).output,
            final(program).input@,
            final(program).statements@,
            final(program).output,
            count,
            ranges,
            slots,
        ),
{
    let ranges = live_ranges(program);
    let sorted = sort_ranges(ranges);
    proof {
        lemma_ranges_exact_permuted(program.input@, program.statements@, ranges@, sorted@);
    }
    let assigned = assign_slots(&sorted);
    let slots = assigned.0;
    let count = assigned.1;
    apply_allocation(program, &sorted, &slots);
    proof {
        assert(realloc_post(
            old(program).input@,
            old(program).statements@,
            old(program).output,
            program.input@,
            program.statements@,
            program.output,
            count,
            sorted@,
            slots@,
        ));
    }
    count
}


/// The slot that stands for the register of `ranges[i]` is `slots[i]`.
pub proof fn lemma_subst_at(ranges: Seq<LiveRange>, slots: Seq<Register>, i: int)
    requires
        ranges_distinct(ranges),
        slots.len() == ranges.len(),
        0 <= i < ranges.len(),
    ensures
        subst_spec(ranges, slots, ranges[i].register) == slots[i],
    decreases i,
{
    if i == 0 {
    } else {
        assert(ranges[0].register != ranges[i].register);
        assert forall|a: int, b: int| 0 <= a < b < ranges.drop_first().len() implies #[trigger]
            ranges.drop_first()[a].register != #[trigger] ranges.drop_first()[b].register by {
            assert(ranges.drop_first()[a] == ranges[a + 1]);
            assert(ranges.drop_first()[b] == ranges[b + 1]);
        }
        lemma_subst_at(ranges.drop_first(), slots.drop_first(), i - 1);
        assert(ranges.drop_first()[i - 1] == ranges[i]);
        assert(slots.drop_first()[i - 1] == slots[i]);
    }
}

/// One more processed statement defines one more register.
proof fn lemma_defined_after_snoc(stmts: Seq<Statement>, base: Set<usize>, k: int)
    requires
        0 <= k < stmts.len(),
    ensures
        defined_after(stmts.take(k + 1), base) == defined_after(stmts.take(k), base).insert(
            stmts[k].destination.index,
        ),
    decreases k,
{
    if k == 0 {
        assert(stmts.take(1).drop_first() =~= Seq::<Statement>::empty());
        assert(stmts.take(1)[0] == stmts[0]);
        assert(stmts.take(0) =~= Seq::<Statement>::empty());
        assert(defined_after(
            stmts.take(1).drop_first(),
            base.insert(stmts.take(1)[0].destination.index),
        ) == base.insert(stmts[0].destination.index));
        assert(defined_after(stmts.take(0), base) == base);
    } else {
        lemma_defined_after_snoc(stmts.drop_first(), base.insert(stmts[0].destination.index), k - 1);
        assert(stmts.take(k + 1).drop_first() =~= stmts.drop_first().take(k));
        assert(stmts.take(k).drop_first() =~= stmts.drop_first().take(k - 1));
        assert(stmts.take(k + 1)[0] == stmts[0]);
        assert(stmts.take(k)[0] == stmts[0]);
        assert(stmts.drop_first()[k - 1] == stmts[k]);
        assert(defined_after(stmts.take(k + 1), base) == defined_after(
            stmts.drop_first().take(k),
            base.insert(stmts[0].destination.index),
        ));
        assert(defined_after(stmts.take(k), base) == defined_after(
            stmts.drop_first().take(k - 1),
            base.insert(stmts[0].destination.index),
        ));
    }
}

/// A defined register is an input or the destination of an earlier
/// statement.
proof fn lemma_defined_after_origin(stmts: Seq<Statement>, base: Set<usize>, x: usize)
    requires
        defined_after(stmts, base).contains(x),
    ensures
        base.contains(x) || exists|j: int|
            0 <= j < stmts.len() && (#[trigger] stmts[j].destination.index) == x,
    decreases stmts.len(),
{
    if stmts.len() > 0 {
        lemma_defined_after_origin(stmts.drop_first(), base.insert(stmts[0].destination.index), x);
        if !base.contains(x) {
            if stmts[0].destination.index == x {
                assert(stmts[0].destination.index == x);
            } else {
                let j = choose|j: int|
                    0 <= j < stmts.drop_first().len() && (#[trigger] stmts.drop_first()[
                        j
                    ].destination.index) == x;
                assert(stmts[j + 1].destination.index == x);
            }
        }
    }
}

/// No two ranges holding one slot overlap (positionally, over the exact
/// analysis).
pub open spec fn slots_respect_overlap(ranges: Seq<LiveRange>, slots: Seq<Register>) -> bool {
    forall|i: int, j: int|
        0 <= i < j < ranges.len() && ranges_overlap(#[trigger] ranges[i], #[trigger] ranges[j])
            ==> slots[i].index != slots[j].index
}

/// The running correspondence between a register file of the original
/// program and one of the rewritten program: every register in `defined`
/// whose range reaches `floor` holds, under its slot, the same value in
/// both files.
pub open spec fn alloc_correspond<T: Number>(
    ranges: Seq<LiveRange>,
    slots: Seq<Register>,
    defined: Set<usize>,
    floor: int,
    env1: Map<usize, T>,
    env2: Map<usize, T>,
) -> bool {
    forall|i: int|
        0 <= i < ranges.len() && defined.contains(#[trigger] ranges[i].register.index)
            && ranges[i].end >= floor ==> {
            &&& env1.dom().contains(ranges[i].register.index)
            &&& env2.dom().contains(subst_spec(ranges, slots, ranges[i].register).index)
            &&& env2[subst_spec(ranges, slots, ranges[i].register).index] == env1[ranges[
                i
            ].register.index]
        }
}

/// The simulation: running the remaining original statements and the
/// remaining substituted statements keeps corresponding register files
/// corresponding, because a write can only collide with the slot of a
/// range it overlaps.
proof fn lemma_alloc_sim<T: Number>(
    input: Seq<Register>,
    stmts: Seq<Statement>,
    s2: Seq<Statement>,
    ranges: Seq<LiveRange>,
    slots: Seq<Register>,
    env1: Map<usize, T>,
    env2: Map<usize, T>,
    k: int,
)
    requires
        0 <= k <= stmts.len(),
        s2.len() == stmts.len(),
        forall|j: int| 0 <= j < stmts.len() ==> #[trigger] s2[j] == subst_stmt(
            ranges,
            slots,
            stmts[j],
        ),
        ranges_exact(input, stmts, ranges),
        slots.len() == ranges.len(),
        slots_respect_overlap(ranges, slots),
        stmts_wf(stmts.skip(k), defined_after(stmts.take(k), register_set(input))),
        alloc_correspond(
            ranges,
            slots,
            defined_after(stmts.take(k), register_set(input)),
            k - 1,
            env1,
            env2,
        ),
    ensures
        alloc_correspond(
            ranges,
            slots,
            defined_after(stmts, register_set(input)),
            stmts.len() - 1,
            spec_run(stmts.skip(k), env1),
            spec_run(s2.skip(k), env2),
        ),
    decreases stmts.len() - k,
{
    let base = register_set(input);
    let defined = defined_after(stmts.take(k), base);
    if k == stmts.len() {
        assert(stmts.take(k) == stmts);
        assert(stmts.skip(k).len() == 0);
        assert(s2.skip(k).len() == 0);
        assert(spec_run(stmts.skip(k), env1) == env1);
        assert(spec_run(s2.skip(k), env2) == env2);
    } else {
        let s = stmts[k];
        let t = s2[k];
        assert(t == subst_stmt(ranges, slots, s));
        assert(stmts.skip(k)[0] == s);
        assert(s2.skip(k)[0] == t);
        assert(stmt_wf(s, defined));

        // the register of every read of `s` corresponds
        assert forall|r: Register| stmt_reads(s, r) implies {
            &&& exists|i: int| 0 <= i < ranges.len() && #[trigger] ranges[i].register == r
            &&& env1.dom().contains(r.index)
            &&& env2.dom().contains(subst_spec(ranges, slots, r).index)
            &&& env2[subst_spec(ranges, slots, r).index] == env1[r.index]
        } by {
            assert(defined.contains(r.index));
            assert(stmt_mentions(stmts[k], r));
            assert(mentioned_at(stmts, r, k));
            let i = choose|i: int| 0 <= i < ranges.len() && #[trigger] ranges[i].register == r;
            assert(ranges[i].start <= k <= ranges[i].end);
            assert(ranges[i].end >= k - 1);
        }

        // the substituted statement reads the same values
        let d = s.destination;
        let env1b = spec_step(s, env1);
        let env2b = spec_step(t, env2);
        assert(t.destination == subst_spec(ranges, slots, d));
        let sd = subst_spec(ranges, slots, d);

        assert forall|v: Value| stmt_value_case(s, v) implies spec_value(
            subst_value(ranges, slots, v),
            env2,
        ) == spec_value::<T>(v, env1) by {
            match v {
                Value::Register(r) => {
                    assert(stmt_reads(s, r) || !stmt_reads(s, r));
                    if stmt_reads(s, r) {
                    } else {
                        assert(false);
                    }
                },
                Value::Number(_) => {},
            }
        }

        // the two steps insert equal values under corresponding keys
        match s.expr {
            Expr::Move(v) => {
                if let Value::Register(r) = v {
                    assert(stmt_reads(s, r));
                }
                assert(stmt_value_case(s, v));
                assert(env1b == env1.insert(d.index, spec_value(v, env1)));
                assert(env2b == env2.insert(
                    sd.index,
                    spec_value(subst_value(ranges, slots, v), env2),
                ));
            },
            Expr::Operation { operator, operand } => {
                if let Value::Register(r) = operand {
                    assert(stmt_reads(s, r));
                }
                assert(stmt_value_case(s, operand));
                assert(stmt_reads(s, d));
                assert(env2[sd.index] == env1[d.index]);
                assert(env1b == env1.insert(
                    d.index,
                    crate::eval::expr::spec_apply(operator, env1[d.index], spec_value(operand, env1)),
                ));
                assert(env2b == env2.insert(
                    sd.index,
                    crate::eval::expr::spec_apply(
                        operator,
                        env2[sd.index],
                        spec_value(subst_value(ranges, slots, operand), env2),
                    ),
                ));
            },
            Expr::IfPositive { predicate, consequent, alternative } => {
                if let Value::Register(r) = predicate {
                    assert(stmt_reads(s, r));
                }
                if let Value::Register(r) = consequent {
                    assert(stmt_reads(s, r));
                }
                if let Value::Register(r) = alternative {
                    assert(stmt_reads(s, r));
                }
                assert(stmt_value_case(s, predicate) && stmt_value_case(s, consequent)
                    && stmt_value_case(s, alternative));
            },
        }
        assert(env1b.dom() == env1.dom().insert(d.index));
        assert(env2b.dom() == env2.dom().insert(sd.index));
        assert(env1b[d.index] == env2b[sd.index]);

        // the destination's range covers this statement
        assert(stmt_mentions(stmts[k], d));
        assert(mentioned_at(stmts, d, k));
        let dj = choose|j: int| 0 <= j < ranges.len() && #[trigger] ranges[j].register == d;
        assert(ranges[dj].start <= k <= ranges[dj].end);
        lemma_subst_at(ranges, slots, dj);
        assert(subst_spec(ranges, slots, d) == slots[dj]);

        let defined2 = defined_after(stmts.take(k + 1), base);
        lemma_defined_after_snoc(stmts, base, k);
        assert(defined2 == defined.insert(d.index));

        // correspondence survives the write
        assert forall|i: int|
            0 <= i < ranges.len() && defined2.contains(#[trigger] ranges[i].register.index)
                && ranges[i].end >= k implies {
            &&& env1b.dom().contains(ranges[i].register.index)
            &&& env2b.dom().contains(subst_spec(ranges, slots, ranges[i].register).index)
            &&& env2b[subst_spec(ranges, slots, ranges[i].register).index] == env1b[ranges[
                i
            ].register.index]
        } by {
            let r = ranges[i].register;
            lemma_subst_at(ranges, slots, i);
            if r.index == d.index {
                assert(r == d);
                assert(i == dj) by {
                    if i != dj {
                        if i < dj {
                            assert(ranges[i].register != ranges[dj].register);
                        } else {
                            assert(ranges[dj].register != ranges[i].register);
                        }
                        assert(false);
                    }
                }
                assert(subst_spec(ranges, slots, r) == sd);
            } else {
                assert(defined.contains(r.index));
                assert(ranges[i].end >= k - 1);
                assert(env1.dom().contains(r.index));
                assert(env2.dom().contains(slots[i].index));
                assert(env2[slots[i].index] == env1[r.index]);
                // r started at or before this statement, so its range
                // overlaps the destination's: their slots differ
                assert(ranges[i].start <= k) by {
                    lemma_defined_after_origin(stmts.take(k), base, r.index);
                    if base.contains(r.index) {
                        assert(input_register(input, r)) by {
                            let w = choose|w: int|
                                0 <= w < input.len() && #[trigger] input[w].index == r.index;
                            assert(input[w] == r);
                        }
                        assert(ranges[i].start == 0);
                    } else {
                        let j = choose|j: int|
                            0 <= j < stmts.take(k).len() && (#[trigger] stmts.take(
                                k,
                            )[j].destination.index) == r.index;
                        assert(stmts.take(k)[j] == stmts[j]);
                        assert(stmts[j].destination == r);
                        assert(stmt_mentions(stmts[j], r));
                        assert(mentioned_at(stmts, r, j));
                        assert(ranges[i].start <= j);
                    }
                }
                assert(ranges_overlap(ranges[i], ranges[dj]));
                assert(i != dj);
                assert(slots[i].index != slots[dj].index) by {
                    if i < dj {
                        assert(ranges_overlap(ranges[i], ranges[dj]));
                    } else {
                        assert(ranges_overlap(ranges[dj], ranges[i]));
                    }
                }
                assert(env2b.dom().contains(slots[i].index));
                assert(env2b[slots[i].index] == env2[slots[i].index]);
                assert(env1b[r.index] == env1[r.index]);
            }
        }
        assert(alloc_correspond(ranges, slots, defined2, k, env1b, env2b));

        // thread well-formedness to the remaining statements
        assert(stmts.skip(k).drop_first() =~= stmts.skip(k + 1));
        assert(s2.skip(k).drop_first() =~= s2.skip(k + 1));
        assert(stmts_wf(stmts.skip(k + 1), defined2));

        lemma_alloc_sim(input, stmts, s2, ranges, slots, env1b, env2b, k + 1);
        assert(spec_run(stmts.skip(k), env1) == spec_run(stmts.skip(k + 1), env1b));
        assert(spec_run(s2.skip(k), env2) == spec_run(s2.skip(k + 1), env2b));
    }
}

/// Is `v` one of the operand values of statement `s`?
spec fn stmt_value_case(s: Statement, v: Value) -> bool {
    match s.expr {
        Expr::Move(w) => v == w,
        Expr::Operation { operand, .. } => v == operand,
        Expr::IfPositive { predicate, consequent, alternative } => v == predicate || v
            == consequent || v == alternative,
    }
}

/// Two distinct inputs never share a slot: both their ranges contain the
/// virtual index 0, so they overlap. A caller rebinding the inputs of a
/// rewritten program therefore never writes one slot twice.
pub proof fn lemma_input_slots_distinct(
    input: Seq<Register>,
    stmts: Seq<Statement>,
    ranges: Seq<LiveRange>,
    slots: Seq<Register>,
    r1: Register,
    r2: Register,
)
    requires
        ranges_exact(input, stmts, ranges),
        slots.len() == ranges.len(),
        slots_respect_overlap(ranges, slots),
        input_register(input, r1),
        input_register(input, r2),
        r1.index != r2.index,
    ensures
        subst_spec(ranges, slots, r1).index != subst_spec(ranges, slots, r2).index,
{
    let wi = choose|w: int| 0 <= w < ranges.len() && #[trigger] ranges[w].register == r1;
    let wj = choose|w: int| 0 <= w < ranges.len() && #[trigger] ranges[w].register == r2;
    lemma_subst_at(ranges, slots, wi);
    lemma_subst_at(ranges, slots, wj);
    assert(ranges[wi].start == 0 && ranges[wj].start == 0);
    assert(ranges_overlap(ranges[wi], ranges[wj]));
    assert(wi != wj);
    if wi < wj {
        assert(slots[wi].index != slots[wj].index);
    } else {
        assert(slots[wj].index != slots[wi].index);
    }
}

/// Allocation preserves semantics: rewriting a well-formed program through
/// a slot assignment under which no two overlapping live ranges share a
/// slot, and rebinding each input to its slot, leaves the program's value
/// unchanged — in every value domain. The one shape left out: a program
/// whose register-valued output dies before the last statement, whose slot
/// the allocator is free to reuse.
pub proof fn lemma_allocation_preserves<T: Number>(
    input: Seq<Register>,
    stmts: Seq<Statement>,
    output: Value,
    new_stmts: Seq<Statement>,
    new_output: Value,
    ranges: Seq<LiveRange>,
    slots: Seq<Register>,
    env1: Map<usize, T>,
    env2: Map<usize, T>,
)
    requires
        ranges_exact(input, stmts, ranges),
        slots.len() == ranges.len(),
        slots_respect_overlap(ranges, slots),
        new_stmts.len() == stmts.len(),
        forall|j: int| 0 <= j < stmts.len() ==> #[trigger] new_stmts[j] == subst_stmt(
            ranges,
            slots,
            stmts[j],
        ),
        new_output == subst_value(ranges, slots, output),
        stmts_wf(stmts, register_set(input)),
        forall|r: Register| #[trigger] input_register(input, r) ==> env1.dom().contains(r.index)
            && env2.dom().contains(subst_spec(ranges, slots, r).index) && env2[subst_spec(
            ranges,
            slots,
            r,
        ).index] == env1[r.index],
        match output {
            Value::Register(r) => defined_after(stmts, register_set(input)).contains(r.index)
                && exists|i: int|
                0 <= i < ranges.len() && #[trigger] ranges[i].register == r && ranges[i].end + 1
                    >= stmts.len(),
            Value::Number(_) => true,
        },
    ensures
        spec_value(new_output, spec_run(new_stmts, env2)) == spec_value::<T>(
            output,
            spec_run(stmts, env1),
        ),
{
    let base = register_set(input);
    assert(stmts.take(0) =~= Seq::<Statement>::empty());
    assert(stmts.skip(0) == stmts);
    assert(new_stmts.skip(0) == new_stmts);
    assert(defined_after(stmts.take(0), base) == base);
    assert(alloc_correspond(ranges, slots, base, -1, env1, env2)) by {
        assert forall|i: int|
            0 <= i < ranges.len() && base.contains(#[trigger] ranges[i].register.index)
                && ranges[i].end >= -1 implies {
            &&& env1.dom().contains(ranges[i].register.index)
            &&& env2.dom().contains(subst_spec(ranges, slots, ranges[i].register).index)
            &&& env2[subst_spec(ranges, slots, ranges[i].register).index] == env1[ranges[
                i
            ].register.index]
        } by {
            let r = ranges[i].register;
            assert(input_register(input, r)) by {
                let w = choose|w: int|
                    0 <= w < input.len() && #[trigger] input[w].index == r.index;
                assert(input[w] == r);
            }
        }
    }
    lemma_alloc_sim(input, stmts, new_stmts, ranges, slots, env1, env2, 0);
    match output {
        Value::Register(r) => {
            let i = choose|i: int|
                0 <= i < ranges.len() && #[trigger] ranges[i].register == r && ranges[i].end + 1
                    >= stmts.len();
            assert(ranges[i].end >= stmts.len() - 1);
            lemma_subst_at(ranges, slots, i);
        },
        Value::Number(_) => {},
    }
}

} // verus!
