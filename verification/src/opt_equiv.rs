//! The optimizer keeps what a program does: running the optimized program ends
//! in the same state as running the original one.

use crate::semantics::{
    add_current_to, first_nonzero_from, flush_add, flush_all, flush_shift, grow, loop_opt, machine_wf, opt_fold, opt_step,
    optimize, read_in, run_loop, run_one, run_seq, sa_add, sa_fold, sa_lookup, sa_step, set_cell, shifted, unit_moves,
    OptBuf, SaFold,
    step, wadd, Machine, Op, RunErr,
};
use vstd::prelude::*;

verus! {

/// The cell at `i`, where cells past the end of the tape read as zero.
pub open spec fn cell_at(cells: Seq<u8>, i: int) -> u8 {
    if 0 <= i < cells.len() { cells[i] } else { 0 }
}

/// Two machines in the same state, except that one tape may have grown further
/// than the other (with zero cells).
pub open spec fn same_state(a: Machine, b: Machine) -> bool {
    &&& a.ptr == b.ptr
    &&& a.input == b.input
    &&& a.in_pos == b.in_pos
    &&& a.output == b.output
    &&& a.messages == b.messages
    &&& forall|i: int| #[trigger] cell_at(a.cells, i) == cell_at(b.cells, i)
}

proof fn lemma_grow(cells: Seq<u8>, n: int)
    ensures
        grow(cells, n).len() >= cells.len(),
        n >= 0 ==> grow(cells, n).len() > n,
        forall|i: int| #[trigger] cell_at(grow(cells, n), i) == cell_at(cells, i),
{
}

proof fn lemma_read_in(input: Seq<u8>, pos: int)
    requires 0 <= pos <= input.len(),
    ensures pos <= read_in(input, pos).1 <= input.len(),
    decreases input.len() - pos,
{
    if pos < input.len() && input[pos] == 13 {
        lemma_read_in(input, pos + 1);
    }
}

proof fn lemma_set_cell(m: Machine, i: int, v: u8)
    requires 0 <= i < m.cells.len(),
    ensures
        set_cell(m, i, v).cells.len() == m.cells.len(),
        forall|j: int| #[trigger] cell_at(set_cell(m, i, v).cells, j) == (if j == i { v } else { cell_at(m.cells, j) }),
{
}

proof fn lemma_first_nonzero_same(a: Seq<u8>, b: Seq<u8>, start: int, st: int)
    requires
        forall|i: int| #[trigger] cell_at(a, i) == cell_at(b, i),
        st > 0,
    ensures first_nonzero_from(a, start, st) == first_nonzero_from(b, start, st),
    decreases (if a.len() > b.len() { a.len() as int } else { b.len() as int }) - start,
{
    if start < 0 || (start >= a.len() && start >= b.len()) {
    } else {
        assert(cell_at(a, start) == cell_at(b, start));
        if start + st < a.len() || start + st < b.len() {
            lemma_first_nonzero_same(a, b, start + st, st);
        }
        if start >= b.len() {
            assert(a[start] == 0);
            if start + st < a.len() {
                assert(first_nonzero_from(b, start + st, st) is None);
            }
        } else if start >= a.len() {
            assert(b[start] == 0);
            if start + st < b.len() {
                assert(first_nonzero_from(a, start + st, st) is None);
            }
        }
    }
}

proof fn lemma_shifted_same(a: Machine, b: Machine, s: int)
    requires same_state(a, b), machine_wf(a), machine_wf(b),
    ensures
        shifted(a, s) is Some <==> shifted(b, s) is Some,
        shifted(a, s) is Some ==> same_state(shifted(a, s).unwrap(), shifted(b, s).unwrap())
            && machine_wf(shifted(a, s).unwrap()) && machine_wf(shifted(b, s).unwrap()),
{
    lemma_grow(a.cells, a.ptr + s);
    lemma_grow(b.cells, b.ptr + s);
}

proof fn lemma_add_current_same(a: Machine, b: Machine, s: int)
    requires same_state(a, b), machine_wf(a), machine_wf(b),
    ensures
        add_current_to(a, s) is Some <==> add_current_to(b, s) is Some,
        add_current_to(a, s) is Some ==> same_state(add_current_to(a, s).unwrap(), add_current_to(b, s).unwrap())
            && machine_wf(add_current_to(a, s).unwrap()) && machine_wf(add_current_to(b, s).unwrap()),
{
    lemma_shifted_same(a, b, s);
    if let Some(a1) = shifted(a, s) {
        let b1 = shifted(b, s).unwrap();
        lemma_grow(a.cells, a.ptr + s);
        lemma_grow(b.cells, b.ptr + s);
        assert(cell_at(a1.cells, a1.ptr) == cell_at(b1.cells, b1.ptr));
        assert(cell_at(a1.cells, a.ptr) == cell_at(b1.cells, b.ptr));
        lemma_set_cell(Machine { ptr: a.ptr, ..a1 }, a1.ptr, wadd(a1.cells[a1.ptr], a1.cells[a.ptr]));
        lemma_set_cell(Machine { ptr: b.ptr, ..b1 }, b1.ptr, wadd(b1.cells[b1.ptr], b1.cells[b.ptr]));
    }
}

/// Every operation other than a loop takes machines in the same state to
/// machines in the same state, with the same error.
pub proof fn lemma_step_same(op: Op, a: Machine, b: Machine, tracks: Option<nat>)
    requires
        !(op is Loop),
        same_state(a, b),
        machine_wf(a),
        machine_wf(b),
    ensures
        step(op, a, tracks).1 == step(op, b, tracks).1,
        same_state(step(op, a, tracks).0, step(op, b, tracks).0),
        machine_wf(step(op, a, tracks).0),
        machine_wf(step(op, b, tracks).0),
{
    assert(cell_at(a.cells, a.ptr) == cell_at(b.cells, b.ptr));
    match op {
        Op::Right => {
            lemma_grow(a.cells, a.ptr + 1);
            lemma_grow(b.cells, b.ptr + 1);
            let a1 = Machine { ptr: a.ptr + 1, cells: grow(a.cells, a.ptr + 1), ..a };
            let b1 = Machine { ptr: b.ptr + 1, cells: grow(b.cells, b.ptr + 1), ..b };
            assert(step(op, a, tracks).0 == a1);
            assert(step(op, b, tracks).0 == b1);
            assert(machine_wf(a1));
        },
        Op::Inc => {
            lemma_set_cell(a, a.ptr, wadd(a.cells[a.ptr], 1));
            lemma_set_cell(b, b.ptr, wadd(b.cells[b.ptr], 1));
        },
        Op::Dec => {
            lemma_set_cell(a, a.ptr, wadd(a.cells[a.ptr], 255));
            lemma_set_cell(b, b.ptr, wadd(b.cells[b.ptr], 255));
        },
        Op::In => {
            let (v, p) = read_in(a.input, a.in_pos);
            lemma_read_in(a.input, a.in_pos);
            lemma_set_cell(a, a.ptr, v);
            lemma_set_cell(b, b.ptr, v);
        },
        Op::Clr => {
            lemma_set_cell(a, a.ptr, 0);
            lemma_set_cell(b, b.ptr, 0);
        },
        Op::Add(v) => {
            lemma_set_cell(a, a.ptr, wadd(a.cells[a.ptr], v));
            lemma_set_cell(b, b.ptr, wadd(b.cells[b.ptr], v));
        },
        Op::Shift(s) => {
            lemma_shifted_same(a, b, s);
        },
        Op::MoveAdd(s) => {
            lemma_add_current_same(a, b, s);
            if let Some(a1) = add_current_to(a, s) {
                let b1 = add_current_to(b, s).unwrap();
                lemma_set_cell(a1, a.ptr, 0);
                lemma_set_cell(b1, b.ptr, 0);
            }
        },
        Op::MoveAdd2(s1, s2) => {
            lemma_add_current_same(a, b, s1);
            if let Some(a1) = add_current_to(a, s1) {
                let b1 = add_current_to(b, s1).unwrap();
                lemma_add_current_same(a1, b1, s2);
                if let Some(a2) = add_current_to(a1, s2) {
                    let b2 = add_current_to(b1, s2).unwrap();
                    lemma_set_cell(a2, a.ptr, 0);
                    lemma_set_cell(b2, b.ptr, 0);
                }
            }
        },
        Op::CheckScratchIsEmptyFromHere(_) => {
            if let Some(n) = tracks {
                if n > 0 {
                    lemma_first_nonzero_same(a.cells, b.cells, a.ptr, n as int);
                }
            }
        },
        _ => {},
    }
}

}
verus! {

/// Running any operations from machines in the same state gives machines in the
/// same state, with the same error.
pub proof fn lemma_run_seq_same(ops: Seq<Op>, a: Machine, b: Machine, t: Option<nat>, fuel: nat)
    requires same_state(a, b), machine_wf(a), machine_wf(b),
    ensures
        run_seq(ops, a, t, fuel).1 == run_seq(ops, b, t, fuel).1,
        same_state(run_seq(ops, a, t, fuel).0, run_seq(ops, b, t, fuel).0),
        machine_wf(run_seq(ops, a, t, fuel).0),
        machine_wf(run_seq(ops, b, t, fuel).0),
    decreases fuel, ops, 0nat,
{
    if ops.len() > 0 {
        lemma_run_one_same(ops[0], a, b, t, fuel);
        let (a1, e) = run_one(ops[0], a, t, fuel);
        let b1 = run_one(ops[0], b, t, fuel).0;
        if e is None {
            lemma_run_seq_same(ops.drop_first(), a1, b1, t, fuel);
        }
    }
}

pub proof fn lemma_run_one_same(op: Op, a: Machine, b: Machine, t: Option<nat>, fuel: nat)
    requires same_state(a, b), machine_wf(a), machine_wf(b),
    ensures
        run_one(op, a, t, fuel).1 == run_one(op, b, t, fuel).1,
        same_state(run_one(op, a, t, fuel).0, run_one(op, b, t, fuel).0),
        machine_wf(run_one(op, a, t, fuel).0),
        machine_wf(run_one(op, b, t, fuel).0),
    decreases fuel, op, 0nat,
{
    match op {
        Op::Loop(body) => lemma_run_loop_same(body, a, b, t, fuel),
        _ => lemma_step_same(op, a, b, t),
    }
}

pub proof fn lemma_run_loop_same(body: Seq<Op>, a: Machine, b: Machine, t: Option<nat>, fuel: nat)
    requires same_state(a, b), machine_wf(a), machine_wf(b),
    ensures
        run_loop(body, a, t, fuel).1 == run_loop(body, b, t, fuel).1,
        same_state(run_loop(body, a, t, fuel).0, run_loop(body, b, t, fuel).0),
        machine_wf(run_loop(body, a, t, fuel).0),
        machine_wf(run_loop(body, b, t, fuel).0),
    decreases fuel, body, 1nat,
{
    assert(cell_at(a.cells, a.ptr) == cell_at(b.cells, b.ptr));
    if a.cells[a.ptr] != 0 && fuel > 0 {
        lemma_run_seq_same(body, a, b, t, (fuel - 1) as nat);
        let (a1, e) = run_seq(body, a, t, (fuel - 1) as nat);
        let b1 = run_seq(body, b, t, (fuel - 1) as nat).0;
        if e is None {
            lemma_run_loop_same(body, a1, b1, t, (fuel - 1) as nat);
        }
    }
}

/// Runs never shrink the tape.
pub proof fn lemma_run_seq_grows(ops: Seq<Op>, m: Machine, t: Option<nat>, fuel: nat)
    requires machine_wf(m),
    ensures run_seq(ops, m, t, fuel).0.cells.len() >= m.cells.len(),
    decreases fuel, ops, 0nat,
{
    if ops.len() > 0 {
        lemma_run_one_grows(ops[0], m, t, fuel);
        lemma_run_one_same(ops[0], m, m, t, fuel);
        let (m1, e) = run_one(ops[0], m, t, fuel);
        if e is None {
            lemma_run_seq_grows(ops.drop_first(), m1, t, fuel);
        }
    }
}

pub proof fn lemma_run_one_grows(op: Op, m: Machine, t: Option<nat>, fuel: nat)
    requires machine_wf(m),
    ensures run_one(op, m, t, fuel).0.cells.len() >= m.cells.len(),
    decreases fuel, op, 0nat,
{
    match op {
        Op::Loop(body) => lemma_run_loop_grows(body, m, t, fuel),
        _ => {
            lemma_grow(m.cells, m.ptr + 1);
            match op {
                Op::Shift(s) => { lemma_grow(m.cells, m.ptr + s); },
                Op::MoveAdd(s) => {
                    lemma_grow(m.cells, m.ptr + s);
                },
                Op::MoveAdd2(s1, s2) => {
                    lemma_grow(m.cells, m.ptr + s1);
                    if let Some(m1) = add_current_to(m, s1) {
                        lemma_grow(m1.cells, m1.ptr + s2);
                    }
                },
                _ => {},
            }
        },
    }
}

pub proof fn lemma_run_loop_grows(body: Seq<Op>, m: Machine, t: Option<nat>, fuel: nat)
    requires machine_wf(m),
    ensures run_loop(body, m, t, fuel).0.cells.len() >= m.cells.len(),
    decreases fuel, body, 1nat,
{
    if m.cells[m.ptr] != 0 && fuel > 0 {
        lemma_run_seq_grows(body, m, t, (fuel - 1) as nat);
        lemma_run_seq_same(body, m, m, t, (fuel - 1) as nat);
        let (m1, e) = run_seq(body, m, t, (fuel - 1) as nat);
        if e is None {
            lemma_run_loop_grows(body, m1, t, (fuel - 1) as nat);
        }
    }
}

/// Running two sequences one after the other.
pub proof fn lemma_run_append(a: Seq<Op>, b: Seq<Op>, m: Machine, t: Option<nat>, fuel: nat)
    ensures
        run_seq(a + b, m, t, fuel) == ({
            let (m1, e) = run_seq(a, m, t, fuel);
            if e is Some { (m1, e) } else { run_seq(b, m1, t, fuel) }
        }),
    decreases a.len(),
{
    if a.len() > 0 {
        assert((a + b)[0] == a[0]);
        assert((a + b).drop_first() =~= a.drop_first() + b);
        let (m1, e) = run_one(a[0], m, t, fuel);
        if e is None {
            lemma_run_append(a.drop_first(), b, m1, t, fuel);
        }
    } else {
        assert(a + b =~= b);
    }
}

}
verus! {

pub open spec fn with_out(b: OptBuf, o: Seq<Op>) -> OptBuf {
    OptBuf { out: o, ..b }
}

proof fn lemma_flush_out(b: OptBuf)
    ensures
        flush_shift(b).out == b.out + flush_shift(with_out(b, Seq::empty())).out,
        flush_add(b).out == b.out + flush_add(with_out(b, Seq::empty())).out,
        flush_shift(b) == with_out(flush_shift(with_out(b, Seq::empty())), flush_shift(b).out),
        flush_add(b) == with_out(flush_add(with_out(b, Seq::empty())), flush_add(b).out),
{
    let e = with_out(b, Seq::empty());
    assert(flush_shift(b).out =~= b.out + flush_shift(e).out);
    assert(flush_add(b).out =~= b.out + flush_add(e).out);
}

proof fn lemma_flush_all_out(b: OptBuf)
    ensures
        flush_all(b).out == b.out + flush_all(with_out(b, Seq::empty())).out,
        flush_all(b) == with_out(flush_all(with_out(b, Seq::empty())), flush_all(b).out),
{
    let e = with_out(b, Seq::empty());
    lemma_flush_out(b);
    lemma_flush_out(e);
    lemma_flush_out(flush_shift(b));
    lemma_flush_out(flush_shift(e));
    assert(with_out(flush_shift(b), Seq::empty()) == with_out(flush_shift(e), Seq::empty()));
    assert(flush_all(b).out =~= b.out + flush_all(e).out);
}

proof fn lemma_step_out(op: Op, b: OptBuf)
    ensures
        opt_step(op, b) is Some <==> opt_step(op, with_out(b, Seq::empty())) is Some,
        opt_step(op, b) is Some ==> opt_step(op, b).unwrap() == with_out(opt_step(op, with_out(b, Seq::empty())).unwrap(),
            b.out + opt_step(op, with_out(b, Seq::empty())).unwrap().out),
{
    let e = with_out(b, Seq::empty());
    lemma_flush_out(b);
    lemma_flush_all_out(b);
    match op {
        Op::Left | Op::Right | Op::Shift(_) | Op::Inc | Op::Dec | Op::Add(_) => {},
        Op::Loop(body) => {
            if let Some(o) = loop_opt(body) {
                assert(flush_all(b).out.push(o) =~= b.out + flush_all(e).out.push(o));
            }
        },
        _ => {
            assert(flush_all(b).out.push(op) =~= b.out + flush_all(e).out.push(op));
        },
    }
}

/// Folding the optimizer over operations only appends to what was written.
proof fn lemma_fold_out(ops: Seq<Op>, b: OptBuf)
    ensures
        opt_fold(ops, b) is Some <==> opt_fold(ops, with_out(b, Seq::empty())) is Some,
        opt_fold(ops, b) is Some ==> opt_fold(ops, b).unwrap() == with_out(opt_fold(ops, with_out(b, Seq::empty())).unwrap(),
            b.out + opt_fold(ops, with_out(b, Seq::empty())).unwrap().out),
    decreases ops.len(),
{
    let e = with_out(b, Seq::empty());
    if ops.len() > 0 {
        lemma_step_out(ops[0], b);
        if let Some(b1) = opt_step(ops[0], b) {
            let e1 = opt_step(ops[0], e).unwrap();
            lemma_fold_out(ops.drop_first(), b1);
            lemma_fold_out(ops.drop_first(), e1);
            assert(with_out(b1, Seq::empty()) == with_out(e1, Seq::empty()));
            if let Some(r) = opt_fold(ops.drop_first(), e1) {
                let z = opt_fold(ops.drop_first(), with_out(e1, Seq::empty())).unwrap();
                assert(b.out + (e1.out + z.out) =~= (b.out + e1.out) + z.out);
            }
        }
    } else {
        assert(b.out + Seq::<Op>::empty() =~= b.out);
    }
}

/// The machine after the pending pointer move or addition of the optimizer.
pub open spec fn pend(b: OptBuf, m: Machine) -> Option<Machine> {
    if b.shift != 0 {
        shifted(m, b.shift)
    } else {
        Some(set_cell(m, m.ptr, wadd(m.cells[m.ptr], b.add)))
    }
}

proof fn lemma_run_single(ops: Seq<Op>, m: Machine, t: Option<nat>, fuel: nat)
    requires ops.len() == 1,
    ensures run_seq(ops, m, t, fuel) == run_one(ops[0], m, t, fuel),
{
    assert(ops.drop_first().len() == 0);
    let (m1, e) = run_one(ops[0], m, t, fuel);
    assert(run_seq(ops.drop_first(), m1, t, fuel) == (m1, None::<RunErr>));
}

/// Writing out what is pending does what `pend` says.
proof fn lemma_flush_run(b: OptBuf, m: Machine, t: Option<nat>, fuel: nat)
    requires
        b.out.len() == 0,
        b.shift == 0 || b.add == 0,
        machine_wf(m),
        pend(b, m) is Some,
    ensures
        run_seq(flush_all(b).out, m, t, fuel).1 is None,
        same_state(run_seq(flush_all(b).out, m, t, fuel).0, pend(b, m).unwrap()),
        machine_wf(run_seq(flush_all(b).out, m, t, fuel).0),
        machine_wf(pend(b, m).unwrap()),
{
    let o = flush_all(b).out;
    lemma_grow(m.cells, m.ptr + b.shift);
    if b.shift != 0 {
        assert(o.len() == 1);
        lemma_run_single(o, m, t, fuel);
        if b.shift == 1 {
            assert(o[0] == Op::Right);
        } else if b.shift == -1 {
            assert(o[0] == Op::Left);
            assert(grow(m.cells, m.ptr - 1) == m.cells);
        } else {
            assert(o[0] == Op::Shift(b.shift));
        }
    } else {
        lemma_set_cell(m, m.ptr, wadd(m.cells[m.ptr], b.add));
        if b.add != 0 {
            assert(o.len() == 1);
            lemma_run_single(o, m, t, fuel);
        } else {
            assert(o.len() == 0);
        }
    }
}

}
verus! {

#[verifier::spinoff_prover]
proof fn lemma_wadd(a: u8, b: u8, c: u8)
    ensures
        wadd(wadd(a, b), c) == wadd(a, wadd(b, c)),
        wadd(a, 0) == a,
        wadd(0, a) == a,
        a >= 1 ==> wadd(a, 255) == a - 1,
        a >= 1 ==> wadd(wadd(b, 1), (a - 1) as u8) == wadd(b, a),
{
    let ia = a as int;
    let ib = b as int;
    let ic = c as int;
    assert(((ia + ib) % 256 + ic) % 256 == (ia + (ib + ic) % 256) % 256) by (nonlinear_arith)
        requires 0 <= ia < 256, 0 <= ib < 256, 0 <= ic < 256;
    if a >= 1 {
        assert(((ib + 1) % 256 + (ia - 1)) % 256 == (ib + ia) % 256) by (nonlinear_arith)
            requires 1 <= ia < 256, 0 <= ib < 256;
    }
}

/// The addition at offset `k` of the list, zero where there is none.
pub open spec fn lk(l: Seq<(int, u8)>, k: int) -> u8 {
    match sa_lookup(l, k) {
        Some(v) => v,
        None => 0,
    }
}

proof fn lemma_sa_lookup_add(l: Seq<(int, u8)>, k: int, x: u8, j: int)
    ensures sa_lookup(sa_add(l, k, x), j) == (if j == k { Some(wadd(lk(l, k), x)) } else { sa_lookup(l, j) }),
    decreases l.len(),
{
    if l.len() == 0 {
        lemma_wadd(x, 0, 0);
        let one = seq![(k, x)];
        assert(one.drop_first() =~= Seq::<(int, u8)>::empty());
        assert(sa_lookup(one.drop_first(), j) is None);
        assert(sa_lookup(l, k) is None);
    } else if l[0].0 == k {
        let u = l.update(0, (k, wadd(l[0].1, x)));
        assert(u.drop_first() =~= l.drop_first());
        assert(sa_lookup(l, k) == Some(l[0].1));
    } else {
        lemma_sa_lookup_add(l.drop_first(), k, x, j);
        assert((seq![l[0]] + sa_add(l.drop_first(), k, x)).drop_first() =~= sa_add(l.drop_first(), k, x));
    }
}

/// No offset occurs twice in the list.
pub open spec fn sa_distinct(l: Seq<(int, u8)>) -> bool {
    forall|i: int, j: int| 0 <= i < j < l.len() ==> l[i].0 != l[j].0
}

proof fn lemma_sa_add_keeps(l: Seq<(int, u8)>, k: int, x: u8)
    requires sa_distinct(l),
    ensures
        sa_distinct(sa_add(l, k, x)),
        forall|i: int| 0 <= i < sa_add(l, k, x).len() ==> (#[trigger] sa_add(l, k, x)[i]).0 == k
            || exists|j: int| 0 <= j < l.len() && l[j].0 == sa_add(l, k, x)[i].0,
    decreases l.len(),
{
    if l.len() == 0 {
    } else if l[0].0 == k {
    } else {
        let r = sa_add(l.drop_first(), k, x);
        lemma_sa_add_keeps(l.drop_first(), k, x);
        let n = seq![l[0]] + r;
        assert forall|i: int| 0 <= i < n.len() implies (#[trigger] n[i]).0 == k
            || exists|j: int| 0 <= j < l.len() && l[j].0 == n[i].0 by {
            if i == 0 {
                assert(l[0].0 == n[i].0);
            } else {
                assert(n[i] == r[i - 1]);
                if r[i - 1].0 != k {
                    let j0 = choose|j: int| 0 <= j < l.drop_first().len() && l.drop_first()[j].0 == r[i - 1].0;
                    assert(l[j0 + 1].0 == n[i].0);
                }
            }
        }
        assert forall|i: int, j: int| 0 <= i < j < n.len() implies n[i].0 != n[j].0 by {
            if i == 0 {
                assert(n[j] == r[j - 1]);
                if r[j - 1].0 != k {
                    let j0 = choose|q: int| 0 <= q < l.drop_first().len() && l.drop_first()[q].0 == r[j - 1].0;
                    assert(l[j0 + 1].0 == r[j - 1].0);
                }
            }
        }
    }
}

}
verus! {

/// `x` is `x0` after pointer moves adding up to `s` and the additions `l` at
/// offsets from the pointer of `x0`.
pub open spec fn sa_rel(x0: Machine, l: Seq<(int, u8)>, s: int, x: Machine) -> bool {
    &&& x.ptr == x0.ptr + s
    &&& x.input == x0.input
    &&& x.in_pos == x0.in_pos
    &&& x.output == x0.output
    &&& x.messages == x0.messages
    &&& forall|j: int| #[trigger] cell_at(x.cells, j) == wadd(cell_at(x0.cells, j), lk(l, j - x0.ptr))
}

/// Running a body of pointer moves and additions does what its summary says.
proof fn lemma_sa_run(ops: Seq<Op>, l: Seq<(int, u8)>, s: int, x0: Machine, x: Machine, t: Option<nat>, fuel: nat)
    requires
        sa_fold(ops, SaFold::Acc(l, s)) is Acc,
        sa_rel(x0, l, s, x),
        machine_wf(x),
        run_seq(ops, x, t, fuel).1 is None,
        forall|k: int| (#[trigger] sa_lookup(l, k)) is Some ==> 0 <= x0.ptr + k < x.cells.len(),
    ensures
        sa_rel(x0, sa_fold(ops, SaFold::Acc(l, s))->0, sa_fold(ops, SaFold::Acc(l, s))->1, run_seq(ops, x, t, fuel).0),
        machine_wf(run_seq(ops, x, t, fuel).0),
        forall|k: int| (#[trigger] sa_lookup(sa_fold(ops, SaFold::Acc(l, s))->0, k)) is Some
            ==> 0 <= x0.ptr + k < run_seq(ops, x, t, fuel).0.cells.len(),
    decreases ops.len(),
{
    if ops.len() > 0 {
        let op = ops[0];
        let st1 = sa_step(op, SaFold::Acc(l, s));
        if !(st1 is Acc) {
            crate::semantics::lemma_sa_fold_stuck(ops.drop_first(), st1);
        }
        let (x1, e) = run_one(op, x, t, fuel);
        assert(e is None);
        lemma_step_same(op, x, x, t);
        lemma_run_one_grows(op, x, t, fuel);
        let l1 = st1->0;
        let s1 = st1->1;
        match op {
            Op::Left => {},
            Op::Right => {
                lemma_grow(x.cells, x.ptr + 1);
            },
            Op::Shift(v) => {
                lemma_grow(x.cells, x.ptr + v);
            },
            Op::Inc | Op::Dec | Op::Add(_) => {
                let v: u8 = match op { Op::Inc => 1u8, Op::Dec => 255u8, Op::Add(a) => a, _ => 0u8 };
                assert(l1 == sa_add(l, s, v));
                lemma_set_cell(x, x.ptr, wadd(x.cells[x.ptr], v));
                assert forall|k: int| (#[trigger] sa_lookup(l1, k)) is Some implies 0 <= x0.ptr + k < x1.cells.len() by {
                    lemma_sa_lookup_add(l, s, v, k);
                }
                assert forall|j: int| #[trigger] cell_at(x1.cells, j) == wadd(cell_at(x0.cells, j), lk(l1, j - x0.ptr)) by {
                    lemma_sa_lookup_add(l, s, v, j - x0.ptr);
                    assert(cell_at(x.cells, j) == wadd(cell_at(x0.cells, j), lk(l, j - x0.ptr)));
                    lemma_wadd(cell_at(x0.cells, j), lk(l, j - x0.ptr), v);
                }
            },
            _ => {},
        }
        lemma_sa_run(ops.drop_first(), l1, s1, x0, x1, t, fuel);
    }
}

/// The summaries the optimizer builds never hold an offset twice.
proof fn lemma_sa_fold_distinct(ops: Seq<Op>, l: Seq<(int, u8)>, s: int)
    requires sa_distinct(l),
    ensures sa_fold(ops, SaFold::Acc(l, s)) is Acc ==> sa_distinct(sa_fold(ops, SaFold::Acc(l, s))->0),
    decreases ops.len(),
{
    if ops.len() > 0 {
        let st1 = sa_step(ops[0], SaFold::Acc(l, s));
        if st1 is Acc {
            match ops[0] {
                Op::Inc => lemma_sa_add_keeps(l, s, 1),
                Op::Dec => lemma_sa_add_keeps(l, s, 255),
                Op::Add(v) => lemma_sa_add_keeps(l, s, v),
                _ => {},
            }
            lemma_sa_fold_distinct(ops.drop_first(), st1->0, st1->1);
        } else {
            crate::semantics::lemma_sa_fold_stuck(ops.drop_first(), st1);
        }
    }
}

/// A summary of a loop body that counts its cell down by one and adds one at
/// every other offset it touches.
pub open spec fn unit_body(l: Seq<(int, u8)>) -> bool {
    &&& sa_lookup(l, 0) == Some(255u8)
    &&& forall|k: int| k != 0 && (#[trigger] sa_lookup(l, k)) is Some ==> sa_lookup(l, k) == Some(1u8)
}

/// A loop whose body has such a summary, and no net pointer move, clears its
/// cell and adds the cell's value at the other offsets.
proof fn lemma_unit_loop(body: Seq<Op>, l: Seq<(int, u8)>, x: Machine, t: Option<nat>, fuel: nat)
    requires
        sa_fold(body, SaFold::Acc(Seq::empty(), 0)) == SaFold::Acc(l, 0),
        unit_body(l),
        machine_wf(x),
        run_loop(body, x, t, fuel).1 is None,
    ensures
        ({
            let y = run_loop(body, x, t, fuel).0;
            &&& machine_wf(y)
            &&& y.ptr == x.ptr && y.input == x.input && y.in_pos == x.in_pos && y.output == x.output && y.messages == x.messages
            &&& forall|j: int| #[trigger] cell_at(y.cells, j) == (if j == x.ptr {
                0u8
            } else if sa_lookup(l, j - x.ptr) is Some {
                wadd(cell_at(x.cells, j), x.cells[x.ptr])
            } else {
                cell_at(x.cells, j)
            })
            &&& x.cells[x.ptr] != 0 ==> forall|k: int| (#[trigger] sa_lookup(l, k)) is Some ==> 0 <= x.ptr + k < y.cells.len()
        }),
    decreases fuel,
{
    let c = x.cells[x.ptr];
    if c == 0 {
        assert forall|j: int| #[trigger] cell_at(x.cells, j) == (if j == x.ptr {
            0u8
        } else if sa_lookup(l, j - x.ptr) is Some {
            wadd(cell_at(x.cells, j), c)
        } else {
            cell_at(x.cells, j)
        }) by {
            lemma_wadd(cell_at(x.cells, j), 0, 0);
        }
    } else {
        let f1 = (fuel - 1) as nat;
        let (x1, e) = run_seq(body, x, t, f1);
        assert(e is None);
        assert forall|j: int| #[trigger] cell_at(x.cells, j) == wadd(cell_at(x.cells, j), lk(Seq::empty(), j - x.ptr)) by {
            lemma_wadd(cell_at(x.cells, j), 0, 0);
        }
        lemma_sa_run(body, Seq::empty(), 0, x, x, t, f1);
        assert(sa_rel(x, l, 0, x1));
        lemma_run_loop_grows(body, x1, t, f1);
        assert(cell_at(x1.cells, x.ptr) == wadd(c, 255));
        lemma_wadd(c, 255, 0);
        lemma_unit_loop(body, l, x1, t, f1);
        let y = run_loop(body, x1, t, f1).0;
        assert(x1.cells[x1.ptr] == c - 1);
        assert forall|j: int| #[trigger] cell_at(y.cells, j) == (if j == x.ptr {
            0u8
        } else if sa_lookup(l, j - x.ptr) is Some {
            wadd(cell_at(x.cells, j), c)
        } else {
            cell_at(x.cells, j)
        }) by {
            assert(cell_at(x1.cells, j) == wadd(cell_at(x.cells, j), lk(l, j - x.ptr)));
            lemma_wadd(cell_at(x.cells, j), 0, 0);
            if j != x.ptr && sa_lookup(l, j - x.ptr) is Some {
                assert(sa_lookup(l, j - x.ptr) == Some(1u8));
                lemma_wadd(c, cell_at(x.cells, j), 0);
            }
        }
    }
}

}
verus! {

proof fn lemma_same_refl(a: Machine)
    ensures same_state(a, a),
{
}

proof fn lemma_same_sym(a: Machine, b: Machine)
    requires same_state(a, b),
    ensures same_state(b, a),
{
}

proof fn lemma_same_trans(a: Machine, b: Machine, c: Machine)
    requires same_state(a, b), same_state(b, c),
    ensures same_state(a, c),
{
    assert forall|i: int| #[trigger] cell_at(a.cells, i) == cell_at(c.cells, i) by {
        assert(cell_at(a.cells, i) == cell_at(b.cells, i));
        assert(cell_at(b.cells, i) == cell_at(c.cells, i));
    }
}

/// Writing a cell with the value it holds.
proof fn lemma_set_same(m: Machine)
    requires machine_wf(m),
    ensures same_state(set_cell(m, m.ptr, wadd(m.cells[m.ptr], 0)), m), machine_wf(set_cell(m, m.ptr, wadd(m.cells[m.ptr], 0))),
{
    lemma_wadd(m.cells[m.ptr], 0, 0);
    lemma_set_cell(m, m.ptr, m.cells[m.ptr]);
}

/// Two pointer moves in a row are one move by their sum.
proof fn lemma_shift_compose(m: Machine, a: int, d: int)
    requires
        machine_wf(m),
        shifted(m, a) is Some,
        shifted(m, a + d) is Some,
    ensures
        shifted(shifted(m, a).unwrap(), d) is Some,
        same_state(shifted(shifted(m, a).unwrap(), d).unwrap(), shifted(m, a + d).unwrap()),
        machine_wf(shifted(m, a + d).unwrap()),
{
    let m1 = shifted(m, a).unwrap();
    lemma_grow(m.cells, m.ptr + a);
    lemma_grow(m1.cells, m1.ptr + d);
    lemma_grow(m.cells, m.ptr + a + d);
}

/// A single step right or left is a pointer move by one, while the pointer stays in range.
proof fn lemma_step_is_shift(op: Op, m: Machine, t: Option<nat>)
    requires
        machine_wf(m),
        op is Left || op is Right,
        step(op, m, t).1 is None,
        m.ptr + 1 < usize::MAX,
    ensures
        shifted(m, if op is Left { -1 } else { 1 }) is Some,
        same_state(step(op, m, t).0, shifted(m, if op is Left { -1 } else { 1 }).unwrap()),
{
    lemma_grow(m.cells, m.ptr + 1);
    lemma_grow(m.cells, m.ptr - 1);
    if op is Left {
        assert(grow(m.cells, m.ptr - 1) == m.cells);
    }
}

}
verus! {

/// The summary that becomes `Clr`.
proof fn lemma_clr_shape(l: Seq<(int, u8)>)
    requires l.len() == 1, sa_lookup(l, 0) == Some(255u8),
    ensures
        unit_body(l),
        forall|j: int| #[trigger] sa_lookup(l, j) is Some <==> j == 0,
{
    reveal_with_fuel(sa_lookup, 3);
    assert(l.drop_first().len() == 0);
}

/// The summary that becomes `MoveAdd(k)`.
proof fn lemma_moveadd_shape(l: Seq<(int, u8)>)
    requires
        l.len() == 2,
        sa_distinct(l),
        sa_lookup(l, 0) == Some(255u8),
        unit_moves(l).len() == 1,
    ensures
        unit_body(l),
        unit_moves(l)[0] != 0,
        forall|j: int| #[trigger] sa_lookup(l, j) is Some <==> (j == 0 || j == unit_moves(l)[0]),
{
    reveal_with_fuel(sa_lookup, 3);
    reveal_with_fuel(unit_moves, 3);
    assert(l.drop_first().drop_first().len() == 0);
    assert(l.drop_first()[0] == l[1]);
}

/// The summary that becomes `MoveAdd2(k1, k2)`.
proof fn lemma_moveadd2_shape(l: Seq<(int, u8)>)
    requires
        l.len() == 3,
        sa_distinct(l),
        sa_lookup(l, 0) == Some(255u8),
        unit_moves(l).len() == 2,
    ensures
        unit_body(l),
        unit_moves(l)[0] != 0,
        unit_moves(l)[1] != 0,
        unit_moves(l)[0] != unit_moves(l)[1],
        forall|j: int| #[trigger] sa_lookup(l, j) is Some <==> (j == 0 || j == unit_moves(l)[0] || j == unit_moves(l)[1]),
{
    reveal_with_fuel(sa_lookup, 4);
    reveal_with_fuel(unit_moves, 4);
    assert(l.drop_first().drop_first().drop_first().len() == 0);
    assert(l.drop_first()[0] == l[1]);
    assert(l.drop_first()[1] == l[2]);
    assert(l.drop_first().drop_first()[0] == l[2]);
    assert(l[0].0 != l[1].0 && l[0].0 != l[2].0 && l[1].0 != l[2].0);
}

/// `MoveAdd(k)` adds the cell at `k` from the pointer and clears the cell.
proof fn lemma_moveadd_step(m: Machine, k: int, t: Option<nat>)
    requires machine_wf(m), k != 0,
    ensures
        step(Op::MoveAdd(k), m, t).1 is Some ==> step(Op::MoveAdd(k), m, t).1 == Some(RunErr::PtrOutOfBounds),
        step(Op::MoveAdd(k), m, t).1 is None ==> ({
            let y = step(Op::MoveAdd(k), m, t).0;
            &&& machine_wf(y)
            &&& y.ptr == m.ptr && y.input == m.input && y.in_pos == m.in_pos && y.output == m.output && y.messages == m.messages
            &&& forall|j: int| #[trigger] cell_at(y.cells, j) == (if j == m.ptr {
                0u8
            } else if j == m.ptr + k {
                wadd(cell_at(m.cells, j), m.cells[m.ptr])
            } else {
                cell_at(m.cells, j)
            })
        }),
{
    lemma_grow(m.cells, m.ptr + k);
    if let Some(m1) = add_current_to(m, k) {
        let s1 = shifted(m, k).unwrap();
        let base = Machine { ptr: m.ptr, ..s1 };
        lemma_set_cell(base, s1.ptr, wadd(s1.cells[s1.ptr], s1.cells[m.ptr]));
        lemma_set_cell(m1, m.ptr, 0);
        assert(s1.cells[m.ptr] == m.cells[m.ptr]);
    }
}

/// `MoveAdd2(k1, k2)` adds the cell at `k1` and at `k2` from the pointer and clears the cell.
proof fn lemma_moveadd2_step(m: Machine, k1: int, k2: int, t: Option<nat>)
    requires machine_wf(m), k1 != 0, k2 != 0, k1 != k2,
    ensures
        step(Op::MoveAdd2(k1, k2), m, t).1 is Some ==> step(Op::MoveAdd2(k1, k2), m, t).1 == Some(RunErr::PtrOutOfBounds),
        step(Op::MoveAdd2(k1, k2), m, t).1 is None ==> ({
            let y = step(Op::MoveAdd2(k1, k2), m, t).0;
            &&& machine_wf(y)
            &&& y.ptr == m.ptr && y.input == m.input && y.in_pos == m.in_pos && y.output == m.output && y.messages == m.messages
            &&& forall|j: int| #[trigger] cell_at(y.cells, j) == (if j == m.ptr {
                0u8
            } else if j == m.ptr + k1 || j == m.ptr + k2 {
                wadd(cell_at(m.cells, j), m.cells[m.ptr])
            } else {
                cell_at(m.cells, j)
            })
        }),
{
    lemma_grow(m.cells, m.ptr + k1);
    if let Some(m1) = add_current_to(m, k1) {
        let s1 = shifted(m, k1).unwrap();
        let base1 = Machine { ptr: m.ptr, ..s1 };
        lemma_set_cell(base1, s1.ptr, wadd(s1.cells[s1.ptr], s1.cells[m.ptr]));
        assert(s1.cells[m.ptr] == m.cells[m.ptr]);
        assert(m1.cells[m1.ptr] == m.cells[m.ptr]);
        lemma_grow(m1.cells, m1.ptr + k2);
        if let Some(m2) = add_current_to(m1, k2) {
            let s2 = shifted(m1, k2).unwrap();
            let base2 = Machine { ptr: m1.ptr, ..s2 };
            lemma_set_cell(base2, s2.ptr, wadd(s2.cells[s2.ptr], s2.cells[m1.ptr]));
            assert(s2.cells[m1.ptr] == m.cells[m.ptr]);
            lemma_set_cell(m2, m.ptr, 0);
        }
    }
}

}
verus! {

/// The pending move after one more pointer move by `d`, from `mb`.
proof fn lemma_fold_move(op: Op, d: int, b: OptBuf, mb: Machine, mo: Machine, t: Option<nat>, fuel: nat)
    requires
        op is Left || op is Right || op is Shift,
        d == (match op { Op::Left => -1int, Op::Right => 1int, Op::Shift(v) => v, _ => 0int }),
        opt_step(op, b) is Some,
        b.out.len() == 0,
        b.shift == 0 || b.add == 0,
        machine_wf(mb),
        machine_wf(mo),
        pend(b, mb) is Some,
        same_state(pend(b, mb).unwrap(), mo),
        step(op, mo, t).1 is None,
        step(op, mo, t).0.cells.len() < usize::MAX,
    ensures
        ({
            let b1 = opt_step(op, b).unwrap();
            let r = run_seq(b1.out, mb, t, fuel);
            &&& r.1 is None
            &&& machine_wf(r.0)
            &&& b1.shift == 0 || b1.add == 0
            &&& pend(with_out(b1, Seq::empty()), r.0) is Some
            &&& same_state(pend(with_out(b1, Seq::empty()), r.0).unwrap(), step(op, mo, t).0)
        }),
{
    let b1 = opt_step(op, b).unwrap();
    let e = Seq::<Op>::empty();
    let so = step(op, mo, t).0;
    lemma_step_same(op, mo, mo, t);
    lemma_grow(mo.cells, mo.ptr + d);
    // the step is a move by `d`
    if op is Shift {
        assert(so == shifted(mo, d).unwrap());
    } else {
        lemma_step_is_shift(op, mo, t);
    }
    assert(shifted(mo, d) is Some);
    if b.add != 0 {
        assert(flush_shift(b) == b);
        assert(flush_add(b).out == flush_all(b).out);
        lemma_flush_run(b, mb, t, fuel);
        let mb1 = run_seq(b1.out, mb, t, fuel).0;
        lemma_same_trans(mb1, pend(b, mb).unwrap(), mo);
        lemma_shifted_same(mb1, mo, d);
        lemma_same_trans(shifted(mb1, d).unwrap(), shifted(mo, d).unwrap(), so);
        if d == 0 {
            lemma_grow(mb1.cells, mb1.ptr);
            assert(grow(mb1.cells, mb1.ptr) == mb1.cells);
            assert(shifted(mb1, d).unwrap() == mb1);
            lemma_set_same(mb1);
            lemma_same_trans(pend(with_out(b1, e), mb1).unwrap(), mb1, so);
        } else {
            assert(pend(with_out(b1, e), mb1) == shifted(mb1, d));
        }
    } else {
        assert(flush_add(b) == b);
        assert(b1.out == e);
        assert(run_seq(e, mb, t, fuel) == (mb, None::<RunErr>));
        let a = b.shift;
        let ma = pend(b, mb).unwrap();
        lemma_shifted_same(ma, mo, d);
        lemma_same_trans(shifted(ma, d).unwrap(), shifted(mo, d).unwrap(), so);
        // shifted(ma, d) is mb moved by a + d
        lemma_grow(mb.cells, mb.ptr + a + d);
        if a != 0 {
            lemma_shift_compose(mb, a, d);
        } else {
            lemma_set_same(mb);
            lemma_same_sym(ma, mb);
            lemma_shifted_same(mb, ma, d);
            assert(a + d == d);
        }
        // now shifted(mb, a + d) stands for the pending move
        let mad = shifted(mb, a + d).unwrap();
        assert(same_state(shifted(ma, d).unwrap(), mad) || same_state(shifted(mb, d).unwrap(), shifted(ma, d).unwrap()));
        if a != 0 {
            lemma_same_sym(shifted(ma, d).unwrap(), mad);
            lemma_same_trans(mad, shifted(ma, d).unwrap(), so);
        } else {
            lemma_same_sym(shifted(mb, d).unwrap(), shifted(ma, d).unwrap());
            lemma_same_trans(shifted(ma, d).unwrap(), shifted(mb, d).unwrap(), shifted(mb, d).unwrap());
            lemma_same_trans(mad, shifted(ma, d).unwrap(), so);
        }
        if a + d == 0 {
            assert(grow(mb.cells, mb.ptr) == mb.cells);
            assert(mad == mb);
            lemma_set_same(mb);
            lemma_same_trans(pend(with_out(b1, e), mb).unwrap(), mb, so);
        } else {
            assert(pend(with_out(b1, e), mb) == shifted(mb, a + d));
        }
    }
}

}
verus! {

/// The pending addition after one more addition of `v`.
proof fn lemma_fold_add(op: Op, v: u8, b: OptBuf, mb: Machine, mo: Machine, t: Option<nat>, fuel: nat)
    requires
        op is Inc || op is Dec || op is Add,
        v == (match op { Op::Inc => 1u8, Op::Dec => 255u8, Op::Add(a) => a, _ => 0u8 }),
        opt_step(op, b) is Some,
        b.out.len() == 0,
        b.shift == 0 || b.add == 0,
        machine_wf(mb),
        machine_wf(mo),
        pend(b, mb) is Some,
        same_state(pend(b, mb).unwrap(), mo),
    ensures
        ({
            let b1 = opt_step(op, b).unwrap();
            let r = run_seq(b1.out, mb, t, fuel);
            &&& r.1 is None
            &&& machine_wf(r.0)
            &&& b1.shift == 0 || b1.add == 0
            &&& pend(with_out(b1, Seq::empty()), r.0) is Some
            &&& same_state(pend(with_out(b1, Seq::empty()), r.0).unwrap(), step(op, mo, t).0)
        }),
{
    let b1 = opt_step(op, b).unwrap();
    let e = Seq::<Op>::empty();
    let so = step(op, mo, t).0;
    assert(so == step(Op::Add(v), mo, t).0);
    if b.shift != 0 {
        assert(flush_add(flush_shift(b)) == flush_shift(b));
        lemma_flush_run(b, mb, t, fuel);
        let mb1 = run_seq(b1.out, mb, t, fuel).0;
        lemma_same_trans(mb1, pend(b, mb).unwrap(), mo);
        lemma_step_same(Op::Add(v), mb1, mo, t);
        assert(pend(with_out(b1, e), mb1).unwrap() == step(Op::Add(v), mb1, t).0);
    } else {
        assert(flush_shift(b) == b);
        assert(b1.out == e);
        assert(run_seq(e, mb, t, fuel) == (mb, None::<RunErr>));
        let c = mb.cells[mb.ptr];
        let p = pend(with_out(b1, e), mb).unwrap();
        lemma_set_cell(mb, mb.ptr, wadd(c, b.add));
        lemma_set_cell(mb, mb.ptr, wadd(c, wadd(b.add, v)));
        let pb = pend(b, mb).unwrap();
        assert(pb == set_cell(mb, mb.ptr, wadd(c, b.add)));
        assert(cell_at(pb.cells, mb.ptr) == wadd(c, b.add));
        assert(mo.ptr == mb.ptr);
        assert(cell_at(mo.cells, mo.ptr) == cell_at(pb.cells, mo.ptr));
        assert(cell_at(mo.cells, mo.ptr) == wadd(c, b.add));
        lemma_set_cell(mo, mo.ptr, wadd(mo.cells[mo.ptr], v));
        lemma_wadd(c, b.add, v);
        assert forall|i: int| #[trigger] cell_at(p.cells, i) == cell_at(so.cells, i) by {
            assert(cell_at(mo.cells, i) == cell_at(pend(b, mb).unwrap().cells, i));
        }
    }
}

/// The other operations that are not loops: written out after what is pending.
proof fn lemma_fold_other(op: Op, b: OptBuf, mb: Machine, mo: Machine, t: Option<nat>, fuel: nat)
    requires
        !(op is Loop || op is Left || op is Right || op is Shift || op is Inc || op is Dec || op is Add),
        opt_step(op, b) is Some,
        b.out.len() == 0,
        b.shift == 0 || b.add == 0,
        machine_wf(mb),
        machine_wf(mo),
        pend(b, mb) is Some,
        same_state(pend(b, mb).unwrap(), mo),
        step(op, mo, t).1 is None,
    ensures
        ({
            let b1 = opt_step(op, b).unwrap();
            let r = run_seq(b1.out, mb, t, fuel);
            &&& r.1 is None
            &&& machine_wf(r.0)
            &&& b1.shift == 0 || b1.add == 0
            &&& pend(with_out(b1, Seq::empty()), r.0) is Some
            &&& same_state(pend(with_out(b1, Seq::empty()), r.0).unwrap(), step(op, mo, t).0)
        }),
{
    let b1 = opt_step(op, b).unwrap();
    let f = flush_all(b).out;
    assert(b1.out == f.push(op));
    assert(f.push(op) =~= f + seq![op]);
    lemma_flush_run(b, mb, t, fuel);
    lemma_run_append(f, seq![op], mb, t, fuel);
    let mf = run_seq(f, mb, t, fuel).0;
    lemma_run_single(seq![op], mf, t, fuel);
    lemma_same_trans(mf, pend(b, mb).unwrap(), mo);
    lemma_step_same(op, mf, mo, t);
    let m2 = step(op, mf, t).0;
    lemma_set_same(m2);
    lemma_same_trans(pend(with_out(b1, Seq::empty()), m2).unwrap(), m2, step(op, mo, t).0);
}

}
verus! {

/// A run of the optimized program matches an original run that ended in
/// `orig`: it ends in the same state, or it stops with the pointer on a zero
/// cell because a move loop that the original skipped there (its cell was
/// zero) names a cell off the tape.
pub open spec fn matches_run(r: (Machine, Option<RunErr>), orig: Machine) -> bool {
    match r.1 {
        Some(e) => e == RunErr::PtrOutOfBounds && cell_at(r.0.cells, r.0.ptr) == 0,
        None => same_state(r.0, orig) && machine_wf(r.0),
    }
}

proof fn lemma_fold(ops: Seq<Op>, b: OptBuf, mb: Machine, mo: Machine, t: Option<nat>, fuel: nat)
    requires
        opt_fold(ops, b) is Some,
        b.out.len() == 0,
        b.shift == 0 || b.add == 0,
        machine_wf(mb),
        machine_wf(mo),
        pend(b, mb) is Some,
        same_state(pend(b, mb).unwrap(), mo),
        run_seq(ops, mo, t, fuel).1 is None,
        run_seq(ops, mo, t, fuel).0.cells.len() < usize::MAX,
    ensures
        matches_run(run_seq(flush_all(opt_fold(ops, b).unwrap()).out, mb, t, fuel), run_seq(ops, mo, t, fuel).0),
    decreases ops, 0nat, 0nat,
{
    let e = Seq::<Op>::empty();
    if ops.len() == 0 {
        lemma_flush_run(b, mb, t, fuel);
        lemma_same_trans(run_seq(flush_all(b).out, mb, t, fuel).0, pend(b, mb).unwrap(), mo);
    } else {
        let op = ops[0];
        let rest = ops.drop_first();
        let b1 = opt_step(op, b).unwrap();
        let b1e = with_out(b1, e);
        let (mo1, eo) = run_one(op, mo, t, fuel);
        assert(eo is None);
        lemma_run_one_same(op, mo, mo, t, fuel);
        lemma_run_seq_grows(rest, mo1, t, fuel);
        // what is written is what this step writes, then what the rest writes
        lemma_fold_out(rest, b1);
        let r = opt_fold(rest, b1e).unwrap();
        let x = opt_fold(rest, b1).unwrap();
        lemma_flush_all_out(x);
        lemma_flush_all_out(r);
        assert(with_out(x, e) == with_out(r, e));
        let o2 = flush_all(r).out;
        let o = flush_all(x).out;
        assert(o =~= b1.out + o2);
        lemma_run_append(b1.out, o2, mb, t, fuel);
        match op {
            Op::Loop(body) => {
                let f = flush_all(b).out;
                let ol = loop_opt(body).unwrap();
                assert(b1.out == f.push(ol));
                assert(f.push(ol) =~= f + seq![ol]);
                lemma_flush_run(b, mb, t, fuel);
                let mf = run_seq(f, mb, t, fuel).0;
                lemma_run_append(f, seq![ol], mb, t, fuel);
                lemma_run_single(seq![ol], mf, t, fuel);
                lemma_same_trans(mf, pend(b, mb).unwrap(), mo);
                lemma_same_sym(mf, mo);
                lemma_loop_opt(body, mo, mf, t, fuel);
                let (mb1, eb) = run_one(ol, mf, t, fuel);
                if eb is None {
                    lemma_set_same(mb1);
                    lemma_same_trans(pend(b1e, mb1).unwrap(), mb1, mo1);
                    lemma_fold(rest, b1e, mb1, mo1, t, fuel);
                }
            },
            Op::Left | Op::Right | Op::Shift(_) => {
                let d: int = match op { Op::Left => -1int, Op::Right => 1int, Op::Shift(v) => v, _ => 0int };
                lemma_fold_move(op, d, b, mb, mo, t, fuel);
                let mb1 = run_seq(b1.out, mb, t, fuel).0;
                lemma_fold(rest, b1e, mb1, mo1, t, fuel);
            },
            Op::Inc | Op::Dec | Op::Add(_) => {
                let v: u8 = match op { Op::Inc => 1u8, Op::Dec => 255u8, Op::Add(a) => a, _ => 0u8 };
                lemma_fold_add(op, v, b, mb, mo, t, fuel);
                let mb1 = run_seq(b1.out, mb, t, fuel).0;
                lemma_fold(rest, b1e, mb1, mo1, t, fuel);
            },
            _ => {
                lemma_fold_other(op, b, mb, mo, t, fuel);
                let mb1 = run_seq(b1.out, mb, t, fuel).0;
                lemma_fold(rest, b1e, mb1, mo1, t, fuel);
            },
        }
    }
}

proof fn lemma_optimize_seq(ops: Seq<Op>, mo: Machine, mb: Machine, t: Option<nat>, fuel: nat)
    requires
        optimize(ops) is Some,
        same_state(mo, mb),
        machine_wf(mo),
        machine_wf(mb),
        run_seq(ops, mo, t, fuel).1 is None,
        run_seq(ops, mo, t, fuel).0.cells.len() < usize::MAX,
    ensures matches_run(run_seq(optimize(ops).unwrap(), mb, t, fuel), run_seq(ops, mo, t, fuel).0),
    decreases ops, 1nat, 0nat,
{
    let b0 = OptBuf { shift: 0, add: 0, out: Seq::empty() };
    lemma_set_same(mb);
    lemma_same_sym(mo, mb);
    lemma_same_trans(pend(b0, mb).unwrap(), mb, mo);
    lemma_fold(ops, b0, mb, mo, t, fuel);
}

proof fn lemma_loop_fallback(body: Seq<Op>, ob: Seq<Op>, mo: Machine, mb: Machine, t: Option<nat>, fuel: nat)
    requires
        optimize(body) == Some(ob),
        same_state(mo, mb),
        machine_wf(mo),
        machine_wf(mb),
        run_loop(body, mo, t, fuel).1 is None,
        run_loop(body, mo, t, fuel).0.cells.len() < usize::MAX,
    ensures matches_run(run_loop(ob, mb, t, fuel), run_loop(body, mo, t, fuel).0),
    decreases body, 2nat, fuel,
{
    assert(cell_at(mo.cells, mo.ptr) == cell_at(mb.cells, mb.ptr));
    if mo.cells[mo.ptr] == 0 {
        lemma_same_sym(mo, mb);
    } else {
        let f1 = (fuel - 1) as nat;
        let (x, ex) = run_seq(body, mo, t, f1);
        assert(ex is None);
        lemma_run_seq_same(body, mo, mo, t, f1);
        lemma_run_loop_grows(body, x, t, f1);
        lemma_optimize_seq(body, mo, mb, t, f1);
        let (y, ey) = run_seq(ob, mb, t, f1);
        if ey is None {
            lemma_same_sym(y, x);
            lemma_loop_fallback(body, ob, x, y, t, f1);
        }
    }
}

proof fn lemma_loop_opt(body: Seq<Op>, mo: Machine, mb: Machine, t: Option<nat>, fuel: nat)
    requires
        loop_opt(body) is Some,
        same_state(mo, mb),
        machine_wf(mo),
        machine_wf(mb),
        run_loop(body, mo, t, fuel).1 is None,
        run_loop(body, mo, t, fuel).0.cells.len() < usize::MAX,
    ensures matches_run(run_one(loop_opt(body).unwrap(), mb, t, fuel), run_loop(body, mo, t, fuel).0),
    decreases body, 3nat, 0nat,
{
    let st = sa_fold(body, SaFold::Acc(Seq::empty(), 0));
    let o = loop_opt(body).unwrap();
    let y = run_loop(body, mo, t, fuel).0;
    assert(cell_at(mo.cells, mo.ptr) == cell_at(mb.cells, mb.ptr));
    let mut done = false;
    if let SaFold::Acc(l, s) = st {
        lemma_sa_fold_distinct(body, Seq::empty(), 0);
        if s == 0 && sa_lookup(l, 0) == Some(255u8) && l.len() == 1 {
            lemma_clr_shape(l);
            lemma_unit_loop(body, l, mo, t, fuel);
            lemma_set_cell(mb, mb.ptr, 0);
            assert forall|j: int| #[trigger] cell_at(step(Op::Clr, mb, t).0.cells, j) == cell_at(y.cells, j) by {
                assert(cell_at(mo.cells, j) == cell_at(mb.cells, j));
                assert(sa_lookup(l, j - mo.ptr) is Some <==> j - mo.ptr == 0);
            }
            done = true;
        } else if s == 0 && sa_lookup(l, 0) == Some(255u8) && l.len() == 2 && unit_moves(l).len() == 1 {
            lemma_moveadd_shape(l);
            lemma_unit_loop(body, l, mo, t, fuel);
            let k = unit_moves(l)[0];
            lemma_moveadd_step(mb, k, t);
            if cell_at(mb.cells, mb.ptr) != 0 {
                assert(sa_lookup(l, k) is Some);
                assert(0 <= mo.ptr + k < y.cells.len());
            }
            if step(Op::MoveAdd(k), mb, t).1 is None {
                let z = step(Op::MoveAdd(k), mb, t).0;
                assert forall|j: int| #[trigger] cell_at(z.cells, j) == cell_at(y.cells, j) by {
                    assert(cell_at(mo.cells, j) == cell_at(mb.cells, j));
                    assert(sa_lookup(l, j - mo.ptr) is Some <==> (j - mo.ptr == 0 || j - mo.ptr == k));
                }
            }
            done = true;
        } else if s == 0 && sa_lookup(l, 0) == Some(255u8) && l.len() == 3 && unit_moves(l).len() == 2 {
            lemma_moveadd2_shape(l);
            lemma_unit_loop(body, l, mo, t, fuel);
            let k1 = unit_moves(l)[0];
            let k2 = unit_moves(l)[1];
            lemma_moveadd2_step(mb, k1, k2, t);
            if cell_at(mb.cells, mb.ptr) != 0 {
                assert(sa_lookup(l, k1) is Some);
                assert(sa_lookup(l, k2) is Some);
                assert(0 <= mo.ptr + k1 < y.cells.len());
                assert(0 <= mo.ptr + k2 < y.cells.len());
            }
            if step(Op::MoveAdd2(k1, k2), mb, t).1 is None {
                let z = step(Op::MoveAdd2(k1, k2), mb, t).0;
                assert forall|j: int| #[trigger] cell_at(z.cells, j) == cell_at(y.cells, j) by {
                    assert(cell_at(mo.cells, j) == cell_at(mb.cells, j));
                    assert(sa_lookup(l, j - mo.ptr) is Some <==> (j - mo.ptr == 0 || j - mo.ptr == k1 || j - mo.ptr == k2));
                }
            }
            done = true;
        }
    }
    if !done {
        let ob = optimize(body).unwrap();
        assert(o == Op::Loop(ob));
        lemma_loop_fallback(body, ob, mo, mb, t, fuel);
    }
}

/// Optimizing a program keeps what it does: wherever the original program runs
/// to its end without error (and its tape stays below `usize::MAX` cells), the
/// optimized program, run with the same fuel from the same machine, ends in the
/// same state (its tape may have grown less), or stops with the pointer on a
/// zero cell, where a move loop that the original skipped names a cell left of
/// the tape (`[<+>-]` on a zero first cell). Where the pointer is on a nonzero
/// cell, a merged move loop always runs.
pub proof fn lemma_optimize_keeps_runs(ops: Seq<Op>, m: Machine, tracks: Option<nat>, fuel: nat)
    requires
        machine_wf(m),
        optimize(ops) is Some,
        run_seq(ops, m, tracks, fuel).1 is None,
        run_seq(ops, m, tracks, fuel).0.cells.len() < usize::MAX,
    ensures matches_run(run_seq(optimize(ops).unwrap(), m, tracks, fuel), run_seq(ops, m, tracks, fuel).0),
{
    lemma_same_refl(m);
    lemma_optimize_seq(ops, m, m, tracks, fuel);
}

}
