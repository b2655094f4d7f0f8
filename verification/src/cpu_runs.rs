//! What the code of the generator's basic operations does when it runs: the
//! pointer goes to the cell of the position the generator names, and the
//! cells change as the operations say. Positions map to tape cells frame by
//! frame, `fs` tracks to a frame, after the three frames that `Cpu::new` skips.

use crate::cpu::{delta, g_add_const, g_clr_at, g_goto, g_moveadd, g_op_at, g_set_byte, moves, CpuState, Pos};
use crate::opt_equiv::{cell_at, lemma_run_append};
use crate::semantics::{grow, machine_wf, run_loop, run_one, run_seq, step, wadd, Machine, Op};
use vstd::prelude::*;

verus! {

/// The tape cell of position `p`.
pub open spec fn pos_cell(fs: int, p: Pos) -> int {
    (p.frame + 3) * fs + p.track
}

/// The tape cell where the generator in state `s` has the pointer.
pub open spec fn cursor_cell(fs: int, s: CpuState) -> int {
    (s.frame.unwrap() + 3) * fs + s.track
}

/// The code appended from state `s` to state `s2`.
pub open spec fn appended(s: CpuState, s2: CpuState) -> Seq<Op> {
    s2.code.skip(s.code.len() as int)
}

/// The machines agree on everything but the tape and the pointer.
pub open spec fn same_io(a: Machine, b: Machine) -> bool {
    &&& a.input == b.input
    &&& a.in_pos == b.in_pos
    &&& a.output == b.output
    &&& a.messages == b.messages
}

proof fn lemma_grow_cells(cells: Seq<u8>, n: int)
    ensures
        grow(cells, n).len() >= cells.len(),
        n >= 0 ==> grow(cells, n).len() > n,
        forall|i: int| #[trigger] cell_at(grow(cells, n), i) == cell_at(cells, i),
{
}

proof fn lemma_delta(fs: int, s: CpuState, p: Pos)
    requires s.frame is Some,
    ensures delta(fs, s, p) == pos_cell(fs, p) - cursor_cell(fs, s),
{
    let sf = s.frame.unwrap();
    let pf = p.frame as int;
    assert((pf - sf) * fs == (pf + 3) * fs - (sf + 3) * fs) by (nonlinear_arith);
}

/// Running `n` pointer moves.
proof fn lemma_run_moves(n: int, m: Machine, t: Option<nat>, fuel: nat)
    requires
        machine_wf(m),
        m.ptr + n >= 0,
    ensures
        ({
            let (m2, e) = run_seq(moves(n), m, t, fuel);
            &&& e is None
            &&& machine_wf(m2)
            &&& m2.ptr == m.ptr + n
            &&& same_io(m, m2)
            &&& forall|i: int| #[trigger] cell_at(m2.cells, i) == cell_at(m.cells, i)
        }),
    decreases if n >= 0 { n } else { -n },
{
    if n == 0 {
        assert(moves(0) =~= Seq::<Op>::empty());
    } else if n > 0 {
        assert(moves(n)[0] == Op::Right);
        assert(moves(n).drop_first() =~= moves(n - 1));
        let m1 = Machine { ptr: m.ptr + 1, cells: grow(m.cells, m.ptr + 1), ..m };
        assert(run_one(Op::Right, m, t, fuel) == (m1, Option::<crate::semantics::RunErr>::None));
        lemma_grow_cells(m.cells, m.ptr + 1);
        lemma_run_moves(n - 1, m1, t, fuel);
    } else {
        assert(moves(n)[0] == Op::Left);
        assert(moves(n).drop_first() =~= moves(n + 1));
        let m1 = Machine { ptr: m.ptr - 1, ..m };
        assert(run_one(Op::Left, m, t, fuel) == (m1, Option::<crate::semantics::RunErr>::None));
        lemma_run_moves(n + 1, m1, t, fuel);
    }
}

/// Running one operation that is not a loop.
proof fn lemma_run_single(op: Op, m: Machine, t: Option<nat>, fuel: nat)
    requires !(op is Loop),
    ensures run_seq(seq![op], m, t, fuel) == step(op, m, t),
{
    let (m1, e) = run_one(op, m, t, fuel);
    assert(run_one(op, m, t, fuel) == step(op, m, t));
    assert(seq![op].drop_first() =~= Seq::<Op>::empty());
    assert(run_seq(Seq::<Op>::empty(), m1, t, fuel) == (m1, Option::<crate::semantics::RunErr>::None));
}

/// The code that `goto` appends moves the pointer to the cell of `p`, and
/// changes nothing else.
pub proof fn lemma_goto_runs(fs: int, s: CpuState, p: Pos, m: Machine, t: Option<nat>, fuel: nat)
    requires
        s.frame is Some,
        machine_wf(m),
        m.ptr == cursor_cell(fs, s),
        pos_cell(fs, p) >= 0,
    ensures
        g_goto(fs, s, p).code == s.code + appended(s, g_goto(fs, s, p)),
        cursor_cell(fs, g_goto(fs, s, p)) == pos_cell(fs, p),
        ({
            let (m2, e) = run_seq(appended(s, g_goto(fs, s, p)), m, t, fuel);
            &&& e is None
            &&& machine_wf(m2)
            &&& m2.ptr == pos_cell(fs, p)
            &&& same_io(m, m2)
            &&& forall|i: int| #[trigger] cell_at(m2.cells, i) == cell_at(m.cells, i)
        }),
{
    lemma_delta(fs, s, p);
    let d = delta(fs, s, p);
    assert(appended(s, g_goto(fs, s, p)) =~= moves(d));
    assert(g_goto(fs, s, p).code =~= s.code + moves(d));
    lemma_run_moves(d, m, t, fuel);
}

/// The code of `inc_at(p)` (or, with `up` false, of `dec_at(p)`) adds one to
/// the cell of `p` (or takes one from it), leaving the pointer there.
pub proof fn lemma_step_at_runs(fs: int, s: CpuState, p: Pos, up: bool, m: Machine, t: Option<nat>, fuel: nat)
    requires
        s.frame is Some,
        machine_wf(m),
        m.ptr == cursor_cell(fs, s),
        pos_cell(fs, p) >= 0,
    ensures
        ({
            let s2 = g_op_at(fs, s, p, if up { Op::Inc } else { Op::Dec });
            let (m2, e) = run_seq(appended(s, s2), m, t, fuel);
            &&& s2.code == s.code + appended(s, s2)
            &&& cursor_cell(fs, s2) == pos_cell(fs, p)
            &&& e is None
            &&& machine_wf(m2)
            &&& m2.ptr == pos_cell(fs, p)
            &&& same_io(m, m2)
            &&& cell_at(m2.cells, pos_cell(fs, p)) == wadd(cell_at(m.cells, pos_cell(fs, p)), if up { 1u8 } else { 255u8 })
            &&& forall|i: int| i != pos_cell(fs, p) ==> #[trigger] cell_at(m2.cells, i) == cell_at(m.cells, i)
        }),
{
    let op = if up { Op::Inc } else { Op::Dec };
    let s1 = g_goto(fs, s, p);
    lemma_goto_runs(fs, s, p, m, t, fuel);
    let (m1, e1) = run_seq(appended(s, s1), m, t, fuel);
    let s2 = g_op_at(fs, s, p, op);
    assert(appended(s, s2) =~= appended(s, s1) + seq![op]);
    lemma_run_append(appended(s, s1), seq![op], m, t, fuel);
    lemma_run_single(op, m1, t, fuel);
    let m2 = step(op, m1, t).0;
    assert(m2.cells == m1.cells.update(m1.ptr, wadd(m1.cells[m1.ptr], if up { 1u8 } else { 255u8 })));
    assert forall|i: int| i != pos_cell(fs, p) implies #[trigger] cell_at(m2.cells, i) == cell_at(m.cells, i) by {
        assert(cell_at(m1.cells, i) == cell_at(m.cells, i));
    }
    assert(cell_at(m1.cells, pos_cell(fs, p)) == cell_at(m.cells, pos_cell(fs, p)));
}


/// The body of the loop of `moveadd_byte`, for a target `d` cells from the source.
pub open spec fn moveadd_body(d: int) -> Seq<Op> {
    seq![Op::Dec] + moves(d) + seq![Op::Inc] + moves(-d)
}

/// One round of the loop: the source cell (at the pointer) loses one, the
/// target `d` cells away gains one.
proof fn lemma_moveadd_body(d: int, m: Machine, t: Option<nat>, fuel: nat)
    requires
        machine_wf(m),
        d != 0,
        m.ptr + d >= 0,
    ensures
        ({
            let (m2, e) = run_seq(moveadd_body(d), m, t, fuel);
            &&& e is None
            &&& machine_wf(m2)
            &&& m2.ptr == m.ptr
            &&& same_io(m, m2)
            &&& cell_at(m2.cells, m.ptr) == wadd(m.cells[m.ptr], 255)
            &&& cell_at(m2.cells, m.ptr + d) == wadd(cell_at(m.cells, m.ptr + d), 1)
            &&& forall|i: int| i != m.ptr && i != m.ptr + d ==> #[trigger] cell_at(m2.cells, i) == cell_at(m.cells, i)
        }),
{
    let a = seq![Op::Dec];
    let b = moves(d);
    let c = seq![Op::Inc];
    let dd = moves(-d);
    lemma_run_append(a + b + c, dd, m, t, fuel);
    lemma_run_append(a + b, c, m, t, fuel);
    lemma_run_append(a, b, m, t, fuel);
    lemma_run_single(Op::Dec, m, t, fuel);
    let ma = step(Op::Dec, m, t).0;
    lemma_run_moves(d, ma, t, fuel);
    let mb = run_seq(b, ma, t, fuel).0;
    assert(run_seq(a + b, m, t, fuel) == run_seq(b, ma, t, fuel));
    lemma_run_single(Op::Inc, mb, t, fuel);
    let mc = step(Op::Inc, mb, t).0;
    assert(run_seq(a + b + c, m, t, fuel) == (mc, Option::<crate::semantics::RunErr>::None));
    lemma_run_moves(-d, mc, t, fuel);
    let md = run_seq(dd, mc, t, fuel).0;
    assert forall|i: int| i != m.ptr && i != m.ptr + d implies #[trigger] cell_at(md.cells, i) == cell_at(m.cells, i) by {
        assert(cell_at(mc.cells, i) == cell_at(mb.cells, i));
        assert(cell_at(mb.cells, i) == cell_at(ma.cells, i));
    }
    assert(cell_at(mc.cells, m.ptr) == cell_at(mb.cells, m.ptr));
    assert(cell_at(mb.cells, m.ptr) == cell_at(ma.cells, m.ptr));
    assert(cell_at(mb.cells, m.ptr + d) == cell_at(ma.cells, m.ptr + d));
    assert(cell_at(ma.cells, m.ptr + d) == cell_at(m.cells, m.ptr + d));
}

/// The loop of `moveadd_byte` moves the whole source cell onto the target.
proof fn lemma_moveadd_loop(d: int, m: Machine, t: Option<nat>, fuel: nat)
    requires
        machine_wf(m),
        d != 0,
        m.ptr + d >= 0,
        fuel > m.cells[m.ptr],
    ensures
        ({
            let (m2, e) = run_loop(moveadd_body(d), m, t, fuel);
            &&& e is None
            &&& machine_wf(m2)
            &&& m2.ptr == m.ptr
            &&& same_io(m, m2)
            &&& cell_at(m2.cells, m.ptr) == 0
            &&& cell_at(m2.cells, m.ptr + d) == wadd(cell_at(m.cells, m.ptr + d), m.cells[m.ptr])
            &&& forall|i: int| i != m.ptr && i != m.ptr + d ==> #[trigger] cell_at(m2.cells, i) == cell_at(m.cells, i)
        }),
    decreases m.cells[m.ptr],
{
    if m.cells[m.ptr] != 0 {
        lemma_moveadd_body(d, m, t, (fuel - 1) as nat);
        let m1 = run_seq(moveadd_body(d), m, t, (fuel - 1) as nat).0;
        assert(m1.cells[m1.ptr] == cell_at(m1.cells, m.ptr));
        lemma_moveadd_loop(d, m1, t, (fuel - 1) as nat);
        let m2 = run_loop(moveadd_body(d), m1, t, (fuel - 1) as nat).0;
        assert forall|i: int| i != m.ptr && i != m.ptr + d implies #[trigger] cell_at(m2.cells, i) == cell_at(m.cells, i) by {
            assert(cell_at(m1.cells, i) == cell_at(m.cells, i));
        }
    }
}

/// The code of `moveadd_byte(from, to)` adds the cell of `from` onto the cell
/// of `to` and clears it, leaving the pointer at `from`.
pub proof fn lemma_moveadd_runs(fs: int, s: CpuState, from: Pos, to: Pos, m: Machine, t: Option<nat>, fuel: nat)
    requires
        s.frame is Some,
        machine_wf(m),
        m.ptr == cursor_cell(fs, s),
        pos_cell(fs, from) >= 0,
        pos_cell(fs, to) >= 0,
        pos_cell(fs, from) != pos_cell(fs, to),
        fuel >= 256,
    ensures
        ({
            let s2 = g_moveadd(fs, s, from, to);
            let (m2, e) = run_seq(appended(s, s2), m, t, fuel);
            let f = pos_cell(fs, from);
            let tc = pos_cell(fs, to);
            &&& s2.code == s.code + appended(s, s2)
            &&& cursor_cell(fs, s2) == f
            &&& e is None
            &&& machine_wf(m2)
            &&& m2.ptr == f
            &&& same_io(m, m2)
            &&& cell_at(m2.cells, f) == 0
            &&& cell_at(m2.cells, tc) == wadd(cell_at(m.cells, tc), cell_at(m.cells, f))
            &&& forall|i: int| i != f && i != tc ==> #[trigger] cell_at(m2.cells, i) == cell_at(m.cells, i)
        }),
{
    let f = pos_cell(fs, from);
    let tc = pos_cell(fs, to);
    let s1 = g_goto(fs, s, from);
    lemma_goto_runs(fs, s, from, m, t, fuel);
    let m1 = run_seq(appended(s, s1), m, t, fuel).0;
    let c0 = crate::cpu::child(s1);
    let c1 = crate::cpu::g_op(c0, Op::Dec);
    lemma_delta(fs, c1, to);
    let b = g_op_at(fs, c1, to, Op::Inc);
    lemma_delta(fs, b, from);
    let cg = g_goto(fs, b, from);
    assert(cg.code =~= moveadd_body(tc - f));
    let s2 = g_moveadd(fs, s, from, to);
    assert(s2 == crate::cpu::g_op(s1, Op::Loop(cg.code)));
    assert(appended(s, s2) =~= appended(s, s1) + seq![Op::Loop(moveadd_body(tc - f))]);
    lemma_run_append(appended(s, s1), seq![Op::Loop(moveadd_body(tc - f))], m, t, fuel);
    assert(m1.cells[m1.ptr] == cell_at(m1.cells, f));
    lemma_moveadd_loop(tc - f, m1, t, fuel);
    assert(run_seq(seq![Op::Loop(moveadd_body(tc - f))], m1, t, fuel) == run_loop(moveadd_body(tc - f), m1, t, fuel)) by {
        let (mx, ex) = run_loop(moveadd_body(tc - f), m1, t, fuel);
        assert(seq![Op::Loop(moveadd_body(tc - f))][0] == Op::Loop(moveadd_body(tc - f)));
        assert(run_one(Op::Loop(moveadd_body(tc - f)), m1, t, fuel) == run_loop(moveadd_body(tc - f), m1, t, fuel));
        assert(seq![Op::Loop(moveadd_body(tc - f))].drop_first() =~= Seq::<Op>::empty());
        assert(run_seq(Seq::<Op>::empty(), mx, t, fuel) == (mx, Option::<crate::semantics::RunErr>::None));
    }
    let m2 = run_loop(moveadd_body(tc - f), m1, t, fuel).0;
    assert forall|i: int| i != f && i != tc implies #[trigger] cell_at(m2.cells, i) == cell_at(m.cells, i) by {
        assert(cell_at(m1.cells, i) == cell_at(m.cells, i));
    }
    assert(cell_at(m1.cells, tc) == cell_at(m.cells, tc));
    assert(cell_at(m1.cells, f) == cell_at(m.cells, f));
}


pub proof fn lemma_run_single_loop(body: Seq<Op>, m: Machine, t: Option<nat>, fuel: nat)
    ensures run_seq(seq![Op::Loop(body)], m, t, fuel) == run_loop(body, m, t, fuel),
{
    let (mx, ex) = run_loop(body, m, t, fuel);
    assert(seq![Op::Loop(body)][0] == Op::Loop(body));
    assert(run_one(Op::Loop(body), m, t, fuel) == run_loop(body, m, t, fuel));
    assert(seq![Op::Loop(body)].drop_first() =~= Seq::<Op>::empty());
    assert(run_seq(Seq::<Op>::empty(), mx, t, fuel) == (mx, Option::<crate::semantics::RunErr>::None));
}

/// The loop `[-]` clears the cell at the pointer.
pub proof fn lemma_clear_loop(m: Machine, t: Option<nat>, fuel: nat)
    requires
        machine_wf(m),
        fuel > m.cells[m.ptr],
    ensures
        ({
            let (m2, e) = run_loop(seq![Op::Dec], m, t, fuel);
            &&& e is None
            &&& machine_wf(m2)
            &&& m2.ptr == m.ptr
            &&& same_io(m, m2)
            &&& m2.cells == m.cells.update(m.ptr, 0)
        }),
    decreases m.cells[m.ptr],
{
    if m.cells[m.ptr] != 0 {
        lemma_run_single(Op::Dec, m, t, (fuel - 1) as nat);
        let m1 = step(Op::Dec, m, t).0;
        lemma_clear_loop(m1, t, (fuel - 1) as nat);
        assert(m1.cells.update(m.ptr, 0) =~= m.cells.update(m.ptr, 0));
    } else {
        assert(m.cells.update(m.ptr, 0) =~= m.cells);
    }
}

/// The code of `clr_at(p)` clears the cell of `p`, leaving the pointer there.
pub proof fn lemma_clr_at_runs(fs: int, s: CpuState, p: Pos, m: Machine, t: Option<nat>, fuel: nat)
    requires
        s.frame is Some,
        machine_wf(m),
        m.ptr == cursor_cell(fs, s),
        pos_cell(fs, p) >= 0,
        fuel >= 256,
    ensures
        ({
            let s2 = g_clr_at(fs, s, p);
            let (m2, e) = run_seq(appended(s, s2), m, t, fuel);
            &&& s2.code == s.code + appended(s, s2)
            &&& cursor_cell(fs, s2) == pos_cell(fs, p)
            &&& e is None
            &&& machine_wf(m2)
            &&& m2.ptr == pos_cell(fs, p)
            &&& same_io(m, m2)
            &&& cell_at(m2.cells, pos_cell(fs, p)) == 0
            &&& forall|i: int| i != pos_cell(fs, p) ==> #[trigger] cell_at(m2.cells, i) == cell_at(m.cells, i)
        }),
{
    let s1 = g_goto(fs, s, p);
    lemma_goto_runs(fs, s, p, m, t, fuel);
    let m1 = run_seq(appended(s, s1), m, t, fuel).0;
    let s2 = g_clr_at(fs, s, p);
    assert(appended(s, s2) =~= appended(s, s1) + seq![Op::Loop(seq![Op::Dec])]);
    lemma_run_append(appended(s, s1), seq![Op::Loop(seq![Op::Dec])], m, t, fuel);
    lemma_run_single_loop(seq![Op::Dec], m1, t, fuel);
    lemma_clear_loop(m1, t, fuel);
    let m2 = run_loop(seq![Op::Dec], m1, t, fuel).0;
    assert forall|i: int| i != pos_cell(fs, p) implies #[trigger] cell_at(m2.cells, i) == cell_at(m.cells, i) by {
        assert(cell_at(m1.cells, i) == cell_at(m.cells, i));
    }
}

/// Running `n` increments (or, with `up` false, decrements) at the pointer.
proof fn lemma_run_repeat(n: nat, up: bool, m: Machine, t: Option<nat>, fuel: nat)
    requires machine_wf(m),
    ensures
        ({
            let (m2, e) = run_seq(Seq::new(n, |i: int| if up { Op::Inc } else { Op::Dec }), m, t, fuel);
            &&& e is None
            &&& machine_wf(m2)
            &&& m2.ptr == m.ptr
            &&& same_io(m, m2)
            &&& m2.cells == m.cells.update(m.ptr, ((m.cells[m.ptr] + (if up { n as int } else { -n })) % 256) as u8)
        }),
    decreases n,
{
    let op = if up { Op::Inc } else { Op::Dec };
    let ops = Seq::new(n, |i: int| if up { Op::Inc } else { Op::Dec });
    if n == 0 {
        assert(ops =~= Seq::<Op>::empty());
        assert(m.cells.update(m.ptr, ((m.cells[m.ptr] + 0) % 256) as u8) =~= m.cells);
    } else {
        assert(ops[0] == op);
        assert(ops.drop_first() =~= Seq::new((n - 1) as nat, |i: int| if up { Op::Inc } else { Op::Dec }));
        assert(run_one(op, m, t, fuel) == step(op, m, t));
        let m1 = step(op, m, t).0;
        lemma_run_repeat((n - 1) as nat, up, m1, t, fuel);
        let c = m.cells[m.ptr] as int;
        let k = if up { n as int } else { -n };
        let c1 = m1.cells[m.ptr] as int;
        assert(c1 == (c + (if up { 1int } else { -1int })) % 256);
        assert((c1 + (if up { (n - 1) as int } else { -(n - 1) })) % 256 == (c + k) % 256) by (nonlinear_arith)
            requires
                c1 == (c + (if up { 1int } else { -1int })) % 256,
                k == (if up { n as int } else { -n }),
                n >= 1;
        assert(m1.cells.update(m.ptr, ((c1 + (if up { (n - 1) as int } else { -(n - 1) })) % 256) as u8)
            =~= m.cells.update(m.ptr, ((c + k) % 256) as u8));
    }
}

/// The code of `add_const_to_byte(p, val)` adds `val` to the cell of `p`
/// (wrapping); with `val` zero it appends nothing.
pub proof fn lemma_add_const_runs(fs: int, s: CpuState, p: Pos, val: u8, m: Machine, t: Option<nat>, fuel: nat)
    requires
        s.frame is Some,
        machine_wf(m),
        m.ptr == cursor_cell(fs, s),
        pos_cell(fs, p) >= 0,
    ensures
        ({
            let s2 = g_add_const(fs, s, p, val);
            let (m2, e) = run_seq(appended(s, s2), m, t, fuel);
            &&& s2.code == s.code + appended(s, s2)
            &&& s2.frame is Some
            &&& cursor_cell(fs, s2) == m2.ptr
            &&& e is None
            &&& machine_wf(m2)
            &&& m2.ptr == if val == 0 { m.ptr } else { pos_cell(fs, p) }
            &&& same_io(m, m2)
            &&& cell_at(m2.cells, pos_cell(fs, p)) == wadd(cell_at(m.cells, pos_cell(fs, p)), val)
            &&& forall|i: int| i != pos_cell(fs, p) ==> #[trigger] cell_at(m2.cells, i) == cell_at(m.cells, i)
        }),
{
    let s2 = g_add_const(fs, s, p, val);
    let pc = pos_cell(fs, p);
    if val == 0 {
        assert(appended(s, s2) =~= Seq::<Op>::empty());
        assert(s.code + Seq::<Op>::empty() =~= s.code);
    } else {
        let s1 = g_goto(fs, s, p);
        lemma_goto_runs(fs, s, p, m, t, fuel);
        let m1 = run_seq(appended(s, s1), m, t, fuel).0;
        let up = val <= 128;
        let n: nat = if up { val as nat } else { (256 - val) as nat };
        let ops = Seq::new(n, |i: int| if up { Op::Inc } else { Op::Dec });
        if up {
            assert(s2.code =~= s1.code + Seq::new(val as nat, |i: int| Op::Inc));
            assert(ops =~= Seq::new(val as nat, |i: int| Op::Inc));
        } else {
            assert(s2.code =~= s1.code + Seq::new((256 - val) as nat, |i: int| Op::Dec));
            assert(ops =~= Seq::new((256 - val) as nat, |i: int| Op::Dec));
        }
        assert(appended(s, s2) =~= appended(s, s1) + ops);
        lemma_run_append(appended(s, s1), ops, m, t, fuel);
        lemma_run_repeat(n, up, m1, t, fuel);
        let m2 = run_seq(ops, m1, t, fuel).0;
        assert(cell_at(m1.cells, pc) == cell_at(m.cells, pc));
        assert(m1.cells[pc] == cell_at(m.cells, pc));
        let c = m1.cells[pc] as int;
        assert((c + (if up { n as int } else { -n })) % 256 == (c + val) % 256);
        assert forall|i: int| i != pc implies #[trigger] cell_at(m2.cells, i) == cell_at(m.cells, i) by {
            assert(cell_at(m1.cells, i) == cell_at(m.cells, i));
        }
    }
}

/// The code of `set_byte(p, val)` sets the cell of `p` to `val`, leaving the
/// pointer there.
pub proof fn lemma_set_byte_runs(fs: int, s: CpuState, p: Pos, val: u8, m: Machine, t: Option<nat>, fuel: nat)
    requires
        s.frame is Some,
        machine_wf(m),
        m.ptr == cursor_cell(fs, s),
        pos_cell(fs, p) >= 0,
        fuel >= 256,
    ensures
        ({
            let s2 = g_set_byte(fs, s, p, val);
            let (m2, e) = run_seq(appended(s, s2), m, t, fuel);
            &&& s2.code == s.code + appended(s, s2)
            &&& cursor_cell(fs, s2) == pos_cell(fs, p)
            &&& e is None
            &&& machine_wf(m2)
            &&& m2.ptr == pos_cell(fs, p)
            &&& same_io(m, m2)
            &&& cell_at(m2.cells, pos_cell(fs, p)) == val
            &&& forall|i: int| i != pos_cell(fs, p) ==> #[trigger] cell_at(m2.cells, i) == cell_at(m.cells, i)
        }),
{
    let s1 = g_clr_at(fs, s, p);
    lemma_clr_at_runs(fs, s, p, m, t, fuel);
    let m1 = run_seq(appended(s, s1), m, t, fuel).0;
    lemma_add_const_runs(fs, s1, p, val, m1, t, fuel);
    let s2 = g_set_byte(fs, s, p, val);
    assert(appended(s, s2) =~= appended(s, s1) + appended(s1, s2));
    lemma_run_append(appended(s, s1), appended(s1, s2), m, t, fuel);
    let m2 = run_seq(appended(s1, s2), m1, t, fuel).0;
    assert forall|i: int| i != pos_cell(fs, p) implies #[trigger] cell_at(m2.cells, i) == cell_at(m.cells, i) by {
        assert(cell_at(m1.cells, i) == cell_at(m.cells, i));
    }
}


/// The body of a loop that takes one from the cell at the pointer and adds one
/// to the cells `d1` and `d2` away.
pub open spec fn spread_body(d1: int, d2: int) -> Seq<Op> {
    seq![Op::Dec] + moves(d1) + seq![Op::Inc] + moves(d2 - d1) + seq![Op::Inc] + moves(-d2)
}

proof fn lemma_spread_body(d1: int, d2: int, m: Machine, t: Option<nat>, fuel: nat)
    requires
        machine_wf(m),
        d1 != 0,
        d2 != 0,
        d1 != d2,
        m.ptr + d1 >= 0,
        m.ptr + d2 >= 0,
    ensures
        ({
            let (m2, e) = run_seq(spread_body(d1, d2), m, t, fuel);
            &&& e is None
            &&& machine_wf(m2)
            &&& m2.ptr == m.ptr
            &&& same_io(m, m2)
            &&& cell_at(m2.cells, m.ptr) == wadd(m.cells[m.ptr], 255)
            &&& cell_at(m2.cells, m.ptr + d1) == wadd(cell_at(m.cells, m.ptr + d1), 1)
            &&& cell_at(m2.cells, m.ptr + d2) == wadd(cell_at(m.cells, m.ptr + d2), 1)
            &&& forall|i: int| i != m.ptr && i != m.ptr + d1 && i != m.ptr + d2 ==> #[trigger] cell_at(m2.cells, i) == cell_at(m.cells, i)
        }),
{
    let a = seq![Op::Dec] + moves(d1) + seq![Op::Inc];
    let b = moves(d2 - d1);
    let c = seq![Op::Inc];
    let dd = moves(-d2);
    lemma_run_append(a + b + c, dd, m, t, fuel);
    lemma_run_append(a + b, c, m, t, fuel);
    lemma_run_append(a, b, m, t, fuel);
    lemma_run_append(seq![Op::Dec] + moves(d1), seq![Op::Inc], m, t, fuel);
    lemma_run_append(seq![Op::Dec], moves(d1), m, t, fuel);
    lemma_run_single(Op::Dec, m, t, fuel);
    let m0 = step(Op::Dec, m, t).0;
    lemma_run_moves(d1, m0, t, fuel);
    let m1 = run_seq(moves(d1), m0, t, fuel).0;
    lemma_run_single(Op::Inc, m1, t, fuel);
    let ma = step(Op::Inc, m1, t).0;
    assert(run_seq(a, m, t, fuel) == (ma, Option::<crate::semantics::RunErr>::None));
    lemma_run_moves(d2 - d1, ma, t, fuel);
    let mb = run_seq(b, ma, t, fuel).0;
    lemma_run_single(Op::Inc, mb, t, fuel);
    let mc = step(Op::Inc, mb, t).0;
    assert(run_seq(a + b + c, m, t, fuel) == (mc, Option::<crate::semantics::RunErr>::None));
    lemma_run_moves(-d2, mc, t, fuel);
    let md = run_seq(dd, mc, t, fuel).0;
    assert forall|i: int| i != m.ptr && i != m.ptr + d1 && i != m.ptr + d2
        implies #[trigger] cell_at(md.cells, i) == cell_at(m.cells, i) by {
        assert(cell_at(mc.cells, i) == cell_at(mb.cells, i));
        assert(cell_at(mb.cells, i) == cell_at(ma.cells, i));
        assert(cell_at(m1.cells, i) == cell_at(m0.cells, i));
    }
    let p = m.ptr;
    assert(cell_at(mc.cells, p) == cell_at(mb.cells, p));
    assert(cell_at(mb.cells, p) == cell_at(ma.cells, p));
    assert(cell_at(m1.cells, p) == cell_at(m0.cells, p));
    assert(cell_at(mc.cells, p + d1) == cell_at(mb.cells, p + d1));
    assert(cell_at(mb.cells, p + d1) == cell_at(ma.cells, p + d1));
    assert(cell_at(m1.cells, p + d1) == cell_at(m0.cells, p + d1));
    assert(cell_at(mb.cells, p + d2) == cell_at(ma.cells, p + d2));
    assert(cell_at(m1.cells, p + d2) == cell_at(m0.cells, p + d2));
}

proof fn lemma_spread_loop(d1: int, d2: int, m: Machine, t: Option<nat>, fuel: nat)
    requires
        machine_wf(m),
        d1 != 0,
        d2 != 0,
        d1 != d2,
        m.ptr + d1 >= 0,
        m.ptr + d2 >= 0,
        fuel > m.cells[m.ptr],
    ensures
        ({
            let (m2, e) = run_loop(spread_body(d1, d2), m, t, fuel);
            &&& e is None
            &&& machine_wf(m2)
            &&& m2.ptr == m.ptr
            &&& same_io(m, m2)
            &&& cell_at(m2.cells, m.ptr) == 0
            &&& cell_at(m2.cells, m.ptr + d1) == wadd(cell_at(m.cells, m.ptr + d1), m.cells[m.ptr])
            &&& cell_at(m2.cells, m.ptr + d2) == wadd(cell_at(m.cells, m.ptr + d2), m.cells[m.ptr])
            &&& forall|i: int| i != m.ptr && i != m.ptr + d1 && i != m.ptr + d2 ==> #[trigger] cell_at(m2.cells, i) == cell_at(m.cells, i)
        }),
    decreases m.cells[m.ptr],
{
    if m.cells[m.ptr] != 0 {
        lemma_spread_body(d1, d2, m, t, (fuel - 1) as nat);
        let m1 = run_seq(spread_body(d1, d2), m, t, (fuel - 1) as nat).0;
        assert(m1.cells[m1.ptr] == cell_at(m1.cells, m.ptr));
        lemma_spread_loop(d1, d2, m1, t, (fuel - 1) as nat);
        let m2 = run_loop(spread_body(d1, d2), m1, t, (fuel - 1) as nat).0;
        assert forall|i: int| i != m.ptr && i != m.ptr + d1 && i != m.ptr + d2
            implies #[trigger] cell_at(m2.cells, i) == cell_at(m.cells, i) by {
            assert(cell_at(m1.cells, i) == cell_at(m.cells, i));
        }
    }
}

/// The code of `copy_byte(from, to, scratch)` adds the cell of `from` onto the
/// cell of `to` through the zero cell of `scratch`, which ends zero again, and
/// keeps the cell of `from`; the pointer ends at `scratch`.
pub proof fn lemma_copy_byte_runs(fs: int, s: CpuState, from: Pos, to: Pos, scratch: Pos, m: Machine, t: Option<nat>,
    fuel: nat)
    requires
        s.frame is Some,
        machine_wf(m),
        m.ptr == cursor_cell(fs, s),
        pos_cell(fs, from) >= 0,
        pos_cell(fs, to) >= 0,
        pos_cell(fs, scratch) >= 0,
        pos_cell(fs, from) != pos_cell(fs, to),
        pos_cell(fs, from) != pos_cell(fs, scratch),
        pos_cell(fs, to) != pos_cell(fs, scratch),
        cell_at(m.cells, pos_cell(fs, scratch)) == 0,
        fuel >= 256,
    ensures
        ({
            let s2 = crate::cpu::g_copy_byte(fs, s, from, to, scratch);
            let (m2, e) = run_seq(appended(s, s2), m, t, fuel);
            let f = pos_cell(fs, from);
            let tc = pos_cell(fs, to);
            let sc = pos_cell(fs, scratch);
            &&& s2.code == s.code + appended(s, s2)
            &&& cursor_cell(fs, s2) == sc
            &&& e is None
            &&& machine_wf(m2)
            &&& m2.ptr == sc
            &&& same_io(m, m2)
            &&& cell_at(m2.cells, f) == cell_at(m.cells, f)
            &&& cell_at(m2.cells, tc) == wadd(cell_at(m.cells, tc), cell_at(m.cells, f))
            &&& cell_at(m2.cells, sc) == 0
            &&& forall|i: int| i != tc ==> #[trigger] cell_at(m2.cells, i) == cell_at(m.cells, i)
        }),
{
    let f = pos_cell(fs, from);
    let tc = pos_cell(fs, to);
    let sc = pos_cell(fs, scratch);
    let s1 = g_moveadd(fs, s, from, scratch);
    lemma_moveadd_runs(fs, s, from, scratch, m, t, fuel);
    let m1 = run_seq(appended(s, s1), m, t, fuel).0;
    let s1g = g_goto(fs, s1, scratch);
    lemma_goto_runs(fs, s1, scratch, m1, t, fuel);
    let c0 = crate::cpu::child(s1g);
    let c1 = crate::cpu::g_op(c0, Op::Dec);
    lemma_delta(fs, c1, from);
    let b1 = g_op_at(fs, c1, from, Op::Inc);
    lemma_delta(fs, b1, to);
    let b2 = g_op_at(fs, b1, to, Op::Inc);
    lemma_delta(fs, b2, scratch);
    let cg = g_goto(fs, b2, scratch);
    assert(cg.code =~= spread_body(f - sc, tc - sc));
    let s2 = crate::cpu::g_copy_byte(fs, s, from, to, scratch);
    assert(s2 == crate::cpu::g_op(s1g, Op::Loop(cg.code)));
    let g = appended(s1, s1g);
    assert(appended(s, s2) =~= appended(s, s1) + g + seq![Op::Loop(spread_body(f - sc, tc - sc))]);
    lemma_run_append(appended(s, s1) + g, seq![Op::Loop(spread_body(f - sc, tc - sc))], m, t, fuel);
    lemma_run_append(appended(s, s1), g, m, t, fuel);
    let m1g = run_seq(g, m1, t, fuel).0;
    lemma_run_single_loop(spread_body(f - sc, tc - sc), m1g, t, fuel);
    assert(cell_at(m1g.cells, sc) == cell_at(m1.cells, sc));
    assert(m1g.cells[m1g.ptr] == cell_at(m1g.cells, sc));
    lemma_spread_loop(f - sc, tc - sc, m1g, t, fuel);
    let m2 = run_loop(spread_body(f - sc, tc - sc), m1g, t, fuel).0;
    assert(cell_at(m1.cells, f) == 0);
    assert(cell_at(m1g.cells, f) == cell_at(m1.cells, f));
    assert(cell_at(m1g.cells, tc) == cell_at(m1.cells, tc));
    assert(cell_at(m1.cells, tc) == cell_at(m.cells, tc));
    assert(cell_at(m1.cells, sc) == wadd(0, cell_at(m.cells, f)));
    assert forall|i: int| i != tc implies #[trigger] cell_at(m2.cells, i) == cell_at(m.cells, i) by {
        if i != f && i != sc {
            assert(cell_at(m1g.cells, i) == cell_at(m1.cells, i));
            assert(cell_at(m1.cells, i) == cell_at(m.cells, i));
        }
    }
}


/// The code that `Cpu::new` starts with, run on a fresh tape (one zero cell,
/// the pointer on it), puts the pointer at the cell of frame 0, track 0, with
/// every cell zero.
pub proof fn lemma_new_runs(fs: int, m: Machine, t: Option<nat>, fuel: nat)
    requires
        fs >= 0,
        m.cells == seq![0u8],
        m.ptr == 0,
        0 <= m.in_pos <= m.input.len(),
    ensures
        ({
            let s = CpuState { track: 0, frame: Some(0), code: moves(fs * 3) };
            let (m2, e) = run_seq(s.code, m, t, fuel);
            &&& e is None
            &&& machine_wf(m2)
            &&& m2.ptr == cursor_cell(fs, s)
            &&& same_io(m, m2)
            &&& forall|i: int| #[trigger] cell_at(m2.cells, i) == 0
        }),
{
    lemma_run_moves(fs * 3, m, t, fuel);
    assert((0int + 3) * fs + 0 == fs * 3) by (nonlinear_arith);
}

}
