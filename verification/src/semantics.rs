use crate::bf::BfOp;
use crate::cpu::CpuConfig;
use vstd::prelude::*;

verus! {

/// Mathematical model of a Brainfuck operation (also the model of `Lir`).
pub enum Op {
    Left,
    Right,
    Inc,
    Dec,
    In,
    Out,
    Loop(Seq<Op>),
    Clr,
    Shift(int),
    Add(u8),
    MoveAdd(int),
    MoveAdd2(int, int),
    Comment(Seq<char>),
    DebugMessage(Seq<char>),
    Crash(Seq<char>),
    Breakpoint,
    PrintRegisters,
    CheckScratchIsEmptyFromHere(Seq<char>),
}

pub open spec fn ops_view(s: Seq<BfOp>) -> Seq<Op>
    decreases s,
{
    if s.len() == 0 {
        Seq::empty()
    } else {
        ops_view(s.drop_last()).push(op_view(s.last()))
    }
}

pub open spec fn op_view(op: BfOp) -> Op
    decreases op,
{
    proof {
        broadcast use vstd::std_specs::vec::axiom_vec_decreases_to_view;
    }
    match op {
        BfOp::Left => Op::Left,
        BfOp::Right => Op::Right,
        BfOp::Inc => Op::Inc,
        BfOp::Dec => Op::Dec,
        BfOp::In => Op::In,
        BfOp::Out => Op::Out,
        BfOp::Loop(v) => Op::Loop(ops_view(v@)),
        BfOp::Clr => Op::Clr,
        BfOp::Shift(s) => Op::Shift(s as int),
        BfOp::Add(a) => Op::Add(a),
        BfOp::MoveAdd(s) => Op::MoveAdd(s as int),
        BfOp::MoveAdd2(a, b) => Op::MoveAdd2(a as int, b as int),
        BfOp::Comment(m) => Op::Comment(m@),
        BfOp::DebugMessage(m) => Op::DebugMessage(m@),
        BfOp::Crash(m) => Op::Crash(m@),
        BfOp::Breakpoint => Op::Breakpoint,
        BfOp::PrintRegisters => Op::PrintRegisters,
        BfOp::CheckScratchIsEmptyFromHere(m) => Op::CheckScratchIsEmptyFromHere(m@),
    }
}

/// `ops_view` is the element-wise model.
pub broadcast proof fn lemma_ops_view(s: Seq<BfOp>)
    ensures
        #[trigger] ops_view(s).len() == s.len(),
        forall|i: int| 0 <= i < s.len() ==> #[trigger] ops_view(s)[i] == op_view(s[i]),
    decreases s.len(),
{
    if s.len() > 0 {
        lemma_ops_view(s.drop_last());
    }
}

pub proof fn lemma_ops_view_push(s: Seq<BfOp>, op: BfOp)
    ensures
        ops_view(s.push(op)) == ops_view(s).push(op_view(op)),
{
    assert(s.push(op).drop_last() =~= s);
}

/// Wrapping addition of bytes.
pub open spec fn wadd(a: u8, b: u8) -> u8 {
    ((a + b) % 256) as u8
}

// ---------------------------------------------------------------------------
// The machine that runs Brainfuck code.
// ---------------------------------------------------------------------------

/// Model of a run-time error.
pub enum RunErr {
    PtrOutOfBounds,
    Crashed,
    ScratchNotEmpty,
    OutOfFuel,
}

/// Model of the whole machine: tape, cell pointer, input, output and messages.
pub struct Machine {
    pub cells: Seq<u8>,
    pub ptr: int,
    pub input: Seq<u8>,
    pub in_pos: int,
    pub output: Seq<u8>,
    pub messages: Seq<Seq<char>>,
}

pub open spec fn machine_wf(m: Machine) -> bool {
    &&& 0 <= m.ptr < m.cells.len()
    &&& 0 <= m.in_pos <= m.input.len()
}

/// Reading a byte: carriage returns are skipped, and the end of input reads as 0.
pub open spec fn read_in(input: Seq<u8>, pos: int) -> (u8, int)
    decreases input.len() - pos,
{
    if pos >= input.len() || pos < 0 {
        (0u8, pos)
    } else if input[pos] == 13 {
        read_in(input, pos + 1)
    } else {
        (input[pos], pos + 1)
    }
}

/// The tape grown with zero cells so that index `n` exists.
pub open spec fn grow(cells: Seq<u8>, n: int) -> Seq<u8> {
    if cells.len() <= n {
        cells + Seq::new((n + 1 - cells.len()) as nat, |i: int| 0u8)
    } else {
        cells
    }
}

pub open spec fn set_cell(m: Machine, i: int, v: u8) -> Machine {
    Machine { cells: m.cells.update(i, v), ..m }
}

/// Moving the pointer by `shift`, growing the tape as needed.
pub open spec fn shifted(m: Machine, shift: int) -> Option<Machine> {
    let n = m.ptr + shift;
    if n < 0 || n >= usize::MAX {
        None
    } else {
        Some(Machine { cells: grow(m.cells, n), ptr: n, ..m })
    }
}

/// Add the current cell onto the cell at `shift` from it (the pointer does not move).
pub open spec fn add_current_to(m: Machine, shift: int) -> Option<Machine> {
    match shifted(m, shift) {
        None => None,
        Some(m1) => Some(set_cell(Machine { ptr: m.ptr, ..m1 }, m1.ptr, wadd(m1.cells[m1.ptr], m1.cells[m.ptr]))),
    }
}

/// The first index `i = start + k * step` (k >= 0) below `len` whose cell is not zero.
pub open spec fn first_nonzero_from(cells: Seq<u8>, start: int, step: int) -> Option<int>
    decreases cells.len() - start,
{
    if start < 0 || start >= cells.len() || step <= 0 {
        None
    } else if cells[start] != 0 {
        Some(start)
    } else if start + step >= cells.len() {
        None
    } else {
        first_nonzero_from(cells, start + step, step)
    }
}

/// One step of a non-loop operation; `tracks` is the number of tracks of the CPU
/// configuration, if one is given.
pub open spec fn step(op: Op, m: Machine, tracks: Option<nat>) -> (Machine, Option<RunErr>) {
    match op {
        Op::Left => if m.ptr == 0 { (m, Some(RunErr::PtrOutOfBounds)) } else { (Machine { ptr: m.ptr - 1, ..m }, None) },
        Op::Right => (Machine { ptr: m.ptr + 1, cells: grow(m.cells, m.ptr + 1), ..m }, None),
        Op::Inc => (set_cell(m, m.ptr, wadd(m.cells[m.ptr], 1)), None),
        Op::Dec => (set_cell(m, m.ptr, wadd(m.cells[m.ptr], 255)), None),
        Op::In => {
            let (v, p) = read_in(m.input, m.in_pos);
            (Machine { in_pos: p, ..set_cell(m, m.ptr, v) }, None)
        },
        Op::Out => (Machine { output: m.output.push(m.cells[m.ptr]), ..m }, None),
        Op::Clr => (set_cell(m, m.ptr, 0), None),
        Op::Shift(s) => match shifted(m, s) {
            Some(m1) => (m1, None),
            None => (m, Some(RunErr::PtrOutOfBounds)),
        },
        Op::Add(v) => (set_cell(m, m.ptr, wadd(m.cells[m.ptr], v)), None),
        Op::MoveAdd(s) => match add_current_to(m, s) {
            Some(m1) => (set_cell(m1, m.ptr, 0), None),
            None => (m, Some(RunErr::PtrOutOfBounds)),
        },
        Op::MoveAdd2(s1, s2) => match add_current_to(m, s1) {
            Some(m1) => match add_current_to(m1, s2) {
                Some(m2) => (set_cell(m2, m.ptr, 0), None),
                None => (m1, Some(RunErr::PtrOutOfBounds)),
            },
            None => (m, Some(RunErr::PtrOutOfBounds)),
        },
        Op::DebugMessage(msg) => (Machine { messages: m.messages.push(msg), ..m }, None),
        Op::Crash(msg) => (Machine { messages: m.messages.push(msg), ..m }, Some(RunErr::Crashed)),
        Op::CheckScratchIsEmptyFromHere(_) => match tracks {
            Some(n) => match first_nonzero_from(m.cells, m.ptr, n as int) {
                Some(_) => (m, Some(RunErr::ScratchNotEmpty)),
                None => (m, None),
            },
            None => (m, None),
        },
        _ => (m, None),
    }
}

/// Running a sequence of operations. A loop may run at most `fuel` iterations,
/// and each iteration runs its body with one unit of fuel less.
pub open spec fn run_seq(ops: Seq<Op>, m: Machine, tracks: Option<nat>, fuel: nat) -> (Machine, Option<RunErr>)
    decreases fuel, ops, 0nat,
{
    if ops.len() == 0 {
        (m, None)
    } else {
        let (m1, e) = run_one(ops[0], m, tracks, fuel);
        if e is Some {
            (m1, e)
        } else {
            run_seq(ops.drop_first(), m1, tracks, fuel)
        }
    }
}

pub open spec fn run_one(op: Op, m: Machine, tracks: Option<nat>, fuel: nat) -> (Machine, Option<RunErr>)
    decreases fuel, op, 0nat,
{
    match op {
        Op::Loop(body) => run_loop(body, m, tracks, fuel),
        _ => step(op, m, tracks),
    }
}

pub open spec fn run_loop(body: Seq<Op>, m: Machine, tracks: Option<nat>, fuel: nat) -> (Machine, Option<RunErr>)
    decreases fuel, body, 1nat,
{
    if m.cells[m.ptr] == 0 {
        (m, None)
    } else if fuel == 0 {
        (m, Some(RunErr::OutOfFuel))
    } else {
        let (m1, e) = run_seq(body, m, tracks, (fuel - 1) as nat);
        if e is Some {
            (m1, e)
        } else {
            run_loop(body, m1, tracks, (fuel - 1) as nat)
        }
    }
}


/// Whether the program holds a `CheckScratchIsEmptyFromHere` operation.
pub open spec fn uses_check(ops: Seq<Op>) -> bool
    decreases ops,
{
    if ops.len() == 0 {
        false
    } else {
        uses_check_op(ops[0]) || uses_check(ops.drop_first())
    }
}

pub proof fn lemma_uses_check_index(ops: Seq<Op>, i: int)
    requires 0 <= i < ops.len(), uses_check_op(ops[i]),
    ensures uses_check(ops),
    decreases i,
{
    if i > 0 {
        lemma_uses_check_index(ops.drop_first(), i - 1);
    }
}

pub open spec fn uses_check_op(op: Op) -> bool
    decreases op,
{
    match op {
        Op::CheckScratchIsEmptyFromHere(_) => true,
        Op::Loop(body) => uses_check(body),
        _ => false,
    }
}

pub open spec fn tracks_of(cfg: Option<&CpuConfig>) -> Option<nat> {
    match cfg {
        Some(c) => Some(c.tracks@.len()),
        None => None,
    }
}

/// The configuration is usable for checking scratch tracks: it is given and has a track,
/// or the program never checks.
pub open spec fn cfg_ok_for(cfg: Option<&CpuConfig>, uses: bool) -> bool {
    match cfg {
        Some(c) => c.tracks@.len() > 0,
        None => !uses,
    }
}



/// The Brainfuck text of a program: the operators, with comments written out as they are.
pub open spec fn text_of(ops: Seq<Op>) -> Seq<char>
    decreases ops, 0nat,
{
    if ops.len() == 0 {
        Seq::empty()
    } else {
        text_of(ops.drop_last()) + op_text(ops.last())
    }
}

pub open spec fn op_text(op: Op) -> Seq<char>
    decreases op, 1nat,
{
    match op {
        Op::Left => seq!['<'],
        Op::Right => seq!['>'],
        Op::Inc => seq!['+'],
        Op::Dec => seq!['-'],
        Op::In => seq![','],
        Op::Out => seq!['.'],
        Op::Loop(body) => seq!['['] + text_of(body) + seq![']'],
        Op::Comment(m) => m,
        _ => Seq::empty(),
    }
}

/// Operations that parsing produces: the eight operators, loops and comments.
pub open spec fn plain_seq(ops: Seq<Op>) -> bool
    decreases ops, 0nat,
{
    if ops.len() == 0 {
        true
    } else {
        plain_seq(ops.drop_last()) && plain_op(ops.last())
    }
}

pub open spec fn plain_op(op: Op) -> bool
    decreases op, 1nat,
{
    match op {
        Op::Left | Op::Right | Op::Inc | Op::Dec | Op::In | Op::Out | Op::Comment(_) => true,
        Op::Loop(body) => plain_seq(body),
        _ => false,
    }
}

pub proof fn lemma_plain_push(ops: Seq<Op>, op: Op)
    ensures plain_seq(ops.push(op)) == (plain_seq(ops) && plain_op(op)),
{
    assert(ops.push(op).drop_last() =~= ops);
}

pub proof fn lemma_text_of_push(ops: Seq<Op>, op: Op)
    ensures text_of(ops.push(op)) == text_of(ops) + op_text(op),
{
    assert(ops.push(op).drop_last() =~= ops);
}


// ---------------------------------------------------------------------------
// What the optimizer produces.
// ---------------------------------------------------------------------------

pub open spec fn in_i16(x: int) -> bool {
    i16::MIN <= x <= i16::MAX
}

/// Pending pointer moves and additions that the optimizer has not written out yet.
pub struct OptBuf {
    pub shift: int,
    pub add: u8,
    pub out: Seq<Op>,
}

pub open spec fn flush_shift(b: OptBuf) -> OptBuf {
    let out = if b.shift == 1 {
        b.out.push(Op::Right)
    } else if b.shift == -1 {
        b.out.push(Op::Left)
    } else if b.shift != 0 {
        b.out.push(Op::Shift(b.shift))
    } else {
        b.out
    };
    OptBuf { shift: 0, add: b.add, out }
}

pub open spec fn flush_add(b: OptBuf) -> OptBuf {
    let out = if b.add == 1 {
        b.out.push(Op::Inc)
    } else if b.add == 255 {
        b.out.push(Op::Dec)
    } else if b.add != 0 {
        b.out.push(Op::Add(b.add))
    } else {
        b.out
    };
    OptBuf { shift: b.shift, add: 0, out }
}

pub open spec fn flush_all(b: OptBuf) -> OptBuf {
    flush_add(flush_shift(b))
}

/// Result of reading a loop body as pointer moves and additions only.
pub enum SaFold {
    /// additions per offset (in the order offsets are first met), and the current offset
    Acc(Seq<(int, u8)>, int),
    NotShiftAdd,
    Overflow,
}

/// Adds `x` at offset `k` of the list.
pub open spec fn sa_add(l: Seq<(int, u8)>, k: int, x: u8) -> Seq<(int, u8)>
    decreases l.len(),
{
    if l.len() == 0 {
        seq![(k, x)]
    } else if l[0].0 == k {
        l.update(0, (k, wadd(l[0].1, x)))
    } else {
        seq![l[0]] + sa_add(l.drop_first(), k, x)
    }
}

/// The addition at offset `k`, if the offset is in the list.
pub open spec fn sa_lookup(l: Seq<(int, u8)>, k: int) -> Option<u8>
    decreases l.len(),
{
    if l.len() == 0 {
        None
    } else if l[0].0 == k {
        Some(l[0].1)
    } else {
        sa_lookup(l.drop_first(), k)
    }
}

pub open spec fn sa_step(op: Op, st: SaFold) -> SaFold {
    match st {
        SaFold::Acc(l, s) => match op {
            Op::Left => if in_i16(s - 1) { SaFold::Acc(l, s - 1) } else { SaFold::Overflow },
            Op::Right => if in_i16(s + 1) { SaFold::Acc(l, s + 1) } else { SaFold::Overflow },
            Op::Inc => SaFold::Acc(sa_add(l, s, 1), s),
            Op::Dec => SaFold::Acc(sa_add(l, s, 255), s),
            Op::Shift(v) => if in_i16(s + v) { SaFold::Acc(l, s + v) } else { SaFold::Overflow },
            Op::Add(v) => SaFold::Acc(sa_add(l, s, v), s),
            _ => SaFold::NotShiftAdd,
        },
        _ => st,
    }
}

pub open spec fn sa_fold(ops: Seq<Op>, st: SaFold) -> SaFold
    decreases ops.len(),
{
    if ops.len() == 0 {
        st
    } else {
        sa_fold(ops.drop_first(), sa_step(ops[0], st))
    }
}

/// The nonzero offsets with addition 1, in list order.
pub open spec fn unit_moves(l: Seq<(int, u8)>) -> Seq<int>
    decreases l.len(),
{
    if l.len() == 0 {
        Seq::empty()
    } else if l[0].0 != 0 && l[0].1 == 1 {
        seq![l[0].0] + unit_moves(l.drop_first())
    } else {
        unit_moves(l.drop_first())
    }
}

/// The single operation that a loop with this body becomes.
pub open spec fn loop_opt(body: Seq<Op>) -> Option<Op>
    decreases body, 2nat,
{
    let fallback = match optimize(body) {
        Some(b) => Some(Op::Loop(b)),
        None => None,
    };
    match sa_fold(body, SaFold::Acc(Seq::empty(), 0)) {
        SaFold::Overflow => None,
        SaFold::NotShiftAdd => fallback,
        SaFold::Acc(l, s) => {
            if s == 0 && sa_lookup(l, 0) == Some(255u8) && l.len() == 1 {
                Some(Op::Clr)
            } else if s == 0 && sa_lookup(l, 0) == Some(255u8) && l.len() == 2 && unit_moves(l).len() == 1 {
                Some(Op::MoveAdd(unit_moves(l)[0]))
            } else if s == 0 && sa_lookup(l, 0) == Some(255u8) && l.len() == 3 && unit_moves(l).len() == 2 {
                Some(Op::MoveAdd2(unit_moves(l)[0], unit_moves(l)[1]))
            } else {
                fallback
            }
        },
    }
}

pub open spec fn opt_step(op: Op, b: OptBuf) -> Option<OptBuf>
    decreases op, 0nat,
{
    match op {
        Op::Left => {
            let b1 = flush_add(b);
            if in_i16(b1.shift - 1) { Some(OptBuf { shift: b1.shift - 1, ..b1 }) } else { None }
        },
        Op::Right => {
            let b1 = flush_add(b);
            if in_i16(b1.shift + 1) { Some(OptBuf { shift: b1.shift + 1, ..b1 }) } else { None }
        },
        Op::Shift(s) => {
            let b1 = flush_add(b);
            if in_i16(b1.shift + s) { Some(OptBuf { shift: b1.shift + s, ..b1 }) } else { None }
        },
        Op::Inc => {
            let b1 = flush_shift(b);
            Some(OptBuf { add: wadd(b1.add, 1), ..b1 })
        },
        Op::Dec => {
            let b1 = flush_shift(b);
            Some(OptBuf { add: wadd(b1.add, 255), ..b1 })
        },
        Op::Add(v) => {
            let b1 = flush_shift(b);
            Some(OptBuf { add: wadd(b1.add, v), ..b1 })
        },
        Op::Loop(body) => {
            let b1 = flush_all(b);
            match loop_opt(body) {
                Some(o) => Some(OptBuf { out: b1.out.push(o), ..b1 }),
                None => None,
            }
        },
        _ => {
            let b1 = flush_all(b);
            Some(OptBuf { out: b1.out.push(op), ..b1 })
        },
    }
}

pub open spec fn opt_fold(ops: Seq<Op>, b: OptBuf) -> Option<OptBuf>
    decreases ops, 0nat,
{
    if ops.len() == 0 {
        Some(b)
    } else {
        match opt_step(ops[0], b) {
            Some(b1) => opt_fold(ops.drop_first(), b1),
            None => None,
        }
    }
}

/// The optimized program; `None` where a run of pointer moves leaves the range of `i16`.
pub open spec fn optimize(ops: Seq<Op>) -> Option<Seq<Op>>
    decreases ops, 1nat,
{
    match opt_fold(ops, OptBuf { shift: 0, add: 0, out: Seq::empty() }) {
        Some(b) => Some(flush_all(b).out),
        None => None,
    }
}

}
verus! {

pub proof fn lemma_sa_fold_stuck(ops: Seq<Op>, st: SaFold)
    requires !(st is Acc),
    ensures sa_fold(ops, st) == st,
    decreases ops.len(),
{
    if ops.len() > 0 {
        lemma_sa_fold_stuck(ops.drop_first(), sa_step(ops[0], st));
    }
}

pub proof fn lemma_sa_add_found(l: Seq<(int, u8)>, k: int, x: u8, i: int)
    requires
        0 <= i < l.len(),
        l[i].0 == k,
        forall|j: int| 0 <= j < i ==> l[j].0 != k,
    ensures
        sa_add(l, k, x) == l.update(i, (k, wadd(l[i].1, x))),
        sa_lookup(l, k) == Some(l[i].1),
    decreases i,
{
    if i > 0 {
        lemma_sa_add_found(l.drop_first(), k, x, i - 1);
        assert(sa_add(l, k, x) =~= l.update(i, (k, wadd(l[i].1, x))));
    }
}

pub proof fn lemma_sa_add_absent(l: Seq<(int, u8)>, k: int, x: u8)
    requires forall|j: int| 0 <= j < l.len() ==> l[j].0 != k,
    ensures
        sa_add(l, k, x) == l.push((k, x)),
        sa_lookup(l, k) == None::<u8>,
    decreases l.len(),
{
    if l.len() > 0 {
        lemma_sa_add_absent(l.drop_first(), k, x);
        assert(sa_add(l, k, x) =~= l.push((k, x)));
    }
}

pub proof fn lemma_unit_moves_push(l: Seq<(int, u8)>, e: (int, u8))
    ensures unit_moves(l.push(e)) == unit_moves(l) + (if e.0 != 0 && e.1 == 1 { seq![e.0] } else { Seq::empty() }),
    decreases l.len(),
{
    let tail = if e.0 != 0 && e.1 == 1 { seq![e.0] } else { Seq::<int>::empty() };
    if l.len() == 0 {
        assert(l.push(e).drop_first() =~= Seq::<(int, u8)>::empty());
        assert(unit_moves(l.push(e).drop_first()) == Seq::<int>::empty());
        assert(unit_moves(l.push(e)) =~= unit_moves(l) + tail);
    } else {
        assert(l.push(e).drop_first() =~= l.drop_first().push(e));
        lemma_unit_moves_push(l.drop_first(), e);
        if l[0].0 != 0 && l[0].1 == 1 {
            assert(seq![l[0].0] + (unit_moves(l.drop_first()) + tail) =~= (seq![l[0].0] + unit_moves(l.drop_first())) + tail);
        }
        assert(unit_moves(l.push(e)) =~= unit_moves(l) + tail);
    }
}

}
